# claudia

The logic behind a desktop companion for a coding assistant: loading the
assistant's session logs (JSONL), accounting token usage, grouping it into
statistics, listing projects, and caching both — verified with Verus.

## Layout

- `src/` — the verified library.
  - `text.rs`, `json.rs`, `decode.rs`, `keyed.rs`, `order.rs`, `dates.rs`:
    strings and their order, JSON values (parsed by `serde_json`), typed
    decoding of log records, a string-keyed map, stable sorting, calendar
    days (parsed by `chrono`).
  - `jsonl_loader.rs`: the defensive loader of session-log lines.
  - `usage.rs`, `collect.rs`: the usage entries of one log, and of all logs
    (which logs, in which order, repeats dropped, time order).
  - `groups.rs`, `stats.rs`: totals and the usage by model, day, project and
    session.
  - `cache.rs`, `projects.rs`: the caches of usage entries and of projects,
    and what a project directory says about its project.
  - `paths.rs`: paths in the configuration and cache directories.
  - `laws.rs`: properties of the library as a whole.
- `tests/` — tests of the library.
- `app/` — the commands around the library: file access, the global caches,
  serialisation, and the dollar costs (floating point).

## Limits

- Paths are built for Unix-like systems only: the home directory joined with
  `/`. The Windows and WSL variants of the configuration directory are not
  carried over, since the library has no conditional compilation.
- The home directory is turned into text with `to_string_lossy`; a home
  directory whose name is not valid UTF-8 therefore gives paths that do not
  name it.
- Invalidating the projects cache for one project marks the whole cache
  stale (`ProjectsCache::mark_stale`); it keeps its data until it is filled
  again.
