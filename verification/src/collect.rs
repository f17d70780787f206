//! Gathering the usage entries of all session logs: which logs count, in
//! which order they are read, how repeated entries are dropped, and how the
//! result is ordered.
use vstd::prelude::*;
use crate::json::{json_text_parse, json_get_str, parse_json, get_str_member};
use crate::text::{
    lines_of, split_lines, first_piece, first_piece_exec, lemma_first_piece_props, to_chars,
    from_chars, str_eq, push_str,
};
use crate::usage::{UsageEntry, EntryV, entry_views, usage_of_file, parse_usage_file, seen_keys, seen_new, seen_insert};
use crate::dates::{Day, within, day_within, rfc3339_day, parse_rfc3339_day};
use crate::order::{
    SortKey, key_of, key_views, sorted_items, sort_by_keys, lemma_sorted_items_map,
    lemma_sorted_items_all, reversed,
};

verus! {

/// How many logs are read with one set of message/request keys.
pub const FILES_PER_BATCH: usize = 50;

/// The project directory that a path under the configuration directory names: the
/// second `/`-separated piece of a path whose first piece is `projects`.
pub open spec fn project_of(path: Seq<char>) -> Option<Seq<char>> {
    let head = first_piece(path, '/');
    if head == "projects"@ && head.len() < path.len() {
        Some(first_piece(path.skip((head.len() + 1) as int), '/'))
    } else {
        None
    }
}

pub open spec fn opt_view(o: Option<String>) -> Option<Seq<char>> {
    match o {
        Some(s) => Some(s@),
        None => None,
    }
}

/// The project directory of a log path (see `project_of`).
pub fn project_of_path(path: &str) -> (r: Option<String>)
    ensures
        opt_view(r) == project_of(path@),
{
    let cs = to_chars(path);
    let head = first_piece_exec(&cs, '/');
    proof {
        lemma_first_piece_props(cs@, '/');
    }
    let head_s = from_chars(&head);
    if str_eq(head_s.as_str(), "projects") && head.len() < cs.len() {
        let mut rest: Vec<char> = Vec::new();
        let mut i: usize = head.len() + 1;
        while i < cs.len()
            invariant
                head@.len() + 1 <= i <= cs@.len(),
                rest@ == cs@.subrange((head@.len() + 1) as int, i as int),
            decreases cs.len() - i,
        {
            rest.push(cs[i]);
            assert(rest@ =~= cs@.subrange((head@.len() + 1) as int, i + 1));
            i = i + 1;
        }
        assert(rest@ =~= cs@.skip((head@.len() + 1) as int));
        let second = first_piece_exec(&rest, '/');
        Some(from_chars(&second))
    } else {
        None
    }
}

/// The `timestamp` string of the first of `lines` that parses as JSON and
/// holds one.
pub open spec fn first_timestamp(lines: Seq<Seq<char>>) -> Option<Seq<char>>
    decreases lines.len(),
{
    if lines.len() == 0 {
        None
    } else {
        match json_text_parse(lines[0]) {
            Ok(j) => match json_get_str(j, "timestamp"@) {
                Some(t) => Some(t),
                None => first_timestamp(lines.drop_first()),
            },
            Err(_) => first_timestamp(lines.drop_first()),
        }
    }
}

/// At most the first `n` lines.
pub open spec fn head_lines(lines: Seq<Seq<char>>, n: int) -> Seq<Seq<char>> {
    if lines.len() <= n {
        lines
    } else {
        lines.take(n)
    }
}

/// A log's earliest timestamp: the first one among its first ten lines;
/// none for a log that could not be read.
pub open spec fn earliest_of(content: Option<Seq<char>>) -> Option<Seq<char>> {
    match content {
        None => None,
        Some(c) => first_timestamp(head_lines(lines_of(c), 10)),
    }
}

/// The earliest timestamp of a log's text (see `earliest_of`).
pub fn earliest_timestamp(content: &Option<String>) -> (r: Option<String>)
    ensures
        opt_view(r) == earliest_of(opt_view(*content)),
{
    match content {
        None => None,
        Some(c) => {
            let lines = split_lines(c.as_str());
            let ghost ls = lines_of(c@);
            let ghost hl = head_lines(ls, 10);
            let n: usize = if lines.len() <= 10 {
                lines.len()
            } else {
                10
            };
            assert(hl.len() == n);
            assert(hl.skip(0) =~= hl);
            let mut i: usize = 0;
            while i < n
                invariant
                    i <= n,
                    n <= lines@.len(),
                    hl.len() == n,
                    hl == head_lines(ls, 10),
                    ls == lines_of(c@),
                    opt_view(*content) == Some(c@),
                    crate::text::views(lines@) == ls,
                    first_timestamp(hl) == first_timestamp(hl.skip(i as int)),
                decreases n - i,
            {
                assert(hl.skip(i as int)[0] == lines@[i as int]@);
                assert(hl.skip(i as int).drop_first() =~= hl.skip(i + 1));
                if let Ok(v) = parse_json(lines[i].as_str()) {
                    let t = get_str_member(&v, "timestamp");
                    if let Some(ts) = t {
                        assert(json_text_parse(hl.skip(i as int)[0]) == Ok::<
                            crate::json::JsonV,
                            Seq<char>,
                        >(crate::json::json_content(v)));
                        assert(first_timestamp(hl.skip(i as int)) == Some(ts@));
                        return Some(ts);
                    }
                }
                i = i + 1;
            }
            assert(hl.skip(n as int).len() == 0);
            None
        },
    }
}

/// Whether a log counts for a date range: it does when it has no earliest
/// timestamp, when that timestamp is not RFC 3339, or when its local date
/// lies within the range.
pub open spec fn keep_file(ts: Option<Seq<char>>, start: Option<Day>, end: Option<Day>) -> bool {
    match ts {
        None => true,
        Some(t) => match rfc3339_day(t) {
            Ok(d) => within(d, start, end),
            Err(_) => true,
        },
    }
}

/// Whether a log with this earliest timestamp counts for the range (see `keep_file`).
pub fn file_in_range(ts: &Option<String>, start: Option<Day>, end: Option<Day>) -> (r: bool)
    ensures
        r == keep_file(opt_view(*ts), start, end),
{
    match ts {
        None => true,
        Some(t) => match parse_rfc3339_day(t.as_str()) {
            Ok(d) => day_within(d, start, end),
            Err(_) => true,
        },
    }
}

/// A session log: its path under the configuration directory, and its text (`None`
/// when it could not be read).
pub struct LogFile {
    pub path: String,
    pub content: Option<String>,
}

pub struct LogFileV {
    pub path: Seq<char>,
    pub content: Option<Seq<char>>,
}

impl LogFile {
    pub open spec fn view_v(self) -> LogFileV {
        LogFileV { path: self.path@, content: opt_view(self.content) }
    }
}

pub open spec fn file_views(fs: Seq<LogFile>) -> Seq<LogFileV> {
    fs.map_values(|f: LogFile| f.view_v())
}

/// A log to read: its path, its project directory and its text.
pub struct JobV {
    pub path: Seq<char>,
    pub project: Seq<char>,
    pub content: Option<Seq<char>>,
}

/// A log to read, with its earliest timestamp worked out.
pub struct Job {
    pub path: String,
    pub project: String,
    pub content: Option<String>,
    pub earliest: Option<String>,
}

impl Job {
    pub open spec fn view_v(self) -> JobV {
        JobV { path: self.path@, project: self.project@, content: opt_view(self.content) }
    }

    pub open spec fn wf(self) -> bool {
        opt_view(self.earliest) == earliest_of(opt_view(self.content))
    }
}

pub open spec fn job_views(js: Seq<Job>) -> Seq<JobV> {
    js.map_values(|j: Job| j.view_v())
}

/// The logs that lie under `projects/`, with their project directories, in
/// the order given.
pub open spec fn jobs_of(files: Seq<LogFileV>) -> Seq<JobV>
    decreases files.len(),
{
    if files.len() == 0 {
        Seq::empty()
    } else {
        let rest = jobs_of(files.drop_last());
        let f = files.last();
        match project_of(f.path) {
            Some(p) => rest.push(JobV { path: f.path, project: p, content: f.content }),
            None => rest,
        }
    }
}

/// The logs that count for a date range (see `keep_file`).
pub open spec fn jobs_in_range(jobs: Seq<JobV>, start: Option<Day>, end: Option<Day>) -> Seq<JobV>
    decreases jobs.len(),
{
    if jobs.len() == 0 {
        Seq::empty()
    } else {
        let rest = jobs_in_range(jobs.drop_last(), start, end);
        if keep_file(earliest_of(jobs.last().content), start, end) {
            rest.push(jobs.last())
        } else {
            rest
        }
    }
}

/// The sort key of a log: its earliest timestamp, logs without one first.
pub open spec fn job_key(j: JobV) -> (bool, Seq<char>) {
    match earliest_of(j.content) {
        Some(t) => (true, t),
        None => (false, Seq::empty()),
    }
}

/// The logs in the order they are read: stably sorted by earliest timestamp.
pub open spec fn reading_order(jobs: Seq<JobV>) -> Seq<JobV> {
    sorted_items(jobs.map_values(|j: JobV| job_key(j)), jobs)
}

/// The logs that are read, in reading order.
pub open spec fn planned_jobs(files: Seq<LogFileV>, start: Option<Day>, end: Option<Day>) -> Seq<JobV> {
    reading_order(jobs_in_range(jobs_of(files), start, end))
}

fn job_key_exec(j: &Job) -> (k: SortKey)
    requires
        j.wf(),
    ensures
        key_of(k) == job_key(j.view_v()),
{
    match &j.earliest {
        Some(t) => SortKey { present: true, text: to_chars(t.as_str()) },
        None => {
            let k = SortKey { present: false, text: Vec::new() };
            assert(key_of(k).1 =~= Seq::<char>::empty());
            k
        },
    }
}

/// The logs to read for a date range, in reading order (see `planned_jobs`).
pub fn plan_jobs(files: Vec<LogFile>, start: Option<Day>, end: Option<Day>) -> (r: Vec<Job>)
    ensures
        job_views(r@) == planned_jobs(file_views(files@), start, end),
        forall|i: int| 0 <= i < r@.len() ==> (#[trigger] r@[i]).wf(),
{
    let ghost fv = file_views(files@);
    let ghost n = files@.len();
    let mut src = reversed(files);
    let mut jobs: Vec<Job> = Vec::new();
    let ghost mut done: int = 0;
    while src.len() > 0
        invariant
            0 <= done <= n,
            fv.len() == n,
            done + src@.len() == n,
            forall|q: int| 0 <= q < src@.len() ==> #[trigger] src@[q].view_v() == fv[n - 1 - q],
            job_views(jobs@) == jobs_in_range(jobs_of(fv.take(done)), start, end),
            forall|i: int| 0 <= i < jobs@.len() ==> (#[trigger] jobs@[i]).wf(),
        decreases src.len(),
    {
        let f = src.pop().unwrap();
        assert(f.view_v() == fv[done]);
        let ghost pre = fv.take(done);
        let ghost cur = fv.take(done + 1);
        assert(cur.drop_last() =~= pre);
        assert(cur.last() == fv[done]);
        let ghost prev_jobs = jobs_of(pre);
        assert(jobs_of(cur) == match project_of(fv[done].path) {
            Some(p) => prev_jobs.push(JobV { path: fv[done].path, project: p, content: fv[done].content }),
            None => prev_jobs,
        });
        if let Some(project) = project_of_path(f.path.as_str()) {
            let earliest = earliest_timestamp(&f.content);
            let ghost jv = JobV { path: f.path@, project: project@, content: opt_view(f.content) };
            assert(jobs_of(cur) == prev_jobs.push(jv));
            assert(jobs_of(cur).drop_last() =~= prev_jobs);
            if file_in_range(&earliest, start, end) {
                let job = Job { path: f.path, project, content: f.content, earliest };
                assert(job.view_v() == jv);
                let ghost before = jobs@;
                jobs.push(job);
                assert(job_views(jobs@) =~= job_views(before).push(jv));
            }
        } else {
            assert(jobs_of(cur) == prev_jobs);
        }
        proof {
            done = done + 1;
        }
    }
    assert(fv.take(n as int) =~= fv);
    let mut keys: Vec<SortKey> = Vec::new();
    let mut i: usize = 0;
    while i < jobs.len()
        invariant
            i <= jobs@.len(),
            keys@.len() == i,
            forall|q: int| 0 <= q < jobs@.len() ==> (#[trigger] jobs@[q]).wf(),
            forall|q: int| 0 <= q < i ==> key_of(#[trigger] keys@[q]) == job_key(jobs@[q].view_v()),
        decreases jobs.len() - i,
    {
        let k = job_key_exec(&jobs[i]);
        keys.push(k);
        i = i + 1;
    }
    let ghost js = jobs@;
    let ghost kv = key_views(keys@);
    proof {
        assert(kv =~= job_views(js).map_values(|j: JobV| job_key(j)));
        lemma_sorted_items_map(kv, js, |j: Job| j.view_v());
        assert(js.map_values(|j: Job| j.view_v()) =~= job_views(js));
        lemma_sorted_items_all(kv, js, |j: Job| j.wf());
    }
    let r = sort_by_keys(jobs, keys);
    assert(job_views(r@) =~= sorted_items(kv, js).map_values(|j: Job| j.view_v()));
    r
}

/// Reading logs in order with one set of message/request keys, which starts
/// as `seen`: the entries found, and the keys seen at the end.
pub open spec fn scan_jobs(jobs: Seq<JobV>, seen: Set<Seq<char>>) -> (Seq<EntryV>, Set<Seq<char>>)
    decreases jobs.len(),
{
    if jobs.len() == 0 {
        (Seq::empty(), seen)
    } else {
        let (es, s) = scan_jobs(jobs.drop_last(), seen);
        let j = jobs.last();
        match j.content {
            None => (es, s),
            Some(c) => {
                let f = usage_of_file(c, j.path, j.project, s);
                (es + f.entries, f.seen)
            },
        }
    }
}

/// The entries of the logs from position `i` on, read in batches of
/// `FILES_PER_BATCH` logs, each batch with a fresh set of keys.
pub open spec fn batches_from(jobs: Seq<JobV>, i: int) -> Seq<EntryV>
    decreases jobs.len() - i,
{
    if i < 0 || i >= jobs.len() {
        Seq::empty()
    } else if jobs.len() - i <= FILES_PER_BATCH {
        scan_jobs(jobs.subrange(i, jobs.len() as int), Set::empty()).0
    } else {
        scan_jobs(jobs.subrange(i, i + FILES_PER_BATCH), Set::empty()).0 + batches_from(
            jobs,
            i + FILES_PER_BATCH,
        )
    }
}

/// The entries of the logs `lo..hi`, read with one fresh set of keys.
fn scan_batch(jobs: &Vec<Job>, lo: usize, hi: usize) -> (r: Vec<UsageEntry>)
    requires
        lo <= hi <= jobs@.len(),
    ensures
        entry_views(r@) == scan_jobs(job_views(jobs@).subrange(lo as int, hi as int), Set::empty()).0,
{
    let ghost jv = job_views(jobs@);
    let mut seen = seen_new();
    let mut out: Vec<UsageEntry> = Vec::new();
    let mut j: usize = lo;
    assert(jv.subrange(lo as int, lo as int) =~= Seq::<JobV>::empty());
    while j < hi
        invariant
            lo <= j <= hi,
            hi <= jobs@.len(),
            jv == job_views(jobs@),
            ({
                let st = scan_jobs(jv.subrange(lo as int, j as int), Set::empty());
                entry_views(out@) == st.0 && seen_keys(seen) == st.1
            }),
        decreases hi - j,
    {
        let ghost cur = jv.subrange(lo as int, j + 1);
        assert(cur.drop_last() =~= jv.subrange(lo as int, j as int));
        assert(cur.last() == jobs@[j as int].view_v());
        let job = &jobs[j];
        match &job.content {
            Some(c) => {
                let mut found = parse_usage_file(c.as_str(), job.path.as_str(), job.project.as_str(), &mut seen);
                let ghost before = out@;
                let ghost got = found@;
                out.append(&mut found);
                assert(entry_views(out@) =~= entry_views(before) + entry_views(got));
            },
            None => {},
        }
        j = j + 1;
    }
    out
}

/// The entries of all logs, batch after batch (see `batches_from`).
fn scan_batches(jobs: &Vec<Job>) -> (r: Vec<UsageEntry>)
    ensures
        entry_views(r@) == batches_from(job_views(jobs@), 0),
{
    let ghost jv = job_views(jobs@);
    let n = jobs.len();
    let mut out: Vec<UsageEntry> = Vec::new();
    let mut lo: usize = 0;
    assert(batches_from(jv, 0) =~= entry_views(out@) + batches_from(jv, 0));
    while lo < n
        invariant
            lo <= n,
            n == jobs@.len(),
            jv == job_views(jobs@),
            batches_from(jv, 0) == entry_views(out@) + batches_from(jv, lo as int),
        decreases n - lo,
    {
        let hi = if n - lo <= FILES_PER_BATCH {
            n
        } else {
            lo + FILES_PER_BATCH
        };
        let mut part = scan_batch(jobs, lo, hi);
        let ghost before = out@;
        let ghost got = part@;
        out.append(&mut part);
        proof {
            assert(entry_views(out@) =~= entry_views(before) + entry_views(got));
            if hi == n {
                assert(batches_from(jv, lo as int) == entry_views(got));
                assert(batches_from(jv, hi as int) =~= Seq::<EntryV>::empty());
                assert(entry_views(out@) + batches_from(jv, hi as int) =~= entry_views(out@));
            } else {
                assert(batches_from(jv, lo as int) == entry_views(got) + batches_from(jv, hi as int));
                assert(entry_views(before) + (entry_views(got) + batches_from(jv, hi as int))
                    =~= entry_views(out@) + batches_from(jv, hi as int));
            }
        }
        lo = hi;
    }
    assert(batches_from(jv, lo as int) =~= Seq::<EntryV>::empty());
    assert(entry_views(out@) + Seq::<EntryV>::empty() =~= entry_views(out@));
    out
}

/// The key by which entries found in different batches are told apart:
/// timestamp and session id.
pub open spec fn entry_key(e: EntryV) -> Seq<char> {
    e.timestamp + ":"@ + e.session_id
}

/// The entries whose key was not met before, in order, and the keys met.
pub open spec fn dedupe(es: Seq<EntryV>) -> (Seq<EntryV>, Set<Seq<char>>)
    decreases es.len(),
{
    if es.len() == 0 {
        (Seq::empty(), Set::empty())
    } else {
        let (out, seen) = dedupe(es.drop_last());
        let e = es.last();
        if seen.contains(entry_key(e)) {
            (out, seen)
        } else {
            (out.push(e), seen.insert(entry_key(e)))
        }
    }
}

/// Drops each entry whose timestamp and session id an earlier entry had.
pub fn dedupe_entries(es: Vec<UsageEntry>) -> (r: Vec<UsageEntry>)
    ensures
        entry_views(r@) == dedupe(entry_views(es@)).0,
{
    let ghost ev = entry_views(es@);
    let ghost n = es@.len();
    let mut src = reversed(es);
    let mut seen = seen_new();
    let mut out: Vec<UsageEntry> = Vec::new();
    let ghost mut done: int = 0;
    while src.len() > 0
        invariant
            0 <= done <= n,
            ev.len() == n,
            done + src@.len() == n,
            forall|q: int| 0 <= q < src@.len() ==> #[trigger] src@[q].view_v() == ev[n - 1 - q],
            entry_views(out@) == dedupe(ev.take(done)).0,
            seen_keys(seen) == dedupe(ev.take(done)).1,
        decreases src.len(),
    {
        let e = src.pop().unwrap();
        assert(e.view_v() == ev[done]);
        let ghost cur = ev.take(done + 1);
        assert(cur.drop_last() =~= ev.take(done));
        assert(cur.last() == ev[done]);
        let mut h = e.timestamp.clone();
        push_str(&mut h, ":");
        push_str(&mut h, e.session_id.as_str());
        assert(h@ == entry_key(e.view_v()));
        if seen_insert(&mut seen, h) {
            let ghost before = out@;
            out.push(e);
            assert(entry_views(out@) =~= entry_views(before).push(e.view_v()));
        } else {
            assert(seen_keys(seen) =~= dedupe(cur).1);
        }
        proof {
            done = done + 1;
        }
    }
    assert(ev.take(n as int) =~= ev);
    out
}

/// The sort key of an entry: its timestamp.
pub open spec fn stamp_key(e: EntryV) -> (bool, Seq<char>) {
    (true, e.timestamp)
}

/// The entries stably sorted by timestamp.
pub open spec fn by_timestamp(es: Seq<EntryV>) -> Seq<EntryV> {
    sorted_items(es.map_values(|e: EntryV| stamp_key(e)), es)
}

/// Sorts entries stably by timestamp.
pub fn sort_by_timestamp(es: Vec<UsageEntry>) -> (r: Vec<UsageEntry>)
    ensures
        entry_views(r@) == by_timestamp(entry_views(es@)),
{
    let mut keys: Vec<SortKey> = Vec::new();
    let mut i: usize = 0;
    while i < es.len()
        invariant
            i <= es@.len(),
            keys@.len() == i,
            forall|q: int| 0 <= q < i ==> key_of(#[trigger] keys@[q]) == stamp_key(es@[q].view_v()),
        decreases es.len() - i,
    {
        keys.push(SortKey { present: true, text: to_chars(es[i].timestamp.as_str()) });
        i = i + 1;
    }
    let ghost items = es@;
    let ghost kv = key_views(keys@);
    proof {
        assert(kv =~= entry_views(items).map_values(|e: EntryV| stamp_key(e)));
        lemma_sorted_items_map(kv, items, |e: UsageEntry| e.view_v());
        assert(items.map_values(|e: UsageEntry| e.view_v()) =~= entry_views(items));
    }
    let r = sort_by_keys(es, keys);
    assert(entry_views(r@) =~= sorted_items(kv, items).map_values(|e: UsageEntry| e.view_v()));
    r
}

/// The earliest timestamp of each log that has one, by path, in reading order.
pub open spec fn file_stamps(jobs: Seq<JobV>) -> Seq<(Seq<char>, Seq<char>)>
    decreases jobs.len(),
{
    if jobs.len() == 0 {
        Seq::empty()
    } else {
        let rest = file_stamps(jobs.drop_last());
        match earliest_of(jobs.last().content) {
            Some(t) => rest.push((jobs.last().path, t)),
            None => rest,
        }
    }
}

pub open spec fn pair_views(ps: Seq<(String, String)>) -> Seq<(Seq<char>, Seq<char>)> {
    ps.map_values(|p: (String, String)| (p.0@, p.1@))
}

/// The earliest timestamps of the logs (see `file_stamps`).
pub fn file_timestamps(jobs: &Vec<Job>) -> (r: Vec<(String, String)>)
    requires
        forall|i: int| 0 <= i < jobs@.len() ==> (#[trigger] jobs@[i]).wf(),
    ensures
        pair_views(r@) == file_stamps(job_views(jobs@)),
{
    let ghost jv = job_views(jobs@);
    let mut out: Vec<(String, String)> = Vec::new();
    let mut i: usize = 0;
    while i < jobs.len()
        invariant
            i <= jobs@.len(),
            jv == job_views(jobs@),
            forall|q: int| 0 <= q < jobs@.len() ==> (#[trigger] jobs@[q]).wf(),
            pair_views(out@) == file_stamps(jv.take(i as int)),
        decreases jobs.len() - i,
    {
        let ghost cur = jv.take(i + 1);
        assert(cur.drop_last() =~= jv.take(i as int));
        assert(cur.last() == jobs@[i as int].view_v());
        assert(jobs@[i as int].wf());
        match &jobs[i].earliest {
            Some(t) => {
                let ghost before = out@;
                out.push((jobs[i].path.clone(), t.clone()));
                assert(pair_views(out@) =~= pair_views(before).push((jobs@[i as int].path@, t@)));
            },
            None => {},
        }
        i = i + 1;
    }
    assert(jv.take(jobs@.len() as int) =~= jv);
    out
}

/// The usage entries of a set of logs and the earliest timestamp of each.
pub struct Collected {
    pub entries: Vec<UsageEntry>,
    pub file_timestamps: Vec<(String, String)>,
}

/// The usage entries of the logs read for a date range: the logs under
/// `projects/` whose earliest timestamp lies in the range (or cannot be
/// read as a date), read in order of earliest timestamp in batches of
/// `FILES_PER_BATCH`, entries repeated across batches (same timestamp and
/// session) dropped, sorted by timestamp; with the earliest timestamp of
/// each log read.
pub open spec fn collected_entries(files: Seq<LogFileV>, start: Option<Day>, end: Option<Day>) -> Seq<EntryV> {
    by_timestamp(dedupe(batches_from(planned_jobs(files, start, end), 0)).0)
}

/// Reads the usage entries of the logs for a date range (see `collected_entries`).
pub fn collect_usage(files: Vec<LogFile>, start: Option<Day>, end: Option<Day>) -> (r: Collected)
    ensures
        entry_views(r.entries@) == collected_entries(file_views(files@), start, end),
        pair_views(r.file_timestamps@) == file_stamps(planned_jobs(file_views(files@), start, end)),
{
    let jobs = plan_jobs(files, start, end);
    let all = scan_batches(&jobs);
    let kept = dedupe_entries(all);
    let entries = sort_by_timestamp(kept);
    let stamps = file_timestamps(&jobs);
    Collected { entries, file_timestamps: stamps }
}

} // verus!
