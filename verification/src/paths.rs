//! Paths in the assistant's configuration directory (under the home
//! directory) and in the cache directory (`~/.claudia/cache`): how they are built, which cache names are allowed,
//! and how the file finder's output is read.
use vstd::prelude::*;
use crate::text::{contains, str_contains, starts_with, str_starts_with, lines_of, split_lines, to_chars, from_chars, owned, push_str, views};

verus! {

/// `Path::join` on Unix for a relative or absolute `part`: an absolute part
/// replaces the base; otherwise a `/` is put between them unless the base is
/// empty or already ends with one.
pub open spec fn path_join(base: Seq<char>, part: Seq<char>) -> Seq<char> {
    if part.len() > 0 && part[0] == '/' {
        part
    } else if base.len() > 0 && base.last() != '/' {
        base + "/"@ + part
    } else {
        base + part
    }
}

/// Joins a path and a part (see `path_join`).
pub fn join_path(base: &str, part: &str) -> (r: String)
    ensures
        r@ == path_join(base@, part@),
{
    let b = to_chars(base);
    let p = to_chars(part);
    if p.len() > 0 && p[0] == '/' {
        owned(part)
    } else if b.len() > 0 && b[b.len() - 1] != '/' {
        let mut r = owned(base);
        push_str(&mut r, "/");
        push_str(&mut r, part);
        r
    } else {
        let mut r = owned(base);
        push_str(&mut r, part);
        r
    }
}

/// The user's home directory, as text.
///
/// Trusted: calls `dirs::home_dir` and turns the path into text with
/// `to_string_lossy`. The result depends on the environment, so nothing is
/// stated of it.
#[verifier::external_body]
fn home_dir() -> (r: Option<String>) {
    match dirs::home_dir() {
        Some(p) => Some(p.to_string_lossy().into_owned()),
        None => None,
    }
}

/// Whether a path names something that exists.
///
/// Trusted: calls `std::path::Path::exists`; the answer depends on the disk,
/// so nothing is stated of it.
#[verifier::external_body]
fn path_exists(p: &str) -> (r: bool) {
    std::path::Path::new(p).exists()
}

/// Whether a path names a directory.
///
/// Trusted: calls `std::path::Path::is_dir`; the answer depends on the disk,
/// so nothing is stated of it.
#[verifier::external_body]
fn path_is_dir(p: &str) -> (r: bool) {
    std::path::Path::new(p).is_dir()
}

/// The error when the home directory is unknown.
pub open spec fn no_home() -> Seq<char> {
    "Failed to get home directory"@
}

/// The name of the assistant's configuration directory under the home
/// directory: a dot, then the assistant's name.
pub const CONFIG_DIR_NAME: &'static str = "\x2eclaude";

/// The configuration directory under a home directory.
pub open spec fn claude_dir_of(home: Seq<char>) -> Seq<char> {
    path_join(home, CONFIG_DIR_NAME@)
}

/// The configuration directory for a home directory, or the error when there is none.
pub fn claude_dir_from_home(home: Option<String>) -> (r: Result<String, String>)
    ensures
        match home {
            Some(h) => r matches Ok(p) && p@ == claude_dir_of(h@),
            None => r matches Err(e) && e@ == no_home(),
        },
{
    match home {
        Some(h) => Ok(join_path(h.as_str(), CONFIG_DIR_NAME)),
        None => Err(owned("Failed to get home directory")),
    }
}

/// The configuration directory under the user's home directory.
pub fn get_claude_dir() -> (r: Result<String, String>)
    ensures
        match r {
            Ok(p) => exists|h: Seq<char>| p@ == claude_dir_of(h),
            Err(e) => e@ == no_home(),
        },
{
    let home = home_dir();
    let ghost hv = crate::collect::opt_view(home);
    let r = claude_dir_from_home(home);
    proof {
        if hv is Some {
            assert(r->Ok_0@ == claude_dir_of(hv->Some_0));
        }
    }
    r
}

/// The full path of a path relative to the configuration directory, for a home
/// directory; none without one.
pub open spec fn claude_path_of(home: Option<Seq<char>>, relative: Seq<char>) -> Option<Seq<char>> {
    match home {
        Some(h) => Some(path_join(claude_dir_of(h), relative)),
        None => None,
    }
}

/// The full path of a path relative to the configuration directory (see `claude_path_of`).
pub fn claude_path_for(home: Option<String>, relative: &str) -> (r: Option<String>)
    ensures
        crate::collect::opt_view(r) == claude_path_of(crate::collect::opt_view(home), relative@),
{
    match claude_dir_from_home(home) {
        Ok(d) => Some(join_path(d.as_str(), relative)),
        Err(_) => None,
    }
}

/// Whether a file exists in the configuration directory of a home
/// directory: false without one; otherwise the disk's answer for the path
/// `claude_path_of` gives.
pub fn claude_file_exists_in(home: Option<String>, relative_path: &str) -> (r: bool)
    ensures
        home is None ==> !r,
{
    match claude_path_for(home, relative_path) {
        Some(p) => path_exists(p.as_str()),
        None => false,
    }
}

/// Whether a file exists in the configuration directory (see
/// `claude_file_exists_in`); the home directory is the environment's.
pub fn claude_file_exists(relative_path: &str) -> (r: bool) {
    claude_file_exists_in(home_dir(), relative_path)
}

/// Whether a path in the configuration directory of a home directory is a
/// directory: false without one; otherwise the disk's answer for the path
/// `claude_path_of` gives.
pub fn claude_is_directory_in(home: Option<String>, relative_path: &str) -> (r: bool)
    ensures
        home is None ==> !r,
{
    match claude_path_for(home, relative_path) {
        Some(p) => path_is_dir(p.as_str()),
        None => false,
    }
}

/// Whether a path in the configuration directory is a directory (see
/// `claude_is_directory_in`); the home directory is the environment's.
pub fn claude_is_directory(relative_path: &str) -> (r: bool) {
    claude_is_directory_in(home_dir(), relative_path)
}

/// A cache file name is allowed when it holds no `..`, `/` or `\`.
pub open spec fn valid_cache_name(name: Seq<char>) -> bool {
    !contains(name, ".."@) && !contains(name, "/"@) && !contains(name, "\\"@)
}

/// Whether a cache file name is allowed (see `valid_cache_name`).
pub fn is_valid_cache_name(name: &str) -> (r: bool)
    ensures
        r == valid_cache_name(name@),
{
    !str_contains(name, "..") && !str_contains(name, "/") && !str_contains(name, "\\")
}

/// The error for a name that is not allowed.
pub open spec fn invalid_cache_name() -> Seq<char> {
    "Invalid cache file name"@
}

/// The path of a cache file: `home/.claudia/cache/name`. The name is
/// checked first, then the home directory.
pub open spec fn cache_path_of(home: Option<Seq<char>>, name: Seq<char>) -> Result<Seq<char>, Seq<char>> {
    if !valid_cache_name(name) {
        Err(invalid_cache_name())
    } else {
        match home {
            None => Err(no_home()),
            Some(h) => Ok(path_join(path_join(path_join(h, ".claudia"@), "cache"@), name)),
        }
    }
}

/// The path of a cache file (see `cache_path_of`).
pub fn cache_file_path(home: Option<String>, name: &str) -> (r: Result<String, String>)
    ensures
        match cache_path_of(crate::collect::opt_view(home), name@) {
            Ok(p) => r matches Ok(q) && q@ == p,
            Err(e) => r matches Err(m) && m@ == e,
        },
{
    if !is_valid_cache_name(name) {
        return Err(owned("Invalid cache file name"));
    }
    match home {
        None => Err(owned("Failed to get home directory")),
        Some(h) => {
            let a = join_path(h.as_str(), ".claudia");
            let b = join_path(a.as_str(), "cache");
            Ok(join_path(b.as_str(), name))
        },
    }
}

/// The path of a cache file in the user's home directory (see
/// `cache_path_of`); the home directory is the environment's.
pub fn cache_file_location(name: &str) -> (r: Result<String, String>)
    ensures
        !valid_cache_name(name@) ==> (r matches Err(m) && m@ == invalid_cache_name()),
        r matches Ok(p) ==> exists|h: Seq<char>| cache_path_of(Some(h), name@) == Ok::<Seq<char>, Seq<char>>(p@),
{
    if !is_valid_cache_name(name) {
        return Err(owned("Invalid cache file name"));
    }
    let home = home_dir();
    let ghost hv = crate::collect::opt_view(home);
    let r = cache_file_path(home, name);
    proof {
        if hv is Some && r is Ok {
            assert(cache_path_of(Some(hv->Some_0), name@) == Ok::<Seq<char>, Seq<char>>(r->Ok_0@));
        }
    }
    r
}

/// A line of the finder's output as a path relative to the configuration
/// directory: without the leading `dir/` when it has one.
pub open spec fn relative_line(line: Seq<char>, dir: Seq<char>) -> Seq<char> {
    let prefix = dir + "/"@;
    if starts_with(line, prefix) {
        line.skip(prefix.len() as int)
    } else {
        line
    }
}

/// The paths the finder printed, relative to the configuration directory: its
/// non-empty lines, in order.
pub open spec fn found_paths(lines: Seq<Seq<char>>, dir: Seq<char>) -> Seq<Seq<char>>
    decreases lines.len(),
{
    if lines.len() == 0 {
        Seq::empty()
    } else {
        let rest = found_paths(lines.drop_last(), dir);
        if lines.last().len() == 0 {
            rest
        } else {
            rest.push(relative_line(lines.last(), dir))
        }
    }
}

/// The paths in the finder's output (see `found_paths`).
pub fn relative_found_paths(output: &str, claude_dir: &str) -> (r: Vec<String>)
    ensures
        views(r@) == found_paths(lines_of(output@), claude_dir@),
{
    let lines = split_lines(output);
    let ghost ls = lines_of(output@);
    let mut prefix = owned(claude_dir);
    push_str(&mut prefix, "/");
    let pc = to_chars(prefix.as_str());
    let mut out: Vec<String> = Vec::new();
    let mut i: usize = 0;
    while i < lines.len()
        invariant
            i <= lines@.len(),
            views(lines@) == ls,
            pc@ == claude_dir@ + "/"@,
            prefix@ == claude_dir@ + "/"@,
            views(out@) == found_paths(ls.take(i as int), claude_dir@),
        decreases lines.len() - i,
    {
        let ghost cur = ls.take(i + 1);
        assert(cur.drop_last() =~= ls.take(i as int));
        assert(cur.last() == lines@[i as int]@);
        let line = &lines[i];
        let lc = to_chars(line.as_str());
        if lc.len() > 0 {
            let rel = if str_starts_with(line.as_str(), prefix.as_str()) {
                let mut rest: Vec<char> = Vec::new();
                let mut j: usize = pc.len();
                while j < lc.len()
                    invariant
                        pc@.len() <= j <= lc@.len(),
                        rest@ == lc@.subrange(pc@.len() as int, j as int),
                    decreases lc.len() - j,
                {
                    rest.push(lc[j]);
                    assert(rest@ =~= lc@.subrange(pc@.len() as int, j + 1));
                    j = j + 1;
                }
                assert(rest@ =~= lc@.skip(pc@.len() as int));
                from_chars(&rest)
            } else {
                line.clone()
            };
            let ghost before = out@;
            out.push(rel);
            assert(views(out@) =~= views(before).push(relative_line(line@, claude_dir@)));
        }
        i = i + 1;
    }
    assert(ls.take(lines@.len() as int) =~= ls);
    out
}

} // verus!
