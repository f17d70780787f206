//! Projects: what a project directory's session files say about it, the
//! cache of all projects, and when that cache needs rebuilding.
use vstd::prelude::*;
use crate::json::{json_text_parse, json_get_str, parse_json, get_str_member};
use crate::text::{
    lines_of, split_lines, last_piece, last_piece_exec, ends_with, str_ends_with, to_chars,
    from_chars, owned, push_str, views,
};
use crate::collect::{opt_view, head_lines};
use crate::keyed::StrMap;
use crate::cache::{stale, PROJECTS_FRESH_NANOS, whole_seconds};
use crate::order::{sorted_by_num_desc, sort_by_num_desc, lemma_sorted_by_num_desc_map, reversed};

verus! {

/// A project, as the project list shows it.
#[derive(Debug, Clone)]
pub struct CachedProject {
    /// The project's directory name under `projects/`.
    pub id: String,
    /// The project's path on disk.
    pub path: String,
    pub session_count: usize,
    /// When the project directory was made (seconds since the epoch; 0 when unknown).
    pub created_at: u64,
    /// The latest modification time among its session files (0 when none is known).
    pub last_session_created: u64,
}

pub struct CachedProjectV {
    pub id: Seq<char>,
    pub path: Seq<char>,
    pub session_count: usize,
    pub created_at: u64,
    pub last_session_created: u64,
}

impl CachedProject {
    pub open spec fn view_v(self) -> CachedProjectV {
        CachedProjectV {
            id: self.id@,
            path: self.path@,
            session_count: self.session_count,
            created_at: self.created_at,
            last_session_created: self.last_session_created,
        }
    }
}

pub open spec fn project_list_views(ps: Seq<CachedProject>) -> Seq<CachedProjectV> {
    ps.map_values(|p: CachedProject| p.view_v())
}

/// A copy of a project.
pub fn copy_project(p: &CachedProject) -> (r: CachedProject)
    ensures
        r.view_v() == p.view_v(),
{
    CachedProject {
        id: p.id.clone(),
        path: p.path.clone(),
        session_count: p.session_count,
        created_at: p.created_at,
        last_session_created: p.last_session_created,
    }
}

fn copy_projects(ps: &Vec<CachedProject>) -> (r: Vec<CachedProject>)
    ensures
        project_list_views(r@) == project_list_views(ps@),
{
    let mut r: Vec<CachedProject> = Vec::new();
    let mut i: usize = 0;
    while i < ps.len()
        invariant
            i <= ps@.len(),
            r@.len() == i,
            forall|q: int| 0 <= q < i ==> (#[trigger] r@[q]).view_v() == ps@[q].view_v(),
        decreases ps.len() - i,
    {
        r.push(copy_project(&ps[i]));
        i = i + 1;
    }
    assert(project_list_views(r@) =~= project_list_views(ps@));
    r
}

fn copy_strings(v: &Vec<String>) -> (r: Vec<String>)
    ensures
        views(r@) == views(v@),
{
    let mut r: Vec<String> = Vec::new();
    let mut i: usize = 0;
    while i < v.len()
        invariant
            i <= v@.len(),
            r@.len() == i,
            forall|q: int| 0 <= q < i ==> (#[trigger] r@[q])@ == v@[q]@,
        decreases v.len() - i,
    {
        r.push(v[i].clone());
        i = i + 1;
    }
    assert(views(r@) =~= views(v@));
    r
}

/// A project directory's name read back as a path: each `-` becomes `/`.
pub open spec fn decoded_path(encoded: Seq<char>) -> Seq<char> {
    encoded.map_values(|c: char| if c == '-' { '/' } else { c })
}

/// The path a project directory's name stands for (see `decoded_path`).
pub fn decode_project_path(encoded: &str) -> (r: String)
    ensures
        r@ == decoded_path(encoded@),
{
    let cs = to_chars(encoded);
    let mut out: Vec<char> = Vec::new();
    let mut i: usize = 0;
    while i < cs.len()
        invariant
            i <= cs@.len(),
            out@ == decoded_path(cs@.take(i as int)),
        decreases cs.len() - i,
    {
        let c = cs[i];
        out.push(if c == '-' { '/' } else { c });
        assert(out@ =~= decoded_path(cs@.take(i + 1)));
        i = i + 1;
    }
    assert(cs@.take(cs@.len() as int) =~= cs@);
    from_chars(&out)
}

/// The project path a session log names in one of its first `lines`: the
/// first line that parses as JSON and has a `project_path` string, or else a
/// `cwd` string, gives it.
pub open spec fn path_in_lines(lines: Seq<Seq<char>>) -> Option<Seq<char>>
    decreases lines.len(),
{
    if lines.len() == 0 {
        None
    } else {
        match json_text_parse(lines[0]) {
            Ok(j) => match json_get_str(j, "project_path"@) {
                Some(p) => Some(p),
                None => match json_get_str(j, "cwd"@) {
                    Some(c) => Some(c),
                    None => path_in_lines(lines.drop_first()),
                },
            },
            Err(_) => path_in_lines(lines.drop_first()),
        }
    }
}

/// The project path a session log names among its first five lines; none
/// for a log that could not be read.
pub open spec fn path_in_session(content: Option<Seq<char>>) -> Option<Seq<char>> {
    match content {
        None => None,
        Some(c) => path_in_lines(head_lines(lines_of(c), 5)),
    }
}

/// The project path a session log names (see `path_in_session`).
pub fn project_path_from_session(content: &Option<String>) -> (r: Option<String>)
    ensures
        opt_view(r) == path_in_session(opt_view(*content)),
{
    match content {
        None => None,
        Some(c) => {
            let lines = split_lines(c.as_str());
            let ghost ls = lines_of(c@);
            let ghost hl = head_lines(ls, 5);
            let n: usize = if lines.len() <= 5 {
                lines.len()
            } else {
                5
            };
            assert(hl.len() == n);
            assert(hl.skip(0) =~= hl);
            let mut i: usize = 0;
            while i < n
                invariant
                    i <= n,
                    n <= lines@.len(),
                    hl.len() == n,
                    hl == head_lines(ls, 5),
                    ls == lines_of(c@),
                    opt_view(*content) == Some(c@),
                    views(lines@) == ls,
                    path_in_lines(hl) == path_in_lines(hl.skip(i as int)),
                decreases n - i,
            {
                assert(hl.skip(i as int)[0] == lines@[i as int]@);
                assert(hl.skip(i as int).drop_first() =~= hl.skip(i + 1));
                if let Ok(v) = parse_json(lines[i].as_str()) {
                    assert(json_text_parse(hl.skip(i as int)[0]) == Ok::<crate::json::JsonV, Seq<char>>(
                        crate::json::json_content(v),
                    ));
                    if let Some(p) = get_str_member(&v, "project_path") {
                        return Some(p);
                    }
                    if let Some(w) = get_str_member(&v, "cwd") {
                        return Some(w);
                    }
                }
                i = i + 1;
            }
            assert(hl.skip(n as int).len() == 0);
            None
        },
    }
}

/// The session id a session file's path names: its last `/`-separated
/// piece without `.jsonl`; none when that piece does not end so.
pub open spec fn session_of_file(path: Seq<char>) -> Option<Seq<char>> {
    let name = last_piece(path, '/');
    if ends_with(name, ".jsonl"@) {
        Some(name.take(name.len() - 6))
    } else {
        None
    }
}

fn drop_chars(v: Vec<char>, k: usize) -> (r: Vec<char>)
    requires
        k <= v@.len(),
    ensures
        r@ == v@.take(v@.len() - k),
{
    let ghost orig = v@;
    let mut v = v;
    let mut j: usize = 0;
    while j < k
        invariant
            j <= k,
            k <= orig.len(),
            v@ == orig.take(orig.len() - j),
        decreases k - j,
    {
        v.pop();
        assert(v@ =~= orig.take(orig.len() - (j + 1)));
        j = j + 1;
    }
    v
}

/// The session id of a session file (see `session_of_file`).
pub fn session_id_of_file(path: &str) -> (r: Option<String>)
    ensures
        opt_view(r) == session_of_file(path@),
{
    let cs = to_chars(path);
    let name = last_piece_exec(&cs, '/');
    let name_s = from_chars(&name);
    if str_ends_with(name_s.as_str(), ".jsonl") {
        assert(".jsonl"@.len() == 6) by {
            reveal_strlit(".jsonl");
        }
        Some(from_chars(&drop_chars(name, 6)))
    } else {
        None
    }
}

/// A name without all the `.jsonl` it ends with (`str::trim_end_matches`).
pub open spec fn trim_jsonl(s: Seq<char>) -> Seq<char>
    decreases s.len(),
{
    if ends_with(s, ".jsonl"@) && s.len() >= 6 {
        trim_jsonl(s.take(s.len() - 6))
    } else {
        s
    }
}

/// The sessions a project directory listing shows: the names that end with
/// `.jsonl`, each without its trailing `.jsonl`s, in order.
pub open spec fn listed_sessions(names: Seq<Seq<char>>) -> Seq<Seq<char>>
    decreases names.len(),
{
    if names.len() == 0 {
        Seq::empty()
    } else {
        let rest = listed_sessions(names.drop_last());
        if ends_with(names.last(), ".jsonl"@) {
            rest.push(trim_jsonl(names.last()))
        } else {
            rest
        }
    }
}

fn trim_jsonl_exec(s: &String) -> (r: String)
    ensures
        r@ == trim_jsonl(s@),
{
    assert(".jsonl"@.len() == 6) by {
        reveal_strlit(".jsonl");
    }
    let mut cur = s.clone();
    while str_ends_with(cur.as_str(), ".jsonl")
        invariant
            trim_jsonl(s@) == trim_jsonl(cur@),
            ".jsonl"@.len() == 6,
        decreases cur@.len(),
    {
        let cs = to_chars(cur.as_str());
        cur = from_chars(&drop_chars(cs, 6));
    }
    cur
}

/// The sessions of a directory listing (see `listed_sessions`).
pub fn sessions_from_listing(names: &Vec<String>) -> (r: Vec<String>)
    ensures
        views(r@) == listed_sessions(views(names@)),
{
    let ghost nv = views(names@);
    let mut out: Vec<String> = Vec::new();
    let mut i: usize = 0;
    while i < names.len()
        invariant
            i <= names@.len(),
            nv == views(names@),
            views(out@) == listed_sessions(nv.take(i as int)),
        decreases names.len() - i,
    {
        let ghost cur = nv.take(i + 1);
        assert(cur.drop_last() =~= nv.take(i as int));
        assert(cur.last() == names@[i as int]@);
        if str_ends_with(names[i].as_str(), ".jsonl") {
            let ghost before = out@;
            out.push(trim_jsonl_exec(&names[i]));
            assert(views(out@) =~= views(before).push(trim_jsonl(names@[i as int]@)));
        }
        i = i + 1;
    }
    assert(nv.take(names@.len() as int) =~= nv);
    out
}

/// The path of a project directory under the configuration directory.
pub open spec fn project_dir_of(dir_name: Seq<char>) -> Seq<char> {
    "projects/"@ + dir_name
}

pub fn project_dir_path(dir_name: &str) -> (r: String)
    ensures
        r@ == project_dir_of(dir_name@),
{
    let mut r = owned("projects/");
    push_str(&mut r, dir_name);
    r
}

/// The session files a directory listing gives when they cannot be found
/// otherwise: the names that end with `.jsonl`, under the project's path.
pub open spec fn listed_session_files(dir_name: Seq<char>, names: Seq<Seq<char>>) -> Seq<Seq<char>>
    decreases names.len(),
{
    if names.len() == 0 {
        Seq::empty()
    } else {
        let rest = listed_session_files(dir_name, names.drop_last());
        if ends_with(names.last(), ".jsonl"@) {
            rest.push(project_dir_of(dir_name) + "/"@ + names.last())
        } else {
            rest
        }
    }
}

/// The session files of a directory listing (see `listed_session_files`).
pub fn session_files_from_listing(dir_name: &str, names: &Vec<String>) -> (r: Vec<String>)
    ensures
        views(r@) == listed_session_files(dir_name@, views(names@)),
{
    let ghost nv = views(names@);
    let mut out: Vec<String> = Vec::new();
    let mut i: usize = 0;
    while i < names.len()
        invariant
            i <= names@.len(),
            nv == views(names@),
            views(out@) == listed_session_files(dir_name@, nv.take(i as int)),
        decreases names.len() - i,
    {
        let ghost cur = nv.take(i + 1);
        assert(cur.drop_last() =~= nv.take(i as int));
        assert(cur.last() == names@[i as int]@);
        if str_ends_with(names[i].as_str(), ".jsonl") {
            let mut p = project_dir_path(dir_name);
            push_str(&mut p, "/");
            push_str(&mut p, names[i].as_str());
            let ghost before = out@;
            out.push(p);
            assert(views(out@) =~= views(before).push(project_dir_of(dir_name@) + "/"@ + names@[i as int]@));
        }
        i = i + 1;
    }
    assert(nv.take(names@.len() as int) =~= nv);
    out
}

/// What was read of a project directory.
pub struct ProjectScan {
    /// The directory's name under `projects/`.
    pub dir_name: String,
    /// The directory's creation time, when it could be read.
    pub created_at: Option<u64>,
    /// The session files found in it (paths under the configuration directory).
    pub session_files: Vec<String>,
    /// The modification time of each session file, when it could be read.
    pub mod_times: Vec<Option<u64>>,
    /// The text of the first session file, when there is one and it could be read.
    pub first_session: Option<String>,
}

/// The sessions of the first `n` session files: the session ids, the
/// `(path, modification time)` of those with a known time, and the latest
/// such time (0 when none).
pub open spec fn sessions_of(files: Seq<Seq<char>>, times: Seq<Option<u64>>, n: int) -> (
    Seq<Seq<char>>,
    Seq<(Seq<char>, u64)>,
    u64,
)
    decreases n,
{
    if n <= 0 {
        (Seq::empty(), Seq::empty(), 0)
    } else {
        let (ids, meta, latest) = sessions_of(files, times, n - 1);
        match session_of_file(files[n - 1]) {
            None => (ids, meta, latest),
            Some(id) => match times[n - 1] {
                None => (ids.push(id), meta, latest),
                Some(t) => (
                    ids.push(id),
                    meta.push((files[n - 1], t)),
                    if t > latest {
                        t
                    } else {
                        latest
                    },
                ),
            },
        }
    }
}

/// What a project directory scan gives: the project, its session ids, and
/// the modification times of its session files.
pub struct ProjectInfo {
    pub project: CachedProject,
    pub sessions: Vec<String>,
    pub file_times: Vec<(String, u64)>,
}

pub open spec fn time_views(ts: Seq<(String, u64)>) -> Seq<(Seq<char>, u64)> {
    ts.map_values(|t: (String, u64)| (t.0@, t.1))
}

/// The project path of a scanned directory: the one its first session file
/// names, else the directory name read as a path.
pub open spec fn scanned_path(dir_name: Seq<char>, files: Seq<Seq<char>>, first: Option<Seq<char>>) -> Seq<char> {
    if files.len() > 0 {
        match path_in_session(first) {
            Some(p) => p,
            None => decoded_path(dir_name),
        }
    } else {
        decoded_path(dir_name)
    }
}

/// The project that a scanned directory describes: its id is the directory
/// name, its creation time that of the directory (0 when unknown), its
/// sessions those of the session files whose names end with `.jsonl`.
pub fn process_project_directory(scan: &ProjectScan) -> (r: ProjectInfo)
    requires
        scan.mod_times@.len() == scan.session_files@.len(),
    ensures
        ({
            let files = views(scan.session_files@);
            let (ids, meta, latest) = sessions_of(files, scan.mod_times@, files.len() as int);
            &&& r.project.id@ == scan.dir_name@
            &&& r.project.path@ == scanned_path(scan.dir_name@, files, opt_view(scan.first_session))
            &&& r.project.session_count == ids.len()
            &&& r.project.created_at == match scan.created_at {
                Some(t) => t,
                None => 0,
            }
            &&& r.project.last_session_created == latest
            &&& views(r.sessions@) == ids
            &&& time_views(r.file_times@) == meta
        }),
{
    let ghost files = views(scan.session_files@);
    let mut sessions: Vec<String> = Vec::new();
    let mut times: Vec<(String, u64)> = Vec::new();
    let mut latest: u64 = 0;
    let mut i: usize = 0;
    while i < scan.session_files.len()
        invariant
            i <= scan.session_files@.len(),
            scan.mod_times@.len() == scan.session_files@.len(),
            files == views(scan.session_files@),
            ({
                let (ids, meta, l) = sessions_of(files, scan.mod_times@, i as int);
                views(sessions@) == ids && time_views(times@) == meta && latest == l
            }),
        decreases scan.session_files.len() - i,
    {
        let path = &scan.session_files[i];
        assert(files[i as int] == path@);
        if let Some(id) = session_id_of_file(path.as_str()) {
            let ghost before = sessions@;
            sessions.push(id);
            assert(views(sessions@) =~= views(before).push(id@));
            if let Some(t) = scan.mod_times[i] {
                let ghost tb = times@;
                times.push((path.clone(), t));
                assert(time_views(times@) =~= time_views(tb).push((path@, t)));
                if t > latest {
                    latest = t;
                }
            }
        }
        i = i + 1;
    }
    let path = if scan.session_files.len() > 0 {
        match project_path_from_session(&scan.first_session) {
            Some(p) => p,
            None => decode_project_path(scan.dir_name.as_str()),
        }
    } else {
        decode_project_path(scan.dir_name.as_str())
    };
    assert(views(sessions@).len() == sessions@.len());
    let project = CachedProject {
        id: scan.dir_name.clone(),
        path,
        session_count: sessions.len(),
        created_at: match scan.created_at {
            Some(t) => t,
            None => 0,
        },
        last_session_created: latest,
    };
    ProjectInfo { project, sessions, file_times: times }
}

/// The projects of the scans in order, newest directory first (projects
/// made at the same time keep their order).
pub open spec fn ordered_projects(infos: Seq<CachedProjectV>) -> Seq<CachedProjectV> {
    sorted_by_num_desc(infos.map_values(|p: CachedProjectV| p.created_at), infos)
}

/// Project id → session ids, the scans inserted in order.
pub open spec fn sessions_map(projects: Seq<CachedProject>, sessions: Seq<Vec<String>>) -> Map<Seq<char>, Vec<String>>
    decreases projects.len(),
{
    if projects.len() == 0 {
        Map::empty()
    } else {
        sessions_map(projects.drop_last(), sessions.drop_last()).insert(
            projects.last().id@,
            sessions.last(),
        )
    }
}

/// Session file path → modification time, all scans' times inserted in order.
pub open spec fn times_map(times: Seq<Seq<(String, u64)>>) -> Map<Seq<char>, u64>
    decreases times.len(),
{
    if times.len() == 0 {
        Map::empty()
    } else {
        pairs_map_from(times_map(times.drop_last()), times.last())
    }
}

/// `m` with the pairs inserted in turn.
pub open spec fn pairs_map_from<V>(m: Map<Seq<char>, V>, ps: Seq<(String, V)>) -> Map<Seq<char>, V>
    decreases ps.len(),
{
    if ps.len() == 0 {
        m
    } else {
        pairs_map_from(m, ps.drop_last()).insert(ps.last().0@, ps.last().1)
    }
}

/// The projects of all scanned directories with their sessions and file times.
pub struct ProjectIndex {
    /// Newest first (see `ordered_projects`).
    pub projects: Vec<CachedProject>,
    pub sessions: StrMap<Vec<String>>,
    pub file_times: StrMap<u64>,
}

/// Puts the scanned projects together: sorted newest first, with a map from
/// project id to session ids and one from session file to modification time.
pub fn index_projects(infos: Vec<ProjectInfo>) -> (r: ProjectIndex)
    ensures
        project_list_views(r.projects@) == ordered_projects(
            infos@.map_values(|i: ProjectInfo| i.project.view_v()),
        ),
        r.sessions.wf(),
        r.sessions.view_map() == sessions_map(
            infos@.map_values(|i: ProjectInfo| i.project),
            infos@.map_values(|i: ProjectInfo| i.sessions),
        ),
        r.file_times.wf(),
        r.file_times.view_map() == times_map(infos@.map_values(|i: ProjectInfo| i.file_times@)),
{
    let ghost iv = infos@;
    let ghost n = infos@.len() as int;
    let ghost pv = iv.map_values(|i: ProjectInfo| i.project);
    let ghost sv = iv.map_values(|i: ProjectInfo| i.sessions);
    let ghost tv = iv.map_values(|i: ProjectInfo| i.file_times@);
    let mut src = reversed(infos);
    let mut projects: Vec<CachedProject> = Vec::new();
    let mut created: Vec<u64> = Vec::new();
    let mut sessions: StrMap<Vec<String>> = StrMap::new();
    let mut file_times: StrMap<u64> = StrMap::new();
    let ghost mut done: int = 0;
    while src.len() > 0
        invariant
            0 <= done <= n,
            iv.len() == n,
            done + src@.len() == n,
            pv == iv.map_values(|i: ProjectInfo| i.project),
            sv == iv.map_values(|i: ProjectInfo| i.sessions),
            tv == iv.map_values(|i: ProjectInfo| i.file_times@),
            forall|q: int| 0 <= q < src@.len() ==> #[trigger] src@[q] == iv[n - 1 - q],
            projects@ == pv.take(done),
            created@.len() == done,
            forall|q: int| 0 <= q < done ==> #[trigger] created@[q] == pv[q].created_at,
            sessions.wf(),
            sessions.view_map() == sessions_map(pv.take(done), sv.take(done)),
            file_times.wf(),
            file_times.view_map() == times_map(tv.take(done)),
        decreases src.len(),
    {
        let info = src.pop().unwrap();
        assert(info == iv[done]);
        proof {
            assert(pv.take(done + 1).drop_last() =~= pv.take(done));
            assert(sv.take(done + 1).drop_last() =~= sv.take(done));
            assert(tv.take(done + 1).drop_last() =~= tv.take(done));
            assert(pv.take(done + 1).last() == info.project);
            assert(sv.take(done + 1).last() == info.sessions);
            assert(tv.take(done + 1).last() == info.file_times@);
        }
        let ProjectInfo { project, sessions: ids, file_times: times } = info;
        sessions.insert(project.id.clone(), ids);
        let ghost base = file_times.view_map();
        let ghost tl = times@;
        let mut tsrc = reversed(times);
        let ghost m = tl.len() as int;
        let ghost mut k: int = 0;
        assert(pairs_map_from(base, tl.take(0)) == base);
        while tsrc.len() > 0
            invariant
                0 <= k <= m,
                tl.len() == m,
                k + tsrc@.len() == m,
                forall|q: int| 0 <= q < tsrc@.len() ==> #[trigger] tsrc@[q] == tl[m - 1 - q],
                file_times.wf(),
                file_times.view_map() == pairs_map_from(base, tl.take(k)),
            decreases tsrc.len(),
        {
            let t = tsrc.pop().unwrap();
            assert(t == tl[k]);
            assert(tl.take(k + 1).drop_last() =~= tl.take(k));
            assert(tl.take(k + 1).last() == tl[k]);
            file_times.insert(t.0, t.1);
            proof {
                k = k + 1;
            }
        }
        assert(tl.take(m) =~= tl);
        created.push(project.created_at);
        projects.push(project);
        proof {
            assert(projects@ =~= pv.take(done + 1));
            done = done + 1;
        }
    }
    assert(pv.take(n) =~= pv);
    assert(sv.take(n) =~= sv);
    assert(tv.take(n) =~= tv);
    let ghost items = projects@;
    proof {
        assert(created@ =~= project_list_views(items).map_values(|p: CachedProjectV| p.created_at));
        lemma_sorted_by_num_desc_map(created@, items, |p: CachedProject| p.view_v());
        assert(items.map_values(|p: CachedProject| p.view_v()) =~= iv.map_values(
            |i: ProjectInfo| i.project.view_v(),
        ));
    }
    let sorted = sort_by_num_desc(projects, created);
    assert(project_list_views(sorted@) =~= sorted_by_num_desc(created@, items).map_values(
        |p: CachedProject| p.view_v(),
    ));
    ProjectIndex { projects: sorted, sessions, file_times }
}

/// The projects last read, with each project's sessions and the
/// modification time of each session file.
pub struct ProjectsCache {
    pub projects: Vec<CachedProject>,
    /// Project id → session ids.
    pub project_sessions: StrMap<Vec<String>>,
    /// When the cache was last filled (never, when `None`).
    pub last_updated: Option<u64>,
    /// Session file path → modification time.
    pub file_metadata: StrMap<u64>,
    /// Set when some project is known to have changed: the cache is then
    /// stale until it is filled again.
    pub marked_stale: bool,
}

impl ProjectsCache {
    pub open spec fn wf(&self) -> bool {
        self.project_sessions.wf() && self.file_metadata.wf()
    }

    /// Stale at `now`: marked so, never filled, or filled more than a
    /// minute before.
    pub open spec fn stale_at(&self, now: u64) -> bool {
        self.marked_stale || stale(self.last_updated, now, PROJECTS_FRESH_NANOS)
    }

    /// An empty cache, never filled.
    pub fn new() -> (c: Self)
        ensures
            c.wf(),
            c.projects@.len() == 0,
            c.project_sessions.view_map() == Map::<Seq<char>, Vec<String>>::empty(),
            c.file_metadata.view_map() == Map::<Seq<char>, u64>::empty(),
            c.last_updated is None,
            !c.marked_stale,
    {
        ProjectsCache {
            projects: Vec::new(),
            project_sessions: StrMap::new(),
            last_updated: None,
            file_metadata: StrMap::new(),
            marked_stale: false,
        }
    }

    /// Stale when marked so, never filled, or filled more than a minute ago.
    pub fn is_stale(&self, now: u64) -> (r: bool)
        ensures
            r == self.stale_at(now),
    {
        if self.marked_stale {
            return true;
        }
        match self.last_updated {
            None => true,
            Some(t) => {
                let e = if now >= t {
                    now - t
                } else {
                    0
                };
                e > PROJECTS_FRESH_NANOS
            },
        }
    }

    /// Whether there is cached data that a check for changes could keep:
    /// some projects, and a time they were read.
    pub fn needs_incremental_update(&self) -> (r: bool)
        ensures
            r == (self.projects@.len() > 0 && self.last_updated is Some),
    {
        self.projects.len() > 0 && self.last_updated.is_some()
    }

    /// Whether the disk should be checked for changes: there is cached data
    /// and it is stale.
    pub fn should_check_for_changes(&self, now: u64) -> (r: bool)
        ensures
            r == (self.projects@.len() > 0 && self.last_updated is Some && self.stale_at(now)),
    {
        self.needs_incremental_update() && self.is_stale(now)
    }

    /// Fills the cache at `now`.
    pub fn update(&mut self, index: ProjectIndex, now: u64)
        requires
            index.sessions.wf(),
            index.file_times.wf(),
        ensures
            final(self).wf(),
            final(self).projects@ == index.projects@,
            final(self).project_sessions == index.sessions,
            final(self).file_metadata == index.file_times,
            final(self).last_updated == Some(now),
            !final(self).marked_stale,
    {
        self.projects = index.projects;
        self.project_sessions = index.sessions;
        self.file_metadata = index.file_times;
        self.last_updated = Some(now);
        self.marked_stale = false;
    }

    /// Fills the cache from a fresh listing of the project directories at
    /// `now`, given what was read of them. An empty listing empties the
    /// cache; otherwise the cache holds their index (see `index_projects`).
    /// Returns whether the cache was filled.
    pub fn refill(&mut self, dirs: &Vec<String>, infos: Vec<ProjectInfo>, now: u64) -> (filled: bool)
        ensures
            final(self).wf(),
            filled == (dirs@.len() > 0),
            !final(self).marked_stale,
            !filled ==> final(self).projects@.len() == 0
                && final(self).project_sessions.view_map() == Map::<Seq<char>, Vec<String>>::empty()
                && final(self).file_metadata.view_map() == Map::<Seq<char>, u64>::empty()
                && final(self).last_updated is None,
            filled ==> ({
                let iv = infos@;
                &&& project_list_views(final(self).projects@) == ordered_projects(
                    iv.map_values(|i: ProjectInfo| i.project.view_v()),
                )
                &&& final(self).project_sessions.view_map() == sessions_map(
                    iv.map_values(|i: ProjectInfo| i.project),
                    iv.map_values(|i: ProjectInfo| i.sessions),
                )
                &&& final(self).file_metadata.view_map() == times_map(
                    iv.map_values(|i: ProjectInfo| i.file_times@),
                )
                &&& final(self).last_updated == Some(now)
            }),
    {
        if dirs.len() == 0 {
            self.clear();
            false
        } else {
            let index = index_projects(infos);
            self.update(index, now);
            true
        }
    }

    /// Marks the cache stale, keeping what it holds: it is then read again
    /// (or checked for changes) before it is served.
    pub fn mark_stale(&mut self)
        ensures
            final(self).marked_stale,
            final(self).projects@ == old(self).projects@,
            final(self).project_sessions == old(self).project_sessions,
            final(self).file_metadata == old(self).file_metadata,
            final(self).last_updated == old(self).last_updated,
            forall|now: u64| #[trigger] final(self).stale_at(now),
    {
        self.marked_stale = true;
    }

    /// Empties the cache and forgets when it was filled.
    pub fn clear(&mut self)
        ensures
            final(self).wf(),
            final(self).projects@.len() == 0,
            final(self).project_sessions.view_map() == Map::<Seq<char>, Vec<String>>::empty(),
            final(self).file_metadata.view_map() == Map::<Seq<char>, u64>::empty(),
            final(self).last_updated is None,
            !final(self).marked_stale,
    {
        self.projects = Vec::new();
        self.project_sessions = StrMap::new();
        self.file_metadata = StrMap::new();
        self.last_updated = None;
        self.marked_stale = false;
    }

    /// Whether the copy on disk should be tried: the cache is stale or empty.
    pub fn wants_reload(&self, now: u64) -> (r: bool)
        ensures
            r == (self.stale_at(now) || self.projects@.len() == 0),
    {
        self.is_stale(now) || self.projects.len() == 0
    }

    /// The cached projects, when the cache is fresh and not empty.
    pub fn cached_projects(&self, now: u64) -> (r: Option<Vec<CachedProject>>)
        ensures
            match r {
                None => self.stale_at(now) || self.projects@.len() == 0,
                Some(v) => !self.stale_at(now) && self.projects@.len() > 0
                    && project_list_views(v@) == project_list_views(self.projects@),
            },
    {
        if self.is_stale(now) || self.projects.len() == 0 {
            None
        } else {
            Some(copy_projects(&self.projects))
        }
    }

    /// The cached sessions of a project, when the cache is fresh and knows it.
    pub fn cached_sessions(&self, project_id: &String, now: u64) -> (r: Option<Vec<String>>)
        requires
            self.wf(),
        ensures
            match r {
                None => self.stale_at(now) || !self.project_sessions.view_map().contains_key(project_id@),
                Some(v) => !self.stale_at(now)
                    && self.project_sessions.view_map().contains_key(project_id@) && views(v@) == views(
                    self.project_sessions.view_map()[project_id@]@,
                ),
            },
    {
        if self.is_stale(now) {
            return None;
        }
        match self.project_sessions.get(project_id) {
            Some(v) => Some(copy_strings(v)),
            None => None,
        }
    }

    /// The number of sessions of all cached projects; `None` when it does not
    /// fit in a `usize`.
    pub fn total_sessions(&self) -> (r: Option<usize>)
        ensures
            match r {
                Some(n) => n == session_total(self.project_sessions.entry_seq()),
                None => session_total(self.project_sessions.entry_seq()) > usize::MAX,
            },
    {
        let ghost es = self.project_sessions.entry_seq();
        let n = self.project_sessions.len();
        let mut total: usize = 0;
        let mut i: usize = 0;
        while i < n
            invariant
                i <= n,
                n == es.len(),
                es == self.project_sessions.entry_seq(),
                total == session_total(es.take(i as int)),
            decreases n - i,
        {
            let e = self.project_sessions.entry(i);
            assert(es.take(i + 1).drop_last() =~= es.take(i as int));
            let k = e.1.len();
            assert(es.take(i + 1).last() == es[i as int]);
            assert(session_total(es.take(i + 1)) == total + k);
            if total > usize::MAX - k {
                proof {
                    lemma_session_total_mono(es, i + 1, n as int);
                    assert(es.take(n as int) =~= es);
                }
                return None;
            }
            total = total + k;
            i = i + 1;
        }
        assert(es.take(n as int) =~= es);
        Some(total)
    }

    /// Whole seconds since the cache was filled; 999999 when it never was.
    pub fn seconds_since_update(&self, now: u64) -> (r: u64)
        ensures
            r == match self.last_updated {
                Some(t) => whole_seconds(t, now),
                None => 999999,
            },
    {
        match self.last_updated {
            Some(t) => {
                let e = if now >= t {
                    now - t
                } else {
                    0
                };
                e / 1_000_000_000
            },
            None => 999999,
        }
    }
}

/// The number of session ids in the entries.
pub open spec fn session_total(es: Seq<(String, Vec<String>)>) -> int
    decreases es.len(),
{
    if es.len() == 0 {
        0
    } else {
        session_total(es.drop_last()) + es.last().1@.len()
    }
}

proof fn lemma_session_total_mono(es: Seq<(String, Vec<String>)>, i: int, n: int)
    requires
        0 <= i <= n <= es.len(),
    ensures
        session_total(es.take(i)) <= session_total(es.take(n)),
    decreases n - i,
{
    if i < n {
        lemma_session_total_mono(es, i, n - 1);
        assert(es.take(n).drop_last() =~= es.take(n - 1));
    }
}

/// What a check for changes found in a project directory: its name, and
/// the session files found with their modification times (`None` when the
/// search failed; a time is `None` when it could not be read).
pub struct DirCheck {
    pub dir_name: String,
    pub sessions: Option<Vec<(String, Option<u64>)>>,
}

/// A session file has changed when its time is known and the cache has no
/// time for it, or an earlier one.
pub open spec fn session_changed(meta: Map<Seq<char>, u64>, path: Seq<char>, t: Option<u64>) -> bool {
    match t {
        None => false,
        Some(t) => !meta.contains_key(path) || t > meta[path],
    }
}

/// A directory calls for a full refresh when the cached projects do not
/// have it, or when one of its session files has changed.
pub open spec fn dir_calls_for_refresh(ids: Seq<Seq<char>>, meta: Map<Seq<char>, u64>, d: DirCheck) -> bool {
    ||| !ids.contains(d.dir_name@)
    ||| match d.sessions {
        None => false,
        Some(ss) => exists|j: int| 0 <= j < ss@.len() && session_changed(meta, (#[trigger] ss@[j]).0@, ss@[j].1),
    }
}

proof fn changed_witness(
    ids: Seq<Seq<char>>,
    meta: Map<Seq<char>, u64>,
    d: DirCheck,
    ss: Vec<(String, Option<u64>)>,
    j: int,
)
    requires
        d.sessions == Some(ss),
        0 <= j < ss@.len(),
        session_changed(meta, ss@[j].0@, ss@[j].1),
    ensures
        dir_calls_for_refresh(ids, meta, d),
{
    assert(exists|q: int| 0 <= q < ss@.len() && session_changed(meta, (#[trigger] ss@[q]).0@, ss@[q].1));
    let s2 = d.sessions->Some_0;
    assert(s2 == ss);
    assert(exists|q: int| 0 <= q < s2@.len() && session_changed(meta, (#[trigger] s2@[q]).0@, s2@[q].1));
}

/// Whether the checked directories call for a full refresh of the cache.
pub fn needs_full_refresh(projects: &Vec<CachedProject>, meta: &StrMap<u64>, dirs: &Vec<DirCheck>) -> (r: bool)
    requires
        meta.wf(),
    ensures
        r == exists|i: int| 0 <= i < dirs@.len() && dir_calls_for_refresh(
            project_list_views(projects@).map_values(|p: CachedProjectV| p.id),
            meta.view_map(),
            #[trigger] dirs@[i],
        ),
{
    let ghost ids = project_list_views(projects@).map_values(|p: CachedProjectV| p.id);
    let mut i: usize = 0;
    while i < dirs.len()
        invariant
            i <= dirs@.len(),
            meta.wf(),
            ids == project_list_views(projects@).map_values(|p: CachedProjectV| p.id),
            forall|q: int| 0 <= q < i ==> !dir_calls_for_refresh(ids, meta.view_map(), #[trigger] dirs@[q]),
        decreases dirs.len() - i,
    {
        let d = &dirs[i];
        let mut known = false;
        let mut p: usize = 0;
        while p < projects.len()
            invariant
                p <= projects@.len(),
                ids == project_list_views(projects@).map_values(|p: CachedProjectV| p.id),
                !known ==> forall|q: int| 0 <= q < p ==> ids[q] != d.dir_name@,
                known ==> ids.contains(d.dir_name@),
            decreases projects.len() - p,
        {
            if crate::text::str_eq(projects[p].id.as_str(), d.dir_name.as_str()) {
                assert(ids[p as int] == d.dir_name@);
                known = true;
            }
            p = p + 1;
        }
        if !known {
            return true;
        }
        match &d.sessions {
            None => {},
            Some(ss) => {
                let mut j: usize = 0;
                while j < ss.len()
                    invariant
                        j <= ss@.len(),
                        meta.wf(),
                        i < dirs@.len(),
                        *d == dirs@[i as int],
                        d.sessions == Some(*ss),
                        ids == project_list_views(projects@).map_values(|p: CachedProjectV| p.id),
                        forall|q: int| 0 <= q < j ==> !session_changed(meta.view_map(), (#[trigger] ss@[q]).0@, ss@[q].1),
                    decreases ss.len() - j,
                {
                    if let Some(t) = ss[j].1 {
                        match meta.get(&ss[j].0) {
                            Some(old) => {
                                if t > *old {
                                    proof { changed_witness(ids, meta.view_map(), dirs@[i as int], *ss, j as int); }
                                    return true;
                                }
                            },
                            None => {
                                proof { changed_witness(ids, meta.view_map(), dirs@[i as int], *ss, j as int); }
                                return true;
                            },
                        }
                    }
                    j = j + 1;
                }
            },
        }
        i = i + 1;
    }
    false
}

} // verus!
