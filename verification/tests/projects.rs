use claudia::cache::{
    cache_data_usable, disk_cache_fresh, UsageCache, CACHE_VERSION, PROJECTS_CACHE_TTL, USAGE_CACHE_TTL,
};
use claudia::dates::Day;
use claudia::keyed::StrMap;
use claudia::projects::{
    decode_project_path, index_projects, needs_full_refresh, process_project_directory,
    project_dir_path, project_path_from_session, session_files_from_listing, session_id_of_file,
    sessions_from_listing, CachedProject, DirCheck, ProjectInfo, ProjectScan, ProjectsCache,
};
use claudia::usage::{CostBasis, UsageEntry};

const SEC: u64 = 1_000_000_000;

fn strings(v: &[&str]) -> Vec<String> {
    v.iter().map(|s| s.to_string()).collect()
}

#[test]
fn directory_names_read_back_as_paths() {
    assert_eq!(decode_project_path("-home-user-my-app"), "/home/user/my/app");
    assert_eq!(decode_project_path(""), "");
}

#[test]
fn session_path_comes_from_project_path_then_cwd() {
    let text = "not json\n{\"cwd\":\"/from/cwd\",\"project_path\":\"/from/project\"}".to_string();
    assert_eq!(project_path_from_session(&Some(text)), Some("/from/project".to_string()));
    let text = "{\"project_path\":7,\"cwd\":\"/from/cwd\"}".to_string();
    assert_eq!(project_path_from_session(&Some(text)), Some("/from/cwd".to_string()));
    let mut lines: Vec<&str> = vec!["{}"; 5];
    lines.push("{\"cwd\":\"/late\"}");
    assert_eq!(project_path_from_session(&Some(lines.join("\n"))), None);
    assert_eq!(project_path_from_session(&None), None);
}

#[test]
fn session_ids_of_files_and_listings() {
    assert_eq!(session_id_of_file("projects/p/abc.jsonl"), Some("abc".to_string()));
    assert_eq!(session_id_of_file("projects/p/abc.jsonl.bak"), None);
    assert_eq!(
        sessions_from_listing(&strings(&["a.jsonl", "b.txt", "c.jsonl.jsonl"])),
        strings(&["a", "c"])
    );
    assert_eq!(
        session_files_from_listing("p", &strings(&["a.jsonl", "b.txt"])),
        strings(&["projects/p/a.jsonl"])
    );
    assert_eq!(project_dir_path("p"), "projects/p");
}

#[test]
fn a_scanned_directory_gives_its_project() {
    let scan = ProjectScan {
        dir_name: "-home-u-app".to_string(),
        created_at: Some(100),
        session_files: strings(&["projects/-home-u-app/s1.jsonl", "projects/-home-u-app/notes.txt", "projects/-home-u-app/s2.jsonl"]),
        mod_times: vec![Some(5), Some(50), None],
        first_session: Some("{\"cwd\":\"/home/u/app\"}".to_string()),
    };
    let info = process_project_directory(&scan);
    assert_eq!(info.project.id, "-home-u-app");
    assert_eq!(info.project.path, "/home/u/app");
    assert_eq!(info.project.session_count, 2);
    assert_eq!(info.project.created_at, 100);
    assert_eq!(info.project.last_session_created, 5);
    assert_eq!(info.sessions, strings(&["s1", "s2"]));
    assert_eq!(info.file_times, vec![("projects/-home-u-app/s1.jsonl".to_string(), 5)]);
}

#[test]
fn a_directory_without_sessions_decodes_its_name() {
    let scan = ProjectScan {
        dir_name: "-home-u-app".to_string(),
        created_at: None,
        session_files: vec![],
        mod_times: vec![],
        first_session: None,
    };
    let info = process_project_directory(&scan);
    assert_eq!(info.project.path, "/home/u/app");
    assert_eq!(info.project.created_at, 0);
    assert_eq!(info.project.last_session_created, 0);
}

fn project(id: &str, created_at: u64) -> CachedProject {
    CachedProject { id: id.to_string(), path: format!("/{}", id), session_count: 1, created_at, last_session_created: 0 }
}

fn info(id: &str, created_at: u64, files: &[(&str, u64)]) -> ProjectInfo {
    ProjectInfo {
        project: project(id, created_at),
        sessions: strings(&["s"]),
        file_times: files.iter().map(|(p, t)| (p.to_string(), *t)).collect(),
    }
}

#[test]
fn projects_newest_first_keeping_ties_in_order() {
    let idx = index_projects(vec![
        info("a", 10, &[("projects/a/s.jsonl", 1)]),
        info("b", 30, &[]),
        info("c", 10, &[("projects/c/s.jsonl", 2), ("projects/a/s.jsonl", 3)]),
        info("d", 20, &[]),
    ]);
    let ids: Vec<&str> = idx.projects.iter().map(|p| p.id.as_str()).collect();
    assert_eq!(ids, vec!["b", "d", "a", "c"]);
    assert_eq!(idx.sessions.len(), 4);
    assert_eq!(idx.sessions.get(&"c".to_string()), Some(&strings(&["s"])));
    assert_eq!(idx.file_times.get(&"projects/a/s.jsonl".to_string()), Some(&3));
    assert_eq!(idx.file_times.len(), 2);
}

#[test]
fn projects_cache_is_fresh_for_a_minute() {
    let mut c = ProjectsCache::new();
    assert!(c.is_stale(0));
    assert!(!c.needs_incremental_update());
    assert_eq!(c.seconds_since_update(5 * SEC), 999999);
    let idx = index_projects(vec![info("a", 10, &[]), info("b", 20, &[])]);
    c.update(idx, 100 * SEC);
    assert!(!c.is_stale(160 * SEC));
    assert!(c.is_stale(160 * SEC + 1));
    assert!(!c.is_stale(50 * SEC));
    assert!(c.needs_incremental_update());
    assert_eq!(c.total_sessions(), Some(2));
    assert!(c.should_check_for_changes(161 * SEC));
    assert!(!c.should_check_for_changes(150 * SEC));
    assert_eq!(c.seconds_since_update(159 * SEC), 59);
    let cached = c.cached_projects(110 * SEC).unwrap();
    let ids: Vec<&str> = cached.iter().map(|p| p.id.as_str()).collect();
    assert_eq!(ids, vec!["b", "a"]);
    assert_eq!(c.cached_sessions(&"a".to_string(), 110 * SEC), Some(strings(&["s"])));
    assert_eq!(c.cached_sessions(&"z".to_string(), 110 * SEC), None);
    assert_eq!(c.cached_sessions(&"a".to_string(), 200 * SEC), None);
    assert!(c.cached_projects(200 * SEC).is_none());
    c.clear();
    assert_eq!(c.total_sessions(), Some(0));
    assert!(c.is_stale(100 * SEC));
    assert!(c.cached_projects(100 * SEC).is_none());
    assert!(c.wants_reload(100 * SEC));
}

#[test]
fn refilling_from_an_empty_listing_empties_the_cache() {
    let mut c = ProjectsCache::new();
    let dirs = strings(&["a", "b"]);
    assert!(c.refill(&dirs, vec![info("a", 10, &[]), info("b", 20, &[])], 100 * SEC));
    let ids: Vec<&str> = c.projects.iter().map(|p| p.id.as_str()).collect();
    assert_eq!(ids, vec!["b", "a"]);
    assert!(!c.is_stale(110 * SEC));
    assert!(!c.refill(&Vec::new(), Vec::new(), 120 * SEC));
    assert!(c.projects.is_empty());
    assert!(c.is_stale(120 * SEC));
    assert_eq!(c.total_sessions(), Some(0));
}

#[test]
fn marking_stale_keeps_the_data_until_refilled() {
    let mut c = ProjectsCache::new();
    let idx = index_projects(vec![info("a", 10, &[]), info("b", 20, &[])]);
    c.update(idx, 100 * SEC);
    assert!(!c.is_stale(110 * SEC));
    c.mark_stale();
    assert!(c.is_stale(110 * SEC));
    assert!(c.is_stale(100 * SEC));
    assert!(c.cached_projects(110 * SEC).is_none());
    assert_eq!(c.cached_sessions(&"a".to_string(), 110 * SEC), None);
    assert!(c.wants_reload(110 * SEC));
    assert!(c.should_check_for_changes(110 * SEC));
    assert_eq!(c.projects.len(), 2);
    assert_eq!(c.total_sessions(), Some(2));
    let idx = index_projects(vec![info("a", 10, &[])]);
    c.update(idx, 120 * SEC);
    assert!(!c.is_stale(130 * SEC));
    assert_eq!(c.cached_projects(130 * SEC).unwrap().len(), 1);
}

#[test]
fn changes_call_for_a_full_refresh() {
    let projects = vec![project("a", 1)];
    let mut meta = StrMap::new();
    meta.insert("projects/a/s.jsonl".to_string(), 10u64);
    let same = DirCheck { dir_name: "a".to_string(), sessions: Some(vec![("projects/a/s.jsonl".to_string(), Some(10))]) };
    assert!(!needs_full_refresh(&projects, &meta, &vec![same]));
    let newer = DirCheck { dir_name: "a".to_string(), sessions: Some(vec![("projects/a/s.jsonl".to_string(), Some(11))]) };
    assert!(needs_full_refresh(&projects, &meta, &vec![newer]));
    let unknown_time = DirCheck { dir_name: "a".to_string(), sessions: Some(vec![("projects/a/t.jsonl".to_string(), None)]) };
    assert!(!needs_full_refresh(&projects, &meta, &vec![unknown_time]));
    let new_file = DirCheck { dir_name: "a".to_string(), sessions: Some(vec![("projects/a/t.jsonl".to_string(), Some(1))]) };
    assert!(needs_full_refresh(&projects, &meta, &vec![new_file]));
    let new_dir = DirCheck { dir_name: "b".to_string(), sessions: None };
    assert!(needs_full_refresh(&projects, &meta, &vec![new_dir]));
    let failed = DirCheck { dir_name: "a".to_string(), sessions: None };
    assert!(!needs_full_refresh(&projects, &meta, &vec![failed]));
}

fn entry(ts: &str) -> UsageEntry {
    UsageEntry {
        timestamp: ts.to_string(),
        model: "m".to_string(),
        input_tokens: 1,
        output_tokens: 0,
        cache_creation_tokens: 0,
        cache_read_tokens: 0,
        cost: CostBasis::Unrated,
        session_id: "s".to_string(),
        project_path: "/p".to_string(),
    }
}

#[test]
fn usage_cache_serves_what_it_was_filled_with() {
    let mut c = UsageCache::new();
    assert!(c.is_stale(0));
    assert!(c.cached_entries(0, None, None).is_none());
    assert_eq!(c.seconds_since_update(0), 0);
    c.update(
        vec![entry("2024-01-01T00:00:00Z"), entry("bad"), entry("2024-02-01T00:00:00Z")],
        vec![("a".to_string(), "x".to_string()), ("a".to_string(), "y".to_string())],
        10 * SEC,
    );
    assert_eq!(c.file_timestamps.len(), 1);
    assert_eq!(c.file_timestamps.get(&"a".to_string()), Some(&"y".to_string()));
    let all = c.cached_entries(20 * SEC, None, None).unwrap();
    assert_eq!(all.len(), 3);
    let jan = c
        .cached_entries(20 * SEC, Some(Day { year: 2024, month: 1, day: 1 }), Some(Day { year: 2024, month: 1, day: 31 }))
        .unwrap();
    assert_eq!(jan.len(), 1);
    assert_eq!(jan[0].timestamp, "2024-01-01T00:00:00Z");
    assert!(!c.is_stale(310 * SEC));
    assert!(c.is_stale(310 * SEC + 1));
    assert!(c.cached_entries(311 * SEC, None, None).is_none());
    assert_eq!(c.seconds_since_update(25 * SEC + 1), 15);
    c.clear();
    assert!(c.wants_reload(20 * SEC));
    assert!(c.cached_entries(20 * SEC, None, None).is_none());
}

#[test]
fn disk_copies_expire() {
    assert!(disk_cache_fresh(1000, 1000 + USAGE_CACHE_TTL, USAGE_CACHE_TTL));
    assert!(!disk_cache_fresh(1000, 1001 + USAGE_CACHE_TTL, USAGE_CACHE_TTL));
    assert!(cache_data_usable(CACHE_VERSION, 1000, PROJECTS_CACHE_TTL, 1300));
    assert!(!cache_data_usable(CACHE_VERSION, 1000, PROJECTS_CACHE_TTL, 1301));
    assert!(!cache_data_usable(2, 1000, PROJECTS_CACHE_TTL, 1000));
}
