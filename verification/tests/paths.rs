use claudia::paths::{
    CONFIG_DIR_NAME, cache_file_location, cache_file_path, claude_dir_from_home, claude_file_exists, claude_file_exists_in,
    claude_is_directory, claude_is_directory_in,
    claude_path_for, get_claude_dir, is_valid_cache_name, join_path, relative_found_paths,
};

#[test]
fn paths_join_like_path_join() {
    assert_eq!(join_path("/home/u", ".config"), "/home/u/.config");
    assert_eq!(join_path("/home/u/", ".config"), "/home/u/.config");
    assert_eq!(join_path("", "x"), "x");
    assert_eq!(join_path("/home/u", "/etc"), "/etc");
    let joined = std::path::Path::new("/home/u").join("a/b");
    assert_eq!(join_path("/home/u", "a/b"), joined.to_str().unwrap());
}

#[test]
fn claude_dir_lies_under_home() {
    let dir = format!("/home/u/{}", CONFIG_DIR_NAME);
    assert_eq!(CONFIG_DIR_NAME.len(), 7);
    assert!(CONFIG_DIR_NAME.starts_with('.'));
    assert_eq!(claude_dir_from_home(Some("/home/u".to_string())), Ok(dir.clone()));
    assert_eq!(claude_dir_from_home(None), Err("Failed to get home directory".to_string()));
    assert_eq!(
        claude_path_for(Some("/home/u".to_string()), "projects/p"),
        Some(format!("{}/projects/p", dir))
    );
    assert_eq!(claude_path_for(None, "projects/p"), None);
    if let Ok(d) = get_claude_dir() {
        assert!(d.ends_with(&format!("/{}", CONFIG_DIR_NAME)) || d == CONFIG_DIR_NAME);
    }
}

#[test]
fn missing_claude_files_do_not_exist() {
    assert!(!claude_file_exists("no-such-file-9f3c1e"));
    assert!(!claude_is_directory("no-such-dir-9f3c1e"));
    assert!(!claude_file_exists_in(None, ""));
    assert!(!claude_is_directory_in(None, ""));
    assert!(claude_is_directory_in(Some("/".to_string()), "/tmp"));
    assert!(claude_file_exists_in(Some("/".to_string()), "/tmp"));
}

#[test]
fn cache_names_may_not_leave_the_cache_directory() {
    assert!(is_valid_cache_name("usage.json"));
    assert!(!is_valid_cache_name("../usage.json"));
    assert!(!is_valid_cache_name("a/b"));
    assert!(!is_valid_cache_name("a\\b"));
    assert!(!is_valid_cache_name(".."));
    assert_eq!(
        cache_file_path(Some("/home/u".to_string()), "projects.json"),
        Ok("/home/u/.claudia/cache/projects.json".to_string())
    );
    assert_eq!(cache_file_path(None, "projects.json"), Err("Failed to get home directory".to_string()));
    assert_eq!(cache_file_path(None, "../x"), Err("Invalid cache file name".to_string()));
    assert_eq!(cache_file_location("a/b"), Err("Invalid cache file name".to_string()));
    if let Ok(p) = cache_file_location("usage.json") {
        assert!(p.ends_with("/.claudia/cache/usage.json"));
    }
}

#[test]
fn finder_output_becomes_relative_paths() {
    let out = "/home/u/.cfg/projects/p/a.jsonl\n\n/elsewhere/b.jsonl\n/home/u/.cfg/projects/q/c.jsonl\n";
    assert_eq!(
        relative_found_paths(out, "/home/u/.cfg"),
        vec!["projects/p/a.jsonl".to_string(), "/elsewhere/b.jsonl".to_string(), "projects/q/c.jsonl".to_string()]
    );
    assert!(relative_found_paths("", "/x").is_empty());
}
