use claudia::stats::{
    session_tokens_fit, summarize_usage, tokens_fit, usage_by_date, usage_by_model, usage_by_project, usage_by_session,
    usage_details, usage_totals,
};
use claudia::usage::{CostBasis, UsageEntry};

fn entry(ts: &str, model: &str, project: &str, session: &str, tokens: [u64; 4]) -> UsageEntry {
    UsageEntry {
        timestamp: ts.to_string(),
        model: model.to_string(),
        input_tokens: tokens[0],
        output_tokens: tokens[1],
        cache_creation_tokens: tokens[2],
        cache_read_tokens: tokens[3],
        cost: CostBasis::Unrated,
        session_id: session.to_string(),
        project_path: project.to_string(),
    }
}

fn sample() -> Vec<UsageEntry> {
    vec![
        entry("2024-01-01T10:00:00Z", "A", "/p/one", "s1", [1, 2, 3, 4]),
        entry("2024-01-02T09:00:00Z", "B", "/p/two", "s2", [10, 20, 0, 0]),
        entry("2024-01-01T12:00:00Z", "A", "/p/one", "s1", [5, 0, 0, 1]),
        entry("2024-01-01T08:00:00Z", "B", "/p/one", "s3", [0, 1, 0, 0]),
    ]
}

#[test]
fn totals_add_up_all_entries() {
    let t = usage_totals(&sample());
    assert_eq!(t.total_input_tokens, 16);
    assert_eq!(t.total_output_tokens, 23);
    assert_eq!(t.total_cache_creation_tokens, 3);
    assert_eq!(t.total_cache_read_tokens, 5);
    assert_eq!(t.total_tokens, 47);
    assert_eq!(t.total_sessions, 4);
}

#[test]
fn no_entries_give_zero_totals_and_no_groups() {
    let s = summarize_usage(&Vec::new());
    assert_eq!(s.totals.total_tokens, 0);
    assert_eq!(s.totals.total_sessions, 0);
    assert!(s.by_model.is_empty() && s.by_date.is_empty() && s.by_project.is_empty());
}

#[test]
fn models_in_order_of_first_use() {
    let m = usage_by_model(&sample());
    assert_eq!(m.len(), 2);
    assert_eq!(m[0].model, "A");
    assert_eq!((m[0].input_tokens, m[0].output_tokens, m[0].cache_creation_tokens, m[0].cache_read_tokens), (6, 2, 3, 5));
    assert_eq!(m[0].total_tokens, 8);
    assert_eq!(m[0].session_count, 2);
    assert_eq!(m[0].entries, vec![0, 2]);
    assert_eq!(m[1].model, "B");
    assert_eq!(m[1].total_tokens, 31);
    assert_eq!(m[1].entries, vec![1, 3]);
}

#[test]
fn group_sums_add_up_to_the_totals() {
    let es = sample();
    let t = usage_totals(&es);
    let m = usage_by_model(&es);
    assert_eq!(m.iter().map(|g| g.input_tokens).sum::<u64>(), t.total_input_tokens);
    assert_eq!(m.iter().map(|g| g.session_count).sum::<u64>(), t.total_sessions);
    let p = usage_by_project(&es);
    assert_eq!(p.iter().map(|g| g.total_tokens).sum::<u64>(), t.total_tokens);
    let d = usage_by_date(&es);
    assert_eq!(d.iter().map(|g| g.total_tokens).sum::<u64>(), t.total_tokens);
    let s = usage_by_session(&es, &None);
    assert_eq!(s.iter().map(|g| g.session_count).sum::<u64>(), t.total_sessions);
}

#[test]
fn days_latest_first_with_their_models() {
    let d = usage_by_date(&sample());
    assert_eq!(d.len(), 2);
    assert_eq!(d[0].date, "2024-01-02");
    assert_eq!(d[0].total_tokens, 30);
    assert_eq!(d[0].models_used, vec!["B".to_string()]);
    assert_eq!(d[0].entries, vec![1]);
    assert_eq!(d[1].date, "2024-01-01");
    assert_eq!(d[1].total_tokens, 17);
    assert_eq!(d[1].models_used, vec!["A".to_string(), "B".to_string()]);
    assert_eq!(d[1].entries, vec![0, 2, 3]);
}

#[test]
fn a_timestamp_without_time_is_its_own_day() {
    let d = usage_by_date(&vec![entry("2024-05-05", "A", "/p", "s", [1, 0, 0, 0])]);
    assert_eq!(d[0].date, "2024-05-05");
}

#[test]
fn projects_named_by_last_piece_with_latest_use() {
    let p = usage_by_project(&sample());
    assert_eq!(p.len(), 2);
    assert_eq!(p[0].project_path, "/p/one");
    assert_eq!(p[0].project_name, "one");
    assert_eq!(p[0].total_tokens, 17);
    assert_eq!(p[0].session_count, 3);
    assert_eq!(p[0].last_used, "2024-01-01T12:00:00Z");
    assert_eq!(p[1].project_name, "two");
    assert_eq!(p[1].last_used, "2024-01-02T09:00:00Z");
}

#[test]
fn sessions_latest_first_by_default() {
    let s = usage_by_session(&sample(), &None);
    let names: Vec<&str> = s.iter().map(|g| g.project_name.as_str()).collect();
    assert_eq!(names, vec!["s2", "s1", "s3"]);
    assert_eq!(s[1].project_path, "/p/one");
    assert_eq!(s[1].total_tokens, 16);
    assert_eq!(s[1].session_count, 2);
    assert_eq!(s[1].last_used, "2024-01-01T12:00:00Z");
    let s = usage_by_session(&sample(), &Some("desc".to_string()));
    let names: Vec<&str> = s.iter().map(|g| g.project_name.as_str()).collect();
    assert_eq!(names, vec!["s2", "s1", "s3"]);
}

#[test]
fn sessions_earliest_first_when_ascending() {
    let s = usage_by_session(&sample(), &Some("asc".to_string()));
    let names: Vec<&str> = s.iter().map(|g| g.project_name.as_str()).collect();
    assert_eq!(names, vec!["s3", "s1", "s2"]);
}

#[test]
fn session_last_use_starts_from_a_space() {
    let s = usage_by_session(&vec![entry("", "A", "/p", "s", [1, 0, 0, 0])], &None);
    assert_eq!(s[0].last_used, " ");
}

#[test]
fn details_filter_by_project_and_day() {
    let pick = |p: Option<&str>, d: Option<&str>| -> Vec<String> {
        usage_details(sample(), &p.map(|s| s.to_string()), &d.map(|s| s.to_string()))
            .into_iter()
            .map(|e| e.timestamp)
            .collect()
    };
    assert_eq!(
        pick(Some("/p/one"), Some("2024-01-01")),
        vec!["2024-01-01T10:00:00Z", "2024-01-01T12:00:00Z", "2024-01-01T08:00:00Z"]
    );
    assert_eq!(pick(Some("/p/two"), None), vec!["2024-01-02T09:00:00Z"]);
    assert_eq!(pick(None, Some("2024-01-02")), vec!["2024-01-02T09:00:00Z"]);
    assert_eq!(pick(None, None).len(), 4);
    assert!(pick(Some("/p"), None).is_empty());
}

#[test]
fn token_totals_must_fit() {
    assert!(tokens_fit(&sample()));
    let big = vec![entry("t", "A", "/p", "s", [u64::MAX, 0, 0, 0]), entry("t", "A", "/p", "s", [0, 1, 0, 0])];
    assert!(!tokens_fit(&big));
    assert!(tokens_fit(&vec![entry("t", "A", "/p", "s", [u64::MAX, 0, 0, 0])]));
}

#[test]
fn sessions_need_only_their_own_tokens_to_fit() {
    let half = 1u64 << 63;
    let es = vec![
        entry("2024-01-01T00:00:00Z", "A", "/p", "s1", [half, 0, 0, 0]),
        entry("2024-01-02T00:00:00Z", "A", "/p", "s2", [half, 0, 0, 0]),
    ];
    assert!(!tokens_fit(&es));
    assert!(session_tokens_fit(&es));
    let s = usage_by_session(&es, &Some("asc".to_string()));
    assert_eq!(s.len(), 2);
    assert_eq!(s[0].project_name, "s1");
    assert_eq!(s[0].total_tokens, half);
    assert_eq!(s[1].project_name, "s2");
    assert_eq!(s[1].total_tokens, half);
    let same = vec![
        entry("2024-01-01T00:00:00Z", "A", "/p", "s1", [half, 0, 0, 0]),
        entry("2024-01-02T00:00:00Z", "A", "/p", "s1", [half, 0, 0, 0]),
    ];
    assert!(!session_tokens_fit(&same));
    let two_models = vec![
        entry("2024-01-01T00:00:00Z", "A", "/p", "s1", [half, 0, 0, 0]),
        entry("2024-01-02T00:00:00Z", "B", "/q", "s2", [half, 0, 0, 0]),
    ];
    let m = usage_by_model(&two_models);
    assert_eq!(m.len(), 2);
    assert_eq!(m[1].input_tokens, half);
    assert_eq!(usage_by_project(&two_models).len(), 2);
}
