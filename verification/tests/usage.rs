use std::collections::HashSet;

use claudia::collect::{collect_usage, earliest_timestamp, file_in_range, project_of_path, LogFile};
use claudia::dates::{parse_compact_day, stats_window, usage_range, Day};
use claudia::usage::{
    parse_usage_file, price_tier, session_id_from_path, CostBasis, PriceTier,
};

fn day(year: i32, month: u32, day: u32) -> Day {
    Day { year, month, day }
}

fn log_line(ts: &str, session: &str, msg: &str, req: &str, model: &str, input: u64, output: u64) -> String {
    format!(
        r#"{{"timestamp":"{}","sessionId":"{}","requestId":"{}","message":{{"id":"{}","model":"{}","usage":{{"input_tokens":{},"output_tokens":{}}}}}}}"#,
        ts, session, req, msg, model, input, output
    )
}

#[test]
fn usage_file_entries_follow_the_log() {
    let content = [
        r#"{"cwd":"/home/u/proj","type":"user"}"#.to_string(),
        log_line("2024-01-01T10:00:00Z", "s1", "m1", "r1", "sonnet-4-20250514", 10, 20),
        log_line("2024-01-01T10:00:01Z", "s1", "m1", "r1", "sonnet-4-20250514", 10, 20),
        "".to_string(),
        "not json".to_string(),
        r#"{"timestamp":"2024-01-01T11:00:00Z","message":{"usage":{"input_tokens":0,"output_tokens":0}}}"#
            .to_string(),
        r#"{"timestamp":"2024-01-01T12:00:00Z","costUSD":0.5,"message":{"usage":{"cache_read_input_tokens":7}}}"#
            .to_string(),
    ]
    .join("\n");
    let mut seen = HashSet::new();
    let entries = parse_usage_file(&content, "projects/enc/abc.jsonl", "enc", &mut seen);
    assert_eq!(entries.len(), 2);
    let a = &entries[0];
    assert_eq!(a.timestamp, "2024-01-01T10:00:00Z");
    assert_eq!(a.model, "sonnet-4-20250514");
    assert_eq!((a.input_tokens, a.output_tokens, a.cache_creation_tokens, a.cache_read_tokens), (10, 20, 0, 0));
    assert!(matches!(a.cost, CostBasis::Rated(PriceTier::Sonnet4)));
    assert_eq!(a.session_id, "s1");
    assert_eq!(a.project_path, "/home/u/proj");
    let b = &entries[1];
    assert_eq!(b.model, "unknown");
    assert_eq!(b.cache_read_tokens, 7);
    match &b.cost {
        CostBasis::Reported(v) => assert_eq!(v.as_f64(), Some(0.5)),
        _ => panic!("expected a reported cost"),
    }
    assert_eq!(b.session_id, "abc");
    assert!(seen.contains("m1:r1"));
    assert_eq!(seen.len(), 1);
}

#[test]
fn usage_file_without_cwd_uses_the_encoded_name() {
    let content = log_line("2024-01-01T10:00:00Z", "s1", "m1", "r1", "gpt", 1, 0);
    let mut seen = HashSet::new();
    let entries = parse_usage_file(&content, "projects/enc/abc.jsonl", "enc-name", &mut seen);
    assert_eq!(entries.len(), 1);
    assert_eq!(entries[0].project_path, "enc-name");
    assert!(matches!(entries[0].cost, CostBasis::Rated(PriceTier::Unpriced)));
}

#[test]
fn usage_file_skips_keys_already_seen_in_the_batch() {
    let content = log_line("2024-01-01T10:00:00Z", "s1", "m1", "r1", "gpt", 1, 0);
    let mut seen = HashSet::new();
    seen.insert("m1:r1".to_string());
    let entries = parse_usage_file(&content, "projects/enc/abc.jsonl", "enc", &mut seen);
    assert!(entries.is_empty());
}

#[test]
fn price_tiers_follow_the_model_name() {
    assert_eq!(price_tier("x-opus-4-20250514"), PriceTier::Opus4);
    assert_eq!(price_tier("opus-4"), PriceTier::Opus4);
    assert_eq!(price_tier("y-sonnet-4"), PriceTier::Sonnet4);
    assert_eq!(price_tier("3-5-sonnet"), PriceTier::Unpriced);
}

#[test]
fn session_ids_come_from_file_names() {
    assert_eq!(session_id_from_path("projects/p/abc.jsonl"), "abc");
    assert_eq!(session_id_from_path("abc.jsonl"), "abc");
    assert_eq!(session_id_from_path("projects/p/abc.txt"), "unknown");
}

#[test]
fn project_directory_is_the_second_piece_under_projects() {
    assert_eq!(project_of_path("projects/my-proj/s.jsonl"), Some("my-proj".to_string()));
    assert_eq!(project_of_path("projects/my-proj"), Some("my-proj".to_string()));
    assert_eq!(project_of_path("projects"), None);
    assert_eq!(project_of_path("other/my-proj/s.jsonl"), None);
    assert_eq!(project_of_path("projects/"), Some("".to_string()));
}

#[test]
fn earliest_timestamp_reads_only_the_first_ten_lines() {
    let mut lines: Vec<String> = (0..10).map(|_| r#"{"type":"x"}"#.to_string()).collect();
    lines.push(r#"{"timestamp":"late"}"#.to_string());
    assert_eq!(earliest_timestamp(&Some(lines.join("\n"))), None);
    let text = "garbage\n{\"timestamp\":\"2024-01-01T00:00:00Z\"}\n{\"timestamp\":\"x\"}".to_string();
    assert_eq!(earliest_timestamp(&Some(text)), Some("2024-01-01T00:00:00Z".to_string()));
    assert_eq!(earliest_timestamp(&None), None);
}

#[test]
fn files_without_a_readable_date_stay_in_range() {
    let start = Some(day(2024, 1, 1));
    let end = Some(day(2024, 1, 31));
    assert!(file_in_range(&None, start, end));
    assert!(file_in_range(&Some("yesterday".to_string()), start, end));
    assert!(file_in_range(&Some("2024-01-15T00:00:00Z".to_string()), start, end));
    assert!(!file_in_range(&Some("2023-12-31T23:00:00Z".to_string()), start, end));
    assert!(file_in_range(&Some("2024-01-01T01:00:00+05:00".to_string()), start, end));
    assert!(!file_in_range(&Some("2024-02-01T00:00:00Z".to_string()), start, end));
}

fn log_file(path: &str, lines: &[String]) -> LogFile {
    LogFile { path: path.to_string(), content: Some(lines.join("\n")) }
}

#[test]
fn collected_entries_are_in_time_order_and_unique() {
    let files = vec![
        log_file(
            "projects/p1/a.jsonl",
            &[
                log_line("2024-01-02T00:00:00Z", "sa", "m1", "r1", "opus-4", 1, 1),
                log_line("2024-01-01T05:00:00Z", "sa", "m2", "r2", "opus-4", 2, 2),
            ],
        ),
        log_file(
            "projects/p2/b.jsonl",
            &[
                log_line("2023-12-31T00:00:00Z", "sb", "m3", "r3", "sonnet-4", 3, 3),
                log_line("2024-01-02T00:00:00Z", "sa", "m4", "r4", "sonnet-4", 4, 4),
            ],
        ),
        log_file("other/c.jsonl", &[log_line("2020-01-01T00:00:00Z", "sc", "m5", "r5", "x", 5, 5)]),
        LogFile { path: "projects/p3/unreadable.jsonl".to_string(), content: None },
    ];
    let r = collect_usage(files, None, None);
    let stamps: Vec<(&str, &str)> =
        r.entries.iter().map(|e| (e.timestamp.as_str(), e.session_id.as_str())).collect();
    assert_eq!(
        stamps,
        vec![
            ("2023-12-31T00:00:00Z", "sb"),
            ("2024-01-01T05:00:00Z", "sa"),
            ("2024-01-02T00:00:00Z", "sa"),
        ]
    );
    assert_eq!(r.entries[2].input_tokens, 4);
    assert_eq!(
        r.file_timestamps,
        vec![
            ("projects/p2/b.jsonl".to_string(), "2023-12-31T00:00:00Z".to_string()),
            ("projects/p1/a.jsonl".to_string(), "2024-01-02T00:00:00Z".to_string()),
        ]
    );
}

#[test]
fn collected_entries_follow_the_date_range_of_their_files() {
    let files = vec![
        log_file("projects/p1/a.jsonl", &[log_line("2024-01-02T00:00:00Z", "sa", "m1", "r1", "m", 1, 1)]),
        log_file("projects/p2/b.jsonl", &[log_line("2023-12-31T00:00:00Z", "sb", "m3", "r3", "m", 3, 3)]),
        log_file("projects/p3/c.jsonl", &[r#"{"timestamp":"soon","message":{"usage":{"input_tokens":9}}}"#.to_string()]),
    ];
    let r = collect_usage(files, Some(day(2024, 1, 1)), None);
    let stamps: Vec<&str> = r.entries.iter().map(|e| e.timestamp.as_str()).collect();
    assert_eq!(stamps, vec!["2024-01-02T00:00:00Z", "soon"]);
}

#[test]
fn message_keys_are_shared_within_a_batch_only() {
    let mut files = Vec::new();
    for i in 0..51 {
        let ts = format!("2024-01-01T00:00:{:02}Z", i);
        files.push(log_file(&format!("projects/p/s{:02}.jsonl", i), &[log_line(&ts, &format!("s{}", i), "m", "r", "x", 1, 0)]));
    }
    let r = collect_usage(files, None, None);
    // the first batch of fifty logs keeps the key once; the last log is read
    // in a second batch with a fresh set of keys
    assert_eq!(r.entries.len(), 2);
    assert_eq!(r.entries[0].timestamp, "2024-01-01T00:00:00Z");
    assert_eq!(r.entries[1].timestamp, "2024-01-01T00:00:50Z");
}

#[test]
fn requested_ranges_parse_dates_then_timestamps() {
    assert_eq!(usage_range("2024-01-05", "2024-02-01"), Ok((day(2024, 1, 5), day(2024, 2, 1))));
    assert_eq!(
        usage_range("2024-01-05T23:30:00-05:00", "2024-02-01"),
        Ok((day(2024, 1, 5), day(2024, 2, 1)))
    );
    let e = usage_range("bad", "also bad").unwrap_err();
    assert!(e.starts_with("Invalid start date: "), "{}", e);
    let e = usage_range("2024-01-05", "bad").unwrap_err();
    assert!(e.starts_with("Invalid end date: "), "{}", e);
}

#[test]
fn session_bounds_are_compact_dates() {
    assert_eq!(parse_compact_day(&Some("20240105".to_string())), Some(day(2024, 1, 5)));
    assert_eq!(parse_compact_day(&Some("2024-01-05".to_string())), None);
    assert_eq!(parse_compact_day(&None), None);
}

#[test]
fn stats_window_counts_days_back_from_today() {
    assert_eq!(stats_window(day(2024, 3, 1), Some(1)), Some((Some(day(2024, 2, 29)), Some(day(2024, 3, 1)))));
    assert_eq!(stats_window(day(2024, 3, 1), Some(0)), Some((Some(day(2024, 3, 1)), Some(day(2024, 3, 1)))));
    assert_eq!(stats_window(day(2024, 3, 1), None), Some((None, None)));
    assert_eq!(stats_window(day(2024, 3, 1), Some(u32::MAX)), None);
}

#[test]
fn date_range_of_the_last_days_is_their_window() {
    let today = day(2024, 3, 1);
    let (start, end) = stats_window(today, Some(30)).unwrap();
    assert_eq!(start, Some(day(2024, 1, 31)));
    assert_eq!(usage_range("2024-01-31", "2024-03-01"), Ok((start.unwrap(), end.unwrap())));
}
