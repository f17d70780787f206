use claudia::jsonl_loader::{JsonlEntry, JsonlLoader, MessageContent};

#[test]
fn test_parse_conversation_entry() {
    let mut loader = JsonlLoader::new(false);

    let json = r#"{"cwd":"/home/user","version":"1.0.0","isSidechain":false,"type":"message","parentUuid":null,"sessionId":"abc-123","uuid":"def-456","timestamp":"2024-01-01T00:00:00Z","userType":"human","message":{"role":"user","content":"Hello"}}"#;

    match loader.parse_line(json) {
        JsonlEntry::Conversation(entry) => {
            assert_eq!(entry.cwd, Some("/home/user".to_string()));
            assert_eq!(entry.session_id, "abc-123");
            assert!(!entry.is_sidechain);
        }
        _ => panic!("Expected conversation entry"),
    }
}

#[test]
fn test_parse_summary_entry() {
    let mut loader = JsonlLoader::new(false);

    let json = r#"{"type":"summary","summary":"Test summary","leafUuid":"abc-123"}"#;

    match loader.parse_line(json) {
        JsonlEntry::Summary(entry) => {
            assert_eq!(entry.summary, "Test summary");
            assert_eq!(entry.leaf_uuid, "abc-123");
        }
        _ => panic!("Expected summary entry"),
    }
}

#[test]
fn test_parse_invalid_json() {
    let mut loader = JsonlLoader::new(false);

    match loader.parse_line("not valid json") {
        JsonlEntry::Invalid(err, _) => {
            assert!(err.contains("JSON parse error"));
        }
        _ => panic!("Expected invalid entry"),
    }
}

#[test]
fn empty_line_is_invalid_and_not_counted() {
    let mut loader = JsonlLoader::new(true);
    match loader.parse_line("  \t ") {
        JsonlEntry::Invalid(err, raw) => {
            assert_eq!(err, "Empty line");
            assert_eq!(raw, "  \t ");
        }
        _ => panic!("Expected invalid entry"),
    }
    assert_eq!(loader.get_error_count(), 0);
    assert_eq!(loader.get_stats().len(), 0);
    assert!(loader.has_room());
}

#[test]
fn unknown_schema_is_named_by_sorted_keys() {
    let mut loader = JsonlLoader::new(false);
    match loader.parse_line(r#"{"zeta":1,"alpha":2,"mid":null}"#) {
        JsonlEntry::Unknown(v) => assert!(v.is_object()),
        _ => panic!("Expected unknown entry"),
    }
    assert_eq!(loader.get_stats().get(&"unknown_alpha_mid_zeta".to_string()), Some(&1));
    assert_eq!(loader.get_error_count(), 0);
}

#[test]
fn strict_mode_rejects_unknown_schema() {
    let mut loader = JsonlLoader::new(true);
    match loader.parse_line("[1,2]") {
        JsonlEntry::Invalid(err, raw) => {
            assert_eq!(err, "Unknown schema type: invalid_not_object");
            assert_eq!(raw, "[1,2]");
        }
        _ => panic!("Expected invalid entry"),
    }
    assert_eq!(loader.get_error_count(), 1);
    assert_eq!(loader.get_stats().get(&"invalid_not_object".to_string()), Some(&1));
}

#[test]
fn conversation_with_missing_field_is_an_error() {
    let mut loader = JsonlLoader::new(false);
    let json = r#"{"message":{"role":"user","content":"x"},"sessionId":"s","timestamp":"t"}"#;
    match loader.parse_line(json) {
        JsonlEntry::Invalid(err, _) => {
            assert_eq!(err, "Failed to parse conversation entry: missing field `version`");
        }
        _ => panic!("Expected invalid entry"),
    }
    assert_eq!(loader.get_error_count(), 1);
    assert_eq!(loader.get_stats().get(&"conversation".to_string()), Some(&1));
}

#[test]
fn conversation_keeps_blocks_usage_and_extra_members() {
    let mut loader = JsonlLoader::new(false);
    let json = r#"{"cwd":null,"version":"1","isSidechain":true,"type":"assistant","sessionId":"s1","uuid":"u","timestamp":"2024-05-01T10:00:00Z","userType":"external","message":{"role":"assistant","model":"sonnet-4","content":[{"type":"text","text":"hi"},{"type":"tool_use","id":"t1","name":"Bash","input":{"cmd":"ls"}}],"usage":{"input_tokens":10,"output_tokens":5}},"gitBranch":"main","requestId":"r1"}"#;
    match loader.parse_line(json) {
        JsonlEntry::Conversation(entry) => {
            assert_eq!(entry.cwd, None);
            assert!(entry.is_sidechain);
            assert_eq!(entry.request_id, Some("r1".to_string()));
            assert_eq!(entry.message.model, Some("sonnet-4".to_string()));
            match &entry.message.content {
                MessageContent::Blocks(bs) => {
                    assert_eq!(bs.len(), 2);
                    assert_eq!(bs[0].text, Some("hi".to_string()));
                    assert_eq!(bs[1].name, Some("Bash".to_string()));
                    assert!(bs[1].input.is_some());
                }
                _ => panic!("Expected blocks"),
            }
            let usage = entry.message.usage.expect("usage");
            assert_eq!(usage.input_tokens, Some(10));
            assert_eq!(usage.output_tokens, Some(5));
            assert_eq!(usage.cache_read_input_tokens, None);
            assert_eq!(entry.extra.len(), 1);
            assert_eq!(entry.extra[0].0, "gitBranch");
        }
        _ => panic!("Expected conversation entry"),
    }
}

#[test]
fn negative_token_count_is_rejected() {
    let mut loader = JsonlLoader::new(false);
    let json = r#"{"version":"1","isSidechain":false,"type":"a","sessionId":"s","uuid":"u","timestamp":"t","userType":"x","message":{"role":"r","content":"c","usage":{"input_tokens":-3}}}"#;
    match loader.parse_line(json) {
        JsonlEntry::Invalid(err, _) => {
            assert_eq!(err, "Failed to parse conversation entry: invalid value: integer `-3`, expected u64");
        }
        _ => panic!("Expected invalid entry"),
    }
}

fn conversation_error(line: &str) -> String {
    let mut loader = JsonlLoader::new(false);
    match loader.parse_line(line) {
        JsonlEntry::Invalid(err, raw) => {
            assert_eq!(raw, line);
            err
        }
        _ => panic!("Expected invalid entry"),
    }
}

const BASE: &str = r#""version":"1","isSidechain":false,"type":"a","sessionId":"s","uuid":"u","timestamp":"t","userType":"x""#;

#[test]
fn type_errors_name_the_value_as_serde_does() {
    let line = format!(r#"{{{},"message":{{"role":"r","content":"c","id":5}}}}"#, BASE);
    assert_eq!(conversation_error(&line), "Failed to parse conversation entry: invalid type: integer `5`, expected a string");
    let line = r#"{"version":"1","isSidechain":1.5,"type":"a","sessionId":"s","uuid":"u","timestamp":"t","userType":"x","message":{"role":"r","content":"c"}}"#;
    assert_eq!(conversation_error(line), "Failed to parse conversation entry: invalid type: floating point `1.5`, expected a boolean");
    let line = r#"{"version":"1","isSidechain":"yes","type":"a","sessionId":"s","uuid":"u","timestamp":"t","userType":"x","message":{"role":"r","content":"c"}}"#;
    assert_eq!(conversation_error(line), "Failed to parse conversation entry: invalid type: string \"yes\", expected a boolean");
    let line = r#"{"version":null,"isSidechain":false,"type":"a","sessionId":"s","uuid":"u","timestamp":"t","userType":"x","message":{"role":"r","content":"c"}}"#;
    assert_eq!(conversation_error(line), "Failed to parse conversation entry: invalid type: null, expected a string");
    let line = format!(r#"{{{},"message":"hello"}}"#, BASE);
    assert_eq!(conversation_error(&line), "Failed to parse conversation entry: invalid type: string \"hello\", expected struct MessageData");
    let line = format!(r#"{{{},"message":{{"role":"r","content":7}}}}"#, BASE);
    assert_eq!(conversation_error(&line), "Failed to parse conversation entry: Content must be string or array");
    let line = format!(r#"{{{},"message":{{"role":"r","content":[{{"text":"t"}}]}}}}"#, BASE);
    assert_eq!(conversation_error(&line), "Failed to parse conversation entry: Failed to parse content blocks: missing field `type`");
}

#[test]
fn records_read_from_arrays_need_every_field() {
    let line = format!(r#"{{{},"message":["user","hi"]}}"#, BASE);
    assert_eq!(
        conversation_error(&line),
        "Failed to parse conversation entry: invalid length 2, expected struct MessageData with 8 elements"
    );
    let line = format!(r#"{{{},"message":["user","hi",null,null,null,null,null,null,null]}}"#, BASE);
    assert_eq!(
        conversation_error(&line),
        "Failed to parse conversation entry: invalid length 9, expected fewer elements in array"
    );
    let line = format!(r#"{{{},"message":["user","hi",null,null,null,null,null,null]}}"#, BASE);
    let mut loader = JsonlLoader::new(false);
    assert!(matches!(loader.parse_line(&line), JsonlEntry::Conversation(_)));
}

#[test]
fn loader_counts_each_schema_and_each_failure_once() {
    let lines = [
        r#"{"leafUuid":"a","summary":"s","type":"summary"}"#,
        "   ",
        "not json",
        r#"{"b":1,"a":2}"#,
        r#"{"leafUuid":"b","summary":"t","type":"summary"}"#,
        r#"{"message":{},"sessionId":"x","timestamp":"t"}"#,
        "[1,2]",
    ];
    let mut loader = JsonlLoader::new(false);
    let mut invalid_non_blank = 0;
    for line in lines.iter() {
        let r = loader.parse_line(line);
        if matches!(r, JsonlEntry::Invalid(_, _)) && !line.trim().is_empty() {
            invalid_non_blank += 1;
        }
    }
    let stats = loader.get_stats();
    assert_eq!(stats.get(&"summary".to_string()), Some(&2));
    assert_eq!(stats.get(&"unknown_a_b".to_string()), Some(&1));
    assert_eq!(stats.get(&"conversation".to_string()), Some(&1));
    assert_eq!(stats.get(&"invalid_not_object".to_string()), Some(&1));
    assert_eq!(stats.len(), 4);
    assert_eq!(loader.get_error_count(), 2);
    assert_eq!(loader.get_error_count(), invalid_non_blank);
}
