use aichat_core::history::{
    detect_cache_warm_field, parse_vim_history_turns, split_json_content_blocks,
    truncate_turn_content, CacheContentBlock, VimHistoryTurn, HEAD_CHARS, MAX_HISTORY_TURN_CHARS,
    TAIL_CHARS,
};
use aichat_core::json::{Json, JsonNumber};
use serde_json::Value;

fn to_json(v: &Value) -> Json {
    match v {
        Value::Null => Json::Null,
        Value::Bool(b) => Json::Bool(*b),
        Value::Number(n) => Json::Number(JsonNumber {
            text: n.to_string(),
            as_u64: n.as_u64(),
            as_i64: n.as_i64(),
        }),
        Value::String(s) => Json::Str(s.clone()),
        Value::Array(a) => Json::Array(a.iter().map(to_json).collect()),
        Value::Object(m) => Json::Object(m.iter().map(|(k, v)| (k.clone(), to_json(v))).collect()),
    }
}

fn doc(s: &str) -> Option<Json> {
    serde_json::from_str::<Value>(s).ok().map(|v| to_json(&v))
}

fn turns_of(s: &str) -> Vec<VimHistoryTurn> {
    parse_vim_history_turns(doc(s).as_ref())
}

fn blocks_of(s: &str) -> Vec<CacheContentBlock> {
    split_json_content_blocks(doc(s).as_ref())
}

#[test]
fn test_parse_vim_history_turns_normal() {
    let json = r#"{"llm_history_turns": [
        {"user": "Hello", "assistant": "Hi there!"},
        {"user": "How are you?", "assistant": "I'm doing well."}
    ]}"#;
    let turns = turns_of(json);
    assert_eq!(turns.len(), 2);
    assert_eq!(turns[0].user, "Hello");
    assert_eq!(turns[0].assistant, "Hi there!");
    assert_eq!(turns[1].user, "How are you?");
    assert_eq!(turns[1].assistant, "I'm doing well.");
}

#[test]
fn test_parse_vim_history_turns_empty_assistant() {
    let json = r#"{"llm_history_turns": [
        {"user": "Hello", "assistant": ""},
        {"user": "Still waiting"}
    ]}"#;
    let turns = turns_of(json);
    assert_eq!(turns.len(), 2);
    assert_eq!(turns[0].user, "Hello");
    assert_eq!(turns[0].assistant, "");
    assert_eq!(turns[1].user, "Still waiting");
    assert_eq!(turns[1].assistant, "");
}

#[test]
fn test_parse_vim_history_turns_null_assistant() {
    let json = r#"{"llm_history_turns": [
        {"user": "Hello", "assistant": null}
    ]}"#;
    let turns = turns_of(json);
    assert_eq!(turns.len(), 1);
    assert_eq!(turns[0].user, "Hello");
    assert_eq!(turns[0].assistant, "");
}

#[test]
fn test_parse_vim_history_turns_missing_user() {
    let json = r#"{"llm_history_turns": [
        {"assistant": "orphan response"},
        {"user": "Valid turn", "assistant": "Valid response"}
    ]}"#;
    let turns = turns_of(json);
    assert_eq!(turns.len(), 1);
    assert_eq!(turns[0].user, "Valid turn");
}

#[test]
fn test_parse_vim_history_turns_empty_user() {
    let json = r#"{"llm_history_turns": [
        {"user": "", "assistant": "response to nothing"},
        {"user": "   ", "assistant": "response to whitespace"},
        {"user": "\t\n", "assistant": "response to control chars"},
        {"user": "Valid", "assistant": "OK"}
    ]}"#;
    let turns = turns_of(json);
    assert_eq!(turns.len(), 1);
    assert_eq!(turns[0].user, "Valid");
    assert_eq!(turns[0].assistant, "OK");
}

#[test]
fn test_parse_vim_history_turns_special_characters() {
    let json = r#"{"llm_history_turns": [
        {"user": "Hello 🌍 世界", "assistant": "こんにちは! 🎉"},
        {"user": "Line1\nLine2\tTabbed", "assistant": "\"Quoted\" & <escaped>"},
        {"user": "Back\\slash", "assistant": "Forward/slash"}
    ]}"#;
    let turns = turns_of(json);
    assert_eq!(turns.len(), 3);
    assert_eq!(turns[0].user, "Hello 🌍 世界");
    assert_eq!(turns[0].assistant, "こんにちは! 🎉");
    assert_eq!(turns[1].user, "Line1\nLine2\tTabbed");
    assert_eq!(turns[1].assistant, "\"Quoted\" & <escaped>");
    assert_eq!(turns[2].user, "Back\\slash");
    assert_eq!(turns[2].assistant, "Forward/slash");
}

#[test]
fn test_parse_vim_history_turns_non_json() {
    assert_eq!(turns_of("not json at all").len(), 0);
    assert_eq!(turns_of("").len(), 0);
    assert_eq!(turns_of("[1,2,3]").len(), 0);
    assert_eq!(turns_of("plain text content").len(), 0);
}

#[test]
fn test_parse_vim_history_turns_no_field() {
    let json = r#"{"other_field": "value", "prompt": "hello"}"#;
    assert_eq!(turns_of(json).len(), 0);
}

#[test]
fn test_parse_vim_history_turns_empty_array() {
    let json = r#"{"llm_history_turns": []}"#;
    assert_eq!(turns_of(json).len(), 0);
}

#[test]
fn test_parse_vim_history_turns_non_string_values() {
    let json = r#"{"llm_history_turns": [
        {"user": 42, "assistant": "response"},
        {"user": true, "assistant": "response"},
        {"user": "Valid", "assistant": 123}
    ]}"#;
    let turns = turns_of(json);
    assert_eq!(turns.len(), 1);
    assert_eq!(turns[0].user, "Valid");
    assert_eq!(turns[0].assistant, "");
}

#[test]
fn test_parse_vim_history_turns_truncation() {
    let long_user = "x".repeat(MAX_HISTORY_TURN_CHARS + 100);
    let long_assistant = "y".repeat(MAX_HISTORY_TURN_CHARS + 500);
    let json = format!(
        r#"{{"llm_history_turns": [{{"user": "{}", "assistant": "{}"}}]}}"#,
        long_user, long_assistant
    );
    let turns = turns_of(&json);
    assert_eq!(turns.len(), 1);
    assert!(turns[0].user.len() < long_user.len());
    assert!(turns[0].user.starts_with(&"x".repeat(HEAD_CHARS)));
    assert!(turns[0].user.ends_with(&"x".repeat(TAIL_CHARS)));
    assert!(turns[0].user.contains("[..."));
    assert!(turns[0].assistant.len() < long_assistant.len());
    assert!(turns[0].assistant.starts_with(&"y".repeat(HEAD_CHARS)));
    assert!(turns[0].assistant.ends_with(&"y".repeat(TAIL_CHARS)));
    assert!(turns[0].assistant.contains("[..."));
}

#[test]
fn test_truncate_turn_content_under_limit() {
    let short = "Hello, world!";
    assert_eq!(truncate_turn_content(short), short);
}

#[test]
fn test_truncate_turn_content_at_limit() {
    let exact = "a".repeat(MAX_HISTORY_TURN_CHARS);
    assert_eq!(truncate_turn_content(&exact), exact);
}

#[test]
fn test_truncate_turn_content_over_limit() {
    let over = "b".repeat(MAX_HISTORY_TURN_CHARS + 1000);
    let result = truncate_turn_content(&over);
    assert!(result.starts_with(&"b".repeat(HEAD_CHARS)));
    assert!(result.ends_with(&"b".repeat(TAIL_CHARS)));
    assert!(result.contains("[..."));
    assert!(result.len() < over.len());
}

#[test]
fn test_truncate_turn_content_multibyte_boundary() {
    let head_prefix = "a".repeat(HEAD_CHARS - 1);
    let padding = "b".repeat(MAX_HISTORY_TURN_CHARS + 100);
    let input1 = format!("{}─{}", head_prefix, padding);
    let result1 = truncate_turn_content(&input1);
    assert!(result1.starts_with(&head_prefix));
    assert!(!result1[..head_prefix.len()].contains('─'));
    assert!(result1.contains("[..."));

    let tail_prefix2 = "c".repeat(4000);
    let tail_suffix2 = "d".repeat(11998);
    let input2 = format!("{}─{}", tail_prefix2, tail_suffix2);
    let result2 = truncate_turn_content(&input2);
    assert!(result2.contains("[..."));
    let _char_count = result2.chars().count();
    assert!(result2.ends_with(&tail_suffix2));
}

#[test]
fn test_truncate_turn_content_exact_sentinel_format() {
    let extra = 100usize;
    let content = "z".repeat(MAX_HISTORY_TURN_CHARS + extra);
    let result = truncate_turn_content(&content);
    assert!(result.starts_with(&"z".repeat(HEAD_CHARS)));
    assert!(result.ends_with(&"z".repeat(TAIL_CHARS)));
    let head_end = HEAD_CHARS;
    let tail_start = (MAX_HISTORY_TURN_CHARS + extra) - TAIL_CHARS;
    let expected_dropped = tail_start - head_end;
    let expected_sentinel = format!(
        "\n[... {} chars truncated from middle ...]\n",
        expected_dropped
    );
    assert!(
        result.contains(&expected_sentinel),
        "Expected sentinel '{}' not found in result",
        expected_sentinel
    );
    assert_eq!(
        result.matches(&expected_sentinel as &str).count(),
        1,
        "Sentinel should appear exactly once"
    );
}

#[test]
fn test_truncate_turn_content_exact_limit_boundary() {
    let content = "q".repeat(MAX_HISTORY_TURN_CHARS + 1);
    let result = truncate_turn_content(&content);
    assert!(result.starts_with(&"q".repeat(HEAD_CHARS)));
    assert!(result.ends_with(&"q".repeat(TAIL_CHARS)));
    assert!(result.contains("\n[... 1 chars truncated from middle ...]\n"));
}

#[test]
fn test_truncate_turn_content_no_sentinel_at_limit() {
    let content = "r".repeat(MAX_HISTORY_TURN_CHARS);
    let result = truncate_turn_content(&content);
    assert!(!result.contains("[..."));
    assert_eq!(result, content);
}

#[test]
fn test_split_json_content_blocks_normal() {
    let json = r#"{"llm_history": "history text", "buffers": [{"name": "test.rs"}], "active_buffer": "fn main() {}", "prompt": "explain this", "_cache_hints": {"breakpoint_after": ["llm_history", "buffers"], "stable_fields": ["llm_history", "buffers"], "dynamic_fields": ["prompt"]}}"#;
    let blocks = blocks_of(json);
    assert_eq!(blocks.len(), 4);
    assert_eq!(blocks[0].field_name, "llm_history");
    assert_eq!(blocks[0].text, "history text");
    assert!(blocks[0].is_breakpoint);
    assert_eq!(blocks[1].field_name, "buffers");
    assert!(blocks[1].text.starts_with("buffers:"));
    assert!(blocks[1].is_breakpoint);
    assert_eq!(blocks[2].field_name, "active_buffer");
    assert_eq!(blocks[2].text, "fn main() {}");
    assert!(!blocks[2].is_breakpoint);
    assert_eq!(blocks[3].field_name, "prompt");
    assert_eq!(blocks[3].text, "explain this");
    assert!(!blocks[3].is_breakpoint);
}

#[test]
fn test_split_json_content_blocks_no_hints() {
    let json = r#"{"llm_history": "text", "buffers": [], "prompt": "hello"}"#;
    let blocks = blocks_of(json);
    assert!(blocks.is_empty());
}

#[test]
fn test_split_json_content_blocks_empty_breakpoint_after() {
    let json = r#"{"prompt": "hello", "_cache_hints": {"breakpoint_after": []}}"#;
    let blocks = blocks_of(json);
    assert!(blocks.is_empty());
}

#[test]
fn test_split_json_content_blocks_skips_metadata_fields() {
    let json = r#"{"llm_history_turns": [{"user": "hi"}], "buffers": "buf content", "_internal": "skip me", "prompt": "hello", "_cache_hints": {"breakpoint_after": ["buffers"]}}"#;
    let blocks = blocks_of(json);
    assert_eq!(blocks.len(), 2);
    assert_eq!(blocks[0].field_name, "buffers");
    assert_eq!(blocks[1].field_name, "prompt");
}

#[test]
fn test_split_json_content_blocks_skips_null_and_empty() {
    let json = r#"{"field1": null, "field2": "", "field3": "content", "_cache_hints": {"breakpoint_after": ["field3"]}}"#;
    let blocks = blocks_of(json);
    assert_eq!(blocks.len(), 1);
    assert_eq!(blocks[0].field_name, "field3");
    assert_eq!(blocks[0].text, "content");
    assert!(blocks[0].is_breakpoint);
}

#[test]
fn test_split_json_content_blocks_non_json() {
    assert!(blocks_of("not json").is_empty());
    assert!(blocks_of("").is_empty());
    assert!(blocks_of("[1,2,3]").is_empty());
}

#[test]
fn test_split_json_content_blocks_preserves_order() {
    let json = r#"{"alpha": "aaa", "beta": "bbb", "gamma": "ggg", "_cache_hints": {"breakpoint_after": ["beta"]}}"#;
    let blocks = blocks_of(json);
    assert_eq!(blocks.len(), 3);
    assert_eq!(blocks[0].field_name, "alpha");
    assert!(!blocks[0].is_breakpoint);
    assert_eq!(blocks[1].field_name, "beta");
    assert!(blocks[1].is_breakpoint);
    assert_eq!(blocks[2].field_name, "gamma");
    assert!(!blocks[2].is_breakpoint);
}

#[test]
fn test_split_json_content_blocks_object_value() {
    let json = r#"{"config": {"key": "value", "num": 42}, "prompt": "hi", "_cache_hints": {"breakpoint_after": ["config"]}}"#;
    let blocks = blocks_of(json);
    assert_eq!(blocks.len(), 2);
    assert_eq!(blocks[0].field_name, "config");
    assert!(blocks[0].text.starts_with("config:"));
    assert!(blocks[0].text.contains("\"key\""));
    assert!(blocks[0].is_breakpoint);
}

#[test]
fn cache_warm_field_values() {
    assert!(detect_cache_warm_field(doc(r#"{"_cache_warm": true}"#).as_ref()));
    assert!(detect_cache_warm_field(doc(r#"{"_cache_warm": 1}"#).as_ref()));
    assert!(detect_cache_warm_field(doc(r#"{"_cache_warm": "1"}"#).as_ref()));
    assert!(detect_cache_warm_field(doc(r#"{"_cache_warm": "true"}"#).as_ref()));
    assert!(!detect_cache_warm_field(doc(r#"{"_cache_warm": false}"#).as_ref()));
    assert!(!detect_cache_warm_field(doc(r#"{"_cache_warm": 2}"#).as_ref()));
    assert!(!detect_cache_warm_field(doc("not json").as_ref()));
}

#[test]
fn truncation_counts_dropped_bytes() {
    let content = "m".repeat(MAX_HISTORY_TURN_CHARS + 10);
    let result = truncate_turn_content(&content);
    let expected = format!(
        "{}\n[... 10 chars truncated from middle ...]\n{}",
        "m".repeat(HEAD_CHARS),
        "m".repeat(TAIL_CHARS)
    );
    assert_eq!(result, expected);
}
