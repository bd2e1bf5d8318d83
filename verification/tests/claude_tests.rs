use aichat_core::claude::{
    claude_build_chat_completions_body, claude_extract_chat_completions,
    claude_prepare_chat_completions, claude_supports_extended_cache, extended_cache_name,
    split_data_url, MessagesStreamState, StreamAction,
};
use aichat_core::client::ChatCompletionsData;
use aichat_core::function::{FunctionDeclaration, JsonSchema, ToolCall, ToolResult};
use aichat_core::history::CacheContentBlock;
use aichat_core::json::{to_json_string, Json, JsonNumber};
use aichat_core::message::{
    ImageUrl, Message, MessageContent, MessageContentPart, MessageContentToolCalls, MessageRole,
};
use aichat_core::model::Model;
use serde_json::Value;

fn to_json(v: &Value) -> Json {
    match v {
        Value::Null => Json::Null,
        Value::Bool(b) => Json::Bool(*b),
        Value::Number(n) => Json::Number(JsonNumber {
            text: n.to_string(),
            as_u64: n.as_u64(),
            as_i64: n.as_i64(),
        }),
        Value::String(s) => Json::Str(s.clone()),
        Value::Array(a) => Json::Array(a.iter().map(to_json).collect()),
        Value::Object(m) => Json::Object(m.iter().map(|(k, v)| (k.clone(), to_json(v))).collect()),
    }
}

fn j(s: &str) -> Json {
    to_json(&serde_json::from_str::<Value>(s).unwrap())
}

fn get<'a>(v: &'a Json, key: &str) -> Option<&'a Json> {
    match v {
        Json::Object(m) => m.iter().find(|(k, _)| k == key).map(|(_, v)| v),
        _ => None,
    }
}

fn as_array(v: &Json) -> Option<&Vec<Json>> {
    match v {
        Json::Array(a) => Some(a),
        _ => None,
    }
}

fn as_str(v: &Json) -> Option<&str> {
    match v {
        Json::Str(s) => Some(s.as_str()),
        _ => None,
    }
}

fn empty_schema() -> JsonSchema {
    JsonSchema {
        type_value: Some("object".into()),
        description: None,
        properties: None,
        items: None,
        any_of: None,
        enum_value: None,
        default: None,
        required: None,
    }
}

fn build_failing_shape(model_name: &str) -> Json {
    let functions = vec![
        FunctionDeclaration {
            name: "aaa_first_tool".into(),
            description: "first".into(),
            parameters: empty_schema(),
            agent: false,
        },
        FunctionDeclaration {
            name: "recent_tool_calls".into(),
            description: "last".into(),
            parameters: empty_schema(),
            agent: false,
        },
    ];
    let messages = vec![
        Message::new(MessageRole::System, MessageContent::Text("system prompt".into())),
        Message::new(MessageRole::Assistant, MessageContent::Text("earlier reply".into())),
        Message::new(MessageRole::User, MessageContent::Text("buffers + prompt".into())),
    ];
    let cache_content_blocks = vec![
        CacheContentBlock {
            field_name: "buffers".into(),
            text: "buffer text".into(),
            is_breakpoint: true,
        },
        CacheContentBlock {
            field_name: "prompt".into(),
            text: "prompt text".into(),
            is_breakpoint: true,
        },
    ];
    let data = ChatCompletionsData {
        messages,
        temperature: None,
        top_p: None,
        functions: Some(functions),
        stream: false,
        cache_content_blocks,
        cache_warm: false,
    };
    let model = Model::new("messages", model_name);
    claude_build_chat_completions_body(data, &model).ok().unwrap()
}

fn ttl_seconds(cache_control: &Json) -> u64 {
    match get(cache_control, "ttl").and_then(as_str) {
        Some("1h") => 3600,
        Some("5m") | None => 300,
        Some(other) => panic!("unexpected ttl value: {other}"),
    }
}

fn collect_ttl_sequence(body: &Json) -> Vec<u64> {
    let mut seq = Vec::new();
    if let Some(tools) = get(body, "tools").and_then(as_array) {
        for tool in tools {
            if let Some(cc) = get(tool, "cache_control") {
                seq.push(ttl_seconds(cc));
            }
        }
    }
    if let Some(system) = get(body, "system").and_then(as_array) {
        for block in system {
            if let Some(cc) = get(block, "cache_control") {
                seq.push(ttl_seconds(cc));
            }
        }
    }
    if let Some(messages) = get(body, "messages").and_then(as_array) {
        for msg in messages {
            if let Some(content) = get(msg, "content").and_then(as_array) {
                for block in content {
                    if let Some(cc) = get(block, "cache_control") {
                        seq.push(ttl_seconds(cc));
                    }
                }
            }
        }
    }
    seq
}

#[test]
fn test_cache_control_ttl_sequence_is_non_increasing() {
    let body = build_failing_shape("opus-4-6");
    let seq = collect_ttl_sequence(&body);
    assert!(
        seq.len() >= 3,
        "expected tools + system + message breakpoints, got sequence {seq:?} from body {}",
        to_json_string(&body)
    );
    for w in seq.windows(2) {
        assert!(
            w[0] >= w[1],
            "cache_control TTL sequence must be non-increasing (tools->system->messages), got {seq:?}"
        );
    }
    let tools = get(&body, "tools").and_then(as_array).unwrap();
    let last_tool_cc = get(tools.last().unwrap(), "cache_control").unwrap();
    assert_eq!(ttl_seconds(last_tool_cc), 3600, "tools breakpoint must be stamped ttl=1h");
    let system = get(&body, "system").and_then(as_array).unwrap();
    let system_cc = get(&system[0], "cache_control").unwrap();
    assert_eq!(ttl_seconds(system_cc), 3600, "system block must retain ttl=1h");
    assert_eq!(seq[0], 3600, "first (tools) TTL must be 1h");
    assert_eq!(seq[1], 3600, "second (system) TTL must be 1h");
}

#[test]
fn test_non_extended_model_uniform_5m_still_non_increasing() {
    let body = build_failing_shape("haiku-3");
    let seq = collect_ttl_sequence(&body);
    for &t in &seq {
        assert_eq!(t, 300, "non-extended model must only emit 5m TTLs, got {seq:?}");
    }
    for w in seq.windows(2) {
        assert!(w[0] >= w[1], "sequence must be non-increasing: {seq:?}");
    }
}

#[test]
fn failing_shape_exact_body() {
    let body = build_failing_shape("opus-4-6");
    let expected = [
        r#"{"model":"opus-4-6","messages":["#,
        r#"{"role":"assistant","content":"earlier reply"},"#,
        r#"{"role":"user","content":[{"type":"text","text":"buffer text","cache_control":{"type":"ephemeral"}},"#,
        r#"{"type":"text","text":"prompt text","cache_control":{"type":"ephemeral"}}]}],"#,
        r#""system":[{"type":"text","text":"system prompt","cache_control":{"type":"ephemeral","ttl":"1h"}}],"#,
        r#""tools":[{"name":"aaa_first_tool","description":"first","input_schema":{"type":"object"}},"#,
        r#"{"name":"recent_tool_calls","description":"last","input_schema":{"type":"object"},"cache_control":{"type":"ephemeral","ttl":"1h"}}]}"#
    ].concat();
    assert_eq!(to_json_string(&body), expected);
}

#[test]
fn tools_sorted_by_name_and_single_message_not_cached() {
    let functions = vec![
        FunctionDeclaration {
            name: "zeta".into(),
            description: "z".into(),
            parameters: empty_schema(),
            agent: false,
        },
        FunctionDeclaration {
            name: "alpha".into(),
            description: "a".into(),
            parameters: empty_schema(),
            agent: false,
        },
    ];
    let data = ChatCompletionsData {
        messages: vec![Message::new(MessageRole::User, MessageContent::Text("hi".into()))],
        temperature: None,
        top_p: None,
        functions: Some(functions),
        stream: true,
        cache_content_blocks: vec![],
        cache_warm: true,
    };
    let mut model = Model::new("messages", "haiku-3");
    model.max_output_tokens = Some(4096);
    model.require_max_tokens = true;
    let body = claude_build_chat_completions_body(data, &model).ok().unwrap();
    assert_eq!(
        to_json_string(&body),
        [
            r#"{"model":"haiku-3","messages":[{"role":"user","content":"hi"}],"max_tokens":1,"stream":true,"#,
            r#""tools":[{"name":"alpha","description":"a","input_schema":{"type":"object"}},"#,
            r#"{"name":"zeta","description":"z","input_schema":{"type":"object"},"cache_control":{"type":"ephemeral"}}]}"#
        ].concat()
    );
}

#[test]
fn network_images_are_refused() {
    let parts = vec![
        MessageContentPart::Text { text: "look".into() },
        MessageContentPart::ImageUrl {
            image_url: ImageUrl { url: "https://example.com/a.png".into() },
        },
    ];
    let data = ChatCompletionsData {
        messages: vec![Message::new(MessageRole::User, MessageContent::Array(parts))],
        temperature: None,
        top_p: None,
        functions: None,
        stream: false,
        cache_content_blocks: vec![],
        cache_warm: false,
    };
    let model = Model::new("messages", "haiku-3");
    let err = claude_build_chat_completions_body(data, &model).err().unwrap();
    assert_eq!(err, vec!["https://example.com/a.png".to_string()]);
}

#[test]
fn data_url_images_and_tool_calls() {
    let parts = vec![MessageContentPart::ImageUrl {
        image_url: ImageUrl { url: "data:image/png;base64,AAAA".into() },
    }];
    let call = ToolCall::new("get_time".into(), j(r#"{"tz":"UTC"}"#), Some("t1".into()));
    let tc = MessageContentToolCalls::new(vec![ToolResult::new(call, j(r#"{"now":"12:00"}"#))], "checking".into());
    let data = ChatCompletionsData {
        messages: vec![
            Message::new(MessageRole::User, MessageContent::Array(parts)),
            Message::new(MessageRole::Assistant, MessageContent::ToolCalls(tc)),
        ],
        temperature: None,
        top_p: None,
        functions: None,
        stream: false,
        cache_content_blocks: vec![],
        cache_warm: false,
    };
    let model = Model::new("messages", "haiku-3");
    let body = claude_build_chat_completions_body(data, &model).ok().unwrap();
    assert_eq!(
        to_json_string(&body),
        [
            r#"{"model":"haiku-3","messages":["#,
            r#"{"role":"user","content":[{"type":"image","source":{"type":"base64","media_type":"image/png","data":"AAAA"}}]},"#,
            r#"{"role":"assistant","content":[{"type":"text","text":"checking"},{"type":"tool_use","id":"t1","name":"get_time","input":{"tz":"UTC"}}]},"#,
            r#"{"role":"user","content":[{"type":"tool_result","tool_use_id":"t1","content":"{\"now\":\"12:00\"}","cache_control":{"type":"ephemeral"}}]}]}"#
        ].concat()
    );
}

#[test]
fn earlier_assistant_reasoning_is_stripped() {
    let data = ChatCompletionsData {
        messages: vec![
            Message::new(MessageRole::Assistant, MessageContent::Text("<think>x</think>\n\nanswer".into())),
            Message::new(MessageRole::User, MessageContent::Text("next".into())),
        ],
        temperature: None,
        top_p: None,
        functions: None,
        stream: false,
        cache_content_blocks: vec![],
        cache_warm: false,
    };
    let model = Model::new("messages", "haiku-3");
    let body = claude_build_chat_completions_body(data, &model).ok().unwrap();
    let messages = get(&body, "messages").and_then(as_array).unwrap();
    assert_eq!(as_str(get(&messages[0], "content").unwrap()), Some("answer"));
}

#[test]
fn split_data_url_parts() {
    assert_eq!(
        split_data_url("data:image/jpeg;base64,QUJD"),
        Some(("image/jpeg".to_string(), "QUJD".to_string()))
    );
    assert_eq!(split_data_url("https://x/y.png"), None);
    assert_eq!(split_data_url("data:image/png,raw"), None);
}

#[test]
fn extended_cache_families() {
    assert!(extended_cache_name("sonnet-4-5"));
    assert!(extended_cache_name("opus-5"));
    assert!(!extended_cache_name("3-5-haiku"));
    assert!(claude_supports_extended_cache(&Model::new("messages", "Opus-4-1")));
    assert!(!claude_supports_extended_cache(&Model::new("messages", "haiku-3")));
}

#[test]
fn extract_text_reasoning_and_tools() {
    let data = j(r#"{"id":"msg_1","content":[
        {"type":"thinking","thinking":"hmm"},
        {"type":"text","text":"first"},
        {"type":"text","text":"second"},
        {"type":"tool_use","id":"c1","name":"f","input":{"a":1}}
    ],"usage":{"input_tokens":10,"output_tokens":5,"cache_read_input_tokens":7}}"#);
    let out = claude_extract_chat_completions(&data).ok().unwrap();
    assert_eq!(out.text, "<think>\nhmm\n</think>\n\nfirst\n\nsecond");
    assert_eq!(out.tool_calls.len(), 1);
    assert_eq!(out.tool_calls[0].name, "f");
    assert_eq!(out.tool_calls[0].id, Some("c1".to_string()));
    assert_eq!(to_json_string(&out.tool_calls[0].arguments), r#"{"a":1}"#);
    assert_eq!(out.id, Some("msg_1".to_string()));
    assert_eq!(out.input_tokens, Some(10));
    assert_eq!(out.output_tokens, Some(5));
    assert_eq!(
        to_json_string(out.extra.as_ref().unwrap()),
        r#"{"cache_creation_input_tokens":null,"cache_read_input_tokens":7}"#
    );
}

#[test]
fn extract_empty_is_refused() {
    let data = j(r#"{"content":[]}"#);
    assert_eq!(
        claude_extract_chat_completions(&data).err().unwrap(),
        r#"Invalid response data: {"content":[]}"#
    );
}

fn texts(actions: &[StreamAction]) -> Vec<String> {
    actions
        .iter()
        .map(|a| match a {
            StreamAction::Text(t) => t.clone(),
            StreamAction::ToolCall { name, arguments, id } => format!("call {name} {arguments} {id}"),
        })
        .collect()
}

#[test]
fn stream_thinking_text_and_tool_call() {
    let mut st = MessagesStreamState::new();
    let mut out = vec![];
    for ev in [
        r#"{"type":"content_block_delta","delta":{"thinking":"plan"}}"#,
        r#"{"type":"content_block_stop"}"#,
        r#"{"type":"content_block_delta","delta":{"text":"Hello"}}"#,
        r#"{"type":"content_block_start","content_block":{"type":"tool_use","name":"f","id":"c1"}}"#,
        r#"{"type":"content_block_delta","delta":{"partial_json":"{\"a\":"}}"#,
        r#"{"type":"content_block_delta","delta":{"partial_json":"1}"}}"#,
        r#"{"type":"content_block_stop"}"#,
    ] {
        out.extend(texts(&st.step(&j(ev))));
    }
    assert_eq!(
        out,
        vec![
            "<think>\n".to_string(),
            "plan".to_string(),
            "\n</think>\n\n".to_string(),
            "Hello".to_string(),
            "call f {\"a\":1} c1".to_string(),
        ]
    );
}

#[test]
fn stream_empty_arguments_become_object() {
    let mut st = MessagesStreamState::new();
    st.step(&j(r#"{"type":"content_block_start","content_block":{"type":"tool_use","name":"g","id":"c2"}}"#));
    let acts = st.step(&j(r#"{"type":"content_block_stop"}"#));
    assert_eq!(texts(&acts), vec!["call g {} c2".to_string()]);
}

#[test]
fn prepare_request_headers_and_url() {
    let data = ChatCompletionsData {
        messages: vec![Message::new(MessageRole::User, MessageContent::Text("hi".into()))],
        temperature: None,
        top_p: None,
        functions: None,
        stream: false,
        cache_content_blocks: vec![],
        cache_warm: false,
    };
    let model = Model::new("messages", "sonnet-4-5");
    let req = claude_prepare_chat_completions("k", Some("https://proxy/v1//"), false, data, &model)
        .ok()
        .unwrap();
    assert_eq!(req.url, "https://proxy/v1/messages");
    assert_eq!(
        req.headers,
        vec![
            ("anthropic-version".to_string(), "2023-06-01".to_string()),
            ("x-api-key".to_string(), "k".to_string()),
            ("anthropic-beta".to_string(), "extended-cache-ttl-2025-04-11".to_string()),
        ]
    );
}
