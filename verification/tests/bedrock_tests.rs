use aichat_core::bedrock::{
    aws_sign, bedrock_cache_ttl, build_chat_completions_body, build_responses_api_body,
    encode_uri_str, ensure_json_object, extract_chat_completions, gen_signing_key,
    parse_export_credentials, responses_output, AwsCredentials, AwsRequest, BedrockModelCategory,
    ConverseStreamState, ResponsesAction, ResponsesStreamState,
};
use aichat_core::claude::StreamAction;
use aichat_core::client::ChatCompletionsData;
use aichat_core::digest::{hex_encode, sha256};
use aichat_core::function::{FunctionDeclaration, JsonSchema, ToolCall, ToolResult};
use aichat_core::json::{to_json_string, Json, JsonNumber};
use aichat_core::message::{
    ImageUrl, Message, MessageContent, MessageContentPart, MessageContentToolCalls, MessageRole,
};
use aichat_core::model::Model;
use serde_json::Value;

fn to_json(v: &Value) -> Json {
    match v {
        Value::Null => Json::Null,
        Value::Bool(b) => Json::Bool(*b),
        Value::Number(n) => Json::Number(JsonNumber {
            text: n.to_string(),
            as_u64: n.as_u64(),
            as_i64: n.as_i64(),
        }),
        Value::String(s) => Json::Str(s.clone()),
        Value::Array(a) => Json::Array(a.iter().map(to_json).collect()),
        Value::Object(m) => Json::Object(m.iter().map(|(k, v)| (k.clone(), to_json(v))).collect()),
    }
}

fn j(s: &str) -> Json {
    to_json(&serde_json::from_str::<Value>(s).unwrap())
}

fn get<'a>(v: &'a Json, key: &str) -> Option<&'a Json> {
    match v {
        Json::Object(m) => m.iter().find(|(k, _)| k == key).map(|(_, v)| v),
        _ => None,
    }
}

fn as_array(v: &Json) -> Option<&Vec<Json>> {
    match v {
        Json::Array(a) => Some(a),
        _ => None,
    }
}

fn as_str(v: &Json) -> Option<&str> {
    match v {
        Json::Str(s) => Some(s.as_str()),
        _ => None,
    }
}

fn build_body_with_tool_output(output: Json) -> Json {
    let call = ToolCall::new("test_fn".into(), j("{}"), Some("call_1".into()));
    let tr = ToolResult::new(call, output);
    let tc = MessageContentToolCalls::new(vec![tr], String::new());
    let messages = vec![
        Message::new(MessageRole::System, MessageContent::Text("sys".into())),
        Message::new(MessageRole::User, MessageContent::ToolCalls(tc)),
    ];
    let data = ChatCompletionsData {
        messages,
        temperature: None,
        top_p: None,
        functions: None,
        stream: false,
        cache_content_blocks: vec![],
        cache_warm: false,
    };
    let model = Model::new("bedrock", "test-model");
    build_chat_completions_body(data, &model).ok().unwrap()
}

fn extract_tool_json(body: &Json) -> &Json {
    let messages = get(body, "messages").and_then(as_array).unwrap();
    let content = get(&messages[1], "content").and_then(as_array).unwrap();
    let tool_result = get(&content[0], "toolResult").unwrap();
    let inner = get(tool_result, "content").and_then(as_array).unwrap();
    get(&inner[0], "json").unwrap()
}

#[test]
fn test_bedrock_tool_result_json_string_wrapped() {
    let body = build_body_with_tool_output(j(r#""DONE""#));
    let jv = extract_tool_json(&body);
    assert!(matches!(jv, Json::Object(_)), "string tool output must be wrapped: {}", to_json_string(jv));
    assert_eq!(to_json_string(get(jv, "result").unwrap()), r#""DONE""#);
}

#[test]
fn test_bedrock_tool_result_json_object_passthrough() {
    let orig = j(r#"{"key": "value"}"#);
    let body = build_body_with_tool_output(j(r#"{"key": "value"}"#));
    let jv = extract_tool_json(&body);
    assert!(matches!(jv, Json::Object(_)));
    assert_eq!(to_json_string(jv), to_json_string(&orig));
}

#[test]
fn ensure_json_object_wraps() {
    assert_eq!(to_json_string(&ensure_json_object(j("3"))), r#"{"result":3}"#);
    assert_eq!(to_json_string(&ensure_json_object(j(r#"{"a":1}"#))), r#"{"a":1}"#);
}

#[test]
fn model_categories() {
    assert_eq!(BedrockModelCategory::from_model_name("openai.gpt-oss-120b"), BedrockModelCategory::OpenAI);
    assert_eq!(BedrockModelCategory::from_model_name("anthropic.titan"), BedrockModelCategory::Converse);
}

#[test]
fn cache_ttl_by_model() {
    assert_eq!(bedrock_cache_ttl(&Model::new("bedrock", "us.anthropic.sonnet-4-5")), Some("1h"));
    assert_eq!(bedrock_cache_ttl(&Model::new("bedrock", "anthropic.haiku-3")), None);
    assert_eq!(bedrock_cache_ttl(&Model::new("bedrock", "opus-5")), Some("1h"));
    assert_eq!(bedrock_cache_ttl(&Model::new("bedrock", "us.anthropic.Sonnet-5")), Some("1h"));
    assert_eq!(bedrock_cache_ttl(&Model::new("bedrock", "haiku-3")), None);
}

#[test]
fn converse_body_with_cache_points() {
    let data = ChatCompletionsData {
        messages: vec![
            Message::new(MessageRole::System, MessageContent::Text("be brief".into())),
            Message::new(MessageRole::User, MessageContent::Text("hi".into())),
        ],
        temperature: Some(JsonNumber { text: "0.5".into(), as_u64: None, as_i64: None }),
        top_p: None,
        functions: Some(vec![FunctionDeclaration {
            name: "f".into(),
            description: "d".into(),
            parameters: JsonSchema {
                type_value: Some("object".into()),
                description: None,
                properties: None,
                items: None,
                any_of: None,
                enum_value: None,
                default: None,
                required: None,
            },
            agent: false,
        }]),
        stream: false,
        cache_content_blocks: vec![],
        cache_warm: false,
    };
    let model = Model::new("bedrock", "anthropic.haiku-4-5");
    let body = build_chat_completions_body(data, &model).ok().unwrap();
    assert_eq!(
        to_json_string(&body),
        [
            r#"{"inferenceConfig":{"temperature":0.5},"messages":[{"role":"user","content":[{"text":"hi"}]}],"#,
            r#""system":[{"text":"be brief"},{"cachePoint":{"type":"default","ttl":"1h"}}],"#,
            r#""toolConfig":{"tools":[{"toolSpec":{"name":"f","description":"d","inputSchema":{"json":{"type":"object"}}}},"#,
            r#"{"cachePoint":{"type":"default","ttl":"1h"}}]}}"#
        ].concat()
    );
}

#[test]
fn converse_image_format() {
    let parts = vec![MessageContentPart::ImageUrl {
        image_url: ImageUrl { url: "data:image/webp;base64,QQ==".into() },
    }];
    let data = ChatCompletionsData {
        messages: vec![Message::new(MessageRole::User, MessageContent::Array(parts))],
        temperature: None,
        top_p: None,
        functions: None,
        stream: false,
        cache_content_blocks: vec![],
        cache_warm: false,
    };
    let body = build_chat_completions_body(data, &Model::new("bedrock", "m")).ok().unwrap();
    assert_eq!(
        to_json_string(&body),
        r#"{"inferenceConfig":{},"messages":[{"role":"user","content":[{"image":{"format":"webp","source":{"bytes":"QQ=="}}}]}]}"#
    );
}

#[test]
fn converse_extract() {
    let data = j(r#"{"output":{"message":{"content":[
        {"reasoningContent":{"reasoningText":{"text":"why"}}},
        {"text":"answer"},
        {"toolUse":{"toolUseId":"u1","name":"g","input":{}}}
    ]}},"usage":{"inputTokens":3,"outputTokens":4}}"#);
    let out = extract_chat_completions(&data).ok().unwrap();
    assert_eq!(out.text, "<think>\nwhy\n</think>\n\nanswer");
    assert_eq!(out.tool_calls.len(), 1);
    assert_eq!(out.tool_calls[0].id, Some("u1".to_string()));
    assert_eq!(out.input_tokens, Some(3));
    assert_eq!(out.output_tokens, Some(4));
    assert_eq!(
        extract_chat_completions(&j("{}")).err().unwrap(),
        "Invalid response data: {}"
    );
}

fn acts(a: &[StreamAction]) -> Vec<String> {
    a.iter()
        .map(|x| match x {
            StreamAction::Text(t) => t.clone(),
            StreamAction::ToolCall { name, arguments, id } => format!("call {name} {arguments} {id}"),
        })
        .collect()
}

#[test]
fn converse_stream_events() {
    let mut st = ConverseStreamState::new();
    let mut out = vec![];
    out.extend(acts(&st.step("contentBlockDelta", &j(r#"{"delta":{"reasoningContent":{"text":"r"}}}"#))));
    out.extend(acts(&st.step("contentBlockStop", &j("{}"))));
    out.extend(acts(&st.step("contentBlockStart", &j(r#"{"start":{"toolUse":{"toolUseId":"u1","name":"f"}}}"#))));
    out.extend(acts(&st.step("contentBlockStop", &j("{}"))));
    assert_eq!(
        out,
        vec![
            "<think>\n".to_string(),
            "r".to_string(),
            "\n</think>\n\n".to_string(),
            "call f {} u1".to_string(),
        ]
    );
}

#[test]
fn sha256_known_values() {
    assert_eq!(sha256("abc"), "ba7816bf8f01cfea414140de5dae2223b00361a396177a9cb410ff61f20015ad");
    assert_eq!(sha256(""), "e3b0c44298fc1c149afbf4c8996fb92427ae41e4649b934ca495991b7852b855");
}

#[test]
fn signing_key_known_value() {
    let key = gen_signing_key("wJalrXUtnFEMI/K7MDENG+bPxRfiCYEXAMPLEKEY", "20120215", "us-east-1", "iam");
    assert_eq!(
        hex_encode(&key),
        "f4780e2d9f65fa895f9c67b32ce1baf0b0d8a43505a000a1a9e090d414db404d"
    );
}

#[test]
fn uri_encoding() {
    assert_eq!(encode_uri_str("/model/a b:c/converse"), "/model/a%20b%3Ac/converse");
    assert_eq!(encode_uri_str("/model/us.anthropic.sonnet-3~x_y"), "/model/us.anthropic.sonnet-3~x_y");
}

#[test]
fn signed_request_headers() {
    let creds = AwsCredentials {
        access_key_id: "AKID".into(),
        secret_access_key: "SECRET".into(),
        region: "us-east-1".into(),
        session_token: Some("TOKEN".into()),
    };
    let req = AwsRequest {
        method: "POST".into(),
        host: "bedrock-runtime.us-east-1.amazonaws.com".into(),
        service: "bedrock".into(),
        uri: "/model/m/converse".into(),
        querystring: String::new(),
        headers: vec![("x-extra".into(), "1".into())],
        body: "{}".into(),
    };
    let signed = aws_sign(&creds, req, "20240101T000000Z");
    assert_eq!(signed.endpoint, "https://bedrock-runtime.us-east-1.amazonaws.com/model/m/converse");
    let names: Vec<&str> = signed.headers.iter().map(|(k, _)| k.as_str()).collect();
    assert_eq!(
        names,
        vec!["x-extra", "content-type", "x-amz-date", "x-amz-security-token", "authorization"]
    );
    let auth = &signed.headers[4].1;
    assert!(auth.starts_with(
        "AWS4-HMAC-SHA256 Credential=AKID/20240101/us-east-1/bedrock/aws4_request, SignedHeaders=content-type;host;x-amz-date;x-amz-security-token;x-extra, Signature="
    ));
    assert_eq!(auth.len() - auth.rfind('=').unwrap() - 1, 64);
}

#[test]
fn export_credentials_parsing() {
    let text = "AWS_ACCESS_KEY_ID=AK\r\nAWS_SECRET_ACCESS_KEY = SK \nOTHER=1\nAWS_SESSION_TOKEN=ST\n";
    assert_eq!(
        parse_export_credentials(&text),
        Some(("AK".to_string(), "SK".to_string(), Some("ST".to_string())))
    );
    assert_eq!(parse_export_credentials("AWS_ACCESS_KEY_ID=AK\n"), None);
}

#[test]
fn responses_body_shape() {
    let call = ToolCall::new("f".into(), j(r#"{"x":1}"#), None);
    let tc = MessageContentToolCalls::new(vec![ToolResult::new(call, j(r#""ok""#))], String::new());
    let data = ChatCompletionsData {
        messages: vec![
            Message::new(MessageRole::System, MessageContent::Text("a".into())),
            Message::new(MessageRole::System, MessageContent::Text("b".into())),
            Message::new(MessageRole::User, MessageContent::Text("hi".into())),
            Message::new(MessageRole::Assistant, MessageContent::ToolCalls(tc)),
        ],
        temperature: None,
        top_p: None,
        functions: None,
        stream: true,
        cache_content_blocks: vec![],
        cache_warm: false,
    };
    let body = build_responses_api_body(data, &Model::new("bedrock", "openai.gpt"));
    assert_eq!(
        to_json_string(&body),
        [
            r#"{"model":"openai.gpt","input":[{"role":"user","content":"hi"},"#,
            r#"{"type":"function_call","name":"f","call_id":"","arguments":"{\"x\":1}"},"#,
            r#"{"type":"function_call_output","call_id":"","output":"\"ok\""}],"stream":true,"instructions":"a\nb"}"#
        ].concat()
    );
}

#[test]
fn responses_output_reading() {
    let data = j(r#"{"id":"r1","output":[
        {"type":"message","content":[{"type":"output_text","text":"one"},{"type":"output_text","text":"two"}]},
        {"type":"function_call","name":"f","arguments":"{}","call_id":"c9"}
    ],"usage":{"input_tokens":1,"output_tokens":2},"extra_fields":{"k":true}}"#);
    let out = responses_output(&data);
    assert_eq!(out.text, "one\n\ntwo");
    assert_eq!(out.calls.len(), 1);
    assert_eq!(out.calls[0].name, "f");
    assert_eq!(out.calls[0].arguments, "{}");
    assert_eq!(out.calls[0].call_id, Some("c9".to_string()));
    assert_eq!(out.id, Some("r1".to_string()));
    assert_eq!(out.input_tokens, Some(1));
    assert_eq!(to_json_string(out.extra.as_ref().unwrap()), r#"{"k":true}"#);
}

#[test]
fn responses_stream_events() {
    let mut st = ResponsesStreamState::new();
    assert!(matches!(
        st.step(&j(r#"{"type":"response.output_text.delta","delta":"Hi"}"#)),
        Some(ResponsesAction::Text(t)) if t == "Hi"
    ));
    assert!(st.step(&j(r#"{"type":"response.function_call_arguments.delta","delta":"{\"a\"","name":"f","call_id":"c1"}"#)).is_none());
    assert!(st.step(&j(r#"{"type":"response.function_call_arguments.delta","delta":":1}"}"#)).is_none());
    match st.step(&j(r#"{"type":"response.function_call_arguments.done"}"#)) {
        Some(ResponsesAction::ToolCall { name, arguments, call_id }) => {
            assert_eq!(name, "f");
            assert_eq!(arguments, "{\"a\":1}");
            assert_eq!(call_id, Some("c1".to_string()));
        }
        _ => panic!("expected a tool call"),
    }
    assert!(matches!(st.step(&j(r#"{"type":"response.completed"}"#)), Some(ResponsesAction::Done)));
}
