use aichat_core::api_key::{api_key_plan, command_token, token_expires_at, ApiKeyPlan, DEFAULT_EXPIRES_IN};
use aichat_core::bedrock::{
    bedrock_chat_request, bedrock_embeddings_request, responses_chat_output,
    stream_message_failure_text, BedrockModelCategory,
    RawToolCall, ResponsesOutput,
};
use aichat_core::client::{
    noop_prepare_embeddings, noop_prepare_rerank, patch_request_data, select_patch,
    ChatCompletionsData, EmbeddingsData, RequestData, RerankData,
};
use aichat_core::json::{merge, to_json_string, Json, JsonNumber};
use aichat_core::message::{Message, MessageContent, MessageRole};
use aichat_core::model::Model;
use aichat_core::setup::{
    default_model_choice, env_name, model_entry, model_id, models_config, parse_model_names,
    provider_name,
};
use serde_json::Value;

fn to_json(v: &Value) -> Json {
    match v {
        Value::Null => Json::Null,
        Value::Bool(b) => Json::Bool(*b),
        Value::Number(n) => Json::Number(JsonNumber {
            text: n.to_string(),
            as_u64: n.as_u64(),
            as_i64: n.as_i64(),
        }),
        Value::String(s) => Json::Str(s.clone()),
        Value::Array(a) => Json::Array(a.iter().map(to_json).collect()),
        Value::Object(m) => Json::Object(m.iter().map(|(k, v)| (k.clone(), to_json(v))).collect()),
    }
}

fn j(s: &str) -> Json {
    to_json(&serde_json::from_str::<Value>(s).unwrap())
}

fn s(v: &Json) -> String {
    to_json_string(v)
}

fn pairs(v: &[(&str, &str)]) -> Vec<(String, String)> {
    v.iter().map(|(a, b)| (a.to_string(), b.to_string())).collect()
}

#[test]
fn merge_patch_semantics() {
    let doc = j(r#"{"a":1,"b":{"x":1,"y":2},"c":3}"#);
    let patch = j(r#"{"a":null,"b":{"y":null,"z":3},"d":[1]}"#);
    // removing a member moves the last member into its place
    assert_eq!(s(&merge(doc, &patch)), r#"{"c":3,"b":{"x":1,"z":3},"d":[1]}"#);
    // a patch that is not an object replaces the document
    assert_eq!(s(&merge(j(r#"{"a":1}"#), &j("[2]"))), "[2]");
    // a null inside a new member is dropped
    assert_eq!(s(&merge(j("1"), &j(r#"{"k":{"n":null,"m":1}}"#))), r#"{"k":{"m":1}}"#);
}

#[test]
fn request_data_headers_and_patch() {
    let mut r = RequestData::new("https://api/v1", j(r#"{"model":"m","stream":false}"#));
    r.bearer_auth("KEY");
    r.header("x-a", "1");
    r.header("x-b", "2");
    r.header("x-a", "3");
    assert_eq!(r.headers, pairs(&[("authorization", "Bearer KEY"), ("x-a", "3"), ("x-b", "2")]));
    r.apply_patch(&j(
        r#"{"url":"https://proxy/v1","headers":{"authorization":null,"x-c":"4","x-d":5},"body":{"stream":true,"extra":1}}"#,
    ));
    assert_eq!(r.url, "https://proxy/v1");
    // removing `authorization` moves the last header into its place
    assert_eq!(r.headers, pairs(&[("x-b", "2"), ("x-a", "3"), ("x-c", "4")]));
    assert_eq!(s(&r.body), r#"{"model":"m","stream":true,"extra":1}"#);
}

#[test]
fn patches_by_model_pattern() {
    let patches: Vec<(String, Json)> = vec![
        ("gpt-4.*".to_string(), j(r#"{"body":{"a":1}}"#)),
        ("org/model".to_string(), j(r#"{"body":{"b":2}}"#)),
        (".*".to_string(), j(r#"{"body":{"c":3}}"#)),
    ];
    assert_eq!(s(select_patch(&patches, "gpt-4o").unwrap()), r#"{"body":{"a":1}}"#);
    assert_eq!(s(select_patch(&patches, "org/model").unwrap()), r#"{"body":{"b":2}}"#);
    // the pattern must match the whole name
    assert_eq!(s(select_patch(&patches, "my-gpt-4o").unwrap()), r#"{"body":{"c":3}}"#);
    let none: Vec<(String, Json)> = vec![("[".to_string(), j("{}"))];
    assert!(select_patch(&none, "x").is_none());

    let mut r = RequestData::new("u", j("{}"));
    let model_patch = j(r#"{"body":{"m":0}}"#);
    patch_request_data(&mut r, Some(&model_patch), Some(&patches), "gpt-4o");
    assert_eq!(s(&r.body), r#"{"m":0,"a":1}"#);
}

#[test]
fn unsupported_apis_are_refused() {
    let data = EmbeddingsData::new(vec!["t".into()], true);
    assert_eq!(noop_prepare_embeddings(&(), &data).err().unwrap(), "The client doesn't support embeddings api");
    let rr = RerankData::new("q".into(), vec!["d".into()], 1);
    assert_eq!(rr.top_n, 1);
    assert_eq!(noop_prepare_rerank(&(), &rr).err().unwrap(), "The client doesn't support rerank api");
}

fn chat_data(stream: bool) -> ChatCompletionsData {
    ChatCompletionsData {
        messages: vec![Message::new(MessageRole::User, MessageContent::Text("hi".into()))],
        temperature: None,
        top_p: None,
        functions: None,
        stream,
        cache_content_blocks: vec![],
        cache_warm: false,
    }
}

#[test]
fn bedrock_chat_requests_by_category() {
    let model = Model::new("bedrock", "us.amazon.nova-pro");
    let patch = j(r#"{"headers":{"x-p":"1"},"body":{"inferenceConfig":{"maxTokens":9}}}"#);
    let (req, cat) = bedrock_chat_request(&model, "us-east-1", chat_data(true), Some(&patch), None).ok().unwrap();
    assert_eq!(cat, BedrockModelCategory::Converse);
    assert_eq!(req.method, "POST");
    assert_eq!(req.host, "bedrock-runtime.us-east-1.amazonaws.com");
    assert_eq!(req.service, "bedrock");
    assert_eq!(req.uri, "/model/us.amazon.nova-pro/converse-stream");
    assert_eq!(req.headers, pairs(&[("x-p", "1")]));
    assert_eq!(
        req.body,
        r#"{"inferenceConfig":{"maxTokens":9},"messages":[{"role":"user","content":[{"text":"hi"}]}]}"#
    );

    let model = Model::new("bedrock", "openai.gpt-oss");
    let (req, cat) = bedrock_chat_request(&model, "us-west-2", chat_data(false), None, None).ok().unwrap();
    assert_eq!(cat, BedrockModelCategory::OpenAI);
    assert_eq!(req.host, "bedrock-mantle.us-west-2.api.aws");
    assert_eq!(req.service, "bedrock-mantle");
    assert_eq!(req.uri, "/openai/v1/responses");
    assert_eq!(req.headers, pairs(&[("x-amzn-mantle-client-agent", "codex")]));
}

#[test]
fn bedrock_embeddings_request_body() {
    let model = Model::new("bedrock", "cohere.embed-english-v3");
    let data = EmbeddingsData::new(vec!["a".into(), "b".into()], false);
    let req = bedrock_embeddings_request(&model, "eu-west-1", &data, None, None);
    assert_eq!(req.uri, "/model/cohere.embed-english-v3/invoke");
    assert_eq!(req.host, "bedrock-runtime.eu-west-1.amazonaws.com");
    assert_eq!(req.body, r#"{"texts":["a","b"],"input_type":"search_document"}"#);
}

#[test]
fn responses_output_with_read_arguments() {
    let out = ResponsesOutput {
        text: "hi".into(),
        calls: vec![RawToolCall { name: "f".into(), arguments: "{\"a\":1}".into(), call_id: Some("c1".into()) }],
        id: Some("r1".into()),
        input_tokens: Some(3),
        output_tokens: None,
        extra: None,
    };
    let o = responses_chat_output(out, vec![Some(j(r#"{"a":1}"#))]).ok().unwrap();
    assert_eq!(o.text, "hi");
    assert_eq!(o.tool_calls.len(), 1);
    assert_eq!(o.tool_calls[0].id.as_deref(), Some("c1"));
    assert_eq!(s(&o.tool_calls[0].arguments), r#"{"a":1}"#);
    assert_eq!(o.input_tokens, Some(3));

    let bad = ResponsesOutput {
        text: String::new(),
        calls: vec![RawToolCall { name: "g".into(), arguments: "{oops".into(), call_id: None }],
        id: None,
        input_tokens: None,
        output_tokens: None,
        extra: None,
    };
    assert_eq!(
        responses_chat_output(bad, vec![None]).err().unwrap(),
        "Tool call 'g' has non-JSON arguments '{oops'"
    );
}

#[test]
fn model_setup_helpers() {
    assert_eq!(parse_model_names(" llama3.3, ,qwen2.5 ,,"), vec!["llama3.3".to_string(), "qwen2.5".to_string()]);
    assert!(parse_model_names(" , ").is_empty());
    assert_eq!(s(&model_entry("bge-Reranker")), r#"{"name":"bge-Reranker","type":"reranker"}"#);
    assert_eq!(
        s(&model_entry("text-embedding-3-small")),
        r#"{"name":"text-embedding-3-small","type":"embedding","default_chunk_size":1000,"max_batch_size":100}"#
    );
    assert_eq!(
        s(&model_entry("org/bge-m3")),
        r#"{"name":"org/bge-m3","type":"embedding","default_chunk_size":1000,"max_batch_size":100}"#
    );
    assert_eq!(s(&model_entry("llava-vision")), r#"{"name":"llava-vision","supports_vision":true}"#);
    assert_eq!(s(&model_entry("llama3")), r#"{"name":"llama3"}"#);
    assert_eq!(
        s(&models_config(&vec!["a".into(), "rank-b".into()])),
        r#"[{"name":"a"},{"name":"rank-b","type":"reranker"}]"#
    );
    assert_eq!(default_model_choice(&vec![]).err().unwrap(), "No models");
    assert_eq!(default_model_choice(&vec!["m".into()]).ok().unwrap(), Some("m".to_string()));
    assert_eq!(default_model_choice(&vec!["m".into(), "n".into()]).ok().unwrap(), None);
    assert_eq!(model_id("ollama", "llama3"), "ollama:llama3");
    assert_eq!(env_name("my-client", "api_key"), "MY-CLIENT_API_KEY");
    assert_eq!(provider_name("My Local LLM"), "My-Local-LLM");
}

#[test]
fn api_key_resolution_steps() {
    assert!(matches!(api_key_plan(Ok("k".into()), Some("cmd")), ApiKeyPlan::Ready(k) if k == "k"));
    assert!(matches!(api_key_plan(Err("no key".into()), Some("pass show x")), ApiKeyPlan::RunCommand(c) if c == "pass show x"));
    assert!(matches!(api_key_plan(Err("no key".into()), None), ApiKeyPlan::Failed(e) if e == "no key"));
    assert_eq!(command_token(true, "0", "  tok\n", "").ok().unwrap(), "tok");
    assert_eq!(command_token(true, "0", " \n", "").err().unwrap(), "api_key_command returned empty output");
    assert_eq!(
        command_token(false, "exit status: 1", "", " denied \n").err().unwrap(),
        "api_key_command exited with exit status: 1: denied"
    );
    assert_eq!(token_expires_at(1000, None), 1000 + DEFAULT_EXPIRES_IN);
    assert_eq!(token_expires_at(1000, Some(60)), 1060);
}

#[test]
fn stream_message_failures() {
    assert_eq!(stream_message_failure_text("event", "contentBlockDelta", b"{}"), None);
    assert_eq!(
        stream_message_failure_text("exception", "throttlingException", b"aGVsbG8=").unwrap(),
        "Invalid response data: hello (smithy_type: throttlingException)"
    );
    assert!(stream_message_failure_text("exception", "x", b"***").is_some());
    assert_eq!(
        stream_message_failure_text("other", "y", b"").unwrap(),
        "Unrecognized message, message_type: other, smithy_type: y"
    );
}

#[test]
fn bedrock_hour_ttl_models_are_extended_cache_models() {
    use_both("us.anthropic.sonnet-4-5");
    use_both("eu.anthropic.opus-4-1");
    use_both("anthropic.haiku-4-5");
    use_both("us.anthropic.sonnet-5");
}

fn use_both(name: &str) {
    let model = Model::new("bedrock", name);
    assert_eq!(aichat_core::bedrock::bedrock_cache_ttl(&model), Some("1h"));
    assert!(aichat_core::claude::claude_supports_extended_cache(&model));
}

#[test]
fn escaped_pattern_keys_match_whole_names() {
    let patches: Vec<(String, Json)> = vec![
        (r"org\/model".to_string(), j(r#"{"body":{"a":1}}"#)),
        ("a/b/.*".to_string(), j(r#"{"body":{"b":2}}"#)),
    ];
    assert_eq!(s(select_patch(&patches, "org/model").unwrap()), r#"{"body":{"a":1}}"#);
    assert_eq!(s(select_patch(&patches, "a/b/c").unwrap()), r#"{"body":{"b":2}}"#);
    assert!(select_patch(&patches, "a/bc").is_none());
}
