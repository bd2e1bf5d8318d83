use aichat_core::function::{
    arguments_text, lenient_arguments, schema_json, search_path, tool_calls_to_run, tool_output,
    tool_run_output, AgentTools, FunctionDeclaration, Functions, JsonSchema, ToolCall,
};
use aichat_core::json::{to_json_string, Json, JsonNumber};
use rayon::iter::{IntoParallelIterator, ParallelIterator};
use serde_json::Value;

fn to_json(v: &Value) -> Json {
    match v {
        Value::Null => Json::Null,
        Value::Bool(b) => Json::Bool(*b),
        Value::Number(n) => Json::Number(JsonNumber {
            text: n.to_string(),
            as_u64: n.as_u64(),
            as_i64: n.as_i64(),
        }),
        Value::String(s) => Json::Str(s.clone()),
        Value::Array(a) => Json::Array(a.iter().map(to_json).collect()),
        Value::Object(m) => Json::Object(m.iter().map(|(k, v)| (k.clone(), to_json(v))).collect()),
    }
}

fn j(s: &str) -> Json {
    to_json(&serde_json::from_str::<Value>(s).unwrap())
}

fn call(name: &str, args: &str, id: Option<&str>) -> ToolCall {
    ToolCall::new(name.to_string(), j(args), id.map(|s| s.to_string()))
}

fn schema() -> JsonSchema {
    JsonSchema {
        type_value: Some("object".into()),
        description: None,
        properties: None,
        items: None,
        any_of: None,
        enum_value: None,
        default: None,
        required: None,
    }
}

fn decl(name: &str, agent: bool) -> FunctionDeclaration {
    FunctionDeclaration {
        name: name.to_string(),
        description: format!("{name} tool"),
        parameters: schema(),
        agent,
    }
}

#[test]
fn perf_q01_eval_preserves_order() {
    let inputs: Vec<u32> = (0..100).collect();
    let results: Vec<u32> = inputs.into_par_iter().map(|x| x).collect();
    assert_eq!(results, (0..100).collect::<Vec<u32>>());

    let calls: Vec<ToolCall> = (0..5)
        .map(|i| ToolCall::new(format!("func_{i}"), j("{}"), Some(format!("id_{i}"))))
        .collect();
    let deduped = ToolCall::dedup(calls);
    for (i, call) in deduped.iter().enumerate() {
        assert_eq!(call.name, format!("func_{i}"), "dedup must preserve order at index {i}");
    }
}

#[test]
fn perf_q07_json_parse_order() {
    let valid_obj = r#"{"key": "value", "num": 42}"#;
    let valid_arr = r#"[1, 2, 3]"#;

    let fast_obj: Value = serde_json::from_str(valid_obj).unwrap();
    let fast_arr: Value = serde_json::from_str(valid_arr).unwrap();
    assert_eq!(fast_obj["key"], "value");
    assert_eq!(fast_obj["num"], 42);
    assert_eq!(fast_arr[0], 1);

    let lenient_obj = lenient_arguments("f", valid_obj).unwrap();
    let slow_obj: Value = serde_json::from_str(&lenient_obj).unwrap();
    let lenient_arr = lenient_arguments("f", valid_arr).unwrap();
    let slow_arr: Value = serde_json::from_str(&lenient_arr).unwrap();

    assert_eq!(fast_obj, slow_obj, "serde_json fast path must match jsonic pipeline for objects");
    assert_eq!(fast_arr, slow_arr, "serde_json fast path must match jsonic pipeline for arrays");
}

#[test]
fn dedup_keeps_last_of_repeated_signature() {
    let calls = vec![
        call("a", r#"{"x":1}"#, None),
        call("b", "{}", None),
        call("a", r#"{"x":1}"#, None),
    ];
    let kept = ToolCall::dedup(calls);
    let names: Vec<&str> = kept.iter().map(|c| c.name.as_str()).collect();
    assert_eq!(names, vec!["b", "a"]);
}

#[test]
fn dedup_drops_repeated_id_and_signature() {
    let calls = vec![
        call("a", "{}", Some("1")),
        call("c", "{}", Some("1")),
        call("a", "{}", Some("2")),
        call("d", "{}", Some("3")),
    ];
    let kept = ToolCall::dedup(calls);
    let names: Vec<(&str, Option<&str>)> =
        kept.iter().map(|c| (c.name.as_str(), c.id.as_deref())).collect();
    // scanned from the last: d(3) kept, a(2) kept, c(1) kept, a(1): id 1 seen -> dropped
    assert_eq!(names, vec![("c", Some("1")), ("a", Some("2")), ("d", Some("3"))]);
}

#[test]
fn calls_to_run_for_empty_and_repeated_rounds() {
    assert_eq!(tool_calls_to_run(vec![]).ok().unwrap().len(), 0);
    let run = tool_calls_to_run(vec![call("f", "{}", None), call("f", "{}", None)]).ok().unwrap();
    assert_eq!(run.len(), 1);
    assert_eq!(run[0].name, "f");
}

#[test]
fn tool_output_values() {
    assert_eq!(to_json_string(&tool_output(Ok(Json::Null), "f")), r#""Tool returned no response.""#);
    assert_eq!(to_json_string(&tool_output(Ok(j(r#"{"a":1}"#)), "f")), r#"{"a":1}"#);
    assert_eq!(
        to_json_string(&tool_output(Err("boom".to_string()), "f")),
        r#"{"error":"boom","tool_call":"f","status":"failed_after_retries"}"#
    );
}

#[test]
fn functions_find_and_contains() {
    let fs = Functions::from_declarations(vec![decl("a", false), decl("b", false), decl("a", true)]);
    assert!(fs.contains("b"));
    assert!(!fs.contains("z"));
    let found = fs.find("a").unwrap();
    assert!(!found.agent);
    assert_eq!(fs.declarations().len(), 3);
    assert!(!fs.is_empty());
    assert!(Functions::empty().is_empty());
}

#[test]
fn call_config_without_agent() {
    let fs = Functions::from_declarations(vec![decl("get_time", false)]);
    let c = call("get_time", r#"{"tz":"UTC"}"#, None).extract_call_config_from_config(&fs).ok().unwrap();
    assert_eq!(c.call_name, "get_time");
    assert_eq!(c.cmd_name, "get_time");
    assert!(c.cmd_args.is_empty());
    assert!(c.envs.is_empty());
    let err = call("nope", r#"{"a":1}"#, None).extract_call_config_from_config(&fs).err().unwrap();
    assert_eq!(err, r#"Unexpected call: nope {"a":1}"#);
}

#[test]
fn call_config_with_agent() {
    let fs = Functions::from_declarations(vec![decl("global_fn", false)]);
    let agent = AgentTools {
        name: "coder".to_string(),
        functions: Functions::from_declarations(vec![decl("fs_read", true), decl("plain", false)]),
        variable_envs: vec![("LLM_AGENT_VAR_X".to_string(), "1".to_string())],
    };
    let c = call("fs_read", "{}", None).extract_call_config_from_agent(&agent, &fs).ok().unwrap();
    assert_eq!(c.call_name, "coder-fs_read");
    assert_eq!(c.cmd_name, "coder");
    assert_eq!(c.cmd_args, vec!["fs_read".to_string()]);
    assert_eq!(c.envs, vec![("LLM_AGENT_VAR_X".to_string(), "1".to_string())]);

    let c = call("plain", "{}", None).extract_call_config_from_agent(&agent, &fs).ok().unwrap();
    assert_eq!((c.call_name.as_str(), c.cmd_name.as_str()), ("plain", "plain"));
    assert!(c.envs.is_empty());

    let c = call("global_fn", "{}", None).extract_call_config_from_agent(&agent, &fs).ok().unwrap();
    assert_eq!(c.call_name, "global_fn");

    let err = call("missing", "[]", None).extract_call_config_from_agent(&agent, &fs).err().unwrap();
    assert_eq!(err, "Unexpected call: missing []");
}

#[test]
fn arguments_text_by_kind() {
    assert!(arguments_text("f", &j(r#"{"a":1}"#)).ok().unwrap().is_none());
    assert_eq!(arguments_text("f", &Json::Str("{\"a\":1}".into())).ok().unwrap().unwrap(), "{\"a\":1}");
    assert_eq!(
        arguments_text("f", &j("[1,2]")).err().unwrap(),
        "The call 'f' has invalid arguments: [1,2]"
    );
}

#[test]
fn lenient_arguments_cut_and_errors() {
    // what follows the object is ignored
    assert_eq!(lenient_arguments("f", r#"  {"a": 1} trailing"#).ok().unwrap(), r#"{"a": 1}"#);
    let err = lenient_arguments("f", "nonsense").err().unwrap();
    assert!(err.starts_with("The call 'f' has malformed JSON arguments: nonsense. Error: "), "{err}");
}

#[test]
fn tool_run_output_values() {
    assert_eq!(to_json_string(&tool_run_output(None, None)), "null");
    assert_eq!(to_json_string(&tool_run_output(Some("{\"k\":2}".into()), Some(j(r#"{"k":2}"#)))), r#"{"k":2}"#);
    assert_eq!(to_json_string(&tool_run_output(Some("plain text".into()), None)), r#"{"output":"plain text"}"#);
}

#[test]
fn search_path_prepends_dirs() {
    assert_eq!(search_path(&vec!["/a/bin".into(), "/b/bin".into()], "/usr/bin"), "/a/bin:/b/bin:/usr/bin");
    assert_eq!(search_path(&vec![], "/usr/bin"), "/usr/bin");
}

#[test]
fn schema_serialization_skips_absent_fields() {
    let mut s = schema();
    s.properties = Some(vec![("q".into(), JsonSchema { description: Some("query".into()), ..schema() })]);
    s.required = Some(vec!["q".into()]);
    assert!(!s.is_empty_properties());
    assert!(schema().is_empty_properties());
    assert_eq!(
        to_json_string(&schema_json(&s)),
        r#"{"type":"object","properties":{"q":{"type":"object","description":"query"}},"required":["q"]}"#
    );
}

#[test]
fn retries_while_attempts_are_left() {
    assert_eq!(aichat_core::function::retry_attempts(0), 1);
    assert_eq!(aichat_core::function::retry_attempts(3), 3);
    assert!(aichat_core::function::retry_after_failure(0, 3));
    assert!(aichat_core::function::retry_after_failure(1, 3));
    assert!(!aichat_core::function::retry_after_failure(2, 3));
    assert!(!aichat_core::function::retry_after_failure(0, 0));
}
