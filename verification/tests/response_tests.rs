use aichat_core::json::{Json, JsonNumber};
use aichat_core::response::{body_preview, catch_error, parse_response_body, ResponseError};
use serde_json::Value;

fn to_json(v: &Value) -> Json {
    match v {
        Value::Null => Json::Null,
        Value::Bool(b) => Json::Bool(*b),
        Value::Number(n) => Json::Number(JsonNumber {
            text: n.to_string(),
            as_u64: n.as_u64(),
            as_i64: n.as_i64(),
        }),
        Value::String(s) => Json::Str(s.clone()),
        Value::Array(a) => Json::Array(a.iter().map(to_json).collect()),
        Value::Object(m) => Json::Object(m.iter().map(|(k, v)| (k.clone(), to_json(v))).collect()),
    }
}

fn parsed(body: &str) -> Result<Json, String> {
    serde_json::from_str::<Value>(body)
        .map(|v| to_json(&v))
        .map_err(|e| e.to_string())
}

fn parse_body(status: u16, body: &str) -> Result<Json, ResponseError> {
    parse_response_body(status, body, parsed(body))
}

fn simulate_full_error_chain(status: u16, body: &str) -> String {
    match parse_body(status, body) {
        Ok(_) => panic!("expected an error"),
        Err(e) => format!("Failed to call chat-completions api: {}", e.message()),
    }
}

fn str_at<'a>(j: &'a Json, key: &str) -> Option<&'a Json> {
    match j {
        Json::Object(m) => m.iter().find(|(k, _)| k == key).map(|(_, v)| v),
        _ => None,
    }
}

#[test]
fn test_parse_response_body_valid_json() {
    let body = r#"{"choices":[{"message":{"content":"hello"}}]}"#;
    let result = parse_body(200, body);
    assert!(result.is_ok());
    let value = result.ok().unwrap();
    let choices = str_at(&value, "choices").unwrap();
    let first = match choices {
        Json::Array(a) => &a[0],
        _ => panic!("choices is not an array"),
    };
    let content = str_at(str_at(first, "message").unwrap(), "content").unwrap();
    match content {
        Json::Str(s) => assert_eq!(s, "hello"),
        _ => panic!("content is not a string"),
    }
}

#[test]
fn test_parse_response_body_empty() {
    let result = parse_body(200, "");
    assert!(result.is_err());
    let err_msg = result.err().unwrap().message();
    assert!(
        err_msg.contains("Empty response body"),
        "Expected 'Empty response body' in error, got: {err_msg}"
    );
    assert!(
        err_msg.contains("200"),
        "Expected status code '200' in error, got: {err_msg}"
    );
}

#[test]
fn test_parse_response_body_html() {
    let html_body = r#"<!DOCTYPE html><html><head><title>502 Bad Gateway</title></head><body><h1>502 Bad Gateway</h1><p>nginx</p></body></html>"#;
    let result = parse_body(502, html_body);
    assert!(result.is_err());
    let err_msg = result.err().unwrap().message();
    assert!(
        err_msg.contains("Non-JSON response"),
        "Expected 'Non-JSON response' in error, got: {err_msg}"
    );
    assert!(
        err_msg.contains("502"),
        "Expected status code '502' in error, got: {err_msg}"
    );
    assert!(
        err_msg.contains("<!DOCTYPE html>"),
        "Expected HTML preview in error, got: {err_msg}"
    );
}

#[test]
fn test_parse_response_body_binary_garbage() {
    let binary_body: String = (0u8..50).map(|i| char::from(i % 8)).collect();
    let result = parse_body(200, &binary_body);
    assert!(result.is_err());
    let err_msg = result.err().unwrap().message();
    assert!(
        err_msg.contains("Non-JSON response"),
        "Expected 'Non-JSON response' in error, got: {err_msg}"
    );
    assert!(
        err_msg.contains("[binary data]"),
        "Expected '[binary data]' hex preview in error, got: {err_msg}"
    );
    assert!(
        err_msg.contains("200"),
        "Expected status code '200' in error, got: {err_msg}"
    );
}

#[test]
fn test_parse_response_body_error_includes_status_code() {
    for status in [400, 401, 403, 404, 500, 502, 503] {
        let result = parse_body(status, "not json at all");
        assert!(result.is_err());
        let err_msg = result.err().unwrap().message();
        assert!(
            err_msg.contains(&status.to_string()),
            "Expected status code '{status}' in error, got: {err_msg}"
        );
    }
}

#[test]
fn test_error_message_quality_empty_response() {
    let msg = simulate_full_error_chain(200, "");
    assert!(
        msg.contains("Failed to call chat-completions api"),
        "Missing outer context in: {msg}"
    );
    assert!(
        msg.contains("Empty response body"),
        "Missing 'Empty response body' in: {msg}"
    );
    assert!(msg.contains("200"), "Missing status code in: {msg}");
    assert!(
        msg.contains("API endpoint returned no data"),
        "Missing actionable guidance in: {msg}"
    );
    assert!(
        msg.starts_with("Failed to call chat-completions api: Empty response body (status: 200)"),
        "Unexpected error format: {msg}"
    );
}

#[test]
fn test_error_message_quality_html_response() {
    let html = r#"<!DOCTYPE html><html><head><title>502 Bad Gateway</title></head><body><h1>502 Bad Gateway</h1></body></html>"#;
    let msg = simulate_full_error_chain(502, html);
    assert!(
        msg.contains("Failed to call chat-completions api"),
        "Missing outer context in: {msg}"
    );
    assert!(
        msg.contains("Non-JSON response"),
        "Missing 'Non-JSON response' in: {msg}"
    );
    assert!(msg.contains("502"), "Missing status code in: {msg}");
    assert!(
        msg.contains("<!DOCTYPE html>"),
        "Missing HTML preview in: {msg}"
    );
    assert!(
        msg.starts_with("Failed to call chat-completions api: Non-JSON response (status: 502)"),
        "Unexpected error format: {msg}"
    );
}

#[test]
fn test_error_message_quality_plain_text_response() {
    let body = "Service Unavailable - Please try again later";
    let msg = simulate_full_error_chain(503, body);
    assert!(
        msg.contains("Failed to call chat-completions api"),
        "Missing outer context in: {msg}"
    );
    assert!(
        msg.contains("Non-JSON response"),
        "Missing 'Non-JSON response' in: {msg}"
    );
    assert!(msg.contains("503"), "Missing status code in: {msg}");
    assert!(
        msg.contains("Service Unavailable"),
        "Missing body preview in: {msg}"
    );
}

#[test]
fn test_error_message_quality_auth_redirect() {
    let body = r#"<html><head><meta http-equiv="refresh" content="0;url=/login"></head><body>Redirecting to login...</body></html>"#;
    let msg = simulate_full_error_chain(200, body);
    assert!(
        msg.starts_with("Failed to call chat-completions api: Non-JSON response (status: 200)"),
        "Unexpected error format: {msg}"
    );
    assert!(msg.contains("login"), "Missing login redirect hint in: {msg}");
}

#[test]
fn test_integration_server_error_json_through_catch_error() {
    let error_body =
        r#"{"error":{"message":"Invalid API key provided","type":"invalid_api_key"}}"#;
    let parse_result = parse_body(401, error_body);
    assert!(parse_result.is_ok(), "Valid JSON should parse successfully");
    let data = parse_result.ok().unwrap();
    let catch_result = catch_error(&data, 401);
    assert!(catch_result.is_err(), "catch_error should bail on 401");
    let err_msg = catch_result.err().unwrap();
    assert!(
        err_msg.contains("Invalid API key provided"),
        "Should contain server error message, got: {err_msg}"
    );
    assert!(
        err_msg.contains("invalid_api_key"),
        "Should contain error type, got: {err_msg}"
    );
    let full_chain = format!("Failed to call chat-completions api: {}", err_msg);
    assert!(
        full_chain.contains("Failed to call chat-completions api"),
        "Full chain missing outer context: {full_chain}"
    );
    assert!(
        full_chain.contains("Invalid API key"),
        "Full chain missing error detail: {full_chain}"
    );
}

#[test]
fn test_integration_narsil_admin_empty_response_scenario() {
    let msg = simulate_full_error_chain(200, "");
    assert!(
        !msg.contains("error decoding response body"),
        "Should NOT contain the old unhelpful reqwest error: {msg}"
    );
    assert!(
        !msg.contains("expected value at line 1 column 1"),
        "Should NOT contain the old unhelpful serde error: {msg}"
    );
    assert!(
        msg.contains("Empty response body"),
        "Should explain the body was empty: {msg}"
    );
    assert!(msg.contains("200"), "Should include the HTTP status: {msg}");
    assert!(
        msg.contains("API endpoint returned no data"),
        "Should provide actionable context: {msg}"
    );
}

#[test]
fn test_error_message_quality_truncation() {
    let long_body = "x".repeat(500);
    let msg = simulate_full_error_chain(200, &long_body);
    assert!(
        msg.contains("..."),
        "Long body error should show truncation '...', got: {msg}"
    );
    assert!(
        !msg.contains(&"x".repeat(500)),
        "Error message should NOT contain full 500-char body"
    );
    assert!(
        msg.contains(&"x".repeat(200)),
        "Error preview should show ~200 chars of body"
    );
    assert!(
        msg.starts_with("Failed to call chat-completions api: Non-JSON response (status: 200)"),
        "Unexpected error format: {msg}"
    );
}

#[test]
fn test_body_preview_short_text() {
    assert_eq!(body_preview("hello world"), "hello world");
    assert_eq!(body_preview("Not Found"), "Not Found");
    let exactly_200 = "a".repeat(200);
    assert_eq!(body_preview(&exactly_200), exactly_200);
}

#[test]
fn test_body_preview_long_text() {
    let over_200 = "b".repeat(250);
    let preview = body_preview(&over_200);
    assert!(
        preview.ends_with("..."),
        "Preview should end with '...', got: {preview}"
    );
    assert!(
        preview.len() <= 204,
        "Preview should be ≤204 chars (200 + '...'), got len: {}",
        preview.len()
    );
    assert!(
        preview.len() >= 203,
        "Preview should be ≥203 chars, got len: {}",
        preview.len()
    );
}

#[test]
fn body_preview_binary_hex() {
    let body: String = (0u8..4).map(char::from).collect();
    assert_eq!(body_preview(&body), "[binary data] 00 01 02 03");
}

#[test]
fn body_preview_cuts_at_char_boundary() {
    let body = format!("{}é{}", "a".repeat(199), "b".repeat(50));
    assert_eq!(body_preview(&body), format!("{}...", "a".repeat(199)));
}

#[test]
fn catch_error_success_status_passes() {
    let data = to_json(&serde_json::from_str::<Value>(r#"{"error": "x"}"#).unwrap());
    assert!(catch_error(&data, 200).is_ok());
    assert!(catch_error(&data, 299).is_ok());
}

fn catch(body: &str, status: u16) -> String {
    let data = to_json(&serde_json::from_str::<Value>(body).unwrap());
    catch_error(&data, status).err().unwrap()
}

#[test]
fn catch_error_shapes() {
    assert_eq!(
        catch(r#"{"error": {"code": "E1", "message": "boom"}}"#, 400),
        "boom (code: E1)"
    );
    assert_eq!(
        catch(r#"{"errors": [{"code": 7, "message": "bad"}]}"#, 400),
        "bad (status: 7)"
    );
    assert_eq!(
        catch(r#"[{"error": {"status": "DENIED", "message": "no"}}]"#, 403),
        "no (status: DENIED)"
    );
    assert_eq!(
        catch(r#"{"detail": "missing", "status": 404}"#, 404),
        "missing (status: 404)"
    );
    assert_eq!(catch(r#"{"error": "plain"}"#, 500), "plain");
    assert_eq!(catch(r#"{"message": "msg"}"#, 500), "msg");
    assert_eq!(
        catch(r#"{"other": 1}"#, 500),
        r#"Invalid response data: {"other":1} (status: 500)"#
    );
}
