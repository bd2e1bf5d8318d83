use aichat_core::digest::sha256;
use aichat_core::function::{ToolCall, ToolResult};
use aichat_core::history::VimHistoryTurn;
use aichat_core::input::{
    add_media, fit_summary, is_image, media_data_url, path_extension_of, resolve_data_url,
    resolve_role, Config,
    Document, Input, ResolvedPaths, Role,
};
use aichat_core::json::{Json, JsonNumber};
use aichat_core::message::{Message, MessageContent, MessageContentPart, MessageRole};
use aichat_core::model::Model;
use serde_json::Value;

fn to_json(v: &Value) -> Json {
    match v {
        Value::Null => Json::Null,
        Value::Bool(b) => Json::Bool(*b),
        Value::Number(n) => Json::Number(JsonNumber {
            text: n.to_string(),
            as_u64: n.as_u64(),
            as_i64: n.as_i64(),
        }),
        Value::String(s) => Json::Str(s.clone()),
        Value::Array(a) => Json::Array(a.iter().map(to_json).collect()),
        Value::Object(m) => Json::Object(m.iter().map(|(k, v)| (k.clone(), to_json(v))).collect()),
    }
}

fn j(s: &str) -> Json {
    to_json(&serde_json::from_str::<Value>(s).unwrap())
}

fn config(prompt: &str) -> Config {
    Config {
        role: Role::new("coder", prompt, Model::new("openai", "gpt-4o")),
        has_session: true,
        has_agent: true,
        stream: true,
    }
}

fn text_of(m: &Message) -> String {
    m.content.to_text()
}

#[test]
fn from_str_takes_config_role_unless_given() {
    let cfg = config("");
    let input = Input::from_str(&cfg, "hello", None);
    assert_eq!(input.text(), "hello");
    assert_eq!(input.role().name, "coder");
    assert!(input.with_agent());
    assert!(!input.is_empty());
    let other = Input::from_str(&cfg, "", Some(Role::new("shell", "", Model::new("x", "y"))));
    assert_eq!(other.role().name, "shell");
    assert!(!other.with_agent());
    assert!(other.is_empty());
    let (role, with_session, with_agent) = resolve_role(&cfg, None);
    assert_eq!((role.name.as_str(), with_session, with_agent), ("coder", true, true));
}

#[test]
fn text_patch_and_continue() {
    let cfg = config("");
    let mut input = Input::from_str(&cfg, "question", None);
    input.patched_text = Some("question with context".into());
    assert_eq!(input.text(), "question with context");
    input.clear_patch();
    assert_eq!(input.text(), "question");
    input.set_text("new".into());
    assert_eq!(input.text(), "new");
    assert_eq!(input.continue_output(), None);
    input.set_continue_output("abc");
    input.set_continue_output("def");
    assert_eq!(input.continue_output(), Some("abcdef"));
    assert!(input.stream(&cfg));
    assert_eq!(input.rag_name(), None);
}

#[test]
fn regenerate_takes_same_named_role_and_drops_tool_calls() {
    let cfg = config("new prompt");
    let mut input = Input::from_str(&config("old prompt"), "q", None);
    let call = ToolCall::new("f".into(), j("{}"), None);
    input = input.merge_tool_results("out".into(), vec![ToolResult::new(call, Json::Null)]);
    assert!(input.tool_calls().is_some());
    input.set_regenerate(&cfg);
    assert!(input.regenerate());
    assert!(input.tool_calls().is_none());
    assert_eq!(input.role().prompt, "new prompt");
}

#[test]
fn merge_tool_results_accumulates() {
    let cfg = config("");
    let input = Input::from_str(&cfg, "q", None);
    let c1 = ToolCall::new("a".into(), j("{}"), Some("1".into()));
    let c2 = ToolCall::new("b".into(), j("{}"), Some("2".into()));
    let input = input.merge_tool_results("first".into(), vec![ToolResult::new(c1, Json::Null)]);
    let tc = input.tool_calls().as_ref().unwrap();
    assert_eq!((tc.text.as_str(), tc.sequence, tc.tool_results.len()), ("first", false, 1));
    let input = input.merge_tool_results("second".into(), vec![ToolResult::new(c2, Json::Null)]);
    let tc = input.tool_calls().as_ref().unwrap();
    assert_eq!((tc.text.as_str(), tc.sequence, tc.tool_results.len()), ("", true, 2));
    assert!(input.cache_content_blocks.is_empty());
}

#[test]
fn session_only_when_input_belongs_to_it() {
    let cfg = config("");
    let input = Input::from_str(&cfg, "q", None);
    let session = Some(5u32);
    assert_eq!(input.session(&session), Some(&5));
    let mut s = Some(7u32);
    if let Some(v) = input.session_mut(&mut s) {
        *v = 8;
    }
    assert_eq!(s, Some(8));
    let alone = Input::from_str(&cfg, "q", Some(Role::new("r", "", Model::new("x", "y"))));
    assert_eq!(alone.session(&session), None);
}

#[test]
fn media_is_rendered_as_its_path() {
    let cfg = config("");
    let mut input = Input::from_str(&cfg, "describe", None);
    let url = "data:image/png;base64,AAAA".to_string();
    add_media(&mut input.medias, &mut input.data_urls, url.clone(), "/tmp/cat.png".into());
    assert_eq!(input.data_urls()[0].0, sha256(&url));
    assert_eq!(resolve_data_url(&input.data_urls, url.clone()), "/tmp/cat.png");
    assert_eq!(resolve_data_url(&input.data_urls, "https://x/y.png".into()), "https://x/y.png");
    assert_eq!(input.render(), ".file /tmp/cat.png -- describe");
    match input.message_content() {
        MessageContent::Array(parts) => {
            assert_eq!(parts.len(), 2);
            assert!(matches!(&parts[0], MessageContentPart::Text { text } if text == "describe"));
            assert!(matches!(&parts[1], MessageContentPart::ImageUrl { image_url } if image_url.url == url));
        }
        _ => panic!("expected parts"),
    }
    // the same media again keeps one digest entry
    add_media(&mut input.medias, &mut input.data_urls, url.clone(), "/tmp/cat2.png".into());
    assert_eq!(input.data_urls.len(), 1);
    assert_eq!(resolve_data_url(&input.data_urls, url), "/tmp/cat2.png");
}

#[test]
fn raw_command_line() {
    let cfg = config("");
    let mut input = Input::from_str(&cfg, "explain", None);
    assert_eq!(input.raw(), "explain");
    input.raw.1 = vec!["a.rs".into(), "b.rs".into()];
    assert_eq!(input.raw(), ".file a.rs b.rs -- explain");
    input.raw.0 = String::new();
    assert_eq!(input.raw(), ".file a.rs b.rs");
}

#[test]
fn echo_uses_session_then_role_prompt() {
    let cfg = config("Translate: __INPUT__!");
    let input = Input::from_str(&cfg, "hola", None);
    assert_eq!(input.echo_messages(Some("session echo".into())), "session echo");
    assert_eq!(input.echo_messages(None), "Translate: hola!");
    let plain = Input::from_str(&config("Be brief"), "hi", None);
    assert_eq!(plain.echo_messages(None), "Be brief\n\nhi");
    let bare = Input::from_str(&config(""), "hi", None);
    assert_eq!(bare.echo_messages(None), "hi");
}

#[test]
fn summary_is_one_line_and_short() {
    let cfg = config("");
    let input = Input::from_str(&cfg, "  line one\nline two  ", None);
    assert_eq!(input.summary(), "line one line two");
    let long = "x".repeat(100);
    let input = Input::from_str(&cfg, &long, None);
    let s = input.summary();
    assert_eq!(s, format!("{}...", "x".repeat(77)));
    assert_eq!(fit_summary("abc", 3, &vec![Some(1), Some(1), Some(1)]), "abc");
}

#[test]
fn history_turns_go_before_the_current_user_message() {
    let cfg = config("");
    let mut input = Input::from_str(&cfg, "now", None);
    input.vim_history_turns = vec![
        VimHistoryTurn { user: "u1".into(), assistant: "a1".into() },
        VimHistoryTurn { user: "u2".into(), assistant: "".into() },
    ];
    let base = vec![
        Message::new(MessageRole::System, MessageContent::Text("sys".into())),
        Message::new(MessageRole::User, MessageContent::Text("now".into())),
    ];
    let ms = input.build_messages(base);
    let texts: Vec<String> = ms.iter().map(text_of).collect();
    assert_eq!(texts, vec!["sys", "u1", "a1", "u2", "now"]);
    assert_eq!(ms[2].role, MessageRole::Assistant);
}

#[test]
fn paths_are_sorted_by_kind() {
    let mut r = ResolvedPaths::new();
    assert_eq!(r.take_path("%%".into(), false, false).ok(), Some(false));
    assert_eq!(r.take_path("`git diff`".into(), false, false).ok(), Some(false));
    assert_eq!(r.take_path("https://e.com/a".into(), true, false).ok(), Some(false));
    assert_eq!(r.take_path("https://e.com/a".into(), true, false).ok(), Some(false));
    assert_eq!(r.take_path("jina:x".into(), false, true).ok(), Some(false));
    assert_eq!(r.take_path("src/main.rs".into(), false, false).ok(), Some(true));
    r.take_local("src/main.rs".into(), "/w/src/main.rs".into());
    assert_eq!(
        r.take_path("https://e.com/**".into(), true, false).err().unwrap(),
        "Invalid website 'https://e.com/**'"
    );
    assert!(r.with_last_reply);
    assert_eq!(r.external_cmds, vec!["git diff".to_string()]);
    assert_eq!(r.remote_urls, vec!["https://e.com/a".to_string()]);
    assert_eq!(r.protocol_paths, vec!["jina:x".to_string()]);
    assert_eq!(r.local_paths, vec!["src/main.rs".to_string()]);
    assert_eq!(
        r.raw_paths,
        vec!["%%", "`git diff`", "https://e.com/a", "jina:x", "/w/src/main.rs"]
            .into_iter()
            .map(String::from)
            .collect::<Vec<_>>()
    );
}

#[test]
fn image_paths_by_extension() {
    assert!(is_image("a/b/photo.JPG"));
    assert!(is_image("x.webp"));
    assert!(!is_image("notes.txt"));
    assert!(!is_image("png"));
    assert_eq!(path_extension_of("dir/file.tar.gz").as_deref(), Some("gz"));
    assert_eq!(path_extension_of(".bashrc"), None);
    assert_eq!(path_extension_of("dir.d/file"), None);
}

#[test]
fn from_documents_joins_texts_and_reads_json() {
    let cfg = config("");
    let doc = Document {
        kind: "FILE".into(),
        path: "input.json".into(),
        contents: r#"{"llm_history_turns":[{"user":"hi","assistant":"yo"}],"_cache_warm":true}"#.into(),
        json: Some(j(r#"{"llm_history_turns":[{"user":"hi","assistant":"yo"}],"_cache_warm":true}"#)),
    };
    let input = Input::from_documents(
        &cfg,
        "go",
        vec!["input.json".into()],
        vec![doc],
        vec![],
        vec![],
        false,
        None,
        Some(("3".into(), "7".into())),
        false,
        None,
    )
    .ok()
    .unwrap();
    assert_eq!(
        input.text(),
        concat_lines(&[
            "\n{\"llm_history_turns\":[{\"user\":\"hi\",\"assistant\":\"yo\"}],\"_cache_warm\":true}\n============ FILE: input.json ============",
            "go",
            "\ncursor_line:3, cursor_col:7",
        ])
    );
    assert_eq!(input.vim_history_turns.len(), 1);
    assert_eq!(input.vim_history_turns[0].assistant, "yo");
    assert!(input.cache_warm);

    let err = Input::from_documents(&cfg, "", vec![], vec![], vec![], vec![], true, None, None, false, None)
        .err()
        .unwrap();
    assert_eq!(err, "No last reply found");

    let with_reply = Input::from_documents(
        &cfg,
        "and then?",
        vec!["%%".into()],
        vec![],
        vec![],
        vec![],
        true,
        Some(("earlier answer".into(), None)),
        None,
        false,
        None,
    )
    .ok()
    .unwrap();
    assert_eq!(with_reply.text(), "\nearlier answer\nand then?");
    assert_eq!(with_reply.last_reply.as_deref(), Some("earlier answer"));
}

fn concat_lines(parts: &[&str]) -> String {
    parts.join("\n")
}

#[test]
fn completion_data_from_input() {
    let cfg = config("");
    let mut input = Input::from_str(&cfg, "q", None);
    input.cache_warm = true;
    input.role.temperature = Some(JsonNumber { text: "0.2".into(), as_u64: None, as_i64: None });
    let data = input.prepare_completion_data(
        vec![Message::new(MessageRole::User, MessageContent::Text("q".into()))],
        None,
        true,
    );
    assert_eq!(data.messages.len(), 1);
    assert_eq!(data.temperature.as_ref().map(|n| n.text.as_str()), Some("0.2"));
    assert!(data.top_p.is_none());
    assert!(data.stream && data.cache_warm);
}

#[test]
fn media_data_urls_by_extension() {
    assert_eq!(media_data_url("a/pic.PNG", b"hi").ok().unwrap(), "data:image/png;base64,aGk=");
    assert_eq!(media_data_url("x.jpeg", b"").ok().unwrap(), "data:image/jpeg;base64,");
    assert_eq!(media_data_url("doc.pdf", b"hi").err().unwrap(), "Unexpected media type");
}
