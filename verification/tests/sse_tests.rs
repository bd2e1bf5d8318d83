use aichat_core::sse::SseDecoder;

fn events(d: &mut SseDecoder, chunk: &[u8]) -> Vec<(String, String)> {
    d.feed(chunk).into_iter().map(|m| (m.event, m.data)).collect()
}

#[test]
fn events_across_chunks() {
    let mut d = SseDecoder::new();
    assert!(events(&mut d, b"event: content_block_delta\r\ndata: {\"a\"").is_empty());
    assert_eq!(
        events(&mut d, b":1}\r\n\r\ndata: x\n"),
        vec![("content_block_delta".to_string(), "{\"a\":1}".to_string())]
    );
    assert_eq!(events(&mut d, b"data: y\n\n"), vec![("message".to_string(), "x\ny".to_string())]);
}

#[test]
fn comments_blank_events_and_other_fields() {
    let mut d = SseDecoder::new();
    assert!(events(&mut d, b": keep-alive\n\nid: 7\nretry: 10\n\n").is_empty());
    assert_eq!(
        events(&mut d, b"event:ping\ndata\n\n"),
        vec![("ping".to_string(), "".to_string())]
    );
    // multi-byte text split across chunks
    let text = "data: h\u{e9}llo\n\n".as_bytes();
    assert!(events(&mut d, &text[..8]).is_empty());
    assert_eq!(events(&mut d, &text[8..]), vec![("message".to_string(), "h\u{e9}llo".to_string())]);
}

#[test]
fn invalid_bytes_become_replacement_characters() {
    let mut d = SseDecoder::new();
    assert_eq!(events(&mut d, b"data: a\xffb\n\n"), vec![("message".to_string(), "a\u{fffd}b".to_string())]);
}
