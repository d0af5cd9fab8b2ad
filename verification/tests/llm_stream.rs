use kiwix_chat::llm::{ChoiceDelta, StreamChunk, StreamState};
use kiwix_chat::llm::{
    assemble, normalize_base, pick_model, ChatMessage, FunctionCall, FunctionDelta, Role, SseBuffer,
    SseLine, ToolCall, ToolCallAccumulator, ToolCallDelta,
};

#[test]
fn normalizes_backend_base() {
    assert_eq!(normalize_base("http://localhost:8080"), "http://localhost:8080/v1");
    assert_eq!(normalize_base("http://localhost:8080/"), "http://localhost:8080/v1");
    assert_eq!(normalize_base("http://localhost:11434/v1/"), "http://localhost:11434/v1");
    // Normalizing twice changes nothing.
    let once = normalize_base("http://h:1//");
    assert_eq!(normalize_base(&once), once);
}

#[test]
fn picks_explicit_then_first_model() {
    assert_eq!(pick_model(Some("m".to_string()), vec![], "u"), Ok("m".to_string()));
    assert_eq!(pick_model(None, vec!["a".to_string(), "b".to_string()], "u"), Ok("a".to_string()));
    let err = pick_model(None, vec![], "http://x/v1").unwrap_err();
    assert_eq!(err.message, "http://x/v1 reported no models; pass --model to choose one");
}

#[test]
fn assembles_reply_without_empty_parts() {
    let m = assemble(String::new(), vec![]);
    assert_eq!(m, ChatMessage { role: Role::Assistant, content: None, tool_calls: None, tool_call_id: None });
    let m = assemble("hi".to_string(), vec![]);
    assert_eq!(m.content.as_deref(), Some("hi"));
}

fn delta(index: Option<usize>, id: Option<&str>, name: Option<&str>, args: Option<&str>) -> ToolCallDelta {
    ToolCallDelta {
        index,
        id: id.map(|s| s.to_string()),
        kind: None,
        function: Some(FunctionDelta { name: name.map(|s| s.to_string()), arguments: args.map(|s| s.to_string()) }),
    }
}

#[test]
fn accumulates_streamed_tool_calls_by_index() {
    let mut acc = ToolCallAccumulator::new();
    acc.push(delta(Some(0), Some("c1"), Some("search_"), Some("{\"query\":")));
    acc.push(delta(Some(0), None, Some("wikipedia"), Some("\"ada\"}")));
    acc.push(delta(Some(1), Some("c2"), Some("list_books"), None));
    let calls = acc.finish();
    assert_eq!(
        calls,
        vec![
            ToolCall {
                id: "c1".to_string(),
                kind: "function".to_string(),
                function: FunctionCall { name: "search_wikipedia".to_string(), arguments: "{\"query\":\"ada\"}".to_string() },
            },
            ToolCall {
                id: "c2".to_string(),
                kind: "function".to_string(),
                function: FunctionCall { name: "list_books".to_string(), arguments: String::new() },
            },
        ]
    );
}

#[test]
fn splits_event_stream_into_lines() {
    let mut b = SseBuffer::new();
    b.push_chunk(b"data: {\"a\"");
    assert_eq!(b.next_line(), None);
    b.push_chunk(b":1}\n: keep-alive\r\ndata: [DONE]\n");
    assert_eq!(b.next_line(), Some(SseLine::Data("{\"a\":1}".to_string())));
    assert_eq!(b.next_line(), Some(SseLine::Skip));
    assert_eq!(b.next_line(), Some(SseLine::Done));
    assert_eq!(b.next_line(), None);
}

#[test]
fn stream_state_reports_and_accumulates() {
    let mut st = StreamState::new();
    let n = st.take(StreamChunk { usage: Some((10, 2)), choice: None });
    assert_eq!(n.usage, Some((10, 2)));
    assert_eq!(n.token, None);
    let n = st.take(StreamChunk {
        usage: None,
        choice: Some(ChoiceDelta {
            content: Some("Hel".to_string()),
            reasoning: Some(String::new()),
            tool_calls: vec![],
        }),
    });
    assert_eq!(n.token, Some("Hel".to_string()));
    assert_eq!(n.reasoning, None);
    let n = st.take(StreamChunk {
        usage: None,
        choice: Some(ChoiceDelta {
            content: Some("lo".to_string()),
            reasoning: Some("think".to_string()),
            tool_calls: vec![ToolCallDelta {
                index: Some(0),
                id: Some("c1".to_string()),
                kind: None,
                function: Some(FunctionDelta { name: Some("list_books".to_string()), arguments: Some("{}".to_string()) }),
            }],
        }),
    });
    assert_eq!(n.reasoning, Some("think".to_string()));
    let m = st.finish();
    assert_eq!(m.role, Role::Assistant);
    assert_eq!(m.content, Some("Hello".to_string()));
    let calls = m.tool_calls.unwrap();
    assert_eq!(calls.len(), 1);
    assert_eq!(calls[0].id, "c1");
    assert_eq!(calls[0].kind, "function");
    assert_eq!(calls[0].function.name, "list_books");
}

#[test]
fn stream_state_empty_content_gives_no_text() {
    let mut st = StreamState::new();
    let n = st.take(StreamChunk {
        usage: None,
        choice: Some(ChoiceDelta { content: Some(String::new()), reasoning: None, tool_calls: vec![] }),
    });
    assert_eq!(n.token, None);
    let m = st.finish();
    assert_eq!(m.content, None);
    assert_eq!(m.tool_calls, None);
}

#[test]
fn split_character_is_decoded_whole() {
    // "é" is the two bytes C3 A9; the stream is cut between them.
    let mut b = SseBuffer::new();
    b.push_chunk(b"data: caf\xC3");
    assert_eq!(b.next_line(), None);
    b.push_chunk(b"\xA9\n");
    assert_eq!(b.next_line(), Some(SseLine::Data("café".to_string())));
}

#[test]
fn stream_ends_at_done_line() {
    let mut st = StreamState::new();
    assert_eq!(st.take_line(SseLine::Skip), None);
    assert!(!st.done);
    assert_eq!(st.take_line(SseLine::Data("{}".to_string())), Some("{}".to_string()));
    assert_eq!(st.take_line(SseLine::Done), None);
    assert!(st.done);
    assert_eq!(st.take_line(SseLine::Data("{}".to_string())), None);
}
