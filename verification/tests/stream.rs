use coding_agent::api::{
    authorization, chat_url, StreamChoice, StreamChunk, StreamDelta, StreamEvent,
    StreamFunctionCall, StreamToolCall, Usage,
};
use coding_agent::stream::{chat_fault_text, ChatFault, ChatStream, StreamLine};

fn shown(lines: Vec<StreamLine>) -> Vec<String> {
    lines
        .into_iter()
        .map(|line| match line {
            StreamLine::Done => "<done>".to_string(),
            StreamLine::Data(data) => data,
        })
        .collect()
}

fn delta(content: Option<&str>, thinking: Option<&str>, finish: Option<&str>) -> StreamChunk {
    StreamChunk {
        choices: vec![StreamChoice {
            delta: StreamDelta {
                content: content.map(|s| s.to_string()),
                tool_calls: None,
                reasoning_content: thinking.map(|s| s.to_string()),
            },
            finish_reason: finish.map(|s| s.to_string()),
        }],
        usage: None,
    }
}

fn call(index: u32, id: Option<&str>, name: Option<&str>, arguments: Option<&str>) -> StreamChunk {
    let mut chunk = delta(None, None, None);
    chunk.choices[0].delta.tool_calls = Some(vec![StreamToolCall {
        index,
        id: id.map(|s| s.to_string()),
        call_type: None,
        function: Some(StreamFunctionCall {
            name: name.map(|s| s.to_string()),
            arguments: arguments.map(|s| s.to_string()),
        }),
    }]);
    chunk
}

fn usage() -> Usage {
    Usage { prompt_tokens: 10, completion_tokens: 3, total_tokens: 13 }
}

#[test]
fn lines_are_cut_out_of_reads() {
    let mut stream = ChatStream::new();
    assert_eq!(shown(stream.feed(b"data: {\"a\":1}\r\n\r\n: note\ndata: {\"b\"").unwrap()), vec!["{\"a\":1}"]);
    assert_eq!(shown(stream.feed(b":2}\n  data: [DONE]  \ndata:x\n").unwrap()), vec!["{\"b\":2}", "<done>"]);
    assert_eq!(shown(stream.feed(b"data: tail").unwrap()), Vec::<String>::new());
    assert_eq!(shown(stream.feed(b"\n").unwrap()), vec!["tail"]);
    assert_eq!(shown(stream.feed("data: h\u{e9}\n".as_bytes()).unwrap()), vec!["h\u{e9}"]);
}

#[test]
fn reads_can_be_cut_at_any_character() {
    let text = "data: one\n\ndata: t\u{e9}\ndata: [DONE]\nrest";
    let mut whole = ChatStream::new();
    let expected = shown(whole.feed(text.as_bytes()).unwrap());
    for (at, _) in text.char_indices() {
        let mut stream = ChatStream::new();
        let mut lines = shown(stream.feed(text[..at].as_bytes()).unwrap());
        lines.extend(shown(stream.feed(text[at..].as_bytes()).unwrap()));
        assert_eq!(lines, expected);
    }
}

#[test]
fn reads_that_are_no_text_are_refused() {
    let mut stream = ChatStream::new();
    stream.feed(b"data: a").unwrap();
    let bytes = [0x61, 0xff];
    let error = std::str::from_utf8(&bytes).unwrap_err();
    assert_eq!(stream.feed(&bytes).unwrap_err(), format!("utf8 decode: {}", error));
    assert_eq!(shown(stream.feed(b"b\n").unwrap()), vec!["ab"]);
}

#[test]
fn content_and_thinking_add_up() {
    let mut stream = ChatStream::new();
    let (events, end) = stream.accept(&delta(Some("He"), Some("hm"), None));
    assert!(!end);
    assert_eq!(format!("{:?}", events), r#"[ThinkingDelta("hm"), ContentDelta("He")]"#);
    let (events, end) = stream.accept(&delta(Some("llo"), None, Some("stop")));
    assert!(end);
    assert_eq!(events.len(), 2);
    match &events[1] {
        StreamEvent::Done { message, usage } => {
            assert_eq!(message.role, "assistant");
            assert_eq!(message.content.as_deref(), Some("Hello"));
            assert_eq!(message.reasoning_content.as_deref(), Some("hm"));
            assert!(message.tool_calls.is_none());
            assert!(usage.is_none());
        }
        other => panic!("{:?}", other),
    }
}

#[test]
fn tool_calls_are_spelled_out() {
    let mut stream = ChatStream::new();
    let (events, _) = stream.accept(&call(1, Some("id1"), Some("bash"), Some("{\"com")));
    assert_eq!(
        format!("{:?}", events),
        r#"[ToolCallBegin { index: 1, id: "id1", name: "bash" }, ToolCallDelta { index: 1, arguments: "{\"com" }]"#
    );
    stream.accept(&call(1, None, None, Some("mand\":1}")));
    let (events, end) = stream.accept(&delta(None, None, Some("tool_calls")));
    assert!(end);
    match &events[0] {
        StreamEvent::Done { message, .. } => {
            assert!(message.content.is_none());
            let calls = message.tool_calls.as_ref().unwrap();
            assert_eq!(calls.len(), 2);
            assert_eq!((calls[0].id.as_str(), calls[0].function.name.as_str()), ("", ""));
            assert_eq!(calls[1].id, "id1");
            assert_eq!(calls[1].call_type, "function");
            assert_eq!(calls[1].function.name, "bash");
            assert_eq!(calls[1].function.arguments, "{\"command\":1}");
        }
        other => panic!("{:?}", other),
    }
}

#[test]
fn a_usage_ends_the_response() {
    let mut stream = ChatStream::new();
    stream.accept(&delta(Some("x"), None, Some("length")));
    let mut last = delta(Some("not told"), None, None);
    last.usage = Some(usage());
    let (events, end) = stream.accept(&last);
    assert!(end);
    assert_eq!(events.len(), 1);
    match &events[0] {
        StreamEvent::Done { message, usage: Some(u) } => {
            assert_eq!(message.content.as_deref(), Some("x"));
            assert_eq!((u.prompt_tokens, u.completion_tokens, u.total_tokens), (10, 3, 13));
        }
        other => panic!("{:?}", other),
    }
}

#[test]
fn chunks_without_choices_say_nothing() {
    let mut stream = ChatStream::new();
    let (events, end) = stream.accept(&StreamChunk { choices: vec![], usage: None });
    assert!(events.is_empty() && !end);
    match stream.finish() {
        Some(StreamEvent::Done { message, usage }) => {
            assert!(message.content.is_none() && message.tool_calls.is_none() && usage.is_none());
        }
        other => panic!("{:?}", other),
    }
}

#[test]
fn faults_are_told() {
    assert_eq!(chat_fault_text(&ChatFault::Serialize, "e"), "serialize: e");
    assert_eq!(chat_fault_text(&ChatFault::Request, "e"), "API request failed: e");
    assert_eq!(chat_fault_text(&ChatFault::Read, "e"), "read stream: e");
    assert_eq!(
        chat_fault_text(&ChatFault::Chunk("data".to_string()), "e"),
        "parse chunk: e - data"
    );
}

#[test]
fn requests_go_to_the_completions() {
    assert_eq!(chat_url("http://h/v1//"), "http://h/v1/chat/completions");
    assert_eq!(chat_url("http://h/v1"), "http://h/v1/chat/completions");
    assert_eq!(authorization("k"), "Bearer k");
}

#[test]
fn texts_are_taken_as_bytes_are() {
    let mut stream = ChatStream::new();
    assert_eq!(shown(stream.take_text("data: a\ndata: ")), vec!["a"]);
    assert_eq!(shown(stream.feed(b"b\n").unwrap()), vec!["b"]);
}

#[test]
fn streams_end_once() {
    let mut stream = ChatStream::new();
    stream.accept(&delta(Some("x"), None, None));
    let (events, end) = stream.accept(&delta(Some("y"), None, Some("stop")));
    assert!(end && matches!(events.last(), Some(StreamEvent::Done { usage: None, .. })));
    let mut late = delta(Some("z"), None, None);
    late.usage = Some(usage());
    let (events, end) = stream.accept(&late);
    assert!(end && events.is_empty());
    assert!(stream.finish().is_none());

    let mut stream = ChatStream::new();
    stream.accept(&delta(Some("x"), None, None));
    assert!(matches!(stream.finish(), Some(StreamEvent::Done { message, usage: None })
        if message.content.as_deref() == Some("x")));
    assert!(stream.finish().is_none());
    let (events, end) = stream.accept(&delta(Some("y"), None, None));
    assert!(end && events.is_empty());
}
