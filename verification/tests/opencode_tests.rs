use outer::opencode::{
    interpret_event, parse_event, preview, ContentEvent, ErrorEvent, EventFields, SseParser,
    StreamEvent,
};

#[test]
fn test_stream_event_clone() {
    let content = StreamEvent::Content(ContentEvent {
        text: "test".to_string(),
    });
    let cloned = content.clone();
    match cloned {
        StreamEvent::Content(c) => assert_eq!(c.text, "test"),
        _ => panic!("Clone failed"),
    }

    let done = StreamEvent::Done;
    let done_cloned = done.clone();
    assert!(matches!(done_cloned, StreamEvent::Done));

    let error = StreamEvent::Error(ErrorEvent {
        message: "err".to_string(),
        code: None,
    });
    let error_cloned = error.clone();
    match error_cloned {
        StreamEvent::Error(e) => assert_eq!(e.message, "err"),
        _ => panic!("Clone failed"),
    }

    let unknown = StreamEvent::Unknown {
        event_type: "custom".to_string(),
        data: "data".to_string(),
    };
    let unknown_cloned = unknown.clone();
    match unknown_cloned {
        StreamEvent::Unknown { event_type, data } => {
            assert_eq!(event_type, "custom");
            assert_eq!(data, "data");
        }
        _ => panic!("Clone failed"),
    }
}

#[test]
fn test_content_event_clone() {
    let event = ContentEvent {
        text: "hello".to_string(),
    };
    let cloned = event.clone();
    assert_eq!(cloned.text, "hello");
}

#[test]
fn test_error_event_clone() {
    let event = ErrorEvent {
        message: "error".to_string(),
        code: Some("500".to_string()),
    };
    let cloned = event.clone();
    assert_eq!(cloned.message, "error");
    assert_eq!(cloned.code, Some("500".to_string()));
}

#[test]
fn test_stream_event_debug() {
    let content = StreamEvent::Content(ContentEvent {
        text: "test".to_string(),
    });
    let debug_str = format!("{:?}", content);
    assert!(debug_str.contains("Content"));

    let done = StreamEvent::Done;
    let debug_str = format!("{:?}", done);
    assert!(debug_str.contains("Done"));
}

#[test]
fn test_parse_event_message_part_with_delta() {
    let data = r#"{"type": "message.part.updated", "properties": {"delta": "Hello!", "part": {"sessionID": "ses_123"}}}"#;
    let event = parse_event("", data, Some("ses_123")).unwrap();
    match event {
        Some(StreamEvent::Content(content)) => {
            assert_eq!(content.text, "Hello!");
        }
        _ => panic!("Expected Content event"),
    }
}

#[test]
fn test_parse_event_session_idle() {
    let data = r#"{"type": "session.idle", "properties": {"sessionID": "ses_123"}}"#;
    let event = parse_event("", data, Some("ses_123")).unwrap();
    assert!(matches!(event, Some(StreamEvent::Done)));
}

#[test]
fn test_parse_event_session_error() {
    let data = r#"{"type": "session.error", "properties": {"sessionID": "ses_123", "error": {"message": "Rate limited"}}}"#;
    let event = parse_event("", data, Some("ses_123")).unwrap();
    match event {
        Some(StreamEvent::Error(err)) => {
            assert_eq!(err.message, "Rate limited");
        }
        _ => panic!("Expected Error event"),
    }
}

#[test]
fn test_parse_event_filters_other_sessions() {
    let data = r#"{"type": "session.idle", "properties": {"sessionID": "ses_other"}}"#;
    let event = parse_event("", data, Some("ses_123")).unwrap();
    assert!(event.is_none());
}

#[test]
fn test_parse_event_unknown() {
    let data = r#"{"type": "custom_event", "properties": {}}"#;
    let event = parse_event("", data, None).unwrap();
    match event {
        Some(StreamEvent::Unknown { event_type, .. }) => {
            assert_eq!(event_type, "custom_event");
        }
        _ => panic!("Expected Unknown event"),
    }
}

#[test]
fn parse_event_reads_every_field() {
    // The error value is rendered as JSON where it has no message.
    let data = r#"{"type":"session.error","properties":{"error":{"code":7}}}"#;
    match parse_event("", data, None).unwrap() {
        Some(StreamEvent::Error(e)) => {
            assert_eq!(e.message, r#"{"code":7}"#);
            assert_eq!(e.code, None);
        }
        _ => panic!("Expected Error event"),
    }
    // No error value at all.
    let data = r#"{"type":"session.error","properties":{}}"#;
    match parse_event("", data, None).unwrap() {
        Some(StreamEvent::Error(e)) => assert_eq!(e.message, "Unknown error"),
        _ => panic!("Expected Error event"),
    }
    // No properties at all.
    let data = r#"{"type":"session.error"}"#;
    match parse_event("", data, None).unwrap() {
        Some(StreamEvent::Error(e)) => assert_eq!(e.message, "Session error"),
        _ => panic!("Expected Error event"),
    }
    // The part's content stands in for a missing delta.
    let data = r#"{"type":"message.part.updated","properties":{"part":{"content":"whole"}}}"#;
    match parse_event("", data, None).unwrap() {
        Some(StreamEvent::Content(c)) => assert_eq!(c.text, "whole"),
        _ => panic!("Expected Content event"),
    }
    // An update that carries no text says nothing.
    let data = r#"{"type":"message.part.updated","properties":{"part":{"content":""}}}"#;
    assert!(parse_event("", data, None).unwrap().is_none());
    // The frame's event type stands in for a missing payload type.
    match parse_event("session.idle", r#"{"properties":{}}"#, None).unwrap() {
        Some(StreamEvent::Done) => {}
        _ => panic!("Expected Done event"),
    }
    // A session named at the part filters too.
    let data = r#"{"type":"session.idle","properties":{"part":{"sessionID":"other"}}}"#;
    assert!(parse_event("", data, Some("mine")).unwrap().is_none());
    // The raw data travels with an unknown event.
    match parse_event("", r#"{"type":"x","n":1}"#, None).unwrap() {
        Some(StreamEvent::Unknown { event_type, data }) => {
            assert_eq!(event_type, "x");
            assert_eq!(data, r#"{"type":"x","n":1}"#);
        }
        _ => panic!("Expected Unknown event"),
    }
}

#[test]
fn parse_event_refuses_what_is_no_json() {
    let err = parse_event("", "not json", None).unwrap_err();
    assert!(err.to_string().starts_with("OpenCode error: Failed to parse event: "));
}

#[test]
fn interpret_event_on_given_fields() {
    let fields = EventFields {
        payload_type: Some("message.part.updated".to_string()),
        has_properties: true,
        session_id: Some("s1".to_string()),
        part_session_id: None,
        delta: Some(String::new()),
        part_content: Some("body".to_string()),
        error_message: None,
        error_text: None,
    };
    match interpret_event("ignored", "{}", &fields, Some("s1")) {
        Some(StreamEvent::Content(c)) => assert_eq!(c.text, "body"),
        _ => panic!("Expected Content event"),
    }
    assert!(interpret_event("ignored", "{}", &fields, Some("s2")).is_none());
}

fn frames(parser: &mut SseParser, chunk: &[u8]) -> Vec<(String, String)> {
    parser
        .feed(chunk)
        .into_iter()
        .map(|f| (f.event_type, f.data))
        .collect()
}

#[test]
fn sse_parser_reads_frames() {
    let mut parser = SseParser::new();
    let got = frames(
        &mut parser,
        b"event: message\r\ndata: one\r\ndata:  two  \r\n\r\n: comment\ndata:last\n\n",
    );
    assert_eq!(
        got,
        vec![
            ("message".to_string(), "one\ntwo".to_string()),
            (String::new(), "last".to_string()),
        ]
    );
}

#[test]
fn sse_parser_keeps_state_across_chunks() {
    let payload: &[u8] = "event: a\r\ndata: {\"k\":\"h\u{e9}llo\"}\r\n\r\ndata: x\n\nevent: b\n\n".as_bytes();
    let mut whole = SseParser::new();
    let expected = frames(&mut whole, payload);
    assert_eq!(expected.len(), 2);
    assert_eq!(expected[0], ("a".to_string(), "{\"k\":\"h\u{e9}llo\"}".to_string()));
    // Every cut into two chunks, also inside a line break and inside a character.
    for cut in 0..=payload.len() {
        let mut parser = SseParser::new();
        let mut got = frames(&mut parser, &payload[..cut]);
        got.extend(frames(&mut parser, &payload[cut..]));
        assert_eq!(got, expected);
    }
    // One byte at a time.
    let mut parser = SseParser::new();
    let mut got = Vec::new();
    for b in payload {
        got.extend(frames(&mut parser, &[*b]));
    }
    assert_eq!(got, expected);
}

#[test]
fn sse_parser_skips_events_without_data() {
    let mut parser = SseParser::new();
    assert!(frames(&mut parser, b"event: lonely\n\n\n").is_empty());
    // The name of the event stays until data arrives.
    assert_eq!(
        frames(&mut parser, b"data: d\n\n"),
        vec![("lonely".to_string(), "d".to_string())]
    );
}

#[test]
fn preview_bounds_the_text() {
    assert_eq!(preview("short"), "short");
    let long = "a".repeat(250);
    assert_eq!(preview(&long), format!("{}...", "a".repeat(200)));
    // 199 bytes and a two-byte character: the cut falls back to the boundary.
    let tricky = format!("{}\u{e9}{}", "b".repeat(199), "c".repeat(50));
    assert_eq!(preview(&tricky), format!("{}...", "b".repeat(199)));
    let exact = "d".repeat(200);
    assert_eq!(preview(&exact), exact);
}
