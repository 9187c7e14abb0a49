use agent_loop::sse::{is_delivery_event, SseParser, Utf8Chunker};

#[test]
fn parser_tracks_event_names_for_smee_control_events() {
    let mut parser = SseParser::new();
    let events = parser.feed(
        "event: ready\ndata: {}\n\nevent: ping\ndata: {}\n\ndata: {\"body\":{\"a\":1}}\n\n",
    );
    assert_eq!(events.len(), 3);
    assert_eq!(events[0].name, "ready");
    assert_eq!(events[1].name, "ping");
    assert_eq!(events[2].name, "");
    assert_eq!(events[2].data, r#"{"body":{"a":1}}"#);
}

#[test]
fn parser_handles_chunk_split_and_no_space_data() {
    let mut parser = SseParser::new();
    assert!(parser.feed("data:hel").is_empty());
    assert!(parser.feed("lo\n").is_empty());
    let events = parser.feed("\n");
    assert_eq!(events.len(), 1);
    assert_eq!(events[0].data, "hello");
}

#[test]
fn utf8_chunker_reassembles_split_multibyte_chars() {
    let bytes = "数据中文".as_bytes();
    let mut chunker = Utf8Chunker::new();
    let first = chunker.feed(&bytes[..4]);
    let second = chunker.feed(&bytes[4..]);
    assert_eq!(format!("{first}{second}"), "数据中文");
}

#[test]
fn multi_line_data_is_joined_with_newlines_and_crlf_is_accepted() {
    let mut parser = SseParser::new();
    let events = parser.feed("data: one\r\ndata:two\r\nid: 7\r\n: comment\r\n\r\n");
    assert_eq!(events.len(), 1);
    assert_eq!(events[0].name, "");
    assert_eq!(events[0].data, "one\ntwo");
}

#[test]
fn blank_line_without_data_resets_the_event_name() {
    let mut parser = SseParser::new();
    assert!(parser.feed("event: ping\n\n").is_empty());
    let events = parser.feed("data: x\n\n");
    assert_eq!(events.len(), 1);
    assert_eq!(events[0].name, "");
}

#[test]
fn event_name_is_trimmed() {
    let mut parser = SseParser::new();
    let events = parser.feed("event:   message  \ndata:  two spaces\n\n");
    assert_eq!(events[0].name, "message");
    assert_eq!(events[0].data, " two spaces");
}

#[test]
fn same_events_whatever_the_chunking() {
    let stream = "event: ready\ndata: {}\n\ndata: a\ndata: b\n\nevent: ping\ndata: p\n\n";
    let mut whole = SseParser::new();
    let all: Vec<(String, String)> =
        whole.feed(stream).into_iter().map(|e| (e.name, e.data)).collect();
    for cut in 0..stream.len() {
        if !stream.is_char_boundary(cut) {
            continue;
        }
        let mut parser = SseParser::new();
        let mut got: Vec<(String, String)> =
            parser.feed(&stream[..cut]).into_iter().map(|e| (e.name, e.data)).collect();
        got.extend(parser.feed(&stream[cut..]).into_iter().map(|e| (e.name, e.data)));
        assert_eq!(got, all, "cut at {cut}");
    }
    assert_eq!(all.len(), 3);
}

#[test]
fn only_unnamed_and_message_events_are_deliveries() {
    assert!(is_delivery_event(""));
    assert!(is_delivery_event("message"));
    assert!(!is_delivery_event("ready"));
    assert!(!is_delivery_event("ping"));
    assert!(!is_delivery_event("messages"));
}

#[test]
fn utf8_chunker_drops_invalid_bytes_and_keeps_incomplete_tail() {
    let mut chunker = Utf8Chunker::new();
    assert_eq!(chunker.feed(&[b'a', 0xff, b'b']), "a");
    assert_eq!(chunker.feed(&[b'c']), "c");
    let euro = "€".as_bytes();
    assert_eq!(chunker.feed(&euro[..1]), "");
    assert_eq!(chunker.feed(&euro[1..]), "€");
}
