use pantry_rs::sse::{decode_frame, decode_frames, find_frame_end, DecodedEvent, EventStream};

const PROGRESS: &str = r#"{"stream_id":"6f1f5a0b-1c2d-4a43-9a8c-0d4ba8e69d0f","timestamp":"2023-08-01T10:00:00Z","call_timestamp":"2023-08-01T09:59:59Z","parameters":{},"input":"About me: ","llm_uuid":"9a8c0d4b-a8e6-4d0f-9a43-6f1f5a0b1c2d","session":{"id":"1c2d6f1f-5a0b-4a43-9a8c-0d4ba8e69d0f","llm_uuid":"9a8c0d4b-a8e6-4d0f-9a43-6f1f5a0b1c2d","user_id":"0d4ba8e6-9d0f-4a43-9a8c-6f1f5a0b1c2d","started":"2023-08-01T09:59:00Z","last_called":"2023-08-01T09:59:59Z","session_parameters":{}},"event":{"type":"PromptProgress","previous":"","next":"A"}}"#;
const COMPLETION: &str = r#"{"stream_id":"6f1f5a0b-1c2d-4a43-9a8c-0d4ba8e69d0f","timestamp":"2023-08-01T10:00:01Z","call_timestamp":"2023-08-01T09:59:59Z","parameters":{},"input":"About me: ","llm_uuid":"9a8c0d4b-a8e6-4d0f-9a43-6f1f5a0b1c2d","session":{"id":"1c2d6f1f-5a0b-4a43-9a8c-0d4ba8e69d0f","llm_uuid":"9a8c0d4b-a8e6-4d0f-9a43-6f1f5a0b1c2d","user_id":"0d4ba8e6-9d0f-4a43-9a8c-6f1f5a0b1c2d","started":"2023-08-01T09:59:00Z","last_called":"2023-08-01T10:00:01Z","session_parameters":{}},"event":{"type":"PromptCompletion","previous":"A"}}"#;

fn drain(s: &mut EventStream) -> Vec<DecodedEvent> {
    let mut out = Vec::new();
    while let Some(e) = s.next_event() {
        out.push(e);
    }
    out
}

fn event_type(e: &DecodedEvent) -> String {
    e.payload["event"]["type"].as_str().unwrap().to_string()
}

#[test]
fn progress_retry_completion_yields_two_events() {
    let body = format!("data: {}\n\n:retry 3000\n\ndata: {}\n\n", PROGRESS, COMPLETION);
    let mut s = EventStream::new();
    s.feed(body.as_bytes());
    s.finish();
    let first = s.next_event().unwrap();
    assert_eq!(event_type(&first), "PromptProgress");
    assert_eq!(first.payload["event"]["next"], "A");
    assert_eq!(first.data, PROGRESS);
    let second = s.next_event().unwrap();
    assert_eq!(event_type(&second), "PromptCompletion");
    assert_eq!(second.payload["event"]["previous"], "A");
    assert!(s.next_event().is_none());
    assert!(s.is_ended());
}

#[test]
fn keep_alive_frames_yield_nothing() {
    let mut s = EventStream::new();
    s.feed(b"retry: 3000\n\n:ping\n\nid: 4\nevent: noop\n\n");
    assert!(s.next_event().is_none());
    assert_eq!(s.dropped(), 3);
    s.feed(b"data: {\"n\": 1}\n\n");
    let e = s.next_event().unwrap();
    assert_eq!(e.payload["n"], 1);
    assert_eq!(s.dropped(), 3);
}

#[test]
fn malformed_json_frame_is_skipped_and_decoding_continues() {
    let body = "data: {\"n\": 1}\n\ndata: {not json\n\ndata: {\"n\": 3}\n\n";
    let mut s = EventStream::new();
    s.feed(body.as_bytes());
    let events = drain(&mut s);
    assert_eq!(events.len(), 2);
    assert_eq!(events[0].payload["n"], 1);
    assert_eq!(events[1].payload["n"], 3);
    assert_eq!(s.dropped(), 1);
}

#[test]
fn events_keep_arrival_order_across_chunks() {
    let body = "data: [1]\n\ndata: [2]\n\n:keep\n\ndata: [3]\n\n";
    let bytes = body.as_bytes();
    for split in 0..bytes.len() {
        let mut s = EventStream::new();
        let mut got = Vec::new();
        s.feed(&bytes[..split]);
        got.extend(drain(&mut s));
        s.feed(&bytes[split..]);
        got.extend(drain(&mut s));
        let data: Vec<String> = got.iter().map(|e| e.data.clone()).collect();
        assert_eq!(data, vec!["[1]", "[2]", "[3]"], "split at {}", split);
    }
}

#[test]
fn decoding_twice_gives_the_same_events() {
    let body = format!("data: {}\n\n:retry 3000\n\ndata: oops\n\ndata: {}\n\n", PROGRESS, COMPLETION);
    let mut a = EventStream::new();
    a.feed(body.as_bytes());
    let mut b = EventStream::new();
    b.feed(body.as_bytes());
    let ea: Vec<String> = drain(&mut a).into_iter().map(|e| e.data).collect();
    let eb: Vec<String> = drain(&mut b).into_iter().map(|e| e.data).collect();
    assert_eq!(ea, eb);
    assert_eq!(ea, vec![PROGRESS.to_string(), COMPLETION.to_string()]);
}

#[test]
fn incomplete_frame_waits_for_more_bytes() {
    let mut s = EventStream::new();
    s.feed(b"data: {\"a\": true}\n");
    assert!(s.next_event().is_none());
    s.feed(b"\n");
    assert_eq!(s.next_event().unwrap().payload["a"], true);
}

#[test]
fn unterminated_last_frame_is_dropped_at_end() {
    let mut s = EventStream::new();
    s.feed(b"data: [1]\n\ndata: [2]");
    s.finish();
    let events = drain(&mut s);
    assert_eq!(events.len(), 1);
    assert_eq!(events[0].data, "[1]");
}

#[test]
fn empty_body_yields_nothing() {
    let mut s = EventStream::new();
    s.finish();
    assert!(s.next_event().is_none());
    assert!(s.is_ended());
}

#[test]
fn crlf_frames_are_decoded() {
    let mut s = EventStream::new();
    s.feed(b"data: {\"x\": 5}\r\n\r\n:c\r\n\r\ndata: [7]\r\n\r\n");
    let events = drain(&mut s);
    assert_eq!(events.len(), 2);
    assert_eq!(events[0].payload["x"], 5);
    assert_eq!(events[1].data, "[7]");
}

#[test]
fn frame_end_is_found_at_first_blank_line() {
    assert_eq!(find_frame_end(b"data: 1\n\ndata: 2\n\n"), Some(9));
    assert_eq!(find_frame_end(b"data: 1\r\n\r\n"), Some(11));
    assert_eq!(find_frame_end(b"\n\n"), Some(2));
    assert_eq!(find_frame_end(b"data: 1\ndata: 2\n"), None);
    assert_eq!(find_frame_end(b""), None);
    assert_eq!(find_frame_end(b"\n"), None);
}

#[test]
fn single_frames_decode_to_their_data() {
    let e = decode_frame(b"id: 7\nevent: progress\ndata: {\"k\": \"v\"}\n\n").unwrap();
    assert_eq!(e.data, "{\"k\": \"v\"}");
    assert_eq!(e.payload["k"], "v");
    assert!(decode_frame(b"retry: 3000\n\n").is_none());
    assert!(decode_frame(b":comment\n\n").is_none());
    assert!(decode_frame(b"data: nope\n\n").is_none());
    assert!(decode_frame(&[b'd', b'a', b't', b'a', b':', b' ', 0xff, b'\n', b'\n']).is_none());
}

#[test]
fn multi_line_data_is_joined() {
    let e = decode_frame(b"data: [1,\ndata: 2]\n\n").unwrap();
    assert_eq!(e.data, "[1,\n2]");
    assert_eq!(e.payload[1], 2);
}

#[test]
fn frame_sequences_decode_in_order() {
    let frames: Vec<Vec<u8>> = vec![
        b"data: \"a\"\n\n".to_vec(),
        b":keep-alive\n\n".to_vec(),
        b"data: {broken\n\n".to_vec(),
        b"data: \"b\"\n\n".to_vec(),
    ];
    let events = decode_frames(&frames);
    let data: Vec<&str> = events.iter().map(|e| e.data.as_str()).collect();
    assert_eq!(data, vec!["\"a\"", "\"b\""]);
    assert!(decode_frames(&Vec::new()).is_empty());
}
