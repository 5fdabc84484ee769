use scarlet_youtube::stream::{StreamAction, StreamingResponse};
use scarlet_youtube::transfer::{
    append_plaintext, http_error_body_message, WriteAll, WriteEvent, WriteStep,
};

fn written(action: StreamAction) -> (Vec<u8>, bool) {
    match action {
        StreamAction::Write { bytes, truncate } => (bytes, truncate),
        _ => panic!("expected bytes to write"),
    }
}

#[test]
fn a_successful_response_streams_its_body() {
    let mut r = StreamingResponse::new();
    assert!(matches!(r.on_record(b"HTTP/1.1 200 OK\r\nContent-"), Ok(StreamAction::Nothing)));
    assert!(r.finished(false).is_none());
    let first = r.on_record(b"Length: 5\r\n\r\nabc").unwrap();
    assert_eq!(written(first), (b"abc".to_vec(), true));
    assert!(r.finished(false).is_none());
    let second = r.on_record(b"de").unwrap();
    assert_eq!(written(second), (b"de".to_vec(), false));
    let done = r.finished(false).unwrap();
    assert_eq!(done.status, 200);
    assert_eq!(done.headers, "HTTP/1.1 200 OK\r\nContent-Length: 5\r\n\r\n");
    assert!(done.body.is_empty());
}

#[test]
fn an_empty_first_body_creates_the_output() {
    let mut r = StreamingResponse::new();
    assert!(matches!(r.on_record(b"HTTP/1.1 206 Partial\r\n\r\n"), Ok(StreamAction::Touch)));
    assert!(r.finished(false).is_none());
    let done = r.finished(true).unwrap();
    assert_eq!(done.status, 206);
}

#[test]
fn a_redirect_ends_once_its_head_is_in() {
    let mut r = StreamingResponse::new();
    assert!(matches!(
        r.on_record(b"HTTP/1.1 302 Found\r\nLocation: /x\r\n\r\nmoved"),
        Ok(StreamAction::Nothing)
    ));
    let done = r.finished(false).unwrap();
    assert_eq!(done.status, 302);
    assert_eq!(done.body, b"moved".to_vec());
}

#[test]
fn an_error_body_keeps_at_most_512_more_bytes() {
    let mut r = StreamingResponse::new();
    assert!(matches!(r.on_record(b"HTTP/1.1 403 Forbidden\r\n\r\nno"), Ok(StreamAction::Nothing)));
    assert!(matches!(r.on_record(&[b'x'; 600]), Ok(StreamAction::Nothing)));
    assert!(matches!(r.on_record(b"more"), Ok(StreamAction::Nothing)));
    let done = r.finished(true).unwrap();
    assert_eq!(done.status, 403);
    assert_eq!(done.body.len(), 512);
    assert_eq!(&done.body[..2], b"no");
}

#[test]
fn streaming_failures() {
    let mut r = StreamingResponse::new();
    assert_eq!(
        r.on_record(b"HTTP/1.1 200 OK\r\nTransfer-Encoding: chunked\r\n\r\n").err(),
        Some("streaming chunked HTTPS body is unsupported".to_string())
    );
    let mut r = StreamingResponse::new();
    assert_eq!(r.on_record(&vec![b'a'; 65537]).err(), Some("HTTP headers are too large".to_string()));
    let mut r = StreamingResponse::new();
    assert_eq!(r.on_record(b"HTTP/1.1 \xff\r\n\r\n").err(), Some("HTTP headers are not UTF-8".to_string()));
    let mut r = StreamingResponse::new();
    assert_eq!(r.on_record(b"garbage\r\n\r\n").err(), Some("invalid HTTP status".to_string()));
}

#[test]
fn writes_go_out_in_full() {
    let mut w = WriteAll::new("output file", 10);
    assert!(!w.is_done());
    assert!(matches!(w.on_event(WriteEvent::Wrote(4)), WriteStep::Retry { pause_ms: 1 }));
    assert_eq!(w.offset(), 4);
    assert!(matches!(w.on_event(WriteEvent::WouldBlock), WriteStep::Retry { pause_ms: 10 }));
    assert_eq!(w.offset(), 4);
    assert!(matches!(w.on_event(WriteEvent::Wrote(6)), WriteStep::Done));
    assert!(w.is_done());
}

#[test]
fn write_failures_name_the_context() {
    let mut w = WriteAll::new("media stream", 3);
    match w.on_event(WriteEvent::Wrote(0)) {
        WriteStep::Fail(m) => assert_eq!(m, "media stream short write"),
        _ => panic!("expected a failure"),
    }
    let mut w = WriteAll::new("TLS handshake", 3);
    match w.on_event(WriteEvent::Failed("reset".to_string())) {
        WriteStep::Fail(m) => assert_eq!(m, "TLS handshake write failed: reset"),
        _ => panic!("expected a failure"),
    }
}

#[test]
fn refusals_time_out() {
    let mut w = WriteAll::new("DNS query", 1);
    for _ in 0..200 {
        assert!(matches!(w.on_event(WriteEvent::WouldBlock), WriteStep::Retry { pause_ms: 10 }));
    }
    match w.on_event(WriteEvent::WouldBlock) {
        WriteStep::Fail(m) => assert_eq!(m, "DNS query write timed out"),
        _ => panic!("expected a time out"),
    }
    let mut w = WriteAll::new("media stream", 1);
    for _ in 0..6000 {
        assert!(matches!(w.on_event(WriteEvent::WouldBlock), WriteStep::Retry { .. }));
    }
    assert!(matches!(w.on_event(WriteEvent::WouldBlock), WriteStep::Fail(_)));
}

#[test]
fn a_write_clears_the_refusals() {
    let mut w = WriteAll::new("x", 2);
    for _ in 0..200 {
        w.on_event(WriteEvent::WouldBlock);
    }
    assert!(matches!(w.on_event(WriteEvent::Wrote(1)), WriteStep::Retry { pause_ms: 1 }));
    assert!(matches!(w.on_event(WriteEvent::WouldBlock), WriteStep::Retry { pause_ms: 10 }));
}

#[test]
fn plaintext_grows_up_to_the_limit() {
    let mut p = b"ab".to_vec();
    assert_eq!(append_plaintext(&mut p, b"cd"), Ok(()));
    assert_eq!(p, b"abcd".to_vec());
}

#[test]
fn error_body_lines() {
    assert_eq!(http_error_body_message(404, b""), None);
    assert_eq!(http_error_body_message(404, b"not here"), Some("[yt] HTTP 404 body: not here".to_string()));
    assert_eq!(http_error_body_message(500, &[0xff, 0xfe]), Some("[yt] HTTP 500 body: 2 bytes".to_string()));
    let long = vec![b'z'; 600];
    assert_eq!(http_error_body_message(403, &long), Some(format!("[yt] HTTP 403 body: {}", "z".repeat(512))));
    let mut cut = vec![b'a'; 511];
    cut.extend_from_slice("é".as_bytes());
    assert_eq!(http_error_body_message(403, &cut), Some("[yt] HTTP 403 body: 513 bytes".to_string()));
}
