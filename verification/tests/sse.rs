use simple_chatgpt::event::Event;
use simple_chatgpt::sse::{is_sentinel, read_line, SseLine, CARRIAGE_RETURN, NEWLINE};

#[test]
fn the_bytes_that_end_a_line() {
    assert_eq!(NEWLINE, b'\n');
    assert_eq!(CARRIAGE_RETURN, b'\r');
}

#[test]
fn blank_lines_are_empty() {
    assert_eq!(SseLine::classify(b""), SseLine::Empty);
    assert_eq!(SseLine::classify(b"\r"), SseLine::Empty);
}

#[test]
fn data_lines_carry_what_follows_the_prefix() {
    assert_eq!(SseLine::classify(b"data: x"), SseLine::Data(b"x".to_vec()));
    assert_eq!(SseLine::classify(b"data: "), SseLine::Data(vec![]));
    assert_eq!(SseLine::classify(b"data: \r"), SseLine::Data(vec![]));
    assert_eq!(SseLine::classify(b"data:  x "), SseLine::Data(b" x ".to_vec()));
    assert_eq!(SseLine::classify(b"data: [DONE]\r"), SseLine::Data(b"[DONE]".to_vec()));
    assert_eq!(SseLine::classify(b"data: a\r\r"), SseLine::Data(b"a\r".to_vec()));
    assert_eq!(SseLine::classify(b"data: data: x"), SseLine::Data(b"data: x".to_vec()));
}

#[test]
fn anything_else_is_another_line() {
    for line in [&b"data:"[..], b"data:x", b"data", b"dat", b"Data: x", b" data: x", b": note",
        b"event: e", b"id: 1", b"\r\r", b" ", b"x"]
    {
        assert_eq!(SseLine::classify(line), SseLine::Other);
    }
}

#[test]
fn the_sentinel_is_told_exactly() {
    assert!(is_sentinel(b"[DONE]"));
    for other in [&b""[..], b"[DONE", b"[DONE] ", b" [DONE]", b"[done]", b"DONE", b"[DONE]\r",
        b"[DONF]", b"xDONE]"]
    {
        assert!(!is_sentinel(other));
    }
}

#[test]
fn read_line_tells_whether_the_stream_is_over() {
    let mut events = Vec::new();
    assert!(!read_line(b"", &mut events));
    assert!(!read_line(b": note", &mut events));
    assert!(events.is_empty());
    assert!(!read_line(b"data: {\"choices\":[{\"delta\":{}}]}", &mut events));
    assert_eq!(events.len(), 1);
    assert!(read_line(b"data: [DONE]", &mut events));
    assert_eq!(events[1..], [Event::End, Event::Done]);
    assert!(read_line(b"data: x", &mut events));
    assert_eq!(events[3..], [Event::Error("data: x".to_string())]);
}
