use simple_chatgpt::assembler::Assembler;
use simple_chatgpt::completion::{Choice, CompletionFragment, Message};
use simple_chatgpt::event::{CallbackReason, Event};
use simple_chatgpt::json::{Json, Member};

fn fragment(content: &str) -> CompletionFragment {
    CompletionFragment {
        choices: vec![Choice {
            delta: Message { role: None, content: Some(content.to_string()) },
            other: vec![],
        }],
    }
}

fn data(content: &str) -> Event {
    Event::Data(fragment(content))
}

fn deliver(chunks: &[&[u8]]) -> (Vec<Event>, Vec<usize>, Assembler) {
    let mut assembler = Assembler::new();
    let mut events = Vec::new();
    let mut consumed = Vec::new();
    for chunk in chunks {
        consumed.push(assembler.process(chunk, &mut events).unwrap());
    }
    (events, consumed, assembler)
}

const HELLO: &[u8] = b"data: {\"choices\":[{\"delta\":{\"content\":\"Hello\"}}]}\n\ndata: [DONE]\n\n";

#[test]
fn frame_split_across_two_chunks() {
    let first: &[u8] = b"data: {\"choices\":[{\"delta\":{\"content\":\"Hel";
    let second: &[u8] = b"lo\"}}]}\n\ndata: [DONE]\n\n";
    let (events, consumed, assembler) = deliver(&[first, second]);
    assert_eq!(events, vec![Event::Start, data("Hello"), Event::End, Event::Done]);
    assert_eq!(consumed, vec![0, first.len() + second.len() - 1]);
    assert!(assembler.is_terminal());
    assert!(assembler.buffered().is_empty());
}

#[test]
fn partial_line_waits_in_the_buffer() {
    let first: &[u8] = b"data: {\"choices\":[{\"delta\":{\"content\":\"Hel";
    let (events, consumed, assembler) = deliver(&[first]);
    assert_eq!(events, vec![Event::Start]);
    assert_eq!(consumed, vec![0]);
    assert_eq!(assembler.buffered(), first);
    assert!(assembler.is_started());
    assert!(!assembler.is_terminal());
}

#[test]
fn payload_that_is_no_json_reports_one_error() {
    let (events, consumed, assembler) = deliver(&[b"data: not-json\n\n"]);
    assert_eq!(events, vec![Event::Start, Event::Error("data: not-json".to_string())]);
    assert_eq!(consumed, vec![15]);
    assert!(assembler.is_terminal());
    assert!(assembler.buffered().is_empty());
}

#[test]
fn empty_chunk_first_reports_start_only() {
    let (events, consumed, assembler) = deliver(&[b""]);
    assert_eq!(events, vec![Event::Start]);
    assert_eq!(consumed, vec![0]);
    assert!(assembler.buffered().is_empty());
    assert!(assembler.is_started());
    assert!(!assembler.is_terminal());
}

#[test]
fn empty_chunk_later_changes_nothing() {
    let (events, consumed, assembler) = deliver(&[b"data: {\"cho", b"", b""]);
    assert_eq!(events, vec![Event::Start]);
    assert_eq!(consumed, vec![0, 0, 0]);
    assert_eq!(assembler.buffered(), b"data: {\"cho");
}

#[test]
fn start_is_reported_once() {
    let (events, _, _) = deliver(&[b"", b"\n", b": note\n", b""]);
    assert_eq!(events, vec![Event::Start]);
}

#[test]
fn new_assembler_has_reported_nothing() {
    let assembler = Assembler::new();
    assert!(!assembler.is_started());
    assert!(!assembler.is_terminal());
    assert!(assembler.buffered().is_empty());
}

#[test]
fn nothing_is_reported_after_done() {
    let (mut events, _, mut assembler) = deliver(&[HELLO]);
    let before = events.len();
    let more: &[u8] = b"data: {\"choices\":[{\"delta\":{\"content\":\"again\"}}]}\n\ndata: [DONE]\n";
    assert_eq!(assembler.process(more, &mut events), Ok(0));
    assert_eq!(assembler.process(b"", &mut events), Ok(0));
    assert_eq!(events.len(), before);
    assert!(assembler.is_terminal());
    assert!(assembler.buffered().is_empty());
}

#[test]
fn nothing_is_reported_after_an_error() {
    let (mut events, _, mut assembler) = deliver(&[b"data: {oops\n"]);
    assert_eq!(events, vec![Event::Start, Event::Error("data: {oops".to_string())]);
    assert_eq!(assembler.process(HELLO, &mut events), Ok(0));
    assert_eq!(events.len(), 2);
}

#[test]
fn lines_after_a_bad_payload_in_the_same_chunk_are_dropped() {
    let stream: &[u8] = b"data: nope\ndata: {\"choices\":[{\"delta\":{\"content\":\"x\"}}]}\ndata: [DONE]\n";
    let (events, consumed, assembler) = deliver(&[stream]);
    assert_eq!(events, vec![Event::Start, Event::Error("data: nope".to_string())]);
    assert_eq!(consumed, vec![11]);
    assert!(assembler.buffered().is_empty());
}

#[test]
fn bytes_after_the_sentinel_are_dropped() {
    let (events, consumed, assembler) = deliver(&[b"data: [DONE]\ndata: trailing"]);
    assert_eq!(events, vec![Event::Start, Event::End, Event::Done]);
    assert_eq!(consumed, vec![13]);
    assert!(assembler.buffered().is_empty());
    assert!(assembler.is_terminal());
}

#[test]
fn truncated_stream_never_ends() {
    let stream: &[u8] = b"data: {\"choices\":[{\"delta\":{\"content\":\"a\"}}]}\n\ndata: {\"choices\":[{\"delta\":{\"content\":\"b\"}}]}\n\ndata: [DON";
    let (events, _, assembler) = deliver(&[stream]);
    assert_eq!(events, vec![Event::Start, data("a"), data("b")]);
    assert!(!assembler.is_terminal());
    assert_eq!(assembler.buffered(), b"data: [DON");
}

#[test]
fn sentinel_without_newline_is_not_yet_the_end() {
    let (mut events, _, mut assembler) = deliver(&[b"data: [DONE]"]);
    assert_eq!(events, vec![Event::Start]);
    assert_eq!(assembler.process(b"\n", &mut events), Ok(13));
    assert_eq!(events, vec![Event::Start, Event::End, Event::Done]);
}

#[test]
fn every_split_in_two_gives_the_same_events() {
    let stream: &[u8] = b": hello\r\ndata: {\"choices\":[{\"delta\":{\"content\":\"He\"}}]}\r\n\r\ndata: {\"choices\":[{\"delta\":{\"content\":\"llo\"}}]}\n\ndata: [DONE]\n\n";
    let (whole, whole_consumed, _) = deliver(&[stream]);
    assert_eq!(whole, vec![Event::Start, data("He"), data("llo"), Event::End, Event::Done]);
    for cut in 0..=stream.len() {
        let (events, consumed, assembler) = deliver(&[&stream[..cut], &stream[cut..]]);
        assert_eq!(events, whole, "cut at {}", cut);
        assert_eq!(consumed.iter().sum::<usize>(), whole_consumed[0], "cut at {}", cut);
        assert!(assembler.is_terminal());
        assert!(assembler.buffered().is_empty());
    }
}

#[test]
fn every_split_in_three_gives_the_same_events() {
    let stream: &[u8] = b"data: {\"choices\":[{\"delta\":{\"content\":\"a\"}}]}\r\n\ndata: [DONE]\n";
    let (whole, _, _) = deliver(&[stream]);
    for first in 0..=stream.len() {
        for second in first..=stream.len() {
            let (events, _, _) =
                deliver(&[&stream[..first], &stream[first..second], &stream[second..]]);
            assert_eq!(events, whole);
        }
    }
}

#[test]
fn byte_by_byte_delivery_gives_the_same_events() {
    let mut assembler = Assembler::new();
    let mut events = Vec::new();
    let mut total = 0;
    for byte in HELLO {
        total += assembler.process(&[*byte], &mut events).unwrap();
    }
    assert_eq!(events, vec![Event::Start, data("Hello"), Event::End, Event::Done]);
    assert_eq!(total, HELLO.len() - 1);
}

#[test]
fn carriage_returns_are_stripped() {
    let stream: &[u8] = b"data: {\"choices\":[{\"delta\":{\"content\":\"Hi\"}}]}\r\n\r\ndata: [DONE]\r\n\r\n";
    let (events, _, _) = deliver(&[stream]);
    assert_eq!(events, vec![Event::Start, data("Hi"), Event::End, Event::Done]);
}

#[test]
fn split_between_carriage_return_and_newline() {
    let (events, _, _) = deliver(&[b"data: [DONE]\r", b"\n"]);
    assert_eq!(events, vec![Event::Start, Event::End, Event::Done]);
}

#[test]
fn only_one_carriage_return_is_stripped() {
    let (events, _, _) = deliver(&[b"data: [DONE]\r\r\n"]);
    assert_eq!(events, vec![Event::Start, Event::Error("data: [DONE]\r".to_string())]);
}

#[test]
fn other_lines_are_ignored() {
    let stream: &[u8] = b": comment\nevent: message\nid: 7\nretry: 10\ndata:[DONE]\ndata\n DATA: x\n\n";
    let (events, consumed, assembler) = deliver(&[stream]);
    assert_eq!(events, vec![Event::Start]);
    assert_eq!(consumed, vec![stream.len()]);
    assert!(assembler.buffered().is_empty());
    assert!(!assembler.is_terminal());
}

#[test]
fn empty_payload_fails_to_decode() {
    let (events, _, assembler) = deliver(&[b"data: \n"]);
    assert_eq!(events, vec![Event::Start, Event::Error("data: ".to_string())]);
    assert!(assembler.is_terminal());
}

#[test]
fn payload_that_is_not_text_reports_an_encoding_error() {
    let (events, _, assembler) = deliver(&[b"data: {\"a\":\"\xff\xfe\"}\n"]);
    assert_eq!(
        events,
        vec![Event::Start, Event::Error("response is not valid UTF-8".to_string())]
    );
    assert!(assembler.is_terminal());
}

#[test]
fn bytes_that_are_not_text_on_an_ignored_line_do_no_harm() {
    let (events, _, _) = deliver(&[b"\xff\xfe\ndata: [DONE]\n"]);
    assert_eq!(events, vec![Event::Start, Event::End, Event::Done]);
}

#[test]
fn payload_of_the_wrong_shape_reports_an_error() {
    for payload in [
        "{}",
        "[]",
        "null",
        "\"text\"",
        "{\"choices\":[]}",
        "{\"choices\":{}}",
        "{\"choices\":[{}]}",
        "{\"choices\":[7]}",
        "{\"choices\":[{\"delta\":\"x\"}]}",
        "{\"choices\":[{\"delta\":{\"content\":5}}]}",
        "{\"choices\":[{\"delta\":{\"role\":[]}}]}",
        "{\"choices\":[{\"delta\":{\"content\":\"ok\"}},{\"delta\":3}]}",
        "{\"choices\":[{\"delta\":{\"content\":\"ok\"}}]} x",
    ] {
        let line = format!("data: {}", payload);
        let (events, _, assembler) = deliver(&[format!("{}\n", line).as_bytes()]);
        assert_eq!(events, vec![Event::Start, Event::Error(line)], "{}", payload);
        assert!(assembler.is_terminal());
    }
}

#[test]
fn absent_and_null_content_are_no_content() {
    let stream: &[u8] = b"data: {\"choices\":[{\"delta\":{}}]}\ndata: {\"choices\":[{\"delta\":{\"content\":null,\"role\":\"assistant\"}}]}\n";
    let (events, _, _) = deliver(&[stream]);
    let empty = CompletionFragment {
        choices: vec![Choice { delta: Message { role: None, content: None }, other: vec![] }],
    };
    let role = CompletionFragment {
        choices: vec![Choice {
            delta: Message { role: Some("assistant".to_string()), content: None },
            other: vec![],
        }],
    };
    assert_eq!(events, vec![Event::Start, Event::Data(empty), Event::Data(role)]);
}

#[test]
fn other_members_of_a_choice_are_carried_along() {
    let stream: &[u8] = b"data: {\"id\":\"c1\",\"choices\":[{\"index\":0,\"delta\":{\"content\":\"Hi\",\"x\":1},\"finish_reason\":null}]}\n";
    let (events, _, _) = deliver(&[stream]);
    let expected = CompletionFragment {
        choices: vec![Choice {
            delta: Message { role: None, content: Some("Hi".to_string()) },
            other: vec![
                Member { name: "finish_reason".to_string(), value: Json::Null },
                Member { name: "index".to_string(), value: Json::Number("0".to_string()) },
            ],
        }],
    };
    assert_eq!(events, vec![Event::Start, Event::Data(expected)]);
}

#[test]
fn several_choices_keep_their_order() {
    let stream: &[u8] = b"data: {\"choices\":[{\"delta\":{\"content\":\"a\"}},{\"delta\":{\"content\":\"b\"}}]}\n";
    let (events, _, _) = deliver(&[stream]);
    let expected = CompletionFragment {
        choices: vec![
            Choice { delta: Message { role: None, content: Some("a".to_string()) }, other: vec![] },
            Choice { delta: Message { role: None, content: Some("b".to_string()) }, other: vec![] },
        ],
    };
    assert_eq!(events, vec![Event::Start, Event::Data(expected)]);
}

#[test]
fn consumed_counts_the_bytes_of_complete_lines() {
    let mut assembler = Assembler::new();
    let mut events = Vec::new();
    assert_eq!(assembler.process(b": a\n: b", &mut events), Ok(4));
    assert_eq!(assembler.buffered(), b": b");
    assert_eq!(assembler.process(b"c\n\n: d", &mut events), Ok(6));
    assert_eq!(assembler.buffered(), b": d");
    assert_eq!(assembler.process(b"\n", &mut events), Ok(4));
    assert!(assembler.buffered().is_empty());
}

#[test]
fn reset_makes_ready_for_another_request() {
    let (mut events, _, mut assembler) = deliver(&[HELLO]);
    assembler.reset();
    assert!(!assembler.is_started());
    assert!(!assembler.is_terminal());
    assert!(assembler.buffered().is_empty());
    events.clear();
    assert_eq!(assembler.process(b"data: [DONE]\n", &mut events), Ok(13));
    assert_eq!(events, vec![Event::Start, Event::End, Event::Done]);
}

#[test]
fn events_are_appended_to_what_the_caller_holds() {
    let mut assembler = Assembler::new();
    let mut events = vec![Event::Done];
    assembler.process(b"data: [DONE]\n", &mut events).unwrap();
    assert_eq!(events, vec![Event::Done, Event::Start, Event::End, Event::Done]);
}

#[test]
fn reasons_and_fragments_of_events() {
    let (events, _, _) = deliver(&[HELLO]);
    let reasons: Vec<CallbackReason> = events.iter().map(|e| e.reason()).collect();
    assert_eq!(
        reasons,
        vec![CallbackReason::Start, CallbackReason::Data, CallbackReason::End, CallbackReason::Done]
    );
    assert_eq!(events[0].fragment(), None);
    assert_eq!(events[1].fragment(), Some(&fragment("Hello")));
    assert_eq!(events[2].fragment(), None);
    assert_eq!(events[3].fragment(), None);
    let failed = Event::Error("data: x".to_string());
    assert_eq!(failed.reason(), CallbackReason::Error("data: x".to_string()));
    assert_eq!(failed.fragment(), None);
}

#[test]
fn text_beyond_ascii_survives_any_split() {
    let stream = "data: {\"choices\":[{\"delta\":{\"content\":\"héllo ✓\"}}]}\n".as_bytes();
    for cut in 0..=stream.len() {
        let (events, _, _) = deliver(&[&stream[..cut], &stream[cut..]]);
        assert_eq!(events, vec![Event::Start, data("héllo ✓")]);
    }
}
