//! The lines of an event stream, and what each of them means.

use crate::completion::{fragment_of, CompletionFragment, FragmentView};
use crate::error::{Error, ErrorView};
use crate::event::{events_view, Event, EventView};
use crate::json::{json_document, parse};
use crate::text::{not_text, not_text_message, utf8_text};
use vstd::prelude::*;
use vstd::slice::slice_to_vec;
use vstd::utf8::{decode_utf8, valid_utf8};

verus! {

/// The byte that ends a line.
pub const NEWLINE: u8 = 10;

/// The byte that may stand before the newline and is not part of the line.
pub const CARRIAGE_RETURN: u8 = 13;

/// The bytes of `data: `, which open a line that carries a payload.
pub open spec fn data_prefix() -> Seq<u8> {
    seq![100u8, 97u8, 116u8, 97u8, 58u8, 32u8]
}

/// The bytes of `[DONE]`, the payload that ends the stream.
pub open spec fn sentinel() -> Seq<u8> {
    seq![91u8, 68u8, 79u8, 78u8, 69u8, 93u8]
}

/// A line as it is read: what stood before the newline, without one
/// trailing carriage return.
pub open spec fn logical_line(raw: Seq<u8>) -> Seq<u8> {
    if raw.len() > 0 && raw.last() == CARRIAGE_RETURN {
        raw.drop_last()
    } else {
        raw
    }
}

/// The kinds of line.
#[derive(Debug, PartialEq, Eq)]
pub enum SseLine {
    /// A blank line, which separates events.
    Empty,
    /// A line that begins with `data: `, with what follows the prefix.
    Data(Vec<u8>),
    /// Any other line. It is ignored.
    Other,
}

/// Mathematical model of an [`SseLine`].
pub enum SseLineView {
    Empty,
    Data(Seq<u8>),
    Other,
}

impl View for SseLine {
    type V = SseLineView;

    open spec fn view(&self) -> SseLineView {
        match self {
            SseLine::Empty => SseLineView::Empty,
            SseLine::Data(payload) => SseLineView::Data(payload@),
            SseLine::Other => SseLineView::Other,
        }
    }
}

/// The kind of the line whose bytes before the newline are `raw`.
pub open spec fn line_kind(raw: Seq<u8>) -> SseLineView {
    let line = logical_line(raw);
    if line.len() == 0 {
        SseLineView::Empty
    } else if data_prefix().is_prefix_of(line) {
        SseLineView::Data(line.skip(data_prefix().len() as int))
    } else {
        SseLineView::Other
    }
}

/// Whether `bytes` begins with `data: `.
fn has_data_prefix(bytes: &[u8]) -> (yes: bool)
    ensures
        yes == data_prefix().is_prefix_of(bytes@),
{
    let yes = bytes.len() >= 6 && bytes[0] == 100 && bytes[1] == 97 && bytes[2] == 116 && bytes[3]
        == 97 && bytes[4] == 58 && bytes[5] == 32;
    proof {
        if !yes && bytes.len() >= 6 {
            let head = bytes@.subrange(0, 6);
        }
    }
    yes
}

/// Whether `payload` is `[DONE]`.
pub fn is_sentinel(payload: &[u8]) -> (yes: bool)
    ensures
        yes == (payload@ == sentinel()),
{
    let yes = payload.len() == 6 && payload[0] == 91 && payload[1] == 68 && payload[2] == 79
        && payload[3] == 78 && payload[4] == 69 && payload[5] == 93;
    proof {
        if yes {
            assert(payload@ =~= sentinel());
        }
    }
    yes
}

impl SseLine {
    /// Tells what kind of line `raw` is, `raw` being what stood before the
    /// newline.
    pub fn classify(raw: &[u8]) -> (kind: SseLine)
        ensures
            kind@ == line_kind(raw@),
    {
        let n: usize = raw.len();
        let line = if n > 0 && raw[n - 1] == CARRIAGE_RETURN {
            &raw[0..n - 1]
        } else {
            raw
        };
        if line.len() == 0 {
            SseLine::Empty
        } else if has_data_prefix(line) {
            let payload = slice_to_vec(&line[6..line.len()]);
            SseLine::Data(payload)
        } else {
            SseLine::Other
        }
    }
}

/// The fragment that a payload's text stands for, if it is one.
pub open spec fn fragment_of_text(text: Seq<char>) -> Option<FragmentView> {
    match json_document(text) {
        Some(json) => fragment_of(json),
        None => None,
    }
}

/// What a payload other than the sentinel decodes to: a fragment, or what is
/// wrong with it. A payload that is not text is an encoding error; one that
/// is no JSON document, or not of a fragment's shape, is a decode error that
/// carries the text of the line.
pub open spec fn decoded(payload: Seq<u8>) -> Result<FragmentView, ErrorView> {
    if !valid_utf8(payload) {
        Err(ErrorView::Encoding(not_text_message()))
    } else {
        match fragment_of_text(decode_utf8(payload)) {
            Some(fragment) => Ok(fragment),
            None => Err(ErrorView::Decode("data: "@ + decode_utf8(payload))),
        }
    }
}

/// Decodes a payload other than the sentinel.
///
/// Succeeds exactly where the payload is UTF-8 text that `serde_json` reads
/// as a document of a fragment's shape.
pub fn decode_payload(payload: Vec<u8>) -> (outcome: Result<CompletionFragment, Error>)
    ensures
        match outcome {
            Ok(fragment) => decoded(payload@) == Ok::<FragmentView, ErrorView>(fragment@)
                && fragment.wf(),
            Err(error) => decoded(payload@) == Err::<FragmentView, ErrorView>(error@),
        },
{
    match utf8_text(payload) {
        None => Err(not_text()),
        Some(text) => {
            let fragment = match parse(text.as_str()) {
                Some(json) => CompletionFragment::from_json(&json),
                None => None,
            };
            match fragment {
                Some(fragment) => Ok(fragment),
                None => Err(Error::Decode(String::from_str("data: ").concat(text.as_str()))),
            }
        },
    }
}

/// What one line adds to the stream: the events it gives rise to, and
/// whether the stream is over with it.
pub struct LineOutcome {
    pub events: Seq<EventView>,
    pub terminal: bool,
}

/// What the line whose bytes before the newline are `raw` adds to the stream.
pub open spec fn line_outcome(raw: Seq<u8>) -> LineOutcome {
    match line_kind(raw) {
        SseLineView::Empty => LineOutcome { events: seq![], terminal: false },
        SseLineView::Other => LineOutcome { events: seq![], terminal: false },
        SseLineView::Data(payload) => if payload == sentinel() {
            LineOutcome { events: seq![EventView::End, EventView::Done], terminal: true }
        } else {
            match decoded(payload) {
                Ok(fragment) => LineOutcome {
                    events: seq![EventView::Data(fragment)],
                    terminal: false,
                },
                Err(error) => LineOutcome {
                    events: seq![EventView::Error(error.message())],
                    terminal: true,
                },
            }
        },
    }
}

/// Reads one line, `raw` being what stood before the newline: appends the
/// events it gives rise to and tells whether the stream is over with it.
pub fn read_line(raw: &[u8], events: &mut Vec<Event>) -> (terminal: bool)
    ensures
        terminal == line_outcome(raw@).terminal,
        events_view(final(events)@) == events_view(old(events)@) + line_outcome(raw@).events,
{
    match SseLine::classify(raw) {
        SseLine::Empty => false,
        SseLine::Other => false,
        SseLine::Data(payload) => {
            if is_sentinel(payload.as_slice()) {
                events.push(Event::End);
                events.push(Event::Done);
                true
            } else {
                match decode_payload(payload) {
                    Ok(fragment) => {
                        events.push(Event::Data(fragment));
                        false
                    },
                    Err(error) => {
                        events.push(Event::Error(error.message()));
                        true
                    },
                }
            }
        },
    }
}

} // verus!
