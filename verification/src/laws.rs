//! What holds of the assembler whatever the stream and however it is cut.

use crate::assembler::{lemma_first_newline, scan, step, AssemblerView, Scan, Step};
use crate::chat::reply_text;
use crate::completion::FragmentView;
use crate::error::ErrorView;
use crate::event::EventView;
use crate::sse::{data_prefix, decoded, line_kind, line_outcome, sentinel};
use crate::sse::{SseLineView, CARRIAGE_RETURN, NEWLINE};
use vstd::prelude::*;
use vstd::utf8::{decode_utf8, encode_utf8, is_char_boundary, valid_utf8};

verus! {

/// What `first` followed by `second` amounts to, `second` being read from
/// what `first` left over.
pub open spec fn scan_then(first: Scan, second: Scan) -> Scan {
    if first.terminal {
        first
    } else {
        Scan {
            events: first.events + second.events,
            rest: second.rest,
            terminal: second.terminal,
            consumed: first.consumed + second.consumed,
        }
    }
}

/// Reading `head + tail` in one go is reading `head`, and then `tail` from
/// what `head` left over.
pub proof fn lemma_scan_append(head: Seq<u8>, tail: Seq<u8>)
    ensures
        scan(head + tail) == scan_then(scan(head), scan(scan(head).rest + tail)),
    decreases head.len(),
{
    head.index_of_first_ensures(NEWLINE);
    match head.index_of_first(NEWLINE) {
        None => {},
        Some(at) => {
            let whole = head + tail;
            lemma_first_newline(whole, at);
            assert(whole.take(at) =~= head.take(at));
            assert(whole.skip(at + 1) =~= head.skip(at + 1) + tail);
            let line = line_outcome(head.take(at));
            if !line.terminal {
                let later = head.skip(at + 1);
                lemma_scan_append(later, tail);
                let next = scan(scan(later).rest + tail);
                if !scan(later).terminal {
                    assert(line.events + (scan(later).events + next.events) =~= (line.events
                        + scan(later).events) + next.events);
                }
            }
        },
    }
}

/// What two deliveries in a row amount to.
pub open spec fn step_then(first: Step, second: Step) -> Step {
    Step {
        state: second.state,
        events: first.events + second.events,
        consumed: first.consumed + second.consumed,
    }
}

/// Delivering `a` and then `b` does what delivering `a + b` at once does:
/// the same events in the same order, the same state, the same count.
pub proof fn law_split_delivery(state: AssemblerView, a: Seq<u8>, b: Seq<u8>)
    ensures
        step_then(step(state, a), step(step(state, a).state, b)) == step(state, a + b),
{
    if !state.terminal {
        lemma_scan_append(state.buffer + a, b);
        assert((state.buffer + a) + b =~= state.buffer + (a + b));
        let read = scan(state.buffer + a);
        if !read.terminal && !state.started {
            let next = scan(read.rest + b);
            assert((seq![EventView::Start] + read.events) + next.events =~= seq![
                EventView::Start,
            ] + (read.events + next.events));
        }
    }
}

/// What the deliveries of `chunks`, one after the other, do in `state`.
pub open spec fn run(state: AssemblerView, chunks: Seq<Seq<u8>>) -> Step
    decreases chunks.len(),
{
    if chunks.len() == 0 {
        Step { state, events: seq![], consumed: 0 }
    } else {
        let before = run(state, chunks.drop_last());
        step_then(before, step(before.state, chunks.last()))
    }
}

/// Delivering a response in chunks does what delivering it whole does.
pub proof fn law_chunks_as_one(state: AssemblerView, chunks: Seq<Seq<u8>>)
    requires
        chunks.len() > 0,
    ensures
        run(state, chunks) == step(state, chunks.flatten()),
    decreases chunks.len(),
{
    let before = chunks.drop_last();
    assert(before.push(chunks.last()) =~= chunks);
    before.lemma_flatten_push(chunks.last());
    if before.len() == 0 {
        let only = step(state, chunks.last());
        assert(run(state, before).events + only.events =~= only.events);
    } else {
        law_chunks_as_one(state, before);
        law_split_delivery(state, before.flatten(), chunks.last());
    }
}

/// However one response is cut into chunks, the assembler reports the same
/// events in the same order, with the same fragments, and ends in the same
/// state: where the boundaries fall does not matter.
pub proof fn law_chunk_boundaries_do_not_matter(
    state: AssemblerView,
    one: Seq<Seq<u8>>,
    other: Seq<Seq<u8>>,
)
    requires
        one.len() > 0,
        other.len() > 0,
        one.flatten() == other.flatten(),
    ensures
        run(state, one) == run(state, other),
{
    law_chunks_as_one(state, one);
    law_chunks_as_one(state, other);
}

/// Whether every one of `events` brings a fragment.
pub open spec fn all_data(events: Seq<EventView>) -> bool {
    forall|i: int| 0 <= i < events.len() ==> (#[trigger] events[i]) is Data
}

/// Whether `events` come in the order that the lines of a stream give:
/// fragments only while the stream goes on; once it is over, fragments and
/// then either `End` and `Done`, or one `Error`, and nothing after.
pub open spec fn ordered(events: Seq<EventView>, terminal: bool) -> bool {
    let n: int = events.len() as int;
    if !terminal {
        all_data(events)
    } else {
        ||| n >= 2 && events[n - 2] == EventView::End && events[n - 1] == EventView::Done
                && all_data(events.take(n - 2))
        ||| n >= 1 && events[n - 1] is Error && all_data(events.take(n - 1))
    }
}

/// Whether `events` are a request's events so far: `Start` first and once,
/// then the rest in order.
pub open spec fn lifecycle(events: Seq<EventView>, terminal: bool) -> bool {
    events.len() >= 1 && events[0] == EventView::Start && ordered(events.skip(1), terminal)
}

/// The events of the lines of any run of bytes come in order, and what is
/// left over holds no complete line.
pub proof fn lemma_scan_ordered(bytes: Seq<u8>)
    ensures
        ordered(scan(bytes).events, scan(bytes).terminal),
        !scan(bytes).rest.contains(NEWLINE),
        scan(bytes).terminal ==> scan(bytes).rest.len() == 0,
        scan(bytes).consumed + scan(bytes).rest.len() <= bytes.len(),
    decreases bytes.len(),
{
    bytes.index_of_first_ensures(NEWLINE);
    match bytes.index_of_first(NEWLINE) {
        None => {},
        Some(at) => {
            let line = line_outcome(bytes.take(at));
            if !line.terminal {
                let later = scan(bytes.skip(at + 1));
                lemma_scan_ordered(bytes.skip(at + 1));
                let events = line.events + later.events;
                let n: int = events.len() as int;
                let m: int = later.events.len() as int;
                let k: int = line.events.len() as int;
                if later.terminal {
                    if m >= 2 && later.events[m - 2] == EventView::End && later.events[m - 1]
                        == EventView::Done && all_data(later.events.take(m - 2)) {
                        assert forall|i: int| 0 <= i < n - 2 implies (#[trigger] events.take(
                            n - 2,
                        )[i]) is Data by {
                            if i >= k {
                                assert(events[i] == later.events.take(m - 2)[i - k]);
                            }
                        }
                    } else {
                        assert forall|i: int| 0 <= i < n - 1 implies (#[trigger] events.take(
                            n - 1,
                        )[i]) is Data by {
                            if i >= k {
                                assert(events[i] == later.events.take(m - 1)[i - k]);
                            }
                        }
                    }
                }
            }
        },
    }
}

/// A delivery keeps the assembler's state well formed.
pub proof fn law_step_keeps_wf(state: AssemblerView, chunk: Seq<u8>)
    requires
        state.wf(),
    ensures
        step(state, chunk).state.wf(),
{
    lemma_scan_ordered(state.buffer + chunk);
}

/// Over one request the events come as `Start`, then fragments, then, if
/// the stream is over, either `End` and `Done` or a single `Error`; each of
/// these at most once, and nothing after `Done` or `Error`.
pub proof fn law_lifecycle(chunks: Seq<Seq<u8>>)
    requires
        chunks.len() > 0,
    ensures
        lifecycle(
            run(AssemblerView::fresh(), chunks).events,
            run(AssemblerView::fresh(), chunks).state.terminal,
        ),
        run(AssemblerView::fresh(), chunks).state.wf(),
{
    let fresh = AssemblerView::fresh();
    law_chunks_as_one(fresh, chunks);
    let bytes = fresh.buffer + chunks.flatten();
    lemma_scan_ordered(bytes);
    let events = step(fresh, chunks.flatten()).events;
    assert(events.skip(1) =~= scan(bytes).events);
}

/// Once the stream is over, a delivery reports nothing and changes nothing.
pub proof fn law_nothing_after_the_end(state: AssemblerView, chunk: Seq<u8>)
    requires
        state.terminal,
    ensures
        step(state, chunk).events == Seq::<EventView>::empty(),
        step(state, chunk).state == state,
        step(state, chunk).consumed == 0,
{
}

/// A line that ends the stream, standing after complete lines none of which
/// ended it, adds its events to theirs, and whatever follows it adds nothing.
proof fn lemma_closing_line(head: Seq<u8>, line: Seq<u8>, tail: Seq<u8>)
    requires
        !scan(head).terminal,
        scan(head).rest.len() == 0,
        !line.contains(NEWLINE),
        line_outcome(line).terminal,
    ensures
        scan(head + line + seq![NEWLINE] + tail) == (Scan {
            events: scan(head).events + line_outcome(line).events,
            rest: seq![],
            terminal: true,
            consumed: scan(head).consumed + line.len() + 1,
        }),
        all_data(scan(head).events),
{
    let after = line + seq![NEWLINE] + tail;
    assert(head + line + seq![NEWLINE] + tail =~= head + after);
    lemma_scan_append(head, after);
    lemma_first_newline(after, line.len() as int);
    assert(after.take(line.len() as int) =~= line);
    lemma_scan_ordered(head);
}

/// What a fresh assembler reports of a response that holds, after the
/// complete lines `head`, a line that ends the stream: `Start`, what `head`
/// gives, what the line gives, and nothing of `tail`.
proof fn lemma_closing_line_run(
    chunks: Seq<Seq<u8>>,
    head: Seq<u8>,
    line: Seq<u8>,
    tail: Seq<u8>,
)
    requires
        chunks.len() > 0,
        chunks.flatten() == head + line + seq![NEWLINE] + tail,
        !scan(head).terminal,
        scan(head).rest.len() == 0,
        !line.contains(NEWLINE),
        line_outcome(line).terminal,
    ensures
        run(AssemblerView::fresh(), chunks).events == seq![EventView::Start] + scan(head).events
            + line_outcome(line).events,
        run(AssemblerView::fresh(), chunks).state.terminal,
        all_data(scan(head).events),
{
    law_chunks_as_one(AssemblerView::fresh(), chunks);
    lemma_closing_line(head, line, tail);
}

/// A response in which the sentinel comes after complete lines that did not
/// end the stream is reported, however it is cut into chunks, as `Start`,
/// the fragments of those lines, then one `End` followed by one `Done`; and
/// nothing of what follows the sentinel is reported.
pub proof fn law_done_ends_the_stream(
    chunks: Seq<Seq<u8>>,
    head: Seq<u8>,
    line: Seq<u8>,
    tail: Seq<u8>,
)
    requires
        chunks.len() > 0,
        chunks.flatten() == head + line + seq![NEWLINE] + tail,
        !scan(head).terminal,
        scan(head).rest.len() == 0,
        !line.contains(NEWLINE),
        line_kind(line) == SseLineView::Data(sentinel()),
    ensures
        run(AssemblerView::fresh(), chunks).events == seq![EventView::Start] + scan(head).events
            + seq![EventView::End, EventView::Done],
        run(AssemblerView::fresh(), chunks).state.terminal,
        all_data(scan(head).events),
{
    lemma_closing_line_run(chunks, head, line, tail);
}

/// A response in which a data line whose payload does not decode comes after
/// complete lines that did not end the stream is reported, however it is cut
/// into chunks, as `Start`, the fragments of those lines, then one `Error`
/// with the failure's message; and nothing of what follows that line is
/// reported.
pub proof fn law_bad_payload_ends_the_stream(
    chunks: Seq<Seq<u8>>,
    head: Seq<u8>,
    line: Seq<u8>,
    payload: Seq<u8>,
    tail: Seq<u8>,
)
    requires
        chunks.len() > 0,
        chunks.flatten() == head + line + seq![NEWLINE] + tail,
        !scan(head).terminal,
        scan(head).rest.len() == 0,
        !line.contains(NEWLINE),
        line_kind(line) == SseLineView::Data(payload),
        payload != sentinel(),
        decoded(payload) is Err,
    ensures
        run(AssemblerView::fresh(), chunks).events == seq![EventView::Start] + scan(head).events
            + seq![EventView::Error(decoded(payload)->Err_0.message())],
        run(AssemblerView::fresh(), chunks).state.terminal,
        all_data(scan(head).events),
{
    lemma_closing_line_run(chunks, head, line, tail);
}

/// Whether `bytes[start..at]` is one of the complete lines of `bytes`: it
/// begins where the bytes begin or after a newline, and the first newline
/// from there on stands at `at`.
pub open spec fn is_line(bytes: Seq<u8>, start: int, at: int) -> bool {
    &&& 0 <= start <= at < bytes.len()
    &&& bytes[at] == NEWLINE
    &&& start == 0 || bytes[start - 1] == NEWLINE
    &&& forall|j: int| start <= j < at ==> bytes[j] != NEWLINE
}

/// Whether one of the complete lines of `bytes` carries the sentinel.
pub open spec fn has_sentinel_line(bytes: Seq<u8>) -> bool {
    exists|start: int, at: int|
        #[trigger] is_line(bytes, start, at) && line_kind(bytes.subrange(start, at))
            == SseLineView::Data(sentinel())
}

/// Whether `End` or `Done` is among `events`.
pub open spec fn reports_end(events: Seq<EventView>) -> bool {
    exists|i: int|
        0 <= i < events.len() && (#[trigger] events[i] == EventView::End || events[i]
            == EventView::Done)
}

/// `End` and `Done` come from a sentinel line and from nothing else.
pub proof fn lemma_end_needs_sentinel(bytes: Seq<u8>)
    requires
        reports_end(scan(bytes).events),
    ensures
        has_sentinel_line(bytes),
    decreases bytes.len(),
{
    bytes.index_of_first_ensures(NEWLINE);
    match bytes.index_of_first(NEWLINE) {
        None => {},
        Some(at) => {
            if line_outcome(bytes.take(at)).terminal {
                assert(is_line(bytes, 0, at));
            } else {
                let later = bytes.skip(at + 1);
                lemma_end_needs_sentinel(later);
                let (start, end) = choose|start: int, end: int|
                    #[trigger] is_line(later, start, end) && line_kind(
                        later.subrange(start, end),
                    ) == SseLineView::Data(sentinel());
                let shift = at + 1;
                assert(bytes.subrange(start + shift, end + shift) =~= later.subrange(start, end));
                assert(is_line(bytes, start + shift, end + shift)) by {
                    assert forall|j: int| start + shift <= j < end + shift implies bytes[j]
                        != NEWLINE by {
                        assert(bytes[j] == later[j - shift]);
                    }
                }
            }
        },
    }
}

/// A response that breaks off before a sentinel line has come never reports
/// `End` or `Done`, however far it got and however it was cut into chunks.
pub proof fn law_no_end_without_sentinel(chunks: Seq<Seq<u8>>)
    requires
        chunks.len() > 0,
        !has_sentinel_line(chunks.flatten()),
    ensures
        !reports_end(run(AssemblerView::fresh(), chunks).events),
{
    law_chunks_as_one(AssemblerView::fresh(), chunks);
    if reports_end(run(AssemblerView::fresh(), chunks).events) {
        lemma_end_needs_sentinel(chunks.flatten());
    }
}

/// The bytes of one event that carries `payload`: its data line, and the
/// blank line that ends the event.
pub open spec fn frame(payload: Seq<u8>) -> Seq<u8> {
    data_prefix() + payload + seq![NEWLINE, NEWLINE]
}

/// A whole response: one event for each of `payloads`, in order, and then
/// the event that carries the sentinel.
pub open spec fn response(payloads: Seq<Seq<u8>>) -> Seq<u8>
    decreases payloads.len(),
{
    if payloads.len() == 0 {
        frame(sentinel())
    } else {
        frame(payloads.first()) + response(payloads.drop_first())
    }
}

/// Whether `payload` can stand on a data line and decodes to `fragment`.
pub open spec fn carries(payload: Seq<u8>, fragment: FragmentView) -> bool {
    &&& !payload.contains(NEWLINE)
    &&& payload.len() > 0 ==> payload.last() != CARRIAGE_RETURN
    &&& payload != sentinel()
    &&& decoded(payload) == Ok::<FragmentView, ErrorView>(fragment)
}

/// The events that bring `fragments`, one each and in order.
pub open spec fn data_events(fragments: Seq<FragmentView>) -> Seq<EventView> {
    Seq::new(fragments.len(), |i: int| EventView::Data(fragments[i]))
}

/// The reply that the server meant: the pieces that `fragments` bring, put
/// together in order.
pub open spec fn intended_text(fragments: Seq<FragmentView>) -> Seq<char>
    decreases fragments.len(),
{
    if fragments.len() == 0 {
        Seq::empty()
    } else {
        intended_text(fragments.drop_last()) + fragments.last().content()
    }
}

/// The data line of a payload is read as that payload.
proof fn lemma_data_line(payload: Seq<u8>)
    requires
        payload.len() > 0 ==> payload.last() != CARRIAGE_RETURN,
    ensures
        line_kind(data_prefix() + payload) == SseLineView::Data(payload),
{
    let line = data_prefix() + payload;
    assert(line.skip(6) =~= payload);
}

/// How a frame is read: its data line, then its blank line, then what
/// follows it.
proof fn lemma_scan_frame(payload: Seq<u8>, tail: Seq<u8>)
    requires
        !payload.contains(NEWLINE),
        payload.len() > 0 ==> payload.last() != CARRIAGE_RETURN,
    ensures
        line_outcome(data_prefix() + payload).terminal ==> scan(frame(payload) + tail).events
            == line_outcome(data_prefix() + payload).events && scan(
            frame(payload) + tail,
        ).terminal,
        !line_outcome(data_prefix() + payload).terminal ==> scan(frame(payload) + tail)
            == scan_then(
            Scan {
                events: line_outcome(data_prefix() + payload).events,
                rest: seq![],
                terminal: false,
                consumed: frame(payload).len(),
            },
            scan(tail),
        ),
{
    let line = data_prefix() + payload;
    let bytes = frame(payload) + tail;
    let at: int = line.len() as int;
    lemma_first_newline(bytes, at);
    assert(bytes.take(at) =~= line);
    if !line_outcome(line).terminal {
        let second = bytes.skip(at + 1);
        lemma_first_newline(second, 0);
        assert(second.skip(1) =~= tail);
        assert(scan(second) == (Scan {
            events: scan(tail).events,
            rest: scan(tail).rest,
            terminal: scan(tail).terminal,
            consumed: 1 + scan(tail).consumed,
        }));
    }
}

/// A response that carries `fragments` is read as their events, in order,
/// and then `End` and `Done`.
pub proof fn lemma_scan_response(payloads: Seq<Seq<u8>>, fragments: Seq<FragmentView>)
    requires
        payloads.len() == fragments.len(),
        forall|i: int| 0 <= i < payloads.len() ==> carries(#[trigger] payloads[i], fragments[i]),
    ensures
        scan(response(payloads)).events == data_events(fragments) + seq![
            EventView::End,
            EventView::Done,
        ],
        scan(response(payloads)).terminal,
    decreases payloads.len(),
{
    if payloads.len() == 0 {
        lemma_data_line(sentinel());
        lemma_scan_frame(sentinel(), seq![]);
    } else {
        let payload = payloads.first();
        let tail = response(payloads.drop_first());
        lemma_data_line(payload);
        lemma_scan_frame(payload, tail);
        lemma_scan_response(payloads.drop_first(), fragments.drop_first());
    }
}

/// The reply of two runs of events, one after the other, is the one reply
/// followed by the other.
pub proof fn lemma_reply_text_append(a: Seq<EventView>, b: Seq<EventView>)
    ensures
        reply_text(a + b) == reply_text(a) + reply_text(b),
    decreases b.len(),
{
    if b.len() > 0 {
        assert((a + b).drop_last() =~= a + b.drop_last());
        lemma_reply_text_append(a, b.drop_last());
    }
}

/// The events that bring `fragments` bring the text of `fragments`.
proof fn lemma_reply_of_data(fragments: Seq<FragmentView>)
    ensures
        reply_text(data_events(fragments)) == intended_text(fragments),
    decreases fragments.len(),
{
    if fragments.len() > 0 {
        assert(data_events(fragments).drop_last() =~= data_events(fragments.drop_last()));
        lemma_reply_of_data(fragments.drop_last());
    }
}

/// A response that carries `fragments` and then the sentinel, cut into
/// chunks in any way, is reported as `Start`, the fragments in order, `End`
/// and `Done`; and the pieces that the reported fragments bring, put
/// together in the order of the reports, are the reply that was meant.
pub proof fn law_reply_is_reassembled(
    chunks: Seq<Seq<u8>>,
    payloads: Seq<Seq<u8>>,
    fragments: Seq<FragmentView>,
)
    requires
        chunks.len() > 0,
        chunks.flatten() == response(payloads),
        payloads.len() == fragments.len(),
        forall|i: int| 0 <= i < payloads.len() ==> carries(#[trigger] payloads[i], fragments[i]),
    ensures
        run(AssemblerView::fresh(), chunks).events == seq![EventView::Start] + data_events(
            fragments,
        ) + seq![EventView::End, EventView::Done],
        reply_text(run(AssemblerView::fresh(), chunks).events) == intended_text(fragments),
{
    law_chunks_as_one(AssemblerView::fresh(), chunks);
    lemma_scan_response(payloads, fragments);
    let start = seq![EventView::Start];
    let close = seq![EventView::End, EventView::Done];
    lemma_reply_text_append(start + data_events(fragments), close);
    lemma_reply_text_append(start, data_events(fragments));
    lemma_reply_of_data(fragments);
    assert(reply_text(start) =~= Seq::<char>::empty()) by {
        reveal_with_fuel(reply_text, 2);
    }
    assert(reply_text(close) =~= Seq::<char>::empty()) by {
        reveal_with_fuel(reply_text, 3);
    }
}

/// The bytes of `data: ` are the text `data: `.
proof fn lemma_prefix_text()
    ensures
        encode_utf8("data: "@) == data_prefix(),
        valid_utf8(data_prefix()),
        decode_utf8(data_prefix()) == "data: "@,
{
    let chars = "data: "@;
    reveal_strlit("data: ");
    vstd::utf8::is_ascii_chars_encode_utf8(chars);
    assert(encode_utf8(chars) =~= data_prefix());
    vstd::utf8::encode_utf8_valid_utf8(chars);
    vstd::utf8::encode_utf8_decode_utf8(chars);
}

/// In a data line that is text, the payload begins where a character begins.
proof fn lemma_prefix_boundary(payload: Seq<u8>)
    requires
        valid_utf8(data_prefix() + payload),
    ensures
        is_char_boundary(data_prefix() + payload, 6),
{
    let b0 = data_prefix() + payload;
    let b1 = b0.subrange(1, b0.len() as int);
    let b2 = b1.subrange(1, b1.len() as int);
    let b3 = b2.subrange(1, b2.len() as int);
    let b4 = b3.subrange(1, b3.len() as int);
    let b5 = b4.subrange(1, b4.len() as int);
    let b6 = b5.subrange(1, b5.len() as int);
    assert(vstd::utf8::pop_first_scalar(b0) == b1 && valid_utf8(b1));
    assert(vstd::utf8::pop_first_scalar(b1) == b2 && valid_utf8(b2));
    assert(vstd::utf8::pop_first_scalar(b2) == b3 && valid_utf8(b3));
    assert(vstd::utf8::pop_first_scalar(b3) == b4 && valid_utf8(b4));
    assert(vstd::utf8::pop_first_scalar(b4) == b5 && valid_utf8(b5));
    assert(is_char_boundary(b6, 0));
    assert(is_char_boundary(b5, 1));
    assert(is_char_boundary(b4, 2));
    assert(is_char_boundary(b3, 3));
    assert(is_char_boundary(b2, 4));
    assert(is_char_boundary(b1, 5));
}

/// A data line is text exactly where its payload is, and its text is then
/// `data: ` followed by the text of the payload: the message of a decode
/// error is the text of the line that failed.
pub proof fn law_decode_message_is_the_line(payload: Seq<u8>)
    ensures
        valid_utf8(data_prefix() + payload) <==> valid_utf8(payload),
        valid_utf8(payload) ==> decode_utf8(data_prefix() + payload) == "data: "@ + decode_utf8(
            payload,
        ),
{
    let line = data_prefix() + payload;
    lemma_prefix_text();
    if valid_utf8(payload) {
        vstd::utf8::valid_utf8_concat(data_prefix(), payload);
    }
    if valid_utf8(line) {
        lemma_prefix_boundary(payload);
        assert(line.subrange(0, 6) =~= data_prefix());
        assert(line.subrange(6, line.len() as int) =~= payload);
        vstd::utf8::valid_utf8_split(line, 6);
        vstd::utf8::decode_utf8_split(line, 6);
    }
}

} // verus!
