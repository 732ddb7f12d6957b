//! The stream assembler: from chunks of bytes to an ordered run of events.

use crate::error::Error;
use crate::event::{events_view, Event, EventView};
use crate::sse::{line_outcome, read_line, NEWLINE};
use vstd::prelude::*;

verus! {

/// What a run of bytes amounts to when it is read line by line from its
/// start.
pub struct Scan {
    /// The events of the complete lines, in order.
    pub events: Seq<EventView>,
    /// The bytes after the last complete line; nothing once the stream is over.
    pub rest: Seq<u8>,
    /// Whether a line ended the stream.
    pub terminal: bool,
    /// How many bytes the lines that were read take up, newlines included.
    pub consumed: nat,
}

/// Reads `bytes` line by line. A line ends at a newline; bytes after the
/// last newline are left over. Reading stops at the first line that ends the
/// stream, and what follows that line is dropped.
pub open spec fn scan(bytes: Seq<u8>) -> Scan
    decreases bytes.len(),
    via scan_decreases
{
    match bytes.index_of_first(NEWLINE) {
        None => Scan { events: seq![], rest: bytes, terminal: false, consumed: 0 },
        Some(at) => {
            let line = line_outcome(bytes.take(at));
            if line.terminal {
                Scan {
                    events: line.events,
                    rest: seq![],
                    terminal: true,
                    consumed: (at + 1) as nat,
                }
            } else {
                let later = scan(bytes.skip(at + 1));
                Scan {
                    events: line.events + later.events,
                    rest: later.rest,
                    terminal: later.terminal,
                    consumed: (at + 1 + later.consumed) as nat,
                }
            }
        },
    }
}

#[via_fn]
proof fn scan_decreases(bytes: Seq<u8>) {
    bytes.index_of_first_ensures(NEWLINE);
}

/// The first newline of `bytes` is the one before which there is none.
pub proof fn lemma_first_newline(bytes: Seq<u8>, at: int)
    requires
        0 <= at < bytes.len(),
        bytes[at] == NEWLINE,
        forall|j: int| 0 <= j < at ==> bytes[j] != NEWLINE,
    ensures
        bytes.index_of_first(NEWLINE) == Some(at),
{
    bytes.index_of_first_ensures(NEWLINE);
}

/// Bytes without a newline have no first newline.
pub proof fn lemma_no_newline(bytes: Seq<u8>)
    requires
        forall|j: int| 0 <= j < bytes.len() ==> bytes[j] != NEWLINE,
    ensures
        bytes.index_of_first(NEWLINE) is None,
{
    bytes.index_of_first_ensures(NEWLINE);
}

/// Mathematical model of an [`Assembler`].
pub struct AssemblerView {
    /// The bytes received that are not yet part of a complete line.
    pub buffer: Seq<u8>,
    /// Whether `Start` has been reported.
    pub started: bool,
    /// Whether the stream is over: `Done` or `Error` has been reported.
    pub terminal: bool,
}

impl AssemblerView {
    /// The state before anything was received.
    pub open spec fn fresh() -> AssemblerView {
        AssemblerView { buffer: seq![], started: false, terminal: false }
    }

    /// What holds of every state that a fresh assembler can reach: the
    /// buffer holds no complete line, and once the stream is over it holds
    /// nothing.
    pub open spec fn wf(self) -> bool {
        &&& !self.buffer.contains(NEWLINE)
        &&& self.terminal ==> self.started && self.buffer.len() == 0
    }
}

/// What one delivery does.
pub struct Step {
    /// The state after it.
    pub state: AssemblerView,
    /// The events it gives rise to, in order.
    pub events: Seq<EventView>,
    /// How many bytes of complete lines were read.
    pub consumed: nat,
}

/// What the delivery of `chunk` does in `state`. Once the stream is over a
/// delivery does nothing. Before that, the first delivery reports `Start`,
/// and every delivery reads the lines that the buffered bytes and the chunk
/// complete.
pub open spec fn step(state: AssemblerView, chunk: Seq<u8>) -> Step {
    if state.terminal {
        Step { state, events: seq![], consumed: 0 }
    } else {
        let read = scan(state.buffer + chunk);
        Step {
            state: AssemblerView { buffer: read.rest, started: true, terminal: read.terminal },
            events: if state.started {
                read.events
            } else {
                seq![EventView::Start] + read.events
            },
            consumed: read.consumed,
        }
    }
}

/// Assembles the events of one streamed response from the chunks in which
/// its bytes arrive.
pub struct Assembler {
    buffer: Vec<u8>,
    started: bool,
    terminal: bool,
}

impl View for Assembler {
    type V = AssemblerView;

    closed spec fn view(&self) -> AssemblerView {
        AssemblerView { buffer: self.buffer@, started: self.started, terminal: self.terminal }
    }
}

impl Assembler {
    /// An assembler for a new request.
    pub fn new() -> (assembler: Assembler)
        ensures
            assembler@ == AssemblerView::fresh(),
            assembler@.wf(),
    {
        Assembler { buffer: Vec::new(), started: false, terminal: false }
    }

    /// Makes the assembler ready for another request.
    pub fn reset(&mut self)
        ensures
            final(self)@ == AssemblerView::fresh(),
            final(self)@.wf(),
    {
        self.buffer = Vec::new();
        self.started = false;
        self.terminal = false;
    }

    /// Whether `Start` has been reported.
    pub fn is_started(&self) -> (started: bool)
        ensures
            started == self@.started,
    {
        self.started
    }

    /// Whether the stream is over.
    pub fn is_terminal(&self) -> (terminal: bool)
        ensures
            terminal == self@.terminal,
    {
        self.terminal
    }

    /// The bytes received that are not yet part of a complete line.
    pub fn buffered(&self) -> (bytes: &[u8])
        ensures
            bytes@ == self@.buffer,
    {
        self.buffer.as_slice()
    }

    /// Takes the next chunk of the response and appends to `events` what it
    /// gives rise to, as [`step`] says. Returns how many bytes of complete
    /// lines were read. It never fails: what goes wrong inside the stream is
    /// reported as an `Error` event.
    pub fn process(&mut self, chunk: &[u8], events: &mut Vec<Event>) -> (consumed: Result<
        usize,
        Error,
    >)
        ensures
            final(self)@ == step(old(self)@, chunk@).state,
            events_view(final(events)@) == events_view(old(events)@) + step(
                old(self)@,
                chunk@,
            ).events,
            consumed matches Ok(n) && n == step(old(self)@, chunk@).consumed,
            old(self)@.wf() ==> final(self)@.wf(),
    {
        if self.terminal {
            return Ok(0);
        }
        if !self.started {
            events.push(Event::Start);
            self.started = true;
        }
        let ghost opening = events_view(events@);
        let ghost held = self.buffer@;
        self.buffer.extend_from_slice(chunk);
        let ghost all = self.buffer@;
        assert(all =~= held + chunk@);
        let mut start: usize = 0;
        let mut at: usize = 0;
        let mut terminal = false;
        assert(all.skip(0) =~= all);
        let ghost mut read: Seq<EventView> = seq![];
        while at < self.buffer.len() && !terminal
            invariant
                self.buffer@ == all,
                start <= at <= all.len(),
                forall|j: int| start <= j < at ==> all[j] != NEWLINE,
                events_view(events@) == opening + read,
                terminal ==> at < all.len() && scan(all) == (Scan {
                    events: read,
                    rest: seq![],
                    terminal: true,
                    consumed: (at + 1) as nat,
                }),
                !terminal ==> scan(all) == (Scan {
                    events: read + scan(all.skip(start as int)).events,
                    rest: scan(all.skip(start as int)).rest,
                    terminal: scan(all.skip(start as int)).terminal,
                    consumed: (start + scan(all.skip(start as int)).consumed) as nat,
                }),
            decreases all.len() - at + (if terminal { 0int } else { 1int }),
        {
            if self.buffer[at] == NEWLINE {
                let ghost tail = all.skip(start as int);
                let ghost line = line_outcome(tail.take(at - start));
                proof {
                    lemma_first_newline(tail, at - start);
                    assert(tail.take(at - start) =~= all.subrange(start as int, at as int));
                    assert(tail.skip(at - start + 1) =~= all.skip(at + 1));
                }
                let over = read_line(&self.buffer[start..at], events);
                proof {
                    assert(read + (line.events + scan(all.skip(at + 1)).events) =~= (read
                        + line.events) + scan(all.skip(at + 1)).events);
                    read = read + line.events;
                }
                if over {
                    terminal = true;
                } else {
                    start = at + 1;
                    at = at + 1;
                }
            } else {
                at = at + 1;
            }
        }
        if terminal {
            self.terminal = true;
            self.buffer = Vec::new();
            Ok(at + 1)
        } else {
            proof {
                lemma_no_newline(all.skip(start as int));
            }
            let rest = self.buffer.split_off(start);
            self.buffer = rest;
            Ok(start)
        }
    }
}

} // verus!
