//! What the assembler reports to its caller.

use crate::completion::{CompletionFragment, FragmentView};
use vstd::prelude::*;

verus! {

/// Why the caller is being called. Over one request the reasons come as
/// `Start`, any number of `Data`, then either `End` and `Done`, or one
/// `Error` in place of all that would have followed.
#[derive(Debug, PartialEq, Eq)]
pub enum CallbackReason {
    Start,
    Data,
    End,
    Done,
    Error(String),
}

/// Mathematical model of a [`CallbackReason`].
pub enum ReasonView {
    Start,
    Data,
    End,
    Done,
    Error(Seq<char>),
}

impl View for CallbackReason {
    type V = ReasonView;

    open spec fn view(&self) -> ReasonView {
        match self {
            CallbackReason::Start => ReasonView::Start,
            CallbackReason::Data => ReasonView::Data,
            CallbackReason::End => ReasonView::End,
            CallbackReason::Done => ReasonView::Done,
            CallbackReason::Error(message) => ReasonView::Error(message@),
        }
    }
}

/// One notification: a reason, and with `Data` the fragment that came.
#[derive(Debug, PartialEq, Eq)]
pub enum Event {
    Start,
    Data(CompletionFragment),
    End,
    Done,
    Error(String),
}

/// Mathematical model of an [`Event`].
pub enum EventView {
    Start,
    Data(FragmentView),
    End,
    Done,
    Error(Seq<char>),
}

impl EventView {
    /// The reason that the event is reported under.
    pub open spec fn reason(self) -> ReasonView {
        match self {
            EventView::Start => ReasonView::Start,
            EventView::Data(_) => ReasonView::Data,
            EventView::End => ReasonView::End,
            EventView::Done => ReasonView::Done,
            EventView::Error(message) => ReasonView::Error(message),
        }
    }

    /// The fragment that comes with the event, if any.
    pub open spec fn fragment(self) -> Option<FragmentView> {
        match self {
            EventView::Data(fragment) => Some(fragment),
            _ => None,
        }
    }
}

impl View for Event {
    type V = EventView;

    open spec fn view(&self) -> EventView {
        match self {
            Event::Start => EventView::Start,
            Event::Data(fragment) => EventView::Data(fragment@),
            Event::End => EventView::End,
            Event::Done => EventView::Done,
            Event::Error(message) => EventView::Error(message@),
        }
    }
}

/// The models of a run of events, in order.
pub open spec fn events_view(events: Seq<Event>) -> Seq<EventView> {
    Seq::new(events.len(), |i: int| events[i]@)
}

impl Event {
    /// The reason that the event is reported under.
    pub fn reason(&self) -> (reason: CallbackReason)
        ensures
            reason@ == self@.reason(),
    {
        match self {
            Event::Start => CallbackReason::Start,
            Event::Data(_) => CallbackReason::Data,
            Event::End => CallbackReason::End,
            Event::Done => CallbackReason::Done,
            Event::Error(message) => CallbackReason::Error(message.clone()),
        }
    }

    /// The fragment that comes with the event: one with `Data`, none otherwise.
    pub fn fragment(&self) -> (fragment: Option<&CompletionFragment>)
        ensures
            match fragment {
                Some(f) => self@.fragment() == Some(f@),
                None => self@.fragment() is None,
            },
    {
        match self {
            Event::Data(fragment) => Some(fragment),
            _ => None,
        }
    }
}

} // verus!
