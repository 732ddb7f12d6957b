//! What a chat front end does with the events of a reply.

use crate::completion::{Message, MessageView};
use crate::event::{events_view, Event, EventView};
use vstd::prelude::*;

verus! {

/// The piece of the reply that an event brings: the content of a fragment,
/// and nothing with any other event.
pub open spec fn increment(event: EventView) -> Seq<char> {
    match event {
        EventView::Data(fragment) => fragment.content(),
        _ => Seq::empty(),
    }
}

/// The reply that `events` bring: their pieces, put together in order.
pub open spec fn reply_text(events: Seq<EventView>) -> Seq<char>
    decreases events.len(),
{
    if events.len() == 0 {
        Seq::empty()
    } else {
        reply_text(events.drop_last()) + increment(events.last())
    }
}

/// Puts together the reply that `events` bring.
pub fn collect_reply(events: &Vec<Event>) -> (reply: String)
    ensures
        reply@ == reply_text(events_view(events@)),
{
    let ghost all = events_view(events@);
    let mut reply = String::new();
    let mut i: usize = 0;
    while i < events.len()
        invariant
            i <= events.len(),
            all == events_view(events@),
            reply@ == reply_text(all.take(i as int)),
        decreases events.len() - i,
    {
        proof {
            assert(all.take(i + 1).drop_last() =~= all.take(i as int));
        }
        if let Event::Data(fragment) = &events[i] {
            let piece = fragment.content();
            reply.append(piece.as_str());
        }
        i += 1;
    }
    assert(all.take(events.len() as int) =~= all);
    reply
}

/// What to show the person at the terminal.
#[derive(Debug, PartialEq, Eq)]
pub enum Output {
    /// Nothing.
    Nothing,
    /// This text, at once and without a line end.
    Print(String),
    /// A line end.
    EndLine,
    /// This complaint, on a line of its own.
    Report(String),
}

/// Mathematical model of an [`Output`].
pub enum OutputView {
    Nothing,
    Print(Seq<char>),
    EndLine,
    Report(Seq<char>),
}

impl View for Output {
    type V = OutputView;

    open spec fn view(&self) -> OutputView {
        match self {
            Output::Nothing => OutputView::Nothing,
            Output::Print(text) => OutputView::Print(text@),
            Output::EndLine => OutputView::EndLine,
            Output::Report(text) => OutputView::Report(text@),
        }
    }
}

/// What is shown for an event: a fragment's piece of the reply as it comes,
/// a line end when the reply is done, and a complaint, which begins with
/// `Error: `, when it failed.
pub open spec fn shown(event: EventView) -> OutputView {
    match event {
        EventView::Start => OutputView::Nothing,
        EventView::Data(fragment) => OutputView::Print(fragment.content()),
        EventView::End => OutputView::Nothing,
        EventView::Done => OutputView::EndLine,
        EventView::Error(message) => OutputView::Report("Error: "@ + message),
    }
}

/// Tells what to show for `event`.
pub fn render(event: &Event) -> (output: Output)
    ensures
        output@ == shown(event@),
{
    match event {
        Event::Start => Output::Nothing,
        Event::Data(fragment) => Output::Print(fragment.content()),
        Event::End => Output::Nothing,
        Event::Done => Output::EndLine,
        Event::Error(message) => Output::Report(
            String::from_str("Error: ").concat(message.as_str()),
        ),
    }
}

/// The model of a message with both halves present.
pub open spec fn message_from(role: Seq<char>, content: Seq<char>) -> MessageView {
    MessageView { role: Some(role), content: Some(content) }
}

impl Message {
    /// What the person at the terminal says.
    pub fn user(content: String) -> (message: Message)
        ensures
            message@ == message_from("user"@, content@),
    {
        Message { role: Some(String::from_str("user")), content: Some(content) }
    }

    /// A reply, as it is kept for the turns that follow.
    pub fn system(content: String) -> (message: Message)
        ensures
            message@ == message_from("system"@, content@),
    {
        Message { role: Some(String::from_str("system")), content: Some(content) }
    }
}

/// The models of a run of messages, in order.
pub open spec fn messages_view(messages: Seq<Message>) -> Seq<MessageView> {
    Seq::new(messages.len(), |i: int| messages[i]@)
}

/// The turns of a conversation so far, oldest first.
pub struct Conversation {
    messages: Vec<Message>,
}

impl View for Conversation {
    type V = Seq<MessageView>;

    closed spec fn view(&self) -> Seq<MessageView> {
        messages_view(self.messages@)
    }
}

impl Conversation {
    /// A conversation in which nothing was said yet.
    pub fn new() -> (conversation: Conversation)
        ensures
            conversation@ == Seq::<MessageView>::empty(),
    {
        Conversation { messages: Vec::new() }
    }

    /// Adds what the person at the terminal says.
    pub fn ask(&mut self, prompt: String)
        ensures
            final(self)@ == old(self)@.push(message_from("user"@, prompt@)),
    {
        self.messages.push(Message::user(prompt));
    }

    /// Adds the reply that came.
    pub fn answer(&mut self, reply: String)
        ensures
            final(self)@ == old(self)@.push(message_from("system"@, reply@)),
    {
        self.messages.push(Message::system(reply));
    }

    /// A copy of the turns so far, to be sent with the next request.
    pub fn messages(&self) -> (messages: Vec<Message>)
        ensures
            messages_view(messages@) == self@,
    {
        let mut messages: Vec<Message> = Vec::new();
        let mut i: usize = 0;
        while i < self.messages.len()
            invariant
                i <= self.messages.len(),
                messages.len() == i,
                forall|k: int| 0 <= k < i ==> messages[k]@ == self.messages[k]@,
            decreases self.messages.len() - i,
        {
            messages.push(self.messages[i].clone());
            i += 1;
        }
        messages
    }
}

} // verus!
