//! The fragments of a streamed completion, and how one is read from JSON.

use crate::json::{find_member, items_view, lemma_array_view, lemma_object_view, member};
use crate::json::{members_view, Json, JsonView, Member, MemberView};
use vstd::prelude::*;

verus! {

/// One message of a conversation, or the part of one that a fragment brings.
/// Either half may be missing.
#[derive(Debug, PartialEq, Eq)]
pub struct Message {
    pub role: Option<String>,
    pub content: Option<String>,
}

/// Mathematical model of a [`Message`].
pub struct MessageView {
    pub role: Option<Seq<char>>,
    pub content: Option<Seq<char>>,
}

/// The model of a text that may be missing.
pub open spec fn text_view(text: Option<String>) -> Option<Seq<char>> {
    match text {
        Some(t) => Some(t@),
        None => None,
    }
}

impl View for Message {
    type V = MessageView;

    open spec fn view(&self) -> MessageView {
        MessageView { role: text_view(self.role), content: text_view(self.content) }
    }
}

fn copy_text(text: &Option<String>) -> (copy: Option<String>)
    ensures
        text_view(copy) == text_view(*text),
{
    match text {
        Some(t) => Some(t.clone()),
        None => None,
    }
}

impl Clone for Message {
    fn clone(&self) -> (copy: Message)
        ensures
            copy@ == self@,
    {
        Message { role: copy_text(&self.role), content: copy_text(&self.content) }
    }
}

/// One alternative of a fragment: the piece of the reply it brings, and
/// whatever else the server said of it, carried along undecoded.
#[derive(Debug, PartialEq, Eq)]
pub struct Choice {
    pub delta: Message,
    /// The members of the choice other than `delta`, in the order in which
    /// the parsed object holds them.
    pub other: Vec<Member>,
}

/// Mathematical model of a [`Choice`].
pub struct ChoiceView {
    pub delta: MessageView,
    pub other: Seq<MemberView>,
}

impl View for Choice {
    type V = ChoiceView;

    open spec fn view(&self) -> ChoiceView {
        ChoiceView { delta: self.delta@, other: members_view(self.other@) }
    }
}

/// One decoded data payload of the stream.
#[derive(Debug, PartialEq, Eq)]
pub struct CompletionFragment {
    pub choices: Vec<Choice>,
}

/// Mathematical model of a [`CompletionFragment`].
pub struct FragmentView {
    pub choices: Seq<ChoiceView>,
}

impl FragmentView {
    /// A fragment off the wire has at least one choice.
    pub open spec fn wf(self) -> bool {
        self.choices.len() > 0
    }

    /// The piece of the reply that the fragment brings: the content of its
    /// first choice, and nothing where there is none.
    pub open spec fn content(self) -> Seq<char> {
        if self.choices.len() > 0 {
            match self.choices[0].delta.content {
                Some(text) => text,
                None => Seq::empty(),
            }
        } else {
            Seq::empty()
        }
    }
}

/// The models of a run of choices, in order.
pub open spec fn choices_view(choices: Seq<Choice>) -> Seq<ChoiceView> {
    Seq::new(choices.len(), |i: int| choices[i]@)
}

impl View for CompletionFragment {
    type V = FragmentView;

    open spec fn view(&self) -> FragmentView {
        FragmentView { choices: choices_view(self.choices@) }
    }
}

/// What a member that should hold a text, if anything, is read as. A missing
/// member and `null` both mean no text. The outer `None` says that the
/// member holds something else, which does not fit.
pub open spec fn optional_text(value: Option<JsonView>) -> Option<Option<Seq<char>>> {
    match value {
        None => Some(None),
        Some(JsonView::Null) => Some(None),
        Some(JsonView::Text(text)) => Some(Some(text)),
        Some(_) => None,
    }
}

/// The message that a JSON value stands for: an object whose `role` and
/// `content`, where present, are texts. Other members are ignored.
pub open spec fn message_of(json: JsonView) -> Option<MessageView> {
    match json {
        JsonView::Object(members) => match (
            optional_text(member(members, "role"@)),
            optional_text(member(members, "content"@)),
        ) {
            (Some(role), Some(content)) => Some(MessageView { role, content }),
            _ => None,
        },
        _ => None,
    }
}

/// Whether a member of a choice is carried along undecoded.
pub open spec fn is_carried(m: MemberView) -> bool {
    m.name != "delta"@
}

/// The choice that a JSON value stands for: an object with a `delta` that is
/// a message.
pub open spec fn choice_of(json: JsonView) -> Option<ChoiceView> {
    match json {
        JsonView::Object(members) => match member(members, "delta"@) {
            Some(delta) => match message_of(delta) {
                Some(message) => Some(
                    ChoiceView { delta: message, other: members.filter(|m: MemberView| is_carried(m)) },
                ),
                None => None,
            },
            None => None,
        },
        _ => None,
    }
}

/// The fragment that a JSON document stands for: an object whose `choices`
/// is an array of at least one choice.
pub open spec fn fragment_of(json: JsonView) -> Option<FragmentView> {
    match json {
        JsonView::Object(members) => match member(members, "choices"@) {
            Some(JsonView::Array(items)) => if items.len() > 0 && forall|i: int|
                0 <= i < items.len() ==> (#[trigger] choice_of(items[i])) is Some {
                Some(
                    FragmentView {
                        choices: Seq::new(items.len(), |i: int| choice_of(items[i]).unwrap()),
                    },
                )
            } else {
                None
            },
            _ => None,
        },
        _ => None,
    }
}

/// The model of a JSON value that may be missing.
pub open spec fn json_view(value: Option<&Json>) -> Option<JsonView> {
    match value {
        Some(json) => Some(json@),
        None => None,
    }
}

/// Reads a member that should hold a text, if anything.
fn read_optional_text(value: Option<&Json>) -> (read: Option<Option<String>>)
    ensures
        match read {
            Some(text) => optional_text(json_view(value)) == Some(text_view(text)),
            None => optional_text(json_view(value)) is None,
        },
{
    match value {
        None => Some(None),
        Some(Json::Null) => Some(None),
        Some(Json::Text(text)) => Some(Some(text.clone())),
        Some(_) => None,
    }
}

impl Message {
    /// Reads a message from a JSON value.
    ///
    /// Returns `None` exactly where the value is no object, or its `role` or
    /// its `content` holds something other than a text or `null`.
    pub fn from_json(json: &Json) -> (read: Option<Message>)
        ensures
            match read {
                Some(message) => message_of(json@) == Some(message@),
                None => message_of(json@) is None,
            },
    {
        match json {
            Json::Object(members) => {
                proof {
                    lemma_object_view(*members);
                }
                let role = read_optional_text(find_member(members, "role"));
                let content = read_optional_text(find_member(members, "content"));
                match (role, content) {
                    (Some(role), Some(content)) => Some(Message { role, content }),
                    _ => None,
                }
            },
            _ => None,
        }
    }
}

/// The members of `members` that a choice carries along, copied.
fn carried_members(members: &Vec<Member>) -> (carried: Vec<Member>)
    ensures
        members_view(carried@) == members_view(members@).filter(|m: MemberView| is_carried(m)),
{
    let delta = String::from_str("delta");
    let ghost all = members_view(members@);
    let ghost keep = |m: MemberView| is_carried(m);
    let mut carried: Vec<Member> = Vec::new();
    let mut i: usize = 0;
    proof {
        reveal(Seq::filter);
    }
    while i < members.len()
        invariant
            i <= members.len(),
            delta@ == "delta"@,
            all == members_view(members@),
            keep == (|m: MemberView| is_carried(m)),
            members_view(carried@) == all.take(i as int).filter(keep),
        decreases members.len() - i,
    {
        proof {
            reveal(Seq::filter);
            assert(all.take(i + 1).drop_last() =~= all.take(i as int));
        }
        if members[i].name != delta {
            let copy = Member { name: members[i].name.clone(), value: members[i].value.clone() };
            carried.push(copy);
        }
        i += 1;
    }
    assert(all.take(members.len() as int) =~= all);
    carried
}

impl Choice {
    /// Reads a choice from a JSON value.
    ///
    /// Returns `None` exactly where the value is no object, has no `delta`, or
    /// its `delta` is no message.
    pub fn from_json(json: &Json) -> (read: Option<Choice>)
        ensures
            match read {
                Some(choice) => choice_of(json@) == Some(choice@),
                None => choice_of(json@) is None,
            },
    {
        match json {
            Json::Object(members) => {
                proof {
                    lemma_object_view(*members);
                }
                match find_member(members, "delta") {
                    Some(delta) => match Message::from_json(delta) {
                        Some(message) => Some(
                            Choice { delta: message, other: carried_members(members) },
                        ),
                        None => None,
                    },
                    None => None,
                }
            },
            _ => None,
        }
    }
}

impl CompletionFragment {
    /// A fragment off the wire has at least one choice.
    pub open spec fn wf(&self) -> bool {
        self@.wf()
    }

    /// Reads a fragment from a JSON document.
    ///
    /// Returns `None` exactly where the document is no object, its `choices`
    /// is missing, no array or empty, or one of the items is no choice.
    pub fn from_json(json: &Json) -> (read: Option<CompletionFragment>)
        ensures
            match read {
                Some(fragment) => fragment_of(json@) == Some(fragment@) && fragment.wf(),
                None => fragment_of(json@) is None,
            },
    {
        match json {
            Json::Object(members) => {
                proof {
                    lemma_object_view(*members);
                }
                match find_member(members, "choices") {
                    Some(Json::Array(items)) => {
                        proof {
                            lemma_array_view(*items);
                        }
                        if items.len() == 0 {
                            return None;
                        }
                        let ghost models = Json::Array(*items)@->Array_0;
                        let mut choices: Vec<Choice> = Vec::new();
                        let mut i: usize = 0;
                        while i < items.len()
                            invariant
                                i <= items.len(),
                                choices.len() == i,
                                models == items_view(items@),
                                json@ is Object,
                                member(json@->Object_0, "choices"@) == Some(
                                    JsonView::Array(models),
                                ),
                                forall|k: int|
                                    0 <= k < i ==> choice_of(models[k]) == Some(
                                        #[trigger] choices[k]@,
                                    ),
                            decreases items.len() - i,
                        {
                            match Choice::from_json(&items[i]) {
                                Some(choice) => {
                                    choices.push(choice);
                                },
                                None => {
                                    assert(choice_of(models[i as int]) is None);
                                    return None;
                                },
                            }
                            i += 1;
                        }
                        let fragment = CompletionFragment { choices };
                        proof {
                            assert forall|k: int| 0 <= k < models.len() implies (
                            #[trigger] choice_of(models[k])) is Some by {
                                assert(choice_of(models[k]) == Some(fragment.choices[k]@));
                            }
                            assert(fragment@.choices =~= Seq::new(
                                models.len(),
                                |k: int| choice_of(models[k]).unwrap(),
                            ));
                        }
                        Some(fragment)
                    },
                    _ => None,
                }
            },
            _ => None,
        }
    }

    /// The piece of the reply that the fragment brings.
    pub fn content(&self) -> (text: String)
        ensures
            text@ == self@.content(),
    {
        if self.choices.len() > 0 {
            match &self.choices[0].delta.content {
                Some(text) => text.clone(),
                None => String::new(),
            }
        } else {
            String::new()
        }
    }
}

} // verus!
