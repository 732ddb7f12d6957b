//! JSON documents as plain values, and the parser that produces them.

use serde_json::Value;
use vstd::prelude::*;

verus! {

/// A JSON document held as plain values.
///
/// A number is kept as its decimal text. The members of an object are kept
/// in the order in which the parser hands them out.
#[derive(Debug, PartialEq, Eq)]
pub enum Json {
    Null,
    Bool(bool),
    Number(String),
    Text(String),
    Array(Vec<Json>),
    Object(Vec<Member>),
}

/// One member of a JSON object.
#[derive(Debug, PartialEq, Eq)]
pub struct Member {
    pub name: String,
    pub value: Json,
}

/// Mathematical model of a [`Json`] document.
pub enum JsonView {
    Null,
    Bool(bool),
    Number(Seq<char>),
    Text(Seq<char>),
    Array(Seq<JsonView>),
    Object(Seq<MemberView>),
}

/// Mathematical model of a [`Member`].
pub struct MemberView {
    pub name: Seq<char>,
    pub value: JsonView,
}

impl View for Json {
    type V = JsonView;

    open spec fn view(&self) -> JsonView
        decreases self,
    {
        match self {
            Json::Null => JsonView::Null,
            Json::Bool(b) => JsonView::Bool(*b),
            Json::Number(n) => JsonView::Number(n@),
            Json::Text(s) => JsonView::Text(s@),
            Json::Array(items) => JsonView::Array(
                Seq::new(
                    items@.len(),
                    |i: int|
                        if 0 <= i < items@.len() {
                            items[i].view()
                        } else {
                            JsonView::Null
                        },
                ),
            ),
            Json::Object(members) => JsonView::Object(
                Seq::new(
                    members@.len(),
                    |i: int|
                        if 0 <= i < members@.len() {
                            MemberView { name: members[i].name@, value: members[i].value.view() }
                        } else {
                            MemberView { name: Seq::empty(), value: JsonView::Null }
                        },
                ),
            ),
        }
    }
}

/// The models of the items of an array, in order.
pub open spec fn items_view(items: Seq<Json>) -> Seq<JsonView> {
    Seq::new(items.len(), |i: int| items[i]@)
}

/// The models of the members of an object, in order.
pub open spec fn members_view(members: Seq<Member>) -> Seq<MemberView> {
    Seq::new(members.len(), |i: int| members[i]@)
}

impl View for Member {
    type V = MemberView;

    open spec fn view(&self) -> MemberView {
        MemberView { name: self.name@, value: self.value@ }
    }
}

/// The model of an array is the array of its items' models.
pub proof fn lemma_array_view(items: Vec<Json>)
    ensures
        Json::Array(items)@ == JsonView::Array(items_view(items@)),
{
    assert(Json::Array(items)@->Array_0 =~= items_view(items@));
}

/// The model of an object is the sequence of its members' models.
pub proof fn lemma_object_view(members: Vec<Member>)
    ensures
        Json::Object(members)@ == JsonView::Object(members_view(members@)),
{
    assert(Json::Object(members)@->Object_0 =~= members_view(members@));
}

impl Clone for Json {
    fn clone(&self) -> (copy: Json)
        ensures
            copy@ == self@,
        decreases self,
    {
        match self {
            Json::Null => Json::Null,
            Json::Bool(b) => Json::Bool(*b),
            Json::Number(n) => Json::Number(n.clone()),
            Json::Text(s) => Json::Text(s.clone()),
            Json::Array(items) => {
                let mut out: Vec<Json> = Vec::new();
                let mut i: usize = 0;
                while i < items.len()
                    invariant
                        i <= items.len(),
                        out.len() == i,
                        forall|k: int|
                            0 <= k < items.len() ==> #[trigger] (decreases_to!(self => items[k])),
                        forall|k: int| 0 <= k < i ==> out[k]@ == items[k]@,
                    decreases items.len() - i,
                {
                    let item = items[i].clone();
                    out.push(item);
                    i += 1;
                }
                proof {
                    lemma_array_view(*items);
                    lemma_array_view(out);
                    assert(items_view(out@) =~= items_view(items@));
                }
                Json::Array(out)
            },
            Json::Object(members) => {
                let mut out: Vec<Member> = Vec::new();
                let mut i: usize = 0;
                while i < members.len()
                    invariant
                        i <= members.len(),
                        out.len() == i,
                        forall|k: int|
                            0 <= k < members.len() ==> #[trigger] (decreases_to!(self => members[k].value)),
                        forall|k: int|
                            0 <= k < i ==> out[k].name@ == members[k].name@ && out[k].value@
                                == members[k].value@,
                    decreases members.len() - i,
                {
                    let name = members[i].name.clone();
                    let value = members[i].value.clone();
                    out.push(Member { name, value });
                    i += 1;
                }
                proof {
                    lemma_object_view(*members);
                    lemma_object_view(out);
                    assert(members_view(out@) =~= members_view(members@));
                }
                Json::Object(out)
            },
        }
    }
}

/// The value of the first member named `key`, if there is one.
pub open spec fn member(members: Seq<MemberView>, key: Seq<char>) -> Option<JsonView>
    decreases members.len(),
{
    if members.len() == 0 {
        None
    } else if members[0].name == key {
        Some(members[0].value)
    } else {
        member(members.skip(1), key)
    }
}

/// The value of the first member of `members` named `key`, if there is one.
pub fn find_member<'a>(members: &'a Vec<Member>, key: &str) -> (found: Option<&'a Json>)
    ensures
        match found {
            Some(value) => member(members_view(members@), key@) == Some(value@),
            None => member(members_view(members@), key@) is None,
        },
{
    let wanted = String::from_str(key);
    let ghost all = members_view(members@);
    let mut i: usize = 0;
    assert(all.skip(0) =~= all);
    while i < members.len()
        invariant
            i <= members.len(),
            wanted@ == key@,
            all == members_view(members@),
            member(all, key@) == member(all.skip(i as int), key@),
        decreases members.len() - i,
    {
        let ghost rest = all.skip(i as int);
        if members[i].name == wanted {
            return Some(&members[i].value);
        }
        assert(rest.skip(1) =~= all.skip(i + 1));
        i += 1;
    }
    None
}

/// `serde_json::Value`, of which nothing is known here but what
/// [`value_json`] names.
#[verifier::external_type_specification]
#[verifier::external_body]
pub struct ExValue(Value);

/// The document that `serde_json::from_str` reads from `text`, or `None`
/// where it reports an error.
pub uninterp spec fn json_document(text: Seq<char>) -> Option<JsonView>;

/// The document that a `serde_json::Value` holds.
pub uninterp spec fn value_json(value: Value) -> JsonView;

/// Calls `serde_json::from_str` for a `serde_json::Value`.
///
/// The outcome depends on the text alone: the same text always gives the same
/// document, or always an error. Nothing more is claimed of it.
#[verifier::external_body]
fn parse_value(text: &str) -> (parsed: Option<Value>)
    ensures
        match parsed {
            Some(value) => json_document(text@) == Some(value_json(value)),
            None => json_document(text@) is None,
        },
{
    match serde_json::from_str::<Value>(text) {
        Ok(value) => Some(value),
        Err(_) => None,
    }
}

/// Moves what a `serde_json::Value` holds into a [`Json`], variant by
/// variant. A `serde_json::Number` becomes the text that its `Display`
/// writes; the members of a `serde_json::Map` come in the order of its
/// iterator.
#[verifier::external_body]
fn json_from_value(value: Value) -> (document: Json)
    ensures
        document@ == value_json(value),
{
    match value {
        Value::Null => Json::Null,
        Value::Bool(b) => Json::Bool(b),
        Value::Number(n) => Json::Number(n.to_string()),
        Value::String(s) => Json::Text(s),
        Value::Array(items) => Json::Array(items.into_iter().map(json_from_value).collect()),
        Value::Object(members) => Json::Object(
            members.into_iter().map(|(name, v)| Member { name, value: json_from_value(v) }).collect(),
        ),
    }
}

/// Parses `text` as one JSON document.
///
/// Returns the document that [`json_document`] names for `text`, and `None`
/// exactly where the text is not a JSON document.
pub fn parse(text: &str) -> (document: Option<Json>)
    ensures
        match document {
            Some(json) => json_document(text@) == Some(json@),
            None => json_document(text@) is None,
        },
{
    match parse_value(text) {
        Some(value) => Some(json_from_value(value)),
        None => None,
    }
}

} // verus!
