//! JSON documents as plain data, and the reading of a document from bytes.

use vstd::prelude::*;
use crate::text::same_text;

verus! {

/// A JSON value. The members of an object stand in the order in which the
/// parser holds them; a number is kept as its decimal text.
#[derive(Debug)]
pub enum Json {
    Null,
    Bool(bool),
    Number(String),
    Text(String),
    Array(Vec<Json>),
    Object(Vec<(String, Json)>),
}

/// The mathematical value of a `Json`.
pub enum JsonView {
    Null,
    Bool(bool),
    Number(Seq<char>),
    Text(Seq<char>),
    Array(Seq<JsonView>),
    Object(Seq<(Seq<char>, JsonView)>),
}

impl View for Json {
    type V = JsonView;

    open spec fn view(&self) -> JsonView
        decreases self,
    {
        match self {
            Json::Null => JsonView::Null,
            Json::Bool(b) => JsonView::Bool(*b),
            Json::Number(n) => JsonView::Number(n@),
            Json::Text(s) => JsonView::Text(s@),
            Json::Array(items) => JsonView::Array(
                Seq::new(
                    items.len() as nat,
                    |i: int|
                        if 0 <= i < items.len() {
                            items[i].view()
                        } else {
                            JsonView::Null
                        },
                ),
            ),
            Json::Object(members) => JsonView::Object(
                Seq::new(
                    members.len() as nat,
                    |i: int|
                        (
                            members[i].0@,
                            if 0 <= i < members.len() {
                                members[i].1.view()
                            } else {
                                JsonView::Null
                            },
                        ),
                ),
            ),
        }
    }
}

/// The value type of `serde_json`, carried as an opaque value.
#[verifier::external_type_specification]
#[verifier::external_body]
pub struct ExValue(serde_json::Value);

/// The error type of `serde_json`, carried as an opaque value.
#[verifier::external_type_specification]
#[verifier::external_body]
pub struct ExJsonError(serde_json::Error);

/// What a parsed value holds.
pub uninterp spec fn value_content(v: serde_json::Value) -> JsonView;

/// The document that `bytes` hold, or `None` where they are not one JSON text.
pub uninterp spec fn parsed_document(bytes: Seq<u8>) -> Option<JsonView>;

/// `serde_json::from_slice` reads one JSON text from the bytes, or fails. The
/// contract claims only that the outcome is a function of the bytes.
#[verifier::external_body]
fn parse_value(bytes: &[u8]) -> (r: Result<serde_json::Value, serde_json::Error>)
    ensures
        match r {
            Ok(v) => parsed_document(bytes@) == Some(value_content(v)),
            Err(_) => parsed_document(bytes@) is None,
        },
{
    serde_json::from_slice::<serde_json::Value>(bytes)
}

/// Copies a `serde_json::Value` into a `Json`, variant by variant: a number
/// as the text that its `to_string` gives, the items of an array and the
/// members of an object in the order of their iterators.
#[verifier::external_body]
fn json_of(v: &serde_json::Value) -> (j: Json)
    ensures
        j@ == value_content(*v),
{
    match v {
        serde_json::Value::Null => Json::Null,
        serde_json::Value::Bool(b) => Json::Bool(*b),
        serde_json::Value::Number(n) => Json::Number(n.to_string()),
        serde_json::Value::String(s) => Json::Text(s.clone()),
        serde_json::Value::Array(a) => Json::Array(a.iter().map(json_of).collect()),
        serde_json::Value::Object(m) => Json::Object(
            m.iter().map(|(k, x)| (k.clone(), json_of(x))).collect(),
        ),
    }
}

/// The bytes are not a JSON text.
#[derive(Clone, Copy, Debug, PartialEq, Eq, Structural)]
pub struct InvalidJson;

/// Reads a JSON document.
pub fn parse_json(bytes: &[u8]) -> (r: Result<Json, InvalidJson>)
    ensures
        match r {
            Ok(j) => parsed_document(bytes@) == Some(j@),
            Err(_) => parsed_document(bytes@) is None,
        },
{
    match parse_value(bytes) {
        Ok(v) => Ok(json_of(&v)),
        Err(_) => Err(InvalidJson),
    }
}

/// The value that the first member named `key` has among `members`, or null
/// if there is none.
pub open spec fn lookup(members: Seq<(Seq<char>, JsonView)>, key: Seq<char>) -> JsonView
    decreases members.len(),
{
    if members.len() == 0 {
        JsonView::Null
    } else if members[0].0 == key {
        members[0].1
    } else {
        lookup(members.drop_first(), key)
    }
}

/// The member `key` of `j`: null where `j` is no object or has no such member.
pub open spec fn member(j: JsonView, key: Seq<char>) -> JsonView {
    match j {
        JsonView::Object(members) => lookup(members, key),
        _ => JsonView::Null,
    }
}

/// The text that `j` is, if it is a string.
pub open spec fn text_of(j: JsonView) -> Option<Seq<char>> {
    match j {
        JsonView::Text(s) => Some(s),
        _ => None,
    }
}

/// The truth value that `j` is, if it is a boolean.
pub open spec fn flag_of(j: JsonView) -> Option<bool> {
    match j {
        JsonView::Bool(b) => Some(b),
        _ => None,
    }
}

/// The view of an array lists the views of its items, and the view of an
/// object the names and views of its members.
pub proof fn lemma_view_of_collections(j: Json)
    ensures
        j matches Json::Array(items) ==> j@ matches JsonView::Array(s) && s.len() == items.len()
            && forall|k: int| 0 <= k < s.len() ==> #[trigger] s[k] == items[k]@,
        j matches Json::Object(members) ==> j@ matches JsonView::Object(s) && s.len()
            == members.len() && forall|k: int|
            0 <= k < s.len() ==> #[trigger] s[k] == (members[k].0@, members[k].1@),
{
}

impl Json {
    /// The member `key` of this value, or `None` where the member is null,
    /// is absent, or this value is no object.
    pub fn get(&self, key: &str) -> (r: Option<&Json>)
        ensures
            match r {
                Some(x) => x@ == member(self@, key@) && !(x@ is Null),
                None => member(self@, key@) is Null,
            },
    {
        match self {
            Json::Object(members) => {
                let mut i: usize = 0;
                let ghost all = match self@ {
                    JsonView::Object(m) => m,
                    _ => Seq::empty(),
                };
                proof {
                    lemma_view_of_collections(*self);
                    assert(all.subrange(0, all.len() as int) == all);
                }
                while i < members.len()
                    invariant
                        i <= members.len(),
                        self@ == JsonView::Object(all),
                        all.len() == members.len(),
                        forall|k: int|
                            0 <= k < all.len() ==> #[trigger] all[k] == (members[k].0@, members[k].1@),
                        lookup(all, key@) == lookup(all.subrange(i as int, all.len() as int), key@),
                    decreases members.len() - i,
                {
                    let ghost rest = all.subrange(i as int, all.len() as int);
                    proof {
                        assert(rest[0] == all[i as int]);
                        assert(rest.drop_first() == all.subrange(i + 1, all.len() as int));
                    }
                    if same_text(members[i].0.as_str(), key) {
                        return match &members[i].1 {
                            Json::Null => None,
                            x => Some(x),
                        };
                    }
                    i += 1;
                }
                None
            },
            _ => None,
        }
    }

    /// The text of this value, if it is a string.
    pub fn as_str(&self) -> (r: Option<&str>)
        ensures
            match r {
                Some(s) => text_of(self@) == Some(s@),
                None => text_of(self@) is None,
            },
    {
        match self {
            Json::Text(s) => Some(s.as_str()),
            _ => None,
        }
    }

    /// The truth value of this value, if it is a boolean.
    pub fn as_bool(&self) -> (r: Option<bool>)
        ensures
            r == flag_of(self@),
    {
        match self {
            Json::Bool(b) => Some(*b),
            _ => None,
        }
    }
}

} // verus!
