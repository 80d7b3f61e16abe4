//! Reading the members of a JSON document.

use vstd::prelude::*;

verus! {

/// A JSON value as `serde_json` holds it.
#[verifier::external_type_specification]
#[verifier::external_body]
pub struct ExJsonValue(serde_json::Value);

/// A member of a JSON object, as far as a check of metadata looks at it.
#[derive(Debug, Clone, PartialEq, Eq)]
pub enum Field {
    /// The object has no such member, or the value is no object.
    Missing,
    /// The member is a string.
    Text(String),
    /// The member is there and is no string.
    Other,
}

/// A [`Field`], with its string as characters.
pub enum FieldView {
    Missing,
    Text(Seq<char>),
    Other,
}

impl View for Field {
    type V = FieldView;

    open spec fn view(&self) -> FieldView {
        match self {
            Field::Missing => FieldView::Missing,
            Field::Text(text) => FieldView::Text(text@),
            Field::Other => FieldView::Other,
        }
    }
}

/// The members that a JSON value holds: for each key of an object, whether its value is a
/// string, and which. A value that is no object holds none.
pub uninterp spec fn json_members(value: serde_json::Value) -> Map<Seq<char>, FieldView>;

/// The members of the JSON document that `text` spells, if it spells one.
pub uninterp spec fn json_document(text: Seq<char>) -> Option<Map<Seq<char>, FieldView>>;

/// The member of `members` under `key`.
pub open spec fn member_of(members: Map<Seq<char>, FieldView>, key: Seq<char>) -> FieldView {
    if members.contains_key(key) {
        members[key]
    } else {
        FieldView::Missing
    }
}

/// Calls `serde_json::from_str` for a `serde_json::Value`: the value that `text` spells, or
/// nothing where it spells none. The contract names the members of the result
/// `json_document(text)`; it says nothing of what they are.
#[verifier::external_body]
pub(crate) fn parse_json(text: &str) -> (parsed: Option<serde_json::Value>)
    ensures
        match parsed {
            Some(value) => json_document(text@) == Some(json_members(value)),
            None => json_document(text@) is None,
        },
{
    serde_json::from_str::<serde_json::Value>(text).ok()
}

/// Calls `serde_json::Value::get` with a string key, and tells a string from another value:
/// the member of `value` under `key`. The contract claims that this is what
/// `json_members(value)` holds under `key`.
#[verifier::external_body]
pub(crate) fn json_member(value: &serde_json::Value, key: &str) -> (field: Field)
    ensures
        field@ == member_of(json_members(*value), key@),
{
    match value.get(key) {
        None => Field::Missing,
        Some(serde_json::Value::String(text)) => Field::Text(text.clone()),
        Some(_) => Field::Other,
    }
}

} // verus!
