//! JSON documents, read with `serde_json`.
//!
//! Parsing and member lookup are done by `serde_json`. Verus does not look
//! into that crate: each call below comes with a contract that is taken on
//! trust. The contracts speak of a document through [`JsonModel`], the tree
//! of plain values that the document holds.

use vstd::prelude::*;

verus! {

/// What a JSON document holds.
pub enum JsonModel {
    Null,
    Bool(bool),
    /// A number. The value is given where the number is an integer from 0 to
    /// `u64::MAX`; nothing more is said of any other number.
    Number(Option<u64>),
    Text(Seq<char>),
    Array(Seq<JsonModel>),
    /// An object: its members by their keys.
    Object(Map<Seq<char>, JsonModel>),
}

impl JsonModel {
    /// The member of an object under `key`; `None` for anything that is no
    /// object or has no such member.
    pub open spec fn member(self, key: Seq<char>) -> Option<JsonModel> {
        match self {
            JsonModel::Object(members) => if members.contains_key(key) {
                Some(members[key])
            } else {
                None
            },
            _ => None,
        }
    }

    /// The characters of a JSON string; `None` for anything else.
    pub open spec fn text(self) -> Option<Seq<char>> {
        match self {
            JsonModel::Text(text) => Some(text),
            _ => None,
        }
    }

    /// The value of an integer from 0 to `u64::MAX`; `None` for anything
    /// else.
    pub open spec fn unsigned(self) -> Option<u64> {
        match self {
            JsonModel::Number(number) => number,
            _ => None,
        }
    }

    /// The text stored in an object under `key`.
    pub open spec fn member_text(self, key: Seq<char>) -> Option<Seq<char>> {
        match self.member(key) {
            Some(member) => member.text(),
            None => None,
        }
    }

    /// The number stored in an object under `key`.
    pub open spec fn member_unsigned(self, key: Seq<char>) -> Option<u64> {
        match self.member(key) {
            Some(member) => member.unsigned(),
            None => None,
        }
    }
}

/// The characters of an optional string slice.
pub open spec fn chars_of(text: Option<&str>) -> Option<Seq<char>> {
    match text {
        Some(found) => Some(found@),
        None => None,
    }
}

/// `serde_json::Value`, a parsed JSON document or a part of one. Nothing of
/// its inside is visible to the verifier.
#[verifier::external_type_specification]
#[verifier::external_body]
pub struct ExJsonValue(serde_json::Value);

/// What a `serde_json::Value` holds.
pub uninterp spec fn json_model(value: serde_json::Value) -> JsonModel;

/// What `serde_json::from_str` reads from `text`: the document, or `None`
/// where it reports an error.
pub uninterp spec fn json_parsed(text: Seq<char>) -> Option<JsonModel>;

/// Calls `serde_json::from_str` for a `serde_json::Value`. Trusted: the
/// outcome depends on the text alone, and what the returned value holds is
/// named [`json_parsed`]. An error of the parser becomes `None`.
#[verifier::external_body]
pub(crate) fn parse(text: &str) -> (document: Option<serde_json::Value>)
    ensures
        match document {
            Some(value) => json_parsed(text@) == Some(json_model(value)),
            None => json_parsed(text@) is None,
        },
{
    serde_json::from_str::<serde_json::Value>(text).ok()
}

/// Calls `serde_json::Value::get` with a string key. Trusted: the call
/// returns the member of an object under that key, and `None` for a value
/// that is no object or has no such member.
#[verifier::external_body]
pub(crate) fn member<'a>(document: &'a serde_json::Value, key: &str) -> (value: Option<
    &'a serde_json::Value,
>)
    ensures
        match value {
            Some(found) => json_model(*document).member(key@) == Some(json_model(*found)),
            None => json_model(*document).member(key@) is None,
        },
{
    document.get(key)
}

/// `serde_json::Value::as_str`. Trusted: the call returns the characters of
/// a JSON string, and `None` for any other value.
pub assume_specification[ serde_json::Value::as_str ](value: &serde_json::Value) -> (text: Option<
    &str,
>)
    ensures
        chars_of(text) == json_model(*value).text(),
;

/// `serde_json::Value::as_u64`. Trusted: the call returns the value of an
/// integer from 0 to `u64::MAX`, and `None` for any other value.
pub assume_specification[ serde_json::Value::as_u64 ](value: &serde_json::Value) -> (number: Option<
    u64,
>)
    ensures
        number == json_model(*value).unsigned(),
;

/// Looks up the string member `key` of `document`.
pub(crate) fn get_text<'a>(document: &'a serde_json::Value, key: &str) -> (text: Option<&'a str>)
    ensures
        chars_of(text) == json_model(*document).member_text(key@),
{
    match member(document, key) {
        Some(value) => value.as_str(),
        None => None,
    }
}

/// Looks up the integer member `key` of `document`.
pub(crate) fn get_unsigned(document: &serde_json::Value, key: &str) -> (number: Option<u64>)
    ensures
        number == json_model(*document).member_unsigned(key@),
{
    match member(document, key) {
        Some(value) => value.as_u64(),
        None => None,
    }
}

} // verus!
