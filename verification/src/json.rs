//! JSON values, read, built and written through `serde_json`.

use crate::text::texts;
use serde_json::Value;
use vstd::prelude::*;

verus! {

/// `serde_json::Value`, carried as an opaque value. What it holds is named by [`json_object`],
/// [`json_str`] and [`json_u64`].
#[verifier::external_type_specification]
#[verifier::external_body]
pub struct ExValue(serde_json::Value);

/// The members of a JSON object by their keys; `None` for every other JSON value.
pub uninterp spec fn json_object(value: serde_json::Value) -> Option<
    Map<Seq<char>, serde_json::Value>,
>;

/// The characters of a JSON string; `None` for every other JSON value.
pub uninterp spec fn json_str(value: serde_json::Value) -> Option<Seq<char>>;

/// A JSON number that is written without a fraction or an exponent and fits a `u64`; `None` for
/// every other JSON value.
pub uninterp spec fn json_u64(value: serde_json::Value) -> Option<u64>;

/// The compact notation of a JSON value.
pub uninterp spec fn json_text(value: serde_json::Value) -> Seq<char>;

/// What `serde_json::from_str::<Value>` makes of a text: the value, or the error's own text.
pub uninterp spec fn json_document(text: Seq<char>) -> Result<serde_json::Value, Seq<char>>;

/// What `serde_json::to_vec` makes of a value: its bytes, or the error's own text.
pub uninterp spec fn json_bytes(value: serde_json::Value) -> Result<Seq<u8>, Seq<char>>;

/// What `serde_json::from_str::<Vec<String>>` makes of a text: the strings of a list, or `None`
/// for an error.
pub uninterp spec fn json_string_list(text: Seq<char>) -> Option<Seq<Seq<char>>>;

/// The member of a JSON value under a key: that of an object, where it has one.
pub open spec fn json_member(value: Value, key: Seq<char>) -> Option<Value> {
    match json_object(value) {
        Some(members) => if members.contains_key(key) {
            Some(members[key])
        } else {
            None
        },
        None => None,
    }
}

/// The characters of the member under a key, where that is a string.
pub open spec fn member_str(value: Value, key: Seq<char>) -> Option<Seq<char>> {
    match json_member(value, key) {
        Some(member) => json_str(member),
        None => None,
    }
}

/// The number under a key, where that is written without a fraction or an exponent and fits a
/// `u64`.
pub open spec fn member_u64(value: Value, key: Seq<char>) -> Option<u64> {
    match json_member(value, key) {
        Some(member) => json_u64(member),
        None => None,
    }
}

/// Calls `serde_json::from_str::<Value>`. The result is named: the value that the text denotes,
/// or the error in its own words.
#[verifier::external_body]
pub(crate) fn parse_json(text: &str) -> (parsed: Result<Value, String>)
    ensures
        match parsed {
            Ok(value) => json_document(text@) == Ok::<Value, Seq<char>>(value),
            Err(message) => json_document(text@) == Err::<Value, Seq<char>>(message@),
        },
{
    serde_json::from_str::<Value>(text).map_err(|error| error.to_string())
}

/// Calls `serde_json::from_str::<Vec<String>>`. The result is named; an error is dropped.
#[verifier::external_body]
pub(crate) fn parse_string_list(text: &str) -> (list: Option<Vec<String>>)
    ensures
        match list {
            Some(list) => json_string_list(text@) == Some(texts(list@)),
            None => json_string_list(text@) is None,
        },
{
    serde_json::from_str::<Vec<String>>(text).ok()
}

/// Calls `Value::get` with a string: the member of an object under that key; nothing for what
/// is no object or has no such member.
#[verifier::external_body]
pub(crate) fn get_member<'a>(value: &'a Value, key: &str) -> (member: Option<&'a Value>)
    ensures
        match member {
            Some(member) => json_member(*value, key@) == Some(*member),
            None => json_member(*value, key@) is None,
        },
{
    value.get(key)
}

/// Calls `Value::as_str`: the characters of a string, nothing for any other value.
#[verifier::external_body]
pub(crate) fn as_text(value: &Value) -> (text: Option<&str>)
    ensures
        match text {
            Some(text) => json_str(*value) == Some(text@),
            None => json_str(*value) is None,
        },
{
    value.as_str()
}

/// Calls `Value::as_u64`: a number from zero up to the largest `u64` that is written without a
/// fraction or an exponent, nothing for any other value.
#[verifier::external_body]
pub(crate) fn as_number(value: &Value) -> (number: Option<u64>)
    ensures
        number == json_u64(*value),
{
    value.as_u64()
}

/// Calls `Value::is_object`: whether the value has members by keys.
#[verifier::external_body]
pub(crate) fn is_object(value: &Value) -> (holds: bool)
    ensures
        holds == (json_object(*value) is Some),
{
    value.is_object()
}

/// Calls `Value::to_string`: the compact notation, which is named.
#[verifier::external_body]
pub(crate) fn show(value: &Value) -> (shown: String)
    ensures
        shown@ == json_text(*value),
{
    value.to_string()
}

/// Calls `Value::clone`: an equal value.
#[verifier::external_body]
pub(crate) fn copied(value: &Value) -> (copy: Value)
    ensures
        copy == *value,
{
    value.clone()
}

/// Assigns through `Value`'s mutable index with a string: puts `member` under `key` into an
/// object, in place of what was there. On anything but an object (and null) that index panics.
#[verifier::external_body]
pub(crate) fn set_member(value: &mut Value, key: &str, member: Value)
    requires
        json_object(*old(value)) is Some,
    ensures
        json_object(*final(value)) == Some(json_object(*old(value))->Some_0.insert(key@, member)),
{
    value[key] = member;
}

/// Calls `serde_json::Map::new`, as a value: an object without members.
#[verifier::external_body]
pub(crate) fn empty_object() -> (value: Value)
    ensures
        json_object(value) == Some(Map::<Seq<char>, Value>::empty()),
{
    Value::Object(serde_json::Map::new())
}

/// Calls `Value::from` for a string: a JSON string with the same characters.
#[verifier::external_body]
pub(crate) fn from_text(text: &str) -> (value: Value)
    ensures
        json_str(value) == Some(text@),
{
    Value::from(text)
}

/// Calls `Value::from` for a number: the JSON number.
#[verifier::external_body]
pub(crate) fn from_number(number: u64) -> (value: Value)
    ensures
        json_u64(value) == Some(number),
{
    Value::from(number)
}

/// Calls `serde_json::to_vec`. The result is named: the bytes of the value, or the error in its
/// own words. The bytes are compact: nothing stands between the tokens, and a line feed inside a
/// string is written as an escape, so none of them is a line feed.
#[verifier::external_body]
pub(crate) fn encode(value: &Value) -> (bytes: Result<Vec<u8>, String>)
    ensures
        match bytes {
            Ok(bytes) => json_bytes(*value) == Ok::<Seq<u8>, Seq<char>>(bytes@)
                && !bytes@.contains(10),
            Err(message) => json_bytes(*value) == Err::<Seq<u8>, Seq<char>>(message@),
        },
{
    serde_json::to_vec(value).map_err(|error| error.to_string())
}

/// The characters of the member under a key.
pub fn get_str(value: &Value, key: &str) -> (text: Option<String>)
    ensures
        match text {
            Some(text) => member_str(*value, key@) == Some(text@),
            None => member_str(*value, key@) is None,
        },
{
    match get_member(value, key) {
        Some(member) => match as_text(member) {
            Some(text) => Some(text.to_owned()),
            None => None,
        },
        None => None,
    }
}

/// The number under a key.
pub fn get_u64(value: &Value, key: &str) -> (number: Option<u64>)
    ensures
        number == member_u64(*value, key@),
{
    match get_member(value, key) {
        Some(member) => as_number(member),
        None => None,
    }
}

/// A member is what an object holds under a key; only objects have members, a text member is a
/// string and a number member a whole number.
pub proof fn law_members_are_those_of_objects(value: Value, key: Seq<char>)
    ensures
        json_object(value) matches Some(members) ==> members.contains_key(key) ==> json_member(
            value,
            key,
        ) == Some(members[key]) && member_str(value, key) == json_str(members[key]) && member_u64(
            value,
            key,
        ) == json_u64(members[key]),
        json_object(value) is None || !json_object(value)->Some_0.contains_key(key) ==> json_member(
            value,
            key,
        ) is None && member_str(value, key) is None && member_u64(value, key) is None,
{
}

} // verus!
