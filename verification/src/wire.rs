//! Reading what arrives on the wire: bytes decoded as UTF-8, and the
//! fields of a JSON message, as `serde_json` parses it.
use vstd::prelude::*;
use vstd::utf8::decode_utf8;
use vstd::utf8::valid_utf8;
use crate::text::opt_view;

verus! {

/// `text` parses as JSON.
pub uninterp spec fn json_is_valid(text: Seq<char>) -> bool;

/// The string that the member `key` of the JSON object `text` holds; none
/// when `text` does not parse, is not an object, lacks `key`, or holds
/// something else than a string there.
pub uninterp spec fn json_str_field(text: Seq<char>, key: Seq<char>) -> Option<Seq<char>>;

/// The string at member `inner` of member `outer` of the JSON text `text`,
/// if there is one.
pub uninterp spec fn json_nested_str(text: Seq<char>, outer: Seq<char>, inner: Seq<char>) -> Option<
    Seq<char>,
>;

/// The unsigned integer at member `inner` of member `outer` of the JSON
/// text `text`, if there is one that fits in 64 bits.
pub uninterp spec fn json_nested_u64(text: Seq<char>, outer: Seq<char>, inner: Seq<char>) -> Option<
    u64,
>;

/// Member `key` of the JSON text `text` is an object.
pub uninterp spec fn json_field_is_object(text: Seq<char>, key: Seq<char>) -> bool;

/// Member `outer` of the JSON text `text` is an object with a member
/// `inner`.
pub uninterp spec fn json_nested_has(text: Seq<char>, outer: Seq<char>, inner: Seq<char>) -> bool;

/// When member `key` of the JSON text `text` is an array: for each of its
/// items, the string that the item's member `field` holds, if any.
pub uninterp spec fn json_array_field_strs(text: Seq<char>, key: Seq<char>, field: Seq<char>) -> Option<
    Seq<Option<Seq<char>>>,
>;

/// When `text` parses as JSON: the compact text of that value, with the
/// member `key` set to the string `value` if the value is an object.
pub uninterp spec fn json_with_member(text: Seq<char>, key: Seq<char>, value: Seq<char>) -> Option<
    Seq<char>,
>;

/// The views of optional strings.
pub open spec fn opt_views(s: Seq<Option<String>>) -> Seq<Option<Seq<char>>> {
    s.map_values(|o: Option<String>| opt_view(o))
}

/// Whether `text` parses as JSON.
///
/// Trusted: `serde_json::from_str` into a `serde_json::Value`; the result
/// is named by `json_is_valid`.
#[verifier::external_body]
pub(crate) fn is_json(text: &str) -> (r: bool)
    ensures
        r == json_is_valid(text@),
{
    serde_json::from_str::<serde_json::Value>(text).is_ok()
}

/// The string held by member `key` of the JSON text `text`.
///
/// Trusted: `serde_json::from_str` into a `serde_json::Value`, then
/// indexing by `key` and `as_str`; the result is named by `json_str_field`.
#[verifier::external_body]
pub(crate) fn str_field_of(text: &str, key: &str) -> (r: Option<String>)
    ensures
        opt_view(r) == json_str_field(text@, key@),
{
    match serde_json::from_str::<serde_json::Value>(text) {
        Ok(v) => v[key].as_str().map(|s| s.to_string()),
        Err(_) => None,
    }
}

/// The string at member `inner` of member `outer` of the JSON text `text`.
///
/// Trusted: `serde_json::from_str` into a `serde_json::Value`, then two
/// indexings and `as_str`; the result is named by `json_nested_str`.
#[verifier::external_body]
pub(crate) fn nested_str_of(text: &str, outer: &str, inner: &str) -> (r: Option<String>)
    ensures
        opt_view(r) == json_nested_str(text@, outer@, inner@),
{
    match serde_json::from_str::<serde_json::Value>(text) {
        Ok(v) => v[outer][inner].as_str().map(|s| s.to_string()),
        Err(_) => None,
    }
}

/// The unsigned integer at member `inner` of member `outer` of the JSON
/// text `text`.
///
/// Trusted: `serde_json::from_str` into a `serde_json::Value`, then two
/// indexings and `as_u64`; the result is named by `json_nested_u64`.
#[verifier::external_body]
pub(crate) fn nested_u64_of(text: &str, outer: &str, inner: &str) -> (r: Option<u64>)
    ensures
        r == json_nested_u64(text@, outer@, inner@),
{
    match serde_json::from_str::<serde_json::Value>(text) {
        Ok(v) => v[outer][inner].as_u64(),
        Err(_) => None,
    }
}

/// Whether member `key` of the JSON text `text` is an object.
///
/// Trusted: `serde_json::from_str` into a `serde_json::Value`, then
/// indexing by `key` and `is_object`; the result is named by
/// `json_field_is_object`.
#[verifier::external_body]
pub(crate) fn field_is_object(text: &str, key: &str) -> (r: bool)
    ensures
        r == json_field_is_object(text@, key@),
{
    match serde_json::from_str::<serde_json::Value>(text) {
        Ok(v) => v[key].is_object(),
        Err(_) => false,
    }
}

/// Whether member `outer` of the JSON text `text` is an object with a
/// member `inner`.
///
/// Trusted: `serde_json::from_str` into a `serde_json::Value`, then
/// indexing by `outer` and `Value::get`; the result is named by
/// `json_nested_has`.
#[verifier::external_body]
pub(crate) fn nested_has(text: &str, outer: &str, inner: &str) -> (r: bool)
    ensures
        r == json_nested_has(text@, outer@, inner@),
{
    match serde_json::from_str::<serde_json::Value>(text) {
        Ok(v) => v[outer].get(inner).is_some(),
        Err(_) => false,
    }
}

/// For each item of the array at member `key` of the JSON text `text`, the
/// string at the item's member `field`.
///
/// Trusted: `serde_json::from_str` into a `serde_json::Value`, then
/// indexing by `key`, `as_array`, and for each item indexing by `field` and
/// `as_str`; the result is named by `json_array_field_strs`.
#[verifier::external_body]
pub(crate) fn array_field_strs_of(text: &str, key: &str, field: &str) -> (r: Option<
    Vec<Option<String>>,
>)
    ensures
        match r {
            Some(v) => json_array_field_strs(text@, key@, field@) == Some(opt_views(v@)),
            None => json_array_field_strs(text@, key@, field@) is None,
        },
{
    match serde_json::from_str::<serde_json::Value>(text) {
        Ok(v) => v[key].as_array().map(
            |items| items.iter().map(|item| item[field].as_str().map(|s| s.to_string())).collect(),
        ),
        Err(_) => None,
    }
}

/// The JSON text `text` with the member `key` set to the string `value`.
///
/// Trusted: `serde_json::from_str` into a `serde_json::Value`, then
/// `as_object_mut` and `insert` when it is an object, then `to_string`; the
/// result is named by `json_with_member`.
#[verifier::external_body]
pub(crate) fn with_member(text: &str, key: &str, value: &str) -> (r: Option<String>)
    ensures
        opt_view(r) == json_with_member(text@, key@, value@),
{
    match serde_json::from_str::<serde_json::Value>(text) {
        Ok(mut v) => {
            if let Some(o) = v.as_object_mut() {
                o.insert(key.to_string(), serde_json::Value::String(value.to_string()));
            }
            Some(v.to_string())
        },
        Err(_) => None,
    }
}

/// The text that `data` encodes in UTF-8, when it is valid UTF-8.
///
/// Trusted: `std::str::from_utf8`. As its documentation says, it succeeds
/// exactly on valid UTF-8; the contract states this over vstd's model of
/// UTF-8.
#[verifier::external_body]
pub(crate) fn utf8_text(data: &[u8]) -> (r: Option<String>)
    ensures
        r is Some <==> valid_utf8(data@),
        r matches Some(s) ==> s@ == decode_utf8(data@),
{
    match std::str::from_utf8(data) {
        Ok(s) => Some(s.to_string()),
        Err(_) => None,
    }
}

/// The text of a message that arrived as bytes: its UTF-8 decoding, or the
/// empty text when the bytes are not valid UTF-8.
pub open spec fn message_text(data: Seq<u8>) -> Seq<char> {
    if valid_utf8(data) {
        decode_utf8(data)
    } else {
        Seq::empty()
    }
}

/// The text of a message that arrived as bytes.
pub fn message_text_of(data: &[u8]) -> (r: String)
    ensures
        r@ == message_text(data@),
{
    match utf8_text(data) {
        Some(s) => s,
        None => String::new(),
    }
}

}
