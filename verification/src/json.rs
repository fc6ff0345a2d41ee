//! JSON, as far as the library reads and writes it.

use vstd::prelude::*;

verus! {

/// `serde_json::Value`: a JSON value.
#[verifier::external_type_specification]
#[verifier::external_body]
pub struct ExJsonValue(serde_json::Value);

/// `serde_json::Error`: why a text is no JSON.
#[verifier::external_type_specification]
#[verifier::external_body]
pub struct ExJsonError(serde_json::Error);

/// What a JSON value holds. Of a number only whether it is kept as an integer, and
/// which.
pub enum Json {
    Null,
    Flag(bool),
    Number(Option<int>),
    Text(Seq<char>),
    List(Seq<Json>),
    Object(Map<Seq<char>, Json>),
}

/// How deeply lists and objects may be nested in a text that can be read.
pub const NESTING: usize = 127;

/// Are lists and objects nested at most so deeply, and are all numbers integers?
pub open spec fn modest(j: Json, depth: nat) -> bool
    decreases depth,
{
    match j {
        Json::Number(n) => n is Some,
        Json::List(items) => depth > 0 && forall|i: int|
            0 <= i < items.len() ==> modest(#[trigger] items[i], (depth - 1) as nat),
        Json::Object(members) => depth > 0 && forall|key: Seq<char>|
            members.dom().contains(key) ==> modest(#[trigger] members[key], (depth - 1) as nat),
        _ => true,
    }
}

/// What a JSON value holds.
pub uninterp spec fn json_content(v: serde_json::Value) -> Json;

/// The JSON value that a text writes, or why it writes none.
pub uninterp spec fn json_value(s: Seq<char>) -> Result<serde_json::Value, serde_json::Error>;

/// Does the text write the value?
pub open spec fn reads_as(s: Seq<char>, v: serde_json::Value) -> bool {
    json_value(s) == Ok::<serde_json::Value, serde_json::Error>(v)
}

/// The JSON value that bytes write, or why they write none.
pub uninterp spec fn json_of_bytes(bytes: Seq<u8>) -> Result<serde_json::Value, serde_json::Error>;

/// An error in words.
pub uninterp spec fn json_complaint(e: serde_json::Error) -> Seq<char>;

/// The member of a JSON value under a key.
pub uninterp spec fn json_member(v: serde_json::Value, key: Seq<char>) -> Option<serde_json::Value>;

/// A JSON value with a member set.
pub uninterp spec fn json_with(
    v: serde_json::Value,
    key: Seq<char>,
    member: serde_json::Value,
) -> serde_json::Value;

/// The JSON value for a yes or a no.
pub uninterp spec fn json_flag(flag: bool) -> serde_json::Value;

/// The text that writes a JSON value, indented.
pub uninterp spec fn json_pretty(v: serde_json::Value) -> Seq<char>;

/// `serde_json::from_str` for a `Value`. The value, or the error, is a function of
/// the text.
#[verifier::external_body]
pub(crate) fn parse_json(s: &str) -> (r: Result<serde_json::Value, serde_json::Error>)
    ensures
        r == json_value(s@),
{
    serde_json::from_str(s)
}

/// `serde_json::from_slice` for a `Value`. The value, or the error, is a function
/// of the bytes.
#[verifier::external_body]
pub(crate) fn parse_json_bytes(bytes: &[u8]) -> (r: Result<serde_json::Value, serde_json::Error>)
    ensures
        r == json_of_bytes(bytes@),
{
    serde_json::from_slice(bytes)
}

/// `to_string` of a `serde_json::Error`: what is wrong, and where. The text is a
/// function of the error; what it says is not said.
#[verifier::external_body]
pub(crate) fn complaint(e: &serde_json::Error) -> (r: String)
    ensures
        r@ == json_complaint(*e),
{
    e.to_string()
}

/// `serde_json::Value::is_object`.
#[verifier::external_body]
pub(crate) fn is_object(v: &serde_json::Value) -> (r: bool)
    ensures
        r == (json_content(*v) is Object),
{
    v.is_object()
}

/// `serde_json::Value::as_bool`: the yes or no that the value is.
#[verifier::external_body]
pub(crate) fn as_flag(v: &serde_json::Value) -> (r: Option<bool>)
    ensures
        r == match json_content(*v) {
            Json::Flag(flag) => Some(flag),
            _ => None,
        },
{
    v.as_bool()
}

/// `serde_json::Value::is_null`.
#[verifier::external_body]
pub(crate) fn is_null(v: &serde_json::Value) -> (r: bool)
    ensures
        r == (json_content(*v) is Null),
{
    v.is_null()
}

/// `serde_json::Value::as_i64`: the integer that the value is, where it fits.
#[verifier::external_body]
pub(crate) fn as_int(v: &serde_json::Value) -> (r: Option<i64>)
    ensures
        r == match json_content(*v) {
            Json::Number(Some(n)) => if i64::MIN <= n <= i64::MAX {
                Some(n as i64)
            } else {
                None
            },
            _ => None,
        },
{
    v.as_i64()
}

/// `serde_json::Value::as_str`: the text that the value is.
#[verifier::external_body]
pub(crate) fn as_text(v: &serde_json::Value) -> (r: Option<&str>)
    ensures
        match json_content(*v) {
            Json::Text(s) => r is Some && r->0@ == s,
            _ => r is None,
        },
{
    v.as_str()
}

/// `serde_json::Value::as_array`: the elements of the list that the value is.
#[verifier::external_body]
pub(crate) fn as_list(v: &serde_json::Value) -> (r: Option<&Vec<serde_json::Value>>)
    ensures
        match json_content(*v) {
            Json::List(items) => r is Some && r->0@.map_values(
                |e: serde_json::Value| json_content(e),
            ) == items,
            _ => r is None,
        },
{
    v.as_array()
}

/// `serde_json::Value::get` with a key: the member, where the value is an object
/// that has it.
#[verifier::external_body]
pub(crate) fn member(v: &serde_json::Value, key: &str) -> (r: Option<serde_json::Value>)
    ensures
        r == json_member(*v, key@),
        match json_content(*v) {
            Json::Object(members) => match r {
                Some(m) => members.dom().contains(key@) && json_content(m) == members[key@],
                None => !members.dom().contains(key@),
            },
            _ => r is None,
        },
{
    v.get(key).cloned()
}

/// `serde_json::Map::insert` on the map of an object. The member is found again
/// under its key, and to set it once more changes nothing.
#[verifier::external_body]
pub(crate) fn with_member(v: serde_json::Value, key: &str, m: serde_json::Value) -> (r: serde_json::Value)
    requires
        json_content(v) is Object,
    ensures
        r == json_with(v, key@, m),
        json_content(r) == Json::Object(json_content(v)->Object_0.insert(key@, json_content(m))),
        json_member(r, key@) == Some(m),
        json_with(r, key@, m) == r,
{
    let mut v = v;
    if let Some(members) = v.as_object_mut() {
        members.insert(key.to_owned(), m);
    }
    v
}

/// `serde_json::Value::Object` of `serde_json::Map::new`: the object without
/// members, which is also what the text `{}` writes.
#[verifier::external_body]
pub(crate) fn empty_object() -> (r: serde_json::Value)
    ensures
        reads_as("{}"@, r),
        json_content(r) == Json::Object(Map::empty()),
{
    serde_json::Value::Object(serde_json::Map::new())
}

/// `serde_json::Value::Bool`.
#[verifier::external_body]
pub(crate) fn flag_value(flag: bool) -> (r: serde_json::Value)
    ensures
        r == json_flag(flag),
        json_content(r) == Json::Flag(flag),
{
    serde_json::Value::Bool(flag)
}

/// `serde_json::to_string_pretty` for a `Value`, which does not fail. The text is
/// a function of the value. Where it can be read it holds what the value holds;
/// and where all numbers are integers and the nesting is not too deep it can be
/// read, and is the value again. Of other values that is not said: a value that is
/// nested too deeply cannot be read, a float may come back as its neighbour, and
/// one at the edge of what a float holds may not come back at all.
#[verifier::external_body]
pub(crate) fn pretty(v: &serde_json::Value) -> (r: Result<String, serde_json::Error>)
    ensures
        r is Ok,
        r->Ok_0@ == json_pretty(*v),
        json_value(r->Ok_0@) matches Ok(back) ==> json_content(back) == json_content(*v),
        modest(json_content(*v), NESTING as nat) ==> reads_as(r->Ok_0@, *v),
{
    serde_json::to_string_pretty(v)
}

} // verus!
