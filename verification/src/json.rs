//! JSON documents: what a `serde_json::Value` holds, and the calls that read
//! and build one.

use crate::text;
use serde_json::Value;
use vstd::prelude::*;

verus! {

/// `serde_json::Value`, opaque. What a value holds is [`json_view`].
#[verifier::external_type_specification]
#[verifier::external_body]
pub struct ExValue(serde_json::Value);

/// A JSON document as a mathematical value. Numbers keep the three forms that
/// `serde_json` tells apart: non-negative integers, negative integers, and
/// doubles (by their bit pattern).
pub enum JsonView {
    Null,
    Bool(bool),
    Uint(u64),
    Negative(i64),
    Float(u64),
    Text(Seq<char>),
    Array(Seq<JsonView>),
    Object(Map<Seq<char>, JsonView>),
}

/// What a `serde_json::Value` holds.
pub uninterp spec fn json_view(v: Value) -> JsonView;

/// What `serde_json::from_slice` makes of a text: the document, or the text of
/// the error.
pub uninterp spec fn parsed_json(text: Seq<u8>) -> Result<JsonView, Seq<char>>;

/// The compact text that `serde_json::to_vec` writes for a document.
pub uninterp spec fn json_text(v: JsonView) -> Seq<u8>;

/// Whether a text holds no zero byte.
pub open spec fn zero_free(text: Seq<u8>) -> bool {
    forall|i: int| 0 <= i < text.len() ==> #[trigger] text[i] != 0
}

/// The compact text of a document as characters.
pub open spec fn json_display(v: JsonView) -> Seq<char> {
    vstd::utf8::decode_utf8(json_text(v))
}

/// The member of an object under `key`; nothing for any other document.
pub open spec fn member_view(v: JsonView, key: Seq<char>) -> Option<JsonView> {
    match v {
        JsonView::Object(m) => if m.contains_key(key) { Some(m[key]) } else { None },
        _ => None,
    }
}

/// The elements of an array; nothing for any other document.
pub open spec fn elements_view(v: JsonView) -> Option<Seq<JsonView>> {
    match v {
        JsonView::Array(s) => Some(s),
        _ => None,
    }
}

/// The characters of a string; nothing for any other document.
pub open spec fn text_view(v: JsonView) -> Option<Seq<char>> {
    match v {
        JsonView::Text(s) => Some(s),
        _ => None,
    }
}

/// A boolean; nothing for any other document.
pub open spec fn bool_view(v: JsonView) -> Option<bool> {
    match v {
        JsonView::Bool(b) => Some(b),
        _ => None,
    }
}

/// A non-negative integer; nothing for any other document.
pub open spec fn uint_view(v: JsonView) -> Option<u64> {
    match v {
        JsonView::Uint(n) => Some(n),
        _ => None,
    }
}

/// An object with one more member, in place of an earlier one of that name; any
/// other document as it is.
pub open spec fn with_member(v: JsonView, key: Seq<char>, item: JsonView) -> JsonView {
    match v {
        JsonView::Object(m) => JsonView::Object(m.insert(key, item)),
        _ => v,
    }
}

/// What each value of a sequence holds.
pub open spec fn json_views(s: Seq<Value>) -> Seq<JsonView> {
    s.map_values(|v: Value| json_view(v))
}

/// What an optional value holds.
pub open spec fn opt_json_view(r: Option<&Value>) -> Option<JsonView> {
    match r {
        Some(v) => Some(json_view(*v)),
        None => None,
    }
}

/// What an optional list of values holds.
pub open spec fn opt_json_views(r: Option<&Vec<Value>>) -> Option<Seq<JsonView>> {
    match r {
        Some(a) => Some(json_views(a@)),
        None => None,
    }
}

/// What the outcome of a parse holds: the document, or the error's text.
pub open spec fn parse_view(r: Result<Value, String>) -> Result<JsonView, Seq<char>> {
    match r {
        Ok(v) => Ok(json_view(v)),
        Err(e) => Err(e@),
    }
}

/// `serde_json::from_slice`: the document that the bytes write down, or the
/// error's text. Trusted: the outcome depends on the bytes alone.
#[verifier::external_body]
pub(crate) fn parse(text: &[u8]) -> (r: Result<Value, String>)
    ensures
        parse_view(r) == parsed_json(text@),
{
    serde_json::from_slice(text).map_err(|e| e.to_string())
}

/// `serde_json::to_vec`: the compact text of a document. Trusted: it is a
/// function of what the document holds, and it holds no zero byte, since control
/// characters in strings are written as escapes.
#[verifier::external_body]
pub(crate) fn to_text(v: &Value) -> (r: Vec<u8>)
    ensures
        r@ == json_text(json_view(*v)),
        zero_free(r@),
{
    serde_json::to_vec(v).unwrap_or_default()
}

/// `Value::get` with a string key.
#[verifier::external_body]
pub(crate) fn member<'a>(v: &'a Value, key: &str) -> (r: Option<&'a Value>)
    ensures
        opt_json_view(r) == member_view(json_view(*v), key@),
{
    v.get(key)
}

/// `Value::as_array`.
#[verifier::external_body]
pub(crate) fn elements<'a>(v: &'a Value) -> (r: Option<&'a Vec<Value>>)
    ensures
        opt_json_views(r) == elements_view(json_view(*v)),
{
    v.as_array()
}

/// `Value::as_str`.
#[verifier::external_body]
pub(crate) fn as_text<'a>(v: &'a Value) -> (r: Option<&'a str>)
    ensures
        text::opt_text(r) == text_view(json_view(*v)),
{
    v.as_str()
}

/// `Value::as_bool`.
#[verifier::external_body]
pub(crate) fn as_bool(v: &Value) -> (r: Option<bool>)
    ensures
        r == bool_view(json_view(*v)),
{
    v.as_bool()
}

/// `Value::as_u64`: the number, if it was written as a non-negative integer that
/// fits; negative numbers and doubles give nothing.
#[verifier::external_body]
pub(crate) fn as_u64(v: &Value) -> (r: Option<u64>)
    ensures
        r == uint_view(json_view(*v)),
{
    v.as_u64()
}

/// `Value::to_string`, which is `Display` for `Value`: the compact text that
/// `serde_json::to_vec` writes, as a string.
#[verifier::external_body]
pub(crate) fn display(v: &Value) -> (r: String)
    ensures
        r@ == json_display(json_view(*v)),
{
    v.to_string()
}

/// `Value::clone`: the copy holds what the value holds.
pub assume_specification[ <Value as Clone>::clone ](v: &Value) -> (r: Value)
    ensures
        json_view(r) == json_view(*v),
;

/// `Value::Null`.
#[verifier::external_body]
pub(crate) fn null() -> (r: Value)
    ensures
        json_view(r) == JsonView::Null,
{
    Value::Null
}

/// `Value::Bool`.
#[verifier::external_body]
pub(crate) fn of_bool(b: bool) -> (r: Value)
    ensures
        json_view(r) == JsonView::Bool(b),
{
    Value::Bool(b)
}

/// `Value::from` of an unsigned integer.
#[verifier::external_body]
pub(crate) fn of_u64(n: u64) -> (r: Value)
    ensures
        json_view(r) == JsonView::Uint(n),
{
    Value::from(n)
}

/// `Value::String`.
#[verifier::external_body]
pub(crate) fn of_text(s: &str) -> (r: Value)
    ensures
        json_view(r) == JsonView::Text(s@),
{
    Value::String(s.to_owned())
}

/// `Value::Array`.
#[verifier::external_body]
pub(crate) fn of_elements(items: Vec<Value>) -> (r: Value)
    ensures
        json_view(r) == JsonView::Array(json_views(items@)),
{
    Value::Array(items)
}

/// `serde_json::Map::new`, as an object.
#[verifier::external_body]
pub(crate) fn empty_object() -> (r: Value)
    ensures
        json_view(r) == JsonView::Object(Map::empty()),
{
    Value::Object(serde_json::Map::new())
}

/// `Value::as_object_mut`, then `serde_json::Map::insert`: an object gets the
/// member, in place of an earlier one of that name; any other document stays as
/// it is.
#[verifier::external_body]
pub(crate) fn set_member(v: &mut Value, key: &str, item: Value)
    ensures
        json_view(*final(v)) == with_member(json_view(*old(v)), key@, json_view(item)),
{
    if let Some(o) = v.as_object_mut() {
        o.insert(key.to_owned(), item);
    }
}

/// An object holds what was put into it: the member last set under a name is the
/// one that is found there, and every other member is as it was. Any other
/// document has no members, and setting one leaves it as it is.
pub proof fn law_member_is_what_was_set(v: JsonView, key: Seq<char>, item: JsonView, other: Seq<char>)
    ensures
        v is Object ==> member_view(with_member(v, key, item), key) == Some(item),
        other != key ==> member_view(with_member(v, key, item), other) == member_view(v, other),
        !(v is Object) ==> with_member(v, key, item) == v && member_view(v, key) is None,
{
}

/// A document is read as one kind alone: as text, as a boolean, as a whole number
/// from zero on, or as an array, and then in full.
pub proof fn law_document_is_read_as_what_it_is(v: JsonView)
    ensures
        text_view(v) matches Some(t) ==> v == JsonView::Text(t),
        bool_view(v) matches Some(b) ==> v == JsonView::Bool(b),
        uint_view(v) matches Some(n) ==> v == JsonView::Uint(n),
        elements_view(v) matches Some(a) ==> v == JsonView::Array(a),
        v is Text ==> text_view(v) is Some,
        v is Bool ==> bool_view(v) is Some,
        v is Uint ==> uint_view(v) is Some,
        v is Array ==> elements_view(v) is Some,
{
}

} // verus!
