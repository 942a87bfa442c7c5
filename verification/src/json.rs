use crate::text::texts;
use vstd::prelude::*;

verus! {

/// `serde_json::Value`: a JSON value. Nothing is known of what it holds but
/// what the functions below read out of it.
#[verifier::external_type_specification]
#[verifier::external_body]
pub struct ExJsonValue(serde_json::Value);

/// The JSON value that a text of bytes denotes, if it denotes one.
pub uninterp spec fn json_parsed(bytes: Seq<u8>) -> Option<serde_json::Value>;

/// The member that a JSON object holds under a key; `None` for a value that is no object.
pub uninterp spec fn json_member(v: serde_json::Value, key: Seq<char>) -> Option<
    serde_json::Value,
>;

/// The text of a JSON string; `None` for any other value.
pub uninterp spec fn json_text(v: serde_json::Value) -> Option<Seq<char>>;

/// The number of a JSON integer that fits `i64`; `None` for any other value.
pub uninterp spec fn json_integer(v: serde_json::Value) -> Option<i64>;

/// The elements of a JSON array; `None` for any other value.
pub uninterp spec fn json_elements(v: serde_json::Value) -> Option<Seq<serde_json::Value>>;

/// `serde_json::from_slice` at type `Value`: the parsed document, or `None` where
/// the bytes are no JSON document. The result depends on the bytes alone.
#[verifier::external_body]
pub(crate) fn parse(bytes: &[u8]) -> (r: Option<serde_json::Value>)
    ensures
        r == json_parsed(bytes@),
{
    serde_json::from_slice::<serde_json::Value>(bytes).ok()
}

/// `serde_json::Value::get` with a string key: the member of an object under that
/// key, `None` where the key is absent or the value is no object.
#[verifier::external_body]
pub(crate) fn member<'a>(v: &'a serde_json::Value, key: &str) -> (r: Option<
    &'a serde_json::Value,
>)
    ensures
        r is Some <==> json_member(*v, key@) is Some,
        r is Some ==> *r->0 == json_member(*v, key@)->0,
{
    v.get(key)
}

/// `serde_json::Value::as_str`: the text of a string value, `None` for any other.
#[verifier::external_body]
pub(crate) fn text<'a>(v: &'a serde_json::Value) -> (r: Option<&'a str>)
    ensures
        r is Some <==> json_text(*v) is Some,
        r is Some ==> r->0@ == json_text(*v)->0,
{
    v.as_str()
}

/// `serde_json::Value::as_i64`: the number of an integer value that fits `i64`,
/// `None` for any other.
#[verifier::external_body]
pub(crate) fn integer(v: &serde_json::Value) -> (r: Option<i64>)
    ensures
        r == json_integer(*v),
{
    v.as_i64()
}

/// `serde_json::Value::as_array`: the elements of an array value, `None` for any
/// other.
#[verifier::external_body]
pub(crate) fn elements<'a>(v: &'a serde_json::Value) -> (r: Option<&'a Vec<serde_json::Value>>)
    ensures
        r is Some <==> json_elements(*v) is Some,
        r is Some ==> r->0@ == json_elements(*v)->0,
{
    v.as_array()
}

/// `Clone::clone` of `serde_json::Value`: a value equal to the one given.
#[verifier::external_body]
pub(crate) fn copy(v: &serde_json::Value) -> (r: serde_json::Value)
    ensures
        r == *v,
{
    v.clone()
}

/// `serde_json::Map::new` inside `Value::Object`: an object without members.
#[verifier::external_body]
pub(crate) fn empty_object() -> (r: serde_json::Value)
    ensures
        forall|key: Seq<char>| json_member(r, key) is None,
        json_text(r) is None,
        json_integer(r) is None,
        json_elements(r) is None,
{
    serde_json::Value::Object(serde_json::Map::new())
}

/// The text that `v` holds under `key`, where it holds a string there.
pub open spec fn text_member(v: serde_json::Value, key: Seq<char>) -> Option<Seq<char>> {
    match json_member(v, key) {
        Some(m) => json_text(m),
        None => None,
    }
}

/// The integer that `v` holds under `key`, where it holds one there.
pub open spec fn integer_member(v: serde_json::Value, key: Seq<char>) -> Option<i64> {
    match json_member(v, key) {
        Some(m) => json_integer(m),
        None => None,
    }
}

/// The views of an optional string.
pub open spec fn opt_view(s: Option<String>) -> Option<Seq<char>> {
    match s {
        Some(t) => Some(t@),
        None => None,
    }
}

/// Reads the string member `key` of an object.
pub fn member_text(v: &serde_json::Value, key: &str) -> (r: Option<String>)
    ensures
        opt_view(r) == text_member(*v, key@),
{
    match member(v, key) {
        Some(m) => match text(m) {
            Some(s) => Some(s.to_owned()),
            None => None,
        },
        None => None,
    }
}

/// Reads the integer member `key` of an object.
pub fn member_integer(v: &serde_json::Value, key: &str) -> (r: Option<i64>)
    ensures
        r == integer_member(*v, key@),
{
    match member(v, key) {
        Some(m) => integer(m),
        None => None,
    }
}

/// The texts of those elements that are JSON strings, in order.
pub open spec fn string_elements(elems: Seq<serde_json::Value>) -> Seq<Seq<char>>
    decreases elems.len(),
{
    if elems.len() == 0 {
        Seq::empty()
    } else {
        match json_text(elems.last()) {
            Some(t) => string_elements(elems.drop_last()).push(t),
            None => string_elements(elems.drop_last()),
        }
    }
}

/// Reads the strings among `elems`, leaving out every element that is no string.
pub fn element_texts(elems: &Vec<serde_json::Value>) -> (r: Vec<String>)
    ensures
        texts(r@) == string_elements(elems@),
{
    let mut out: Vec<String> = Vec::new();
    let mut i: usize = 0;
    assert(elems@.take(0) =~= Seq::empty());
    assert(texts(out@) =~= Seq::empty());
    while i < elems.len()
        invariant
            i <= elems.len(),
            texts(out@) == string_elements(elems@.take(i as int)),
        decreases elems.len() - i,
    {
        proof {
            assert(elems@.take(i + 1).drop_last() =~= elems@.take(i as int));
            assert(elems@.take(i + 1).last() == elems@[i as int]);
        }
        match text(&elems[i]) {
            Some(s) => {
                let ghost before = out@;
                out.push(s.to_owned());
                assert(texts(out@) =~= texts(before).push(s@));
            },
            None => {},
        }
        i = i + 1;
    }
    assert(elems@.take(i as int) =~= elems@);
    out
}

} // verus!
