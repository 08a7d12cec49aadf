//! JSON documents as the registries answer them, and reading fields out of
//! them the way `serde_json::Value`'s indexing and `as_str` do.
use vstd::prelude::*;

use crate::text::str_eq;

verus! {

/// A JSON value. Numbers keep their textual form; object members keep the
/// order in which the parsed document yields them.
pub enum JsonValue {
    Null,
    Bool(bool),
    Number(String),
    Str(String),
    Array(Vec<JsonValue>),
    Object(Vec<(String, JsonValue)>),
}

/// `serde_json::Value`, declared so that the conversion below can name it.
#[verifier::external_type_specification]
#[verifier::external_body]
pub struct ExJsonValue(serde_json::Value);

/// What `serde_json::from_str::<serde_json::Value>` makes of a text,
/// converted variant by variant into a `JsonValue` (numbers by their
/// `to_string`, object members in the order `serde_json::Map` iterates
/// them); the parser's message where the text is no JSON.
pub uninterp spec fn json_document(text: Seq<char>) -> Result<JsonValue, Seq<char>>;

/// Converts a parsed `serde_json::Value`: one arm per variant.
#[verifier::external_body]
fn json_tree(v: &serde_json::Value) -> JsonValue {
    match v {
        serde_json::Value::Null => JsonValue::Null,
        serde_json::Value::Bool(b) => JsonValue::Bool(*b),
        serde_json::Value::Number(n) => JsonValue::Number(n.to_string()),
        serde_json::Value::String(s) => JsonValue::Str(s.clone()),
        serde_json::Value::Array(a) => JsonValue::Array(a.iter().map(json_tree).collect()),
        serde_json::Value::Object(m) => JsonValue::Object(m.iter().map(|(k, v)| (k.clone(), json_tree(v))).collect()),
    }
}

/// Calls `serde_json::from_str::<serde_json::Value>` and converts the
/// document; its error becomes its message.
#[verifier::external_body]
pub(crate) fn parse_json(text: &str) -> (res: Result<JsonValue, String>)
    ensures
        match res {
            Ok(v) => json_document(text@) == Ok::<JsonValue, Seq<char>>(v),
            Err(e) => json_document(text@) == Err::<JsonValue, Seq<char>>(e@),
        },
{
    match serde_json::from_str::<serde_json::Value>(text) {
        Ok(v) => Ok(json_tree(&v)),
        Err(e) => Err(e.to_string()),
    }
}

/// The JSON document a text holds (see `json_document`), or the parser's
/// message.
pub fn json_from_text(text: &str) -> (res: Result<JsonValue, String>)
    ensures
        match res {
            Ok(v) => json_document(text@) == Ok::<JsonValue, Seq<char>>(v),
            Err(e) => json_document(text@) == Err::<JsonValue, Seq<char>>(e@),
        },
{
    parse_json(text)
}

/// The member `key` of an object's members (the first, should a key recur).
pub open spec fn json_lookup(members: Seq<(String, JsonValue)>, key: Seq<char>) -> Option<JsonValue>
    decreases members.len(),
{
    if members.len() == 0 {
        None
    } else if members[0].0@ == key {
        Some(members[0].1)
    } else {
        json_lookup(members.drop_first(), key)
    }
}

/// `value[key]`: the member of an object; `None` where `serde_json` yields `Null`
/// for a missing member or a value that is no object.
pub open spec fn json_field(v: Option<JsonValue>, key: Seq<char>) -> Option<JsonValue> {
    match v {
        Some(JsonValue::Object(members)) => json_lookup(members@, key),
        _ => None,
    }
}

/// `value[i]`: the element of an array, if there is one.
pub open spec fn json_item(v: Option<JsonValue>, i: int) -> Option<JsonValue> {
    match v {
        Some(JsonValue::Array(items)) => if 0 <= i < items@.len() {
            Some(items@[i])
        } else {
            None
        },
        _ => None,
    }
}

/// `value.as_str()`, as characters.
pub open spec fn json_str(v: Option<JsonValue>) -> Option<Seq<char>> {
    match v {
        Some(JsonValue::Str(s)) => Some(s@),
        _ => None,
    }
}

/// `value.as_array()`.
pub open spec fn json_array(v: Option<JsonValue>) -> Option<Seq<JsonValue>> {
    match v {
        Some(JsonValue::Array(items)) => Some(items@),
        _ => None,
    }
}

/// `value.as_object()`.
pub open spec fn json_object(v: Option<JsonValue>) -> Option<Seq<(String, JsonValue)>> {
    match v {
        Some(JsonValue::Object(members)) => Some(members@),
        _ => None,
    }
}

/// A borrowed optional value, as a value.
pub open spec fn opt(v: Option<&JsonValue>) -> Option<JsonValue> {
    match v {
        Some(x) => Some(*x),
        None => None,
    }
}

/// `value[key]`.
pub fn field<'a>(v: Option<&'a JsonValue>, key: &str) -> (res: Option<&'a JsonValue>)
    ensures
        match res {
            Some(r) => json_field(opt(v), key@) == Some(*r),
            None => json_field(opt(v), key@) is None,
        },
{
    match v {
        Some(JsonValue::Object(members)) => {
            let mut i: usize = 0;
            assert(members@.skip(0) =~= members@);
            while i < members.len()
                invariant
                    i <= members@.len(),
                    opt(v) == Some(JsonValue::Object(*members)),
                    json_lookup(members@, key@) == json_lookup(members@.skip(i as int), key@),
                decreases members.len() - i,
            {
                assert(members@.skip(i as int).drop_first() =~= members@.skip(i + 1));
                assert(members@.skip(i as int)[0] == members@[i as int]);
                if str_eq(members[i].0.as_str(), key) {
                    return Some(&members[i].1);
                }
                i = i + 1;
            }
            None
        },
        _ => None,
    }
}

/// `value[i]`.
pub fn item<'a>(v: Option<&'a JsonValue>, i: usize) -> (res: Option<&'a JsonValue>)
    ensures
        match res {
            Some(r) => json_item(opt(v), i as int) == Some(*r),
            None => json_item(opt(v), i as int) is None,
        },
{
    match v {
        Some(JsonValue::Array(items)) => if i < items.len() {
            Some(&items[i])
        } else {
            None
        },
        _ => None,
    }
}

/// `value.as_str()`.
pub fn as_str<'a>(v: Option<&'a JsonValue>) -> (res: Option<&'a String>)
    ensures
        res.deep_view() == json_str(opt(v)),
{
    match v {
        Some(JsonValue::Str(s)) => Some(s),
        _ => None,
    }
}

/// `value.as_str().unwrap_or(default)`, as an owned string.
pub fn str_or(v: Option<&JsonValue>, default: &str) -> (res: String)
    ensures
        res@ == match json_str(opt(v)) {
            Some(s) => s,
            None => default@,
        },
{
    match as_str(v) {
        Some(s) => s.clone(),
        None => default.to_owned(),
    }
}

} // verus!
