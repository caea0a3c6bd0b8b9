//! JSON values as the runner reads them from an agent's stream.
//!
//! `serde_json` parses each line; the parsed value is handed over as a
//! [`Json`] tree, each node with its compact text as `serde_json` writes
//! it. Field access on the tree is verified here.
use vstd::prelude::*;
use crate::text::str_eq;

verus! {

/// A JSON value with its compact text.
#[derive(Debug)]
pub struct Json {
    /// The value.
    pub value: JsonValue,
    /// The value written as compact JSON (`serde_json::Value::to_string`).
    pub text: String,
}

/// The kinds of JSON value.
#[derive(Debug)]
pub enum JsonValue {
    /// `null`.
    Null,
    /// `true` or `false`.
    Bool(bool),
    /// A number, with its value when it is an unsigned integer that fits
    /// `u64` (`serde_json::Number::as_u64`).
    Num(Option<u64>),
    /// A string.
    Str(String),
    /// An array.
    Array(Vec<Json>),
    /// An object: its members, each key once.
    Object(Vec<(String, Json)>),
}

/// `serde_json`'s parsed value, carried through unread.
#[verifier::external_type_specification]
#[verifier::external_body]
pub struct ExJsonValue(serde_json::Value);

/// The JSON value that a text holds, as `serde_json::from_str` reads it;
/// `None` when the text is not JSON.
pub uninterp spec fn json_of_line(line: Seq<char>) -> Option<Json>;

/// Converts `serde_json`'s value into a [`Json`] tree, one variant for
/// each variant, with each node's compact text. Called only by
/// [`parse_json_line`]; nothing is stated of it on its own.
#[verifier::external_body]
fn json_of_value(v: &serde_json::Value) -> Json {
    let value = match v {
        serde_json::Value::Null => JsonValue::Null,
        serde_json::Value::Bool(b) => JsonValue::Bool(*b),
        serde_json::Value::Number(n) => JsonValue::Num(n.as_u64()),
        serde_json::Value::String(s) => JsonValue::Str(s.clone()),
        serde_json::Value::Array(a) => JsonValue::Array(a.iter().map(json_of_value).collect()),
        serde_json::Value::Object(o) => JsonValue::Object(o.iter().map(|(k, x)| (k.clone(), json_of_value(x))).collect()),
    };
    Json { value, text: v.to_string() }
}

/// Parse one line of JSON.
///
/// Calls `serde_json::from_str::<serde_json::Value>` and converts the value
/// into a [`Json`] tree. The contract names the result (`json_of_line`): the
/// same text always parses to the same value, and text that is not JSON
/// gives `None`.
#[verifier::external_body]
pub(crate) fn parse_json_line(line: &str) -> (r: Option<Json>)
    ensures
        r == json_of_line(line@),
{
    serde_json::from_str::<serde_json::Value>(line).ok().map(|v| json_of_value(&v))
}

/// The value of the first member named `key` among `members`.
pub open spec fn member(members: Seq<(String, Json)>, key: Seq<char>) -> Option<Json>
    decreases members.len(),
{
    if members.len() == 0 {
        None
    } else if members[0].0@ == key {
        Some(members[0].1)
    } else {
        member(members.drop_first(), key)
    }
}

/// The member `key` of an object (`serde_json::Value::get`); `None` for a
/// value that is not an object or has no such member.
pub open spec fn json_get(j: Json, key: Seq<char>) -> Option<Json> {
    match j.value {
        JsonValue::Object(m) => member(m@, key),
        _ => None,
    }
}

/// The member `key` of an object, when it is a string.
pub open spec fn text_field(j: Json, key: Seq<char>) -> Option<String> {
    match json_get(j, key) {
        Some(v) => match v.value {
            JsonValue::Str(s) => Some(s),
            _ => None,
        },
        None => None,
    }
}

/// The member `key` of an object, when it is an unsigned integer fitting
/// `u64`.
pub open spec fn u64_field(j: Json, key: Seq<char>) -> Option<u64> {
    match json_get(j, key) {
        Some(v) => match v.value {
            JsonValue::Num(n) => n,
            _ => None,
        },
        None => None,
    }
}

/// The elements of an array; `None` for any other value.
pub open spec fn json_array(j: Json) -> Option<Seq<Json>> {
    match j.value {
        JsonValue::Array(a) => Some(a@),
        _ => None,
    }
}

/// The member `key` of an object.
pub fn get<'a>(j: &'a Json, key: &str) -> (r: Option<&'a Json>)
    ensures
        match r {
            Some(v) => json_get(*j, key@) == Some(*v),
            None => json_get(*j, key@) is None,
        },
{
    match &j.value {
        JsonValue::Object(m) => {
            let mut i: usize = 0;
            assert(m@.skip(0) =~= m@);
            assert(json_get(*j, key@) == member(m@, key@));
            while i < m.len()
                invariant
                    i <= m@.len(),
                    member(m@, key@) == member(m@.skip(i as int), key@),
                    json_get(*j, key@) == member(m@, key@),
                decreases m.len() - i,
            {
                assert(m@.skip(i as int).drop_first() =~= m@.skip(i + 1));
                assert(m@.skip(i as int)[0] == m@[i as int]);
                if str_eq(m[i].0.as_str(), key) {
                    assert(member(m@.skip(i as int), key@) == Some(m@[i as int].1));
                    let found = &m[i].1;
                    assert(*found == m@[i as int].1);
                    return Some(found);
                }
                i = i + 1;
            }
            assert(m@.skip(i as int).len() == 0);
            None
        },
        _ => None,
    }
}

/// The member `key` of an object, when it is a string.
pub fn get_text(j: &Json, key: &str) -> (r: Option<String>)
    ensures
        r == text_field(*j, key@),
{
    match get(j, key) {
        Some(v) => match &v.value {
            JsonValue::Str(s) => Some(s.clone()),
            _ => None,
        },
        None => None,
    }
}

/// The member `key` of an object, when it is an unsigned integer.
pub fn get_u64(j: &Json, key: &str) -> (r: Option<u64>)
    ensures
        r == u64_field(*j, key@),
{
    match get(j, key) {
        Some(v) => match &v.value {
            JsonValue::Num(n) => *n,
            _ => None,
        },
        None => None,
    }
}

} // verus!
