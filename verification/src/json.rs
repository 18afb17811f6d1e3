//! JSON values as the ISF header logic reads them, parsed by serde_json. A
//! number is held as the bits of the double serde_json reads it as.
use vstd::prelude::*;
use crate::text::{chars_of, chars_eq};

verus! {

/// A JSON number, as the bits of its value as a double (`Value::as_f64`).
#[derive(Clone, Copy, Debug, PartialEq, Eq, Structural)]
pub struct JsonNumber {
    pub bits: u64,
}

/// A JSON value. Object members stand in the order serde_json's map gives
/// them: sorted by key, each key once.
#[derive(Debug)]
pub enum Json {
    Null,
    Bool(bool),
    Number(JsonNumber),
    Str(String),
    Array(Vec<Json>),
    Object(Vec<(String, Json)>),
}

/// The value of the first member named `key`.
pub open spec fn member(entries: Seq<(String, Json)>, key: Seq<char>) -> Option<Json>
    decreases entries.len(),
{
    if entries.len() == 0 {
        None
    } else if entries[0].0@ == key {
        Some(entries[0].1)
    } else {
        member(entries.drop_first(), key)
    }
}

/// `Value::get(key)`: the member `key` of an object, `None` for anything else.
pub open spec fn get(v: Json, key: Seq<char>) -> Option<Json> {
    match v {
        Json::Object(e) => member(e@, key),
        _ => None,
    }
}

/// `Value::as_str`
pub open spec fn as_str(v: Option<Json>) -> Option<Seq<char>> {
    match v {
        Some(Json::Str(s)) => Some(s@),
        _ => None,
    }
}

/// `Value::as_f64`, as the readings of the number.
pub open spec fn as_number(v: Option<Json>) -> Option<JsonNumber> {
    match v {
        Some(Json::Number(n)) => Some(n),
        _ => None,
    }
}

/// `Value::as_array`
pub open spec fn as_array(v: Option<Json>) -> Option<Seq<Json>> {
    match v {
        Some(Json::Array(a)) => Some(a@),
        _ => None,
    }
}

/// The member `key` of `v`, when `v` is an object that has one.
#[verifier::loop_isolation(false)]
pub fn get_member<'a>(v: &'a Json, key: &str) -> (r: Option<&'a Json>)
    ensures
        match get(*v, key@) {
            Some(j) => r matches Some(x) && *x == j,
            None => r is None,
        },
{
    match v {
        Json::Object(entries) => {
            let k = chars_of(key);
            let mut i: usize = 0;
            assert(entries@.skip(0) =~= entries@);
            while i < entries.len()
                invariant
                    i <= entries.len(),
                    k@ == key@,
                    member(entries@, key@) == member(entries@.skip(i as int), key@),
                decreases entries.len() - i,
            {
                let name = chars_of(entries[i].0.as_str());
                assert(entries@.skip(i as int).drop_first() =~= entries@.skip(i + 1));
                if chars_eq(&name, &k) {
                    assert(entries@.skip(i as int)[0] == entries@[i as int]);
                    assert(entries@[i as int].0@ == key@);
                    assert(member(entries@.skip(i as int), key@) == Some(entries@[i as int].1));
                    return Some(&entries[i].1);
                }
                i = i + 1;
            }
            None
        },
        _ => None,
    }
}

/// The string, when `v` is a JSON string.
pub fn str_of(v: Option<&Json>) -> (r: Option<&String>)
    ensures
        match v {
            Some(j) => match as_str(Some(*j)) {
                Some(s) => r matches Some(x) && x@ == s,
                None => r is None,
            },
            None => r is None,
        },
{
    match v {
        Some(Json::Str(s)) => Some(s),
        _ => None,
    }
}

/// The number, when `v` is a JSON number.
pub fn number_of(v: Option<&Json>) -> (r: Option<JsonNumber>)
    ensures
        match v {
            Some(j) => r == as_number(Some(*j)),
            None => r is None,
        },
{
    match v {
        Some(Json::Number(n)) => Some(*n),
        _ => None,
    }
}


// ---------------------------------------------------------------- parsing
#[verifier::external_type_specification]
#[verifier::external_body]
pub struct ExJsonValue(serde_json::Value);

/// What `serde_json::from_str::<serde_json::Value>` makes of `text`: the
/// value, converted member by member (objects in the order of serde_json's
/// map, numbers by `as_f64`), or the error's message.
pub uninterp spec fn parsed_json(text: Seq<char>) -> Result<Json, Seq<char>>;

/// Converts a parsed `serde_json::Value`: the conversion of `parse_json`'s
/// result, member for member.
#[verifier::external_body]
fn json_of_value(v: &serde_json::Value) -> Json {
    match v {
        serde_json::Value::Null => Json::Null,
        serde_json::Value::Bool(b) => Json::Bool(*b),
        serde_json::Value::Number(n) => Json::Number(JsonNumber {
            bits: match n.as_f64() {
                Some(x) => x.to_bits(),
                None => 0,
            },
        }),
        serde_json::Value::String(s) => Json::Str(s.clone()),
        serde_json::Value::Array(a) => Json::Array(a.iter().map(json_of_value).collect()),
        serde_json::Value::Object(m) => Json::Object(m.iter().map(|(k, x)| (k.clone(), json_of_value(x))).collect()),
    }
}

/// `serde_json::from_str::<serde_json::Value>`: parses JSON text. The
/// contract names the result `parsed_json(text)`: it is a function of the
/// text alone, and nothing more of it is stated here.
#[verifier::external_body]
pub(crate) fn parse_json(text: &str) -> (r: Result<Json, String>)
    ensures
        match parsed_json(text@) {
            Ok(j) => r == Ok::<Json, String>(j),
            Err(m) => r matches Err(e) && e@ == m,
        },
{
    match serde_json::from_str::<serde_json::Value>(text) {
        Ok(v) => Ok(json_of_value(&v)),
        Err(e) => Err(e.to_string()),
    }
}

} // verus!
