//! A generic JSON value tree, and the trusted boundary to the JSON parser.
//!
//! The chat export format is loosely typed, so the decoder navigates a
//! generic value tree by field names instead of binding a fixed schema.
//! [`JsonValue`] is that tree; its numbers keep exactly what the decoder
//! can read from them (a signed integer, an integer above `i64::MAX`, or
//! some other number).  The text-to-tree step is the only part done by an
//! outside crate; everything after it is verified against [`spec_get`]
//! and its companions.

use serde_json::Value;
use vstd::prelude::*;
use vstd::string::StrSliceExecFns;

verus! {

/// One node of a decoded JSON document.
pub enum JsonValue {
    Null,
    Bool(bool),
    /// A number that fits `i64`.
    Int(i64),
    /// An integer above `i64::MAX`.
    UInt(u64),
    /// A number that is neither: the decoder reads nothing out of it.
    OtherNumber,
    Str(Vec<char>),
    Arr(Vec<JsonValue>),
    Obj(Vec<(Vec<char>, JsonValue)>),
}

/// The value of the first field named `key`, if any.
pub open spec fn lookup_field(fields: Seq<(Vec<char>, JsonValue)>, key: Seq<char>) -> Option<
    JsonValue,
>
    decreases fields.len(),
{
    if fields.len() == 0 {
        None
    } else if fields[0].0@ == key {
        Some(fields[0].1)
    } else {
        lookup_field(fields.drop_first(), key)
    }
}

/// The field `key` of `v`, when `v` is an object that has it.
pub open spec fn spec_get(v: JsonValue, key: Seq<char>) -> Option<JsonValue> {
    match v {
        JsonValue::Obj(fields) => lookup_field(fields@, key),
        _ => None,
    }
}

/// Navigation two field names deep.
pub open spec fn spec_get2(v: JsonValue, k1: Seq<char>, k2: Seq<char>) -> Option<JsonValue> {
    match spec_get(v, k1) {
        Some(w) => spec_get(w, k2),
        None => None,
    }
}

/// Navigation three field names deep.
pub open spec fn spec_get3(v: JsonValue, k1: Seq<char>, k2: Seq<char>, k3: Seq<char>) -> Option<
    JsonValue,
> {
    match spec_get2(v, k1, k2) {
        Some(w) => spec_get(w, k3),
        None => None,
    }
}

/// The characters of the string field `k` of `v`, if it is a string.
pub open spec fn spec_str(v: JsonValue, k: Seq<char>) -> Option<Seq<char>> {
    match spec_get(v, k) {
        Some(JsonValue::Str(s)) => Some(s@),
        _ => None,
    }
}

/// Like [`spec_str`], two field names deep.
pub open spec fn spec_str2(v: JsonValue, k1: Seq<char>, k2: Seq<char>) -> Option<Seq<char>> {
    match spec_get2(v, k1, k2) {
        Some(JsonValue::Str(s)) => Some(s@),
        _ => None,
    }
}

/// Like [`spec_str`], three field names deep.
pub open spec fn spec_str3(v: JsonValue, k1: Seq<char>, k2: Seq<char>, k3: Seq<char>) -> Option<
    Seq<char>,
> {
    match spec_get3(v, k1, k2, k3) {
        Some(JsonValue::Str(s)) => Some(s@),
        _ => None,
    }
}

/// What `serde_json` reads a number as when asked for an `i64`.
pub open spec fn spec_as_i64(v: JsonValue) -> Option<i64> {
    match v {
        JsonValue::Int(i) => Some(i),
        _ => None,
    }
}

/// What `serde_json` reads a number as when asked for a `u64`.
pub open spec fn spec_as_u64(v: JsonValue) -> Option<u64> {
    match v {
        JsonValue::Int(i) => if i >= 0 {
            Some(i as u64)
        } else {
            None
        },
        JsonValue::UInt(u) => Some(u),
        _ => None,
    }
}

/// Whether the characters of `v` spell exactly the string `s`.
pub fn chars_eq_str(v: &Vec<char>, s: &str) -> (r: bool)
    ensures
        r == (v@ == s@),
{
    let m = s.unicode_len();
    if v.len() != m {
        return false;
    }
    let mut i: usize = 0;
    while i < m
        invariant
            i <= m,
            m == s@.len(),
            m == v@.len(),
            forall|j: int| 0 <= j < i ==> v@[j] == s@[j],
        decreases m - i,
    {
        if v[i] != s.get_char(i) {
            proof {
                assert(v@[i as int] != s@[i as int]);
            }
            return false;
        }
        i += 1;
    }
    proof {
        assert(v@ =~= s@);
    }
    true
}

impl JsonValue {
    /// The field `key` of this value, when it is an object that has it.
    pub fn get<'a>(&'a self, key: &str) -> (r: Option<&'a JsonValue>)
        ensures
            match r {
                Some(w) => spec_get(*self, key@) == Some(*w),
                None => spec_get(*self, key@) is None,
            },
    {
        match self {
            JsonValue::Obj(fields) => {
                let ghost all = fields@;
                let mut i: usize = 0;
                proof {
                    assert(all.skip(0) =~= all);
                    assert(spec_get(*self, key@) == lookup_field(all, key@));
                }
                while i < fields.len()
                    invariant
                        i <= fields.len(),
                        all == fields@,
                        spec_get(*self, key@) == lookup_field(all, key@),
                        lookup_field(all, key@) == lookup_field(all.skip(i as int), key@),
                    decreases fields.len() - i,
                {
                    let pair = &fields[i];
                    if chars_eq_str(&pair.0, key) {
                        proof {
                            assert(all.skip(i as int)[0] == all[i as int]);
                            assert(lookup_field(all.skip(i as int), key@) == Some(
                                all[i as int].1,
                            ));
                        }
                        return Some(&pair.1);
                    }
                    proof {
                        assert(all.skip(i as int)[0] == all[i as int]);
                        assert(all.skip(i as int).drop_first() =~= all.skip(i + 1));
                    }
                    i += 1;
                }
                proof {
                    assert(all.skip(i as int) =~= Seq::<(Vec<char>, JsonValue)>::empty());
                }
                None
            },
            _ => None,
        }
    }
}

/// The value two field names deep, if both steps find their field.
pub fn get2<'a>(v: &'a JsonValue, k1: &str, k2: &str) -> (r: Option<&'a JsonValue>)
    ensures
        match r {
            Some(w) => spec_get2(*v, k1@, k2@) == Some(*w),
            None => spec_get2(*v, k1@, k2@) is None,
        },
{
    match v.get(k1) {
        Some(w) => w.get(k2),
        None => None,
    }
}

/// The string field `k` of `v`, if it is there and is a string.
pub fn get_str1<'a>(v: &'a JsonValue, k: &str) -> (r: Option<&'a Vec<char>>)
    ensures
        match r {
            Some(s) => spec_str(*v, k@) == Some(s@),
            None => spec_str(*v, k@) is None,
        },
{
    match v.get(k) {
        Some(JsonValue::Str(s)) => Some(s),
        _ => None,
    }
}

/// Like [`get_str1`], two field names deep.
pub fn get_str2<'a>(v: &'a JsonValue, k1: &str, k2: &str) -> (r: Option<&'a Vec<char>>)
    ensures
        match r {
            Some(s) => spec_str2(*v, k1@, k2@) == Some(s@),
            None => spec_str2(*v, k1@, k2@) is None,
        },
{
    match get2(v, k1, k2) {
        Some(JsonValue::Str(s)) => Some(s),
        _ => None,
    }
}

/// Like [`get_str1`], three field names deep.
pub fn get_str3<'a>(v: &'a JsonValue, k1: &str, k2: &str, k3: &str) -> (r: Option<&'a Vec<char>>)
    ensures
        match r {
            Some(s) => spec_str3(*v, k1@, k2@, k3@) == Some(s@),
            None => spec_str3(*v, k1@, k2@, k3@) is None,
        },
{
    match get2(v, k1, k2) {
        Some(w) => match w.get(k3) {
            Some(JsonValue::Str(s)) => Some(s),
            _ => None,
        },
        _ => None,
    }
}

#[verifier::external_type_specification]
#[verifier::external_body]
pub struct ExSerdeJsonError(serde_json::Error);

#[verifier::external_type_specification]
#[verifier::external_body]
pub struct ExSerdeJsonValue(serde_json::Value);

#[verifier::external_type_specification]
#[verifier::external_body]
pub struct ExSerdeJsonNumber(serde_json::Number);

/// The JSON document that the text `s` denotes, or `None` when `s` is not
/// well-formed JSON.  This names what `serde_json::from_str` returns: the
/// parse depends on the text alone, so two parses of equal text give the
/// same tree.
pub uninterp spec fn parsed_json(s: Seq<char>) -> Option<JsonValue>;

/// Relies on `serde_json::from_str::<serde_json::Value>`: parsing either
/// yields the value tree that the text denotes or fails on text that is
/// not well-formed JSON, and depends on nothing but the text.
#[verifier::external_body]
pub(crate) fn parse_json(s: &str) -> (r: Result<JsonValue, serde_json::Error>)
    ensures
        match r {
            Ok(v) => parsed_json(s@) == Some(v),
            Err(_) => parsed_json(s@) is None,
        },
{
    match serde_json::from_str::<Value>(s) {
        Ok(v) => Ok(json_value_of(&v)),
        Err(e) => Err(e),
    }
}

/// Carries a `serde_json::Value` over into the library's value tree, one
/// variant for one variant; object fields keep the order the parser holds
/// them in.  Trusted: Verus does not look inside `serde_json::Value`.
#[verifier::external_body]
fn json_value_of(v: &Value) -> JsonValue {
    match v {
        Value::Null => JsonValue::Null,
        Value::Bool(b) => JsonValue::Bool(*b),
        Value::Number(n) => num_value_of(n),
        Value::String(s) => JsonValue::Str(s.chars().collect()),
        Value::Array(a) => JsonValue::Arr(a.iter().map(json_value_of).collect()),
        Value::Object(m) => JsonValue::Obj(
            m.iter().map(|(k, w)| (k.chars().collect(), json_value_of(w))).collect(),
        ),
    }
}

/// Reads one `serde_json::Number` the way the decoder can use it, going
/// by `as_i64` and `as_u64`.  Trusted: Verus does not look inside the
/// number.
#[verifier::external_body]
fn num_value_of(n: &serde_json::Number) -> JsonValue {
    match (n.as_i64(), n.as_u64()) {
        (Some(i), _) => JsonValue::Int(i),
        (None, Some(u)) => JsonValue::UInt(u),
        (None, None) => JsonValue::OtherNumber,
    }
}

/// Relies on `serde::de::Error::custom` to build the `serde_json::Error`
/// value reported when the root object lacks its required fields.
#[verifier::external_body]
pub(crate) fn root_shape_error() -> serde_json::Error {
    <serde_json::Error as serde::de::Error>::custom(
        "missing or mistyped responderUsername or requests at the document root",
    )
}

} // verus!
