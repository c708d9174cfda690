//! A generic JSON value, modelled so that the logic that walks it can be
//! verified: numbers are carried as their canonical decimal text (the only
//! thing the consumers read of them), objects as key/value lists.

use vstd::prelude::*;

verus! {

/// A JSON value: null, boolean, number, string, array or object.
///
/// A number holds its canonical textual representation; an object holds its
/// entries in order, with distinct keys when it comes from a parsed document.
pub enum JsonValue {
    Null,
    Bool(bool),
    Num(String),
    Str(String),
    Arr(Vec<JsonValue>),
    Obj(Vec<(String, JsonValue)>),
}

/// The size of a value: every node counts one.  Serves as the decreasing
/// measure for the tree walks.
pub open spec fn json_size(v: JsonValue) -> nat
    decreases v,
{
    match v {
        JsonValue::Arr(items) => 1 + json_list_size(items@),
        JsonValue::Obj(fields) => 1 + json_fields_size(fields@),
        _ => 1,
    }
}

/// The summed size of a sequence of values.
pub open spec fn json_list_size(s: Seq<JsonValue>) -> nat
    decreases s,
{
    if s.len() == 0 {
        0
    } else {
        json_size(s[0]) + json_list_size(s.drop_first())
    }
}

/// The summed size of an object's entry values.
pub open spec fn json_fields_size(s: Seq<(String, JsonValue)>) -> nat
    decreases s,
{
    if s.len() == 0 {
        0
    } else {
        json_size(s[0].1) + json_fields_size(s.drop_first())
    }
}

/// The first entry under `key`, if the object has one.
pub open spec fn spec_obj_get(fields: Seq<(String, JsonValue)>, key: Seq<char>) -> Option<
    JsonValue,
>
    decreases fields.len(),
{
    if fields.len() == 0 {
        None
    } else if fields[0].0@ == key {
        Some(fields[0].1)
    } else {
        spec_obj_get(fields.drop_first(), key)
    }
}

/// A value found in an object weighs no more than the object's entries.
pub proof fn lemma_obj_get_size(fields: Seq<(String, JsonValue)>, key: Seq<char>)
    ensures
        spec_obj_get(fields, key) matches Some(v) ==> json_size(v) <= json_fields_size(fields),
    decreases fields.len(),
{
    if fields.len() > 0 && fields[0].0@ != key {
        lemma_obj_get_size(fields.drop_first(), key);
    }
}

#[verifier::external_type_specification]
#[verifier::external_body]
pub struct ExSerdeValue(serde_json::Value);

/// What parsing a JSON document yields: `None` for malformed text, else the
/// parsed value with numbers in their canonical decimal text.
pub uninterp spec fn json_of(s: Seq<char>) -> Option<JsonValue>;

/// Relies on `serde_json::from_str::<serde_json::Value>`: it parses JSON
/// text, failing exactly on malformed documents; the result is a function of
/// the text alone, named [`json_of`].
#[verifier::external_body]
pub(crate) fn parse_json(s: &str) -> (r: Option<JsonValue>)
    ensures
        r == json_of(s@),
{
    match serde_json::from_str::<serde_json::Value>(s) {
        Ok(v) => Some(json_value_of(&v)),
        Err(_) => None,
    }
}

/// Relies on `serde_json::Value`'s variants and `serde_json::Number`'s
/// `Display`: each variant is moved across one arm at a time, a number as
/// its canonical decimal text.
#[verifier::external_body]
fn json_value_of(v: &serde_json::Value) -> JsonValue {
    match v {
        serde_json::Value::Null => JsonValue::Null,
        serde_json::Value::Bool(b) => JsonValue::Bool(*b),
        serde_json::Value::Number(n) => JsonValue::Num(n.to_string()),
        serde_json::Value::String(s) => JsonValue::Str(s.clone()),
        serde_json::Value::Array(items) => JsonValue::Arr(
            items.iter().map(json_value_of).collect(),
        ),
        serde_json::Value::Object(map) => JsonValue::Obj(
            map.iter().map(|(k, f)| (k.clone(), json_value_of(f))).collect(),
        ),
    }
}

/// Character-wise string comparison.
pub fn str_eq(a: &str, b: &str) -> (r: bool)
    ensures
        r == (a@ == b@),
{
    let na = a.unicode_len();
    let nb = b.unicode_len();
    if na != nb {
        return false;
    }
    let mut i: usize = 0;
    while i < na
        invariant
            i <= na,
            na == a@.len(),
            na == b@.len(),
            forall|j: int| 0 <= j < i ==> a@[j] == b@[j],
        decreases na - i,
    {
        if a.get_char(i) != b.get_char(i) {
            return false;
        }
        i = i + 1;
    }
    proof {
        assert(a@ =~= b@);
    }
    true
}

/// Looks a key up in an object's entry list: the first match, as
/// [`spec_obj_get`] says.
pub fn obj_get<'a>(fields: &'a Vec<(String, JsonValue)>, key: &str) -> (r: Option<&'a JsonValue>)
    ensures
        match r {
            Some(v) => spec_obj_get(fields@, key@) == Some(*v),
            None => spec_obj_get(fields@, key@) is None,
        },
{
    let n = fields.len();
    proof {
        assert(fields@.skip(0) =~= fields@);
    }
    let mut i: usize = 0;
    while i < n
        invariant
            i <= n,
            n == fields@.len(),
            spec_obj_get(fields@.skip(i as int), key@) == spec_obj_get(fields@, key@),
        decreases n - i,
    {
        proof {
            assert(fields@.skip(i as int)[0] == fields@[i as int]);
            assert(fields@.skip(i as int).drop_first() =~= fields@.skip(i + 1));
        }
        if str_eq(fields[i].0.as_str(), key) {
            return Some(&fields[i].1);
        }
        i = i + 1;
    }
    None
}

} // verus!
