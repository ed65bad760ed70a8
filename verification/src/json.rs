//! JSON values, as the inputs of an environment hold them. `serde_json`
//! writes and compares them.

use vstd::prelude::*;
use crate::yaml::YamlValue;

verus! {

/// A JSON value. A number is held as the text `serde_json` writes for it.
pub enum JsonValue {
    Null,
    Bool(bool),
    Number(String),
    Str(String),
    Array(Vec<JsonValue>),
    Object(Vec<(String, JsonValue)>),
}

#[verifier::external_type_specification]
#[verifier::external_body]
pub struct ExJsonValue(serde_json::Value);

/// Turns the library's value into a `serde_json::Value`, variant by
/// variant; a number's text is read back as a number.
#[verifier::external_body]
fn json_to_value(v: &JsonValue) -> serde_json::Value {
    match v {
        JsonValue::Null => serde_json::Value::Null,
        JsonValue::Bool(b) => serde_json::Value::Bool(*b),
        JsonValue::Number(n) => serde_json::from_str(n).unwrap_or(serde_json::Value::String(n.clone())),
        JsonValue::Str(s) => serde_json::Value::String(s.clone()),
        JsonValue::Array(a) => serde_json::Value::Array(a.iter().map(json_to_value).collect()),
        JsonValue::Object(o) => serde_json::Value::Object(o.iter().map(|(k, v)| (k.clone(), json_to_value(v))).collect()),
    }
}

/// Turns a `serde_json::Value` into the library's value, variant by
/// variant; a number is kept as the text `serde_json` writes for it.
#[verifier::external_body]
fn value_to_json(v: &serde_json::Value) -> JsonValue {
    match v {
        serde_json::Value::Null => JsonValue::Null,
        serde_json::Value::Bool(b) => JsonValue::Bool(*b),
        serde_json::Value::Number(n) => JsonValue::Number(n.to_string()),
        serde_json::Value::String(s) => JsonValue::Str(s.clone()),
        serde_json::Value::Array(a) => JsonValue::Array(a.iter().map(value_to_json).collect()),
        serde_json::Value::Object(o) => JsonValue::Object(o.iter().map(|(k, v)| (k.clone(), value_to_json(v))).collect()),
    }
}

/// The value that `serde_json::from_str` reads from `text`, if it reads one.
pub uninterp spec fn json_read(text: Seq<char>) -> Option<JsonValue>;

/// `serde_json::from_str::<serde_json::Value>`: the JSON value written in
/// `text`, or nothing where `text` is not JSON. The contract names the
/// result and states nothing of the JSON grammar.
#[verifier::external_body]
pub(crate) fn parse_json(text: &str) -> (r: Option<JsonValue>)
    ensures
        r == json_read(text@),
{
    match serde_json::from_str::<serde_json::Value>(text) {
        Ok(v) => Some(value_to_json(&v)),
        Err(_) => None,
    }
}

/// The value that `serde_yaml::from_str` reads from `text` as a
/// `serde_json::Value`, if it reads one.
pub uninterp spec fn yaml_json_read(text: Seq<char>) -> Option<JsonValue>;

/// `serde_yaml::from_str::<serde_json::Value>`: the YAML document in `text`
/// read as a JSON value, or nothing where it cannot be. The contract names
/// the result and states nothing of the YAML grammar.
#[verifier::external_body]
pub(crate) fn parse_yaml_as_json(text: &str) -> (r: Option<JsonValue>)
    ensures
        r == yaml_json_read(text@),
{
    match serde_yaml::from_str::<serde_json::Value>(text) {
        Ok(v) => Some(value_to_json(&v)),
        Err(_) => None,
    }
}

/// The compact text that `serde_json` writes for `v` (its `Display`).
pub uninterp spec fn json_text(v: JsonValue) -> Seq<char>;

/// Writes `v` as compact JSON text: `serde_json::Value`'s `to_string`.
#[verifier::external_body]
pub(crate) fn json_to_string(v: &JsonValue) -> (r: String)
    ensures
        r@ == json_text(*v),
{
    json_to_value(v).to_string()
}

/// Whether `serde_json` holds `a` and `b` to be the same value (its `==`
/// on `serde_json::Value`).
pub uninterp spec fn json_equal(a: JsonValue, b: JsonValue) -> bool;

/// Compares two values with `==` on `serde_json::Value`. The type derives
/// `Eq`, so a value equals itself.
#[verifier::external_body]
pub(crate) fn json_values_equal(a: &JsonValue, b: &JsonValue) -> (r: bool)
    ensures
        r == json_equal(*a, *b),
        *a == *b ==> r,
{
    json_to_value(a) == json_to_value(b)
}


/// Whether the YAML value `y` reads as the JSON value `j`: scalars as
/// scalars, sequences as arrays, mappings with string keys as objects.
pub open spec fn json_of(y: YamlValue, j: JsonValue) -> bool
    decreases y,
{
    match (y, j) {
        (YamlValue::Null, JsonValue::Null) => true,
        (YamlValue::Bool(a), JsonValue::Bool(b)) => a == b,
        (YamlValue::Number(a), JsonValue::Number(b)) => a@ == b@,
        (YamlValue::Str(a), JsonValue::Str(b)) => a@ == b@,
        (YamlValue::Sequence(xs), JsonValue::Array(ys)) => xs@.len() == ys@.len() && forall|i: int|
            0 <= i < xs@.len() ==> json_of(#[trigger] xs@[i], ys@[i]),
        (YamlValue::Mapping(ms), JsonValue::Object(os)) => ms@.len() == os@.len() && forall|i: int|
            0 <= i < ms@.len() ==> ((#[trigger] ms@[i]).0 matches YamlValue::Str(k) && k@ == os@[i].0@
                && json_of(ms@[i].1, os@[i].1)),
        _ => false,
    }
}

/// Whether the YAML value `y` reads as a JSON value: no tags, and only
/// strings as mapping keys.
pub open spec fn json_readable(y: YamlValue) -> bool
    decreases y,
{
    match y {
        YamlValue::Tagged(_, _) => false,
        YamlValue::Sequence(xs) => forall|i: int| 0 <= i < xs@.len() ==> json_readable(#[trigger] xs@[i]),
        YamlValue::Mapping(ms) => forall|i: int|
            0 <= i < ms@.len() ==> (#[trigger] ms@[i]).0 is Str && json_readable(ms@[i].1),
        _ => true,
    }
}

/// A YAML value that reads as a JSON value can be read as one.
pub proof fn lemma_json_of_readable(y: YamlValue, j: JsonValue)
    requires
        json_of(y, j),
    ensures
        json_readable(y),
    decreases y,
{
    match (y, j) {
        (YamlValue::Sequence(xs), JsonValue::Array(ys)) => {
            assert forall|i: int| 0 <= i < xs@.len() implies json_readable(#[trigger] xs@[i]) by {
                assert(json_of(xs@[i], ys@[i]));
                assert(decreases_to!(y => xs@[i]));
                lemma_json_of_readable(xs@[i], ys@[i]);
            }
        },
        (YamlValue::Mapping(ms), JsonValue::Object(os)) => {
            assert forall|i: int| 0 <= i < ms@.len() implies (#[trigger] ms@[i]).0 is Str && json_readable(ms@[i].1) by {
                assert(json_of(ms@[i].1, os@[i].1));
                assert(decreases_to!(y => ms@[i].1));
                lemma_json_of_readable(ms@[i].1, os@[i].1);
            }
        },
        _ => {},
    }
}

/// The JSON value that the YAML value `y` reads as, if it reads as one.
pub fn json_from_yaml(y: &YamlValue) -> (r: Option<JsonValue>)
    ensures
        r matches Some(j) ==> json_of(*y, j),
        r is None ==> !json_readable(*y),
    decreases y,
{
    match y {
        YamlValue::Null => Some(JsonValue::Null),
        YamlValue::Bool(b) => Some(JsonValue::Bool(*b)),
        YamlValue::Number(n) => Some(JsonValue::Number(n.clone())),
        YamlValue::Str(s) => Some(JsonValue::Str(s.clone())),
        YamlValue::Tagged(_, _) => None,
        YamlValue::Sequence(xs) => {
            let mut ys: Vec<JsonValue> = Vec::new();
            let mut i: usize = 0;
            while i < xs.len()
                invariant
                    0 <= i <= xs.len(),
                    *y == YamlValue::Sequence(*xs),
                    ys@.len() == i,
                    forall|k: int| 0 <= k < i ==> json_of(#[trigger] xs@[k], ys@[k]),
                decreases xs.len() - i,
            {
                proof {
                    assert(decreases_to!(*y => (*y)->Sequence_0));
                    assert((*y)->Sequence_0 == *xs);
                    assert(decreases_to!(*xs => xs@));
                    assert(decreases_to!(xs@ => xs@[i as int]));
                    assert(decreases_to!(*y => xs@[i as int]));
                }
                match json_from_yaml(&xs[i]) {
                    Some(j) => {
                        ys.push(j);
                    },
                    None => {
                        assert(!json_readable(xs@[i as int]));
                        assert(!json_readable(*y));
                        return None;
                    },
                }
                i = i + 1;
            }
            Some(JsonValue::Array(ys))
        },
        YamlValue::Mapping(ms) => {
            let mut os: Vec<(String, JsonValue)> = Vec::new();
            let mut i: usize = 0;
            while i < ms.len()
                invariant
                    0 <= i <= ms.len(),
                    *y == YamlValue::Mapping(*ms),
                    os@.len() == i,
                    forall|k: int|
                        0 <= k < i ==> ((#[trigger] ms@[k]).0 matches YamlValue::Str(key) && key@ == os@[k].0@
                            && json_of(ms@[k].1, os@[k].1)),
                decreases ms.len() - i,
            {
                let key = match &ms[i].0 {
                    YamlValue::Str(k) => k.clone(),
                    _ => {
                        assert(!(ms@[i as int].0 is Str));
                        return None;
                    },
                };
                proof {
                    assert(decreases_to!(*y => (*y)->Mapping_0));
                    assert((*y)->Mapping_0 == *ms);
                    assert(decreases_to!(*ms => ms@));
                    assert(decreases_to!(ms@ => ms@[i as int]));
                    assert(decreases_to!(ms@[i as int] => ms@[i as int].1));
                    assert(decreases_to!(*y => ms@[i as int].1));
                }
                match json_from_yaml(&ms[i].1) {
                    Some(j) => {
                        os.push((key, j));
                    },
                    None => {
                        assert(!json_readable(ms@[i as int].1));
                        return None;
                    },
                }
                i = i + 1;
            }
            Some(JsonValue::Object(os))
        },
    }
}

} // verus!
