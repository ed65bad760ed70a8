//! YAML documents as a tree of plain values. The text is parsed by
//! `serde_yaml`; reading fields out of the tree is verified here.

use vstd::prelude::*;
use crate::text::str_eq;
use serde_yaml::value::{Tag, TaggedValue};
use serde_yaml::Value;

verus! {

/// A YAML value: scalars keep their text, mappings keep their entries in
/// document order.
pub enum YamlValue {
    Null,
    Bool(bool),
    /// A number, as `serde_yaml` prints it.
    Number(String),
    Str(String),
    Sequence(Vec<YamlValue>),
    Mapping(Vec<(YamlValue, YamlValue)>),
    /// A `!tag` and the value it is attached to.
    Tagged(String, Box<YamlValue>),
}

#[verifier::external_type_specification]
#[verifier::external_body]
pub struct ExYamlValue(serde_yaml::Value);

/// What `serde_yaml` makes of the text `text`: the document as a tree, or the
/// message of the error it reports.
pub uninterp spec fn yaml_document(text: Seq<char>) -> Result<YamlValue, Seq<char>>;

/// Turns a `serde_yaml::Value` into the library's tree, variant by variant.
#[verifier::external_body]
fn yaml_from_value(v: Value) -> YamlValue {
    match v {
        Value::Null => YamlValue::Null,
        Value::Bool(b) => YamlValue::Bool(b),
        Value::Number(n) => YamlValue::Number(n.to_string()),
        Value::String(s) => YamlValue::Str(s),
        Value::Sequence(s) => YamlValue::Sequence(s.into_iter().map(yaml_from_value).collect()),
        Value::Mapping(m) => YamlValue::Mapping(m.into_iter().map(|(k, v)| (yaml_from_value(k), yaml_from_value(v))).collect()),
        Value::Tagged(t) => YamlValue::Tagged(t.tag.to_string(), Box::new(yaml_from_value(t.value))),
    }
}

/// Parses YAML text with `serde_yaml::from_str::<serde_yaml::Value>`. The
/// contract names the outcome `yaml_document(text)` and claims nothing more:
/// `serde_yaml` decides what the text means.
#[verifier::external_body]
pub(crate) fn parse_yaml(text: &str) -> (r: Result<YamlValue, String>)
    ensures
        match r {
            Ok(v) => yaml_document(text@) == Ok::<YamlValue, Seq<char>>(v),
            Err(e) => yaml_document(text@) == Err::<YamlValue, Seq<char>>(e@),
        },
{
    match serde_yaml::from_str::<Value>(text) {
        Ok(v) => Ok(yaml_from_value(v)),
        Err(e) => Err(e.to_string()),
    }
}

/// What `serde_yaml` writes for the value `v`.
pub uninterp spec fn yaml_text(v: YamlValue) -> Seq<char>;

/// Whether every tag in `v` has a name: `serde_yaml` has no empty tag.
pub open spec fn tags_named(v: YamlValue) -> bool
    decreases v,
{
    match v {
        YamlValue::Tagged(t, x) => t@.len() > 0 && tags_named(*x),
        YamlValue::Sequence(xs) => forall|i: int| 0 <= i < xs@.len() ==> tags_named(#[trigger] xs@[i]),
        YamlValue::Mapping(ms) => forall|i: int|
            0 <= i < ms@.len() ==> tags_named((#[trigger] ms@[i]).0) && tags_named(ms@[i].1),
        _ => true,
    }
}

/// Whether every tag in `v` has a name.
pub fn all_tags_named(v: &YamlValue) -> (r: bool)
    ensures
        r == tags_named(*v),
    decreases v,
{
    match v {
        YamlValue::Tagged(t, x) => {
            if t.as_str().unicode_len() == 0 {
                return false;
            }
            proof {
                assert(decreases_to!(*v => (*v)->Tagged_1));
            }
            all_tags_named(x)
        },
        YamlValue::Sequence(xs) => {
            let mut i: usize = 0;
            while i < xs.len()
                invariant
                    0 <= i <= xs.len(),
                    *v == YamlValue::Sequence(*xs),
                    forall|k: int| 0 <= k < i ==> tags_named(#[trigger] xs@[k]),
                decreases xs.len() - i,
            {
                proof {
                    assert(decreases_to!(*v => (*v)->Sequence_0));
                    assert(decreases_to!(*xs => xs@));
                    assert(decreases_to!(xs@ => xs@[i as int]));
                    assert(decreases_to!(*v => xs@[i as int]));
                }
                if !all_tags_named(&xs[i]) {
                    return false;
                }
                i = i + 1;
            }
            true
        },
        YamlValue::Mapping(ms) => {
            let mut i: usize = 0;
            while i < ms.len()
                invariant
                    0 <= i <= ms.len(),
                    *v == YamlValue::Mapping(*ms),
                    forall|k: int| 0 <= k < i ==> tags_named((#[trigger] ms@[k]).0) && tags_named(ms@[k].1),
                decreases ms.len() - i,
            {
                proof {
                    assert(decreases_to!(*v => (*v)->Mapping_0));
                    assert(decreases_to!(*ms => ms@));
                    assert(decreases_to!(ms@ => ms@[i as int]));
                    assert(decreases_to!(ms@[i as int] => ms@[i as int].0));
                    assert(decreases_to!(ms@[i as int] => ms@[i as int].1));
                    assert(decreases_to!(*v => ms@[i as int].0));
                    assert(decreases_to!(*v => ms@[i as int].1));
                }
                if !all_tags_named(&ms[i].0) {
                    return false;
                }
                if !all_tags_named(&ms[i].1) {
                    return false;
                }
                i = i + 1;
            }
            true
        },
        _ => true,
    }
}

/// Turns the library's tree into a `serde_yaml::Value`, variant by variant.
/// `serde_yaml::value::Tag::new` panics on an empty tag, hence the `requires`.
#[verifier::external_body]
fn yaml_to_value(v: &YamlValue) -> Value
    requires
        tags_named(*v),
{
    match v {
        YamlValue::Null => Value::Null,
        YamlValue::Bool(b) => Value::Bool(*b),
        YamlValue::Number(n) => serde_yaml::from_str::<Value>(n).unwrap_or(Value::String(n.clone())),
        YamlValue::Str(s) => Value::String(s.clone()),
        YamlValue::Sequence(s) => Value::Sequence(s.iter().map(yaml_to_value).collect()),
        YamlValue::Mapping(m) => Value::Mapping(m.iter().map(|(k, v)| (yaml_to_value(k), yaml_to_value(v))).collect()),
        YamlValue::Tagged(t, v) => Value::Tagged(Box::new(TaggedValue { tag: Tag::new(t.as_str()), value: yaml_to_value(v) })),
    }
}

/// Writes `v` as YAML text with `serde_yaml::to_string`. The contract names
/// the text `yaml_text(v)`; `serde_yaml` decides its layout. A value with an
/// empty tag is left out: `serde_yaml` has no such tag and panics on one.
#[verifier::external_body]
fn emit_yaml(v: &YamlValue) -> (r: Result<String, String>)
    requires
        tags_named(*v),
    ensures
        r matches Ok(t) ==> t@ == yaml_text(*v),
{
    serde_yaml::to_string(&yaml_to_value(v)).map_err(|e| e.to_string())
}

/// Writes `v` as YAML text, refusing a value that holds an empty tag.
pub(crate) fn emit_yaml_checked(v: &YamlValue) -> (r: Result<String, String>)
    ensures
        r matches Ok(t) ==> t@ == yaml_text(*v),
        !tags_named(*v) ==> (r matches Err(e) && e@ == "empty YAML tag is not allowed"@),
{
    if !all_tags_named(v) {
        return Err("empty YAML tag is not allowed".to_owned());
    }
    emit_yaml(v)
}

/// The value of the first entry of `entries` whose key is the string `key`.
pub open spec fn entries_get(entries: Seq<(YamlValue, YamlValue)>, key: Seq<char>) -> Option<
    YamlValue,
>
    decreases entries.len(),
{
    if entries.len() == 0 {
        None
    } else if entries[0].0 matches YamlValue::Str(s) && s@ == key {
        Some(entries[0].1)
    } else {
        entries_get(entries.drop_first(), key)
    }
}

/// The value under `key` when `v` is a mapping that has it.
pub open spec fn yaml_get(v: YamlValue, key: Seq<char>) -> Option<YamlValue> {
    match v {
        YamlValue::Mapping(m) => entries_get(m@, key),
        _ => None,
    }
}

/// `yaml_get` on an optional value.
pub open spec fn yaml_get_opt(v: Option<YamlValue>, key: Seq<char>) -> Option<YamlValue> {
    match v {
        Some(v) => yaml_get(v, key),
        None => None,
    }
}

/// The text of a string value.
pub open spec fn yaml_str(v: Option<YamlValue>) -> Option<Seq<char>> {
    match v {
        Some(YamlValue::Str(s)) => Some(s@),
        _ => None,
    }
}

/// Whether `v` is a mapping.
pub open spec fn is_mapping(v: YamlValue) -> bool {
    v is Mapping
}

impl YamlValue {
    /// The value under `key`, when this is a mapping that has it.
    pub fn get(&self, key: &str) -> (r: Option<&YamlValue>)
        ensures
            r matches Some(x) ==> yaml_get(*self, key@) == Some(*x),
            r is None ==> yaml_get(*self, key@) is None,
    {
        match self {
            YamlValue::Mapping(m) => {
                let mut i: usize = 0;
                assert(m@.skip(0) =~= m@);
                while i < m.len()
                    invariant
                        0 <= i <= m.len(),
                        entries_get(m@, key@) == entries_get(m@.skip(i as int), key@),
                        yaml_get(*self, key@) == entries_get(m@, key@),
                    decreases m.len() - i,
                {
                    assert(m@.skip(i as int).drop_first() =~= m@.skip(i + 1));
                    assert(m@.skip(i as int)[0] == m@[i as int]);
                    match &m[i].0 {
                        YamlValue::Str(s) => {
                            if str_eq(s.as_str(), key) {
                                let ghost sk = m@.skip(i as int);
                                assert(sk[0] == m@[i as int]);
                                assert(sk[0].0 matches YamlValue::Str(t) && t@ == key@);
                                assert(entries_get(sk, key@) == Some(sk[0].1));
                                assert(yaml_get(*self, key@) == entries_get(m@, key@));
                                let r = &m[i].1;
                                assert(*r == m@[i as int].1);
                                return Some(r);
                            }
                        },
                        _ => {},
                    }
                    i = i + 1;
                }
                None
            },
            _ => None,
        }
    }

    /// The text of this value when it is a string.
    pub fn as_str(&self) -> (r: Option<&String>)
        ensures
            r matches Some(s) ==> yaml_str(Some(*self)) == Some(s@),
            r is None ==> yaml_str(Some(*self)) is None,
    {
        match self {
            YamlValue::Str(s) => Some(s),
            _ => None,
        }
    }
}


/// The index of the first entry of `entries` whose key is the string `key`,
/// or `-1`.
pub open spec fn entry_index(entries: Seq<(YamlValue, YamlValue)>, key: Seq<char>) -> int
    decreases entries.len(),
{
    if entries.len() == 0 {
        -1
    } else if entries[0].0 matches YamlValue::Str(s) && s@ == key {
        0
    } else {
        let i = entry_index(entries.drop_first(), key);
        if i < 0 {
            -1
        } else {
            i + 1
        }
    }
}

/// `entry_index` is `-1` or the index of an entry with that key.
pub proof fn lemma_entry_index(entries: Seq<(YamlValue, YamlValue)>, key: Seq<char>)
    ensures
        -1 <= entry_index(entries, key) < entries.len(),
    decreases entries.len(),
{
    if entries.len() > 0 {
        lemma_entry_index(entries.drop_first(), key);
    }
}

/// Whether `b` is the entries `a` with the value of the first entry for
/// `key` changed so that `value_ok` holds of the old and new value
/// (the same entries when there is none).
pub open spec fn entry_changed(
    a: Seq<(YamlValue, YamlValue)>,
    b: Seq<(YamlValue, YamlValue)>,
    key: Seq<char>,
    value_ok: spec_fn(YamlValue, YamlValue) -> bool,
) -> bool {
    let i = entry_index(a, key);
    if i < 0 {
        b == a
    } else {
        &&& b.len() == a.len()
        &&& forall|j: int| 0 <= j < a.len() && j != i ==> #[trigger] b[j] == a[j]
        &&& b[i].0 == a[i].0
        &&& value_ok(a[i].1, b[i].1)
    }
}

/// Whether `new` is `old` with the text `name` in place of the value of
/// `metadata.name`, where `old` is a mapping whose `metadata` is one.
pub open spec fn metadata_renamed(old: YamlValue, new: YamlValue, name: Seq<char>) -> bool {
    match (old, new) {
        (YamlValue::Mapping(a), YamlValue::Mapping(b)) => entry_changed(
            a@,
            b@,
            "metadata"@,
            |x: YamlValue, y: YamlValue|
                match (x, y) {
                    (YamlValue::Mapping(ma), YamlValue::Mapping(mb)) => entry_changed(
                        ma@,
                        mb@,
                        "name"@,
                        |p: YamlValue, q: YamlValue| q matches YamlValue::Str(s) && s@ == name,
                    ),
                    _ => x is Mapping == false && y == x,
                },
        ),
        (YamlValue::Mapping(_), _) => false,
        _ => new == old,
    }
}

/// The index of the first entry of `entries` whose key is `key`.
fn find_entry(entries: &Vec<(YamlValue, YamlValue)>, key: &str) -> (r: Option<usize>)
    ensures
        match r {
            Some(i) => entry_index(entries@, key@) == i as int,
            None => entry_index(entries@, key@) == -1,
        },
{
    let mut i: usize = 0;
    assert(entries@.skip(0) =~= entries@);
    while i < entries.len()
        invariant
            0 <= i <= entries.len(),
            entry_index(entries@, key@) == if entry_index(entries@.skip(i as int), key@) < 0 {
                -1
            } else {
                entry_index(entries@.skip(i as int), key@) + i
            },
        decreases entries.len() - i,
    {
        assert(entries@.skip(i as int)[0] == entries@[i as int]);
        assert(entries@.skip(i as int).drop_first() =~= entries@.skip(i + 1));
        match &entries[i].0 {
            YamlValue::Str(s) => {
                if str_eq(s.as_str(), key) {
                    return Some(i);
                }
            },
            _ => {},
        }
        i = i + 1;
    }
    assert(entries@.skip(entries.len() as int) =~= Seq::<(YamlValue, YamlValue)>::empty());
    None
}

/// `doc` with `name` as the value of `metadata.name`, where `doc` is a
/// mapping whose `metadata` is one and has a `name`.
pub fn set_metadata_name(doc: YamlValue, name: &str) -> (r: YamlValue)
    ensures
        metadata_renamed(doc, r, name@),
{
    match doc {
        YamlValue::Mapping(mut entries) => {
            let ghost a = entries@;
            proof {
                lemma_entry_index(a, "metadata"@);
            }
            match find_entry(&entries, "metadata") {
                Some(i) => {
                    let (k, v) = entries.remove(i);
                    let ghost old_v = v;
                    let new_v = match v {
                        YamlValue::Mapping(mut meta) => {
                            let ghost ma = meta@;
                            proof {
                                lemma_entry_index(ma, "name"@);
                            }
                            match find_entry(&meta, "name") {
                                Some(j) => {
                                    let (nk, _old) = meta.remove(j);
                                    meta.insert(j, (nk, YamlValue::Str(name.to_owned())));
                                    assert(meta@.len() == ma.len());
                                    assert forall|t: int| 0 <= t < ma.len() && t != j implies #[trigger] meta@[t]
                                        == ma[t] by {
                                        if t < j {
                                        } else {
                                        }
                                    }
                                },
                                None => {},
                            }
                            YamlValue::Mapping(meta)
                        },
                        other => other,
                    };
                    let ghost nv = new_v;
                    entries.insert(i, (k, new_v));
                    assert(entries@.len() == a.len());
                    assert forall|t: int| 0 <= t < a.len() && t != i implies #[trigger] entries@[t] == a[t] by {}
                    assert(entries@[i as int].1 == nv);
                    YamlValue::Mapping(entries)
                },
                None => YamlValue::Mapping(entries),
            }
        },
        other => other,
    }
}


/// `entry_index` finds the entry that `entries_get` reads.
pub proof fn lemma_entry_index_get(entries: Seq<(YamlValue, YamlValue)>, key: Seq<char>)
    ensures
        entry_index(entries, key) >= 0 ==> entry_index(entries, key) < entries.len() && entries_get(entries, key)
            == Some(entries[entry_index(entries, key)].1) && (entries[entry_index(entries, key)].0 matches YamlValue::Str(
            s,
        ) && s@ == key),
        entry_index(entries, key) < 0 ==> entries_get(entries, key) is None,
    decreases entries.len(),
{
    if entries.len() > 0 {
        lemma_entry_index_get(entries.drop_first(), key);
    }
}

/// Whether `b` is the entries `a` with `value` under `key`: in place of the
/// value of the first entry for `key`, else in a new entry at the end.
pub open spec fn entry_set(a: Seq<(YamlValue, YamlValue)>, b: Seq<(YamlValue, YamlValue)>, key: Seq<char>, value: YamlValue) -> bool {
    let i = entry_index(a, key);
    if i >= 0 {
        &&& b.len() == a.len()
        &&& forall|j: int| 0 <= j < a.len() && j != i ==> #[trigger] b[j] == a[j]
        &&& b[i].0 == a[i].0
        &&& b[i].1 == value
    } else {
        &&& b.len() == a.len() + 1
        &&& b.take(a.len() as int) == a
        &&& b.last().0 matches YamlValue::Str(s) && s@ == key
        &&& b.last().1 == value
    }
}

/// Whether `new` is the document `doc` with `inputs` as the value of
/// `spec.inputs`, where `spec` is a mapping.
pub open spec fn spec_inputs_set(doc: YamlValue, new: YamlValue, inputs: YamlValue) -> bool {
    match (doc, new) {
        (YamlValue::Mapping(a), YamlValue::Mapping(b)) => entry_index(a@, "spec"@) >= 0 && entry_changed(
            a@,
            b@,
            "spec"@,
            |x: YamlValue, y: YamlValue|
                match (x, y) {
                    (YamlValue::Mapping(sa), YamlValue::Mapping(sb)) => entry_set(sa@, sb@, "inputs"@, inputs),
                    _ => false,
                },
        ),
        _ => false,
    }
}

/// The value under `key` of the mapping `doc`, taken out of it.
pub fn take_value(doc: YamlValue, key: &str) -> (r: Option<YamlValue>)
    ensures
        r == yaml_get(doc, key@),
{
    match doc {
        YamlValue::Mapping(mut entries) => {
            let ghost a = entries@;
            proof {
                lemma_entry_index_get(a, key@);
            }
            match find_entry(&entries, key) {
                Some(i) => {
                    let (_k, v) = entries.remove(i);
                    Some(v)
                },
                None => None,
            }
        },
        _ => None,
    }
}

/// The entries `entries` with `value` under `key`.
fn set_entry(entries: Vec<(YamlValue, YamlValue)>, key: &str, value: YamlValue) -> (r: Vec<(YamlValue, YamlValue)>)
    ensures
        entry_set(entries@, r@, key@, value),
{
    let ghost a = entries@;
    let mut entries = entries;
    proof {
        lemma_entry_index(a, key@);
    }
    match find_entry(&entries, key) {
        Some(i) => {
            let (k, _old) = entries.remove(i);
            entries.insert(i, (k, value));
            assert forall|j: int| 0 <= j < a.len() && j != i implies #[trigger] entries@[j] == a[j] by {
                if j < i {
                } else {
                }
            }
            entries
        },
        None => {
            entries.push((YamlValue::Str(key.to_owned()), value));
            assert(entries@.take(a.len() as int) =~= a);
            entries
        },
    }
}

/// The document `doc` with `inputs` as the value of `spec.inputs`, where
/// `spec` is a mapping.
pub fn set_spec_inputs(doc: YamlValue, inputs: YamlValue) -> (r: YamlValue)
    requires
        yaml_get(doc, "spec"@) matches Some(YamlValue::Mapping(_)),
    ensures
        spec_inputs_set(doc, r, inputs),
{
    match doc {
        YamlValue::Mapping(mut entries) => {
            let ghost a = entries@;
            proof {
                lemma_entry_index_get(a, "spec"@);
            }
            match find_entry(&entries, "spec") {
                Some(i) => {
                    let (k, v) = entries.remove(i);
                    let new_v = match v {
                        YamlValue::Mapping(sp) => YamlValue::Mapping(set_entry(sp, "inputs", inputs)),
                        other => other,
                    };
                    let ghost nv = new_v;
                    entries.insert(i, (k, new_v));
                    assert forall|t: int| 0 <= t < a.len() && t != i implies #[trigger] entries@[t] == a[t] by {
                        if t < i {
                        } else {
                        }
                    }
                    assert(entries@[i as int].1 == nv);
                    YamlValue::Mapping(entries)
                },
                None => YamlValue::Mapping(entries),
            }
        },
        other => other,
    }
}

} // verus!
