//! Creating a project: how inputs given as text are read, the variables
//! offered for interpolation while inputs are collected, and which projects
//! a label selector accepts.

use vstd::prelude::*;
use crate::ci::{replace_char, replace_char_exec};
use crate::json::{json_read, parse_json, parse_yaml_as_json, yaml_json_read, JsonValue};
use crate::text::str_eq;

verus! {

broadcast use vstd::string::group_string_axioms;

/// The command that creates a project from a template.
pub struct CreateCommand;

/// The map that a list of named entries stands for; a later entry for a
/// name replaces an earlier one.
pub open spec fn entries_map<V>(s: Seq<(Seq<char>, V)>) -> Map<Seq<char>, V>
    decreases s.len(),
{
    if s.len() == 0 {
        Map::empty()
    } else {
        entries_map(s.drop_last()).insert(s.last().0, s.last().1)
    }
}

/// Whether no name occurs twice in `s`.
pub open spec fn names_distinct<V>(s: Seq<(Seq<char>, V)>) -> bool {
    forall|i: int, j: int| 0 <= i < j < s.len() ==> s[i].0 != s[j].0
}

/// Labels (name and value) as plain values.
pub open spec fn label_pairs(s: Seq<(String, String)>) -> Seq<(Seq<char>, Seq<char>)> {
    s.map_values(|e: (String, String)| (e.0@, e.1@))
}

/// Named values, with each name as plain text.
pub open spec fn input_pairs(s: Seq<(String, JsonValue)>) -> Seq<(Seq<char>, JsonValue)> {
    s.map_values(|e: (String, JsonValue)| (e.0@, e.1))
}

/// A name is in the map of `s` exactly when some entry has it.
pub proof fn lemma_entries_map_dom<V>(s: Seq<(Seq<char>, V)>, k: Seq<char>)
    ensures
        entries_map(s).contains_key(k) <==> exists|i: int| 0 <= i < s.len() && #[trigger] s[i].0 == k,
    decreases s.len(),
{
    if s.len() > 0 {
        lemma_entries_map_dom(s.drop_last(), k);
        if exists|i: int| 0 <= i < s.len() && #[trigger] s[i].0 == k {
            let i = choose|i: int| 0 <= i < s.len() && #[trigger] s[i].0 == k;
            if i < s.len() - 1 {
                assert(s.drop_last()[i].0 == k);
            }
        }
        if exists|i: int| 0 <= i < s.drop_last().len() && #[trigger] s.drop_last()[i].0 == k {
            let i = choose|i: int| 0 <= i < s.drop_last().len() && #[trigger] s.drop_last()[i].0 == k;
            assert(s[i].0 == k);
        }
    }
}

/// Where no name occurs twice, the map gives each entry's value for its name.
pub proof fn lemma_entries_map_at<V>(s: Seq<(Seq<char>, V)>, i: int)
    requires
        names_distinct(s),
        0 <= i < s.len(),
    ensures
        entries_map(s).contains_key(s[i].0),
        entries_map(s)[s[i].0] == s[i].1,
    decreases s.len(),
{
    if i < s.len() - 1 {
        assert(names_distinct(s.drop_last()));
        lemma_entries_map_at(s.drop_last(), i);
        assert(s.last().0 != s[i].0);
    }
}

/// Where no name occurs twice, changing the value of one entry changes the
/// map at its name only.
pub proof fn lemma_entries_map_update<V>(s: Seq<(Seq<char>, V)>, i: int, v: V)
    requires
        names_distinct(s),
        0 <= i < s.len(),
    ensures
        entries_map(s.update(i, (s[i].0, v))) == entries_map(s).insert(s[i].0, v),
    decreases s.len(),
{
    let t = s.update(i, (s[i].0, v));
    if i == s.len() - 1 {
        assert(t.drop_last() =~= s.drop_last());
        assert(entries_map(t) =~= entries_map(s).insert(s[i].0, v));
    } else {
        assert(t.drop_last() =~= s.drop_last().update(i, (s[i].0, v)));
        assert(names_distinct(s.drop_last()));
        lemma_entries_map_update(s.drop_last(), i, v);
        assert(s.last().0 != s[i].0);
        assert(entries_map(t) =~= entries_map(s).insert(s[i].0, v));
    }
}

/// Sets the value of `k` in `vars` to `v`: its entry changed in place, or a
/// new entry at the end.
fn put_value(vars: &mut Vec<(String, JsonValue)>, k: String, v: JsonValue)
    requires
        names_distinct(input_pairs(old(vars)@)),
    ensures
        names_distinct(input_pairs(final(vars)@)),
        entries_map(input_pairs(final(vars)@)) == entries_map(input_pairs(old(vars)@)).insert(k@, v),
{
    let ghost before = input_pairs(vars@);
    let ghost kv = k@;
    let mut i: usize = 0;
    while i < vars.len()
        invariant
            i <= vars.len(),
            before == input_pairs(vars@),
            before == input_pairs(old(vars)@),
            kv == k@,
            names_distinct(before),
            forall|j: int| 0 <= j < i ==> before[j].0 != kv,
        decreases vars.len() - i,
    {
        if str_eq(vars[i].0.as_str(), k.as_str()) {
            proof {
                assert(before[i as int].0 == kv);
            }
            vars.set(i, (k, v));
            proof {
                assert(input_pairs(vars@) =~= before.update(i as int, (before[i as int].0, v)));
                lemma_entries_map_update(before, i as int, v);
                assert(entries_map(input_pairs(vars@)) == entries_map(before).insert(kv, v));
            }
            return;
        }
        i = i + 1;
    }
    vars.push((k, v));
    proof {
        let after = input_pairs(vars@);
        assert(after =~= before.push((kv, v)));
        assert(after.drop_last() =~= before);
    }
}

/// The first entry of `labels` for `k`, if there is one.
fn label_index(labels: &Vec<(String, String)>, k: &str) -> (r: Option<usize>)
    ensures
        r matches Some(i) ==> i < labels@.len() && labels@[i as int].0@ == k@,
        r is None ==> forall|j: int| 0 <= j < labels@.len() ==> (#[trigger] labels@[j]).0@ != k@,
{
    let mut i: usize = 0;
    while i < labels.len()
        invariant
            i <= labels.len(),
            forall|j: int| 0 <= j < i ==> (#[trigger] labels@[j]).0@ != k@,
        decreases labels.len() - i,
    {
        if str_eq(labels[i].0.as_str(), k) {
            return Some(i);
        }
        i = i + 1;
    }
    None
}

/// Whether the labels `project` carry every label of `selector` with the
/// same value.
pub open spec fn labels_accepted(project: Map<Seq<char>, Seq<char>>, selector: Map<Seq<char>, Seq<char>>) -> bool {
    forall|k: Seq<char>| #[trigger]
        selector.contains_key(k) ==> project.contains_key(k) && project[k] == selector[k]
}

/// The text of a string value.
pub open spec fn is_text(v: JsonValue, t: Seq<char>) -> bool {
    v matches JsonValue::Str(s) && s@ == t
}

/// Whether `vars` are the variables offered for interpolation while
/// collecting inputs for the project `project` (in the environment `env`,
/// if any), with `inputs` collected so far: the project's name with
/// underscores and with hyphens, the environment's name, and the inputs,
/// which take precedence.
pub open spec fn interpolation_vars(
    vars: Map<Seq<char>, JsonValue>,
    inputs: Map<Seq<char>, JsonValue>,
    project: Seq<char>,
    env: Option<Seq<char>>,
) -> bool {
    &&& forall|k: Seq<char>| #[trigger]
        vars.contains_key(k) <==> (k == "_project_name_underscores"@ || k == "_project_name_hyphens"@
            || (env is Some && k == "_environment_name"@) || inputs.contains_key(k))
    &&& forall|k: Seq<char>| #[trigger] inputs.contains_key(k) ==> vars[k] == inputs[k]
    &&& !inputs.contains_key("_project_name_underscores"@) ==> is_text(
        vars["_project_name_underscores"@],
        replace_char(project, '-', '_'),
    )
    &&& !inputs.contains_key("_project_name_hyphens"@) ==> is_text(
        vars["_project_name_hyphens"@],
        replace_char(project, '_', '-'),
    )
    &&& (env matches Some(e) && !inputs.contains_key("_environment_name"@)) ==> is_text(
        vars["_environment_name"@],
        env->0,
    )
}

/// Why a value read from input text is refused.
pub open spec fn not_an_object_message() -> Seq<char> {
    "Inputs must be a JSON/YAML object, not a primitive value"@
}

/// What input text read as `v` gives: the entries of an object, else the
/// refusal.
pub open spec fn inputs_of(v: JsonValue, r: Result<Vec<(String, JsonValue)>, String>) -> bool {
    match v {
        JsonValue::Object(entries) => r matches Ok(o) && o@ == entries@,
        _ => r matches Err(e) && e@ == not_an_object_message(),
    }
}

impl CreateCommand {
    /// Whether the labels of a project carry every label that `selector`
    /// asks for, with the same value; an empty selector accepts every
    /// project.
    pub fn labels_match(project_labels: &Vec<(String, String)>, selector: &Vec<(String, String)>) -> (r: bool)
        requires
            names_distinct(label_pairs(project_labels@)),
            names_distinct(label_pairs(selector@)),
        ensures
            r == labels_accepted(entries_map(label_pairs(project_labels@)), entries_map(label_pairs(selector@))),
    {
        let ghost pp = label_pairs(project_labels@);
        let ghost sp = label_pairs(selector@);
        let ghost pm = entries_map(pp);
        let ghost sm = entries_map(sp);
        let mut j: usize = 0;
        while j < selector.len()
            invariant
                j <= selector.len(),
                pp == label_pairs(project_labels@),
                sp == label_pairs(selector@),
                pm == entries_map(pp),
                sm == entries_map(sp),
                names_distinct(pp),
                names_distinct(sp),
                forall|jj: int|
                    0 <= jj < j ==> pm.contains_key(#[trigger] sp[jj].0) && pm[sp[jj].0] == sp[jj].1,
            decreases selector.len() - j,
        {
            let key = selector[j].0.as_str();
            proof {
                lemma_entries_map_at(sp, j as int);
            }
            match label_index(project_labels, key) {
                Some(i) => {
                    proof {
                        lemma_entries_map_at(pp, i as int);
                    }
                    if !str_eq(project_labels[i].1.as_str(), selector[j].1.as_str()) {
                        assert(!(pm.contains_key(sp[j as int].0) && pm[sp[j as int].0] == sm[sp[j as int].0]));
                        return false;
                    }
                },
                None => {
                    proof {
                        lemma_entries_map_dom(pp, sp[j as int].0);
                        assert(!pm.contains_key(sp[j as int].0));
                    }
                    return false;
                },
            }
            j = j + 1;
        }
        assert forall|k: Seq<char>| #[trigger] sm.contains_key(k) implies pm.contains_key(k) && pm[k] == sm[k] by {
            lemma_entries_map_dom(sp, k);
            let i = choose|i: int| 0 <= i < sp.len() && #[trigger] sp[i].0 == k;
            lemma_entries_map_at(sp, i);
        }
        true
    }

    /// The variables offered for interpolation while collecting inputs for
    /// the project `project_name` (in `environment_name`, if any), with the
    /// inputs collected so far: `_project_name_underscores`,
    /// `_project_name_hyphens`, `_environment_name`, and the inputs, which
    /// take precedence.
    pub fn get_interpolation_variables(
        inputs: Vec<(String, JsonValue)>,
        project_name: &str,
        environment_name: Option<&str>,
    ) -> (r: Vec<(String, JsonValue)>)
        ensures
            names_distinct(input_pairs(r@)),
            interpolation_vars(
                entries_map(input_pairs(r@)),
                entries_map(input_pairs(inputs@)),
                project_name@,
                match environment_name {
                    Some(e) => Some(e@),
                    None => None,
                },
            ),
    {
        proof {
            reveal_strlit("_project_name_underscores");
            reveal_strlit("_project_name_hyphens");
            reveal_strlit("_environment_name");
        }
        let mut vars: Vec<(String, JsonValue)> = Vec::new();
        let underscores = replace_char_exec(project_name, '-', '_');
        let hyphens = replace_char_exec(project_name, '_', '-');
        let vu = JsonValue::Str(underscores);
        let vh = JsonValue::Str(hyphens);
        let ghost (gu, gh) = (vu, vh);
        let ghost m0 = entries_map(input_pairs(vars@));
        assert(m0 =~= Map::<Seq<char>, JsonValue>::empty());
        put_value(&mut vars, "_project_name_underscores".to_string(), vu);
        put_value(&mut vars, "_project_name_hyphens".to_string(), vh);
        let ghost m2 = entries_map(input_pairs(vars@));
        assert("_project_name_underscores"@[14] != "_project_name_hyphens"@[14]);
        assert(m2 =~= map!["_project_name_underscores"@ => gu, "_project_name_hyphens"@ => gh]);
        let ghost env_view: Option<Seq<char>> = match environment_name {
            Some(e) => Some(e@),
            None => None,
        };
        if let Some(env_name) = environment_name {
            let ve = JsonValue::Str(env_name.to_string());
            assert(is_text(ve, env_name@));
            put_value(&mut vars, "_environment_name".to_string(), ve);
            assert("_environment_name"@[1] != "_project_name_hyphens"@[1]);
            assert("_environment_name"@[1] != "_project_name_underscores"@[1]);
        }
        let ghost base = entries_map(input_pairs(vars@));
        assert(base.contains_key("_project_name_underscores"@));
        assert(is_text(base["_project_name_underscores"@], replace_char(project_name@, '-', '_')));
        assert(is_text(base["_project_name_hyphens"@], replace_char(project_name@, '_', '-')));
        assert(env_view matches Some(e) ==> is_text(base["_environment_name"@], e));
        assert(forall|k: Seq<char>| #[trigger]
            base.contains_key(k) <==> (k == "_project_name_underscores"@ || k == "_project_name_hyphens"@
                || (env_view is Some && k == "_environment_name"@)));
        let ghost ip = input_pairs(inputs@);
        assert(ip.len() == inputs.len());
        let mut rest = inputs;
        let mut i: usize = 0;
        while rest.len() > 0
            invariant
                i <= ip.len() <= usize::MAX,
                input_pairs(rest@) == ip.skip(i as int),
                names_distinct(input_pairs(vars@)),
                entries_map(input_pairs(vars@)) == base.union_prefer_right(entries_map(ip.take(i as int))),
            decreases rest.len(),
        {
            let ghost rv = rest@;
            assert(input_pairs(rv).len() == rv.len());
            let (key, value) = rest.remove(0);
            proof {
                assert(ip.skip(i as int)[0] == input_pairs(rv)[0]);
                assert forall|j: int| 0 <= j < rest@.len() implies input_pairs(rest@)[j] == ip.skip(i + 1)[j] by {
                    assert(rest@[j] == rv[j + 1]);
                    assert(input_pairs(rv)[j + 1] == ip.skip(i as int)[j + 1]);
                }
                assert(input_pairs(rest@) =~= ip.skip(i + 1));
            }
            put_value(&mut vars, key, value);
            proof {
                assert(ip.take(i + 1).drop_last() =~= ip.take(i as int));
                assert(entries_map(input_pairs(vars@)) =~= base.union_prefer_right(entries_map(ip.take(i + 1))));
            }
            i = i + 1;
        }
        proof {
            assert(ip.skip(i as int).len() == 0);
            assert(ip.take(ip.len() as int) =~= ip);
        }
        vars
    }

    /// The inputs that a value read from input text gives: the entries of
    /// an object; any other value is refused.
    pub fn inputs_from_value(v: JsonValue) -> (r: Result<Vec<(String, JsonValue)>, String>)
        ensures
            inputs_of(v, r),
    {
        match v {
            JsonValue::Object(entries) => Ok(entries),
            _ => Err("Inputs must be a JSON/YAML object, not a primitive value".to_string()),
        }
    }

    /// Reads inputs from `inputs_str`, as JSON first and then as YAML: the
    /// entries of the object it holds; a value that is no object is
    /// refused, and so is text that is neither.
    pub fn parse_inputs(inputs_str: &str) -> (r: Result<Vec<(String, JsonValue)>, String>)
        ensures
            match json_read(inputs_str@) {
                Some(v) => inputs_of(v, r),
                None => match yaml_json_read(inputs_str@) {
                    Some(v) => inputs_of(v, r),
                    None => r matches Err(e) && e@ == "Failed to parse inputs as JSON or YAML"@,
                },
            },
    {
        match parse_json(inputs_str) {
            Some(v) => Self::inputs_from_value(v),
            None => match parse_yaml_as_json(inputs_str) {
                Some(v) => Self::inputs_from_value(v),
                None => Err("Failed to parse inputs as JSON or YAML".to_string()),
            },
        }
    }
}

} // verus!
