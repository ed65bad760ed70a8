//! The `env` command: compares the inputs of two environments.

use vstd::prelude::*;
use crate::discovery::{all_found_projects, infrastructure_at, is_nearest_collection, no_collection_above, CollectionDiscovery};
use crate::fs::{fs_file, fs_has, MemoryFileSystem};
use crate::node_run::ExecutorKind;
use crate::json::{json_equal, json_from_yaml, json_of, json_readable, json_text, json_to_string, json_values_equal, JsonValue};
use crate::output::{emit, lines_view, LineView, OutputLine};
use crate::paths::{join, join_spec};
use crate::resources::{environment_spec, infrastructure_view, EnvironmentResource, ProjectReference};
use crate::text::{concat, join_strings, joined, str_eq, usize_to_string, decimal, views_of};
use crate::yaml::{parse_yaml, yaml_document, yaml_get, yaml_get_opt, YamlValue};

verus! {

broadcast use vstd::string::group_string_axioms;

/// The `env` command.
pub struct EnvCommand;

/// How the inputs of two environments differ.
pub struct EnvDiff {
    /// The inputs that only the source environment has.
    pub only_in_source: Vec<String>,
    /// The inputs that only the target environment has.
    pub only_in_target: Vec<String>,
    /// The inputs both have with different values: name, source value,
    /// target value.
    pub different_values: Vec<(String, String, String)>,
}

/// The names of the inputs `m`, in order.
pub open spec fn input_names(m: Seq<(String, JsonValue)>) -> Seq<Seq<char>> {
    m.map_values(|e: (String, JsonValue)| e.0@)
}

/// The value of the input named `k` in `m` (its first entry), if any.
pub open spec fn input_value(m: Seq<(String, JsonValue)>, k: Seq<char>) -> Option<JsonValue>
    decreases m.len(),
{
    if m.len() == 0 {
        None
    } else if m[0].0@ == k {
        Some(m[0].1)
    } else {
        input_value(m.drop_first(), k)
    }
}

/// How a value is shown: a string as it is, a number as written, a
/// boolean as `true` or `false`, anything else as compact JSON.
pub open spec fn value_text(v: JsonValue) -> Seq<char> {
    match v {
        JsonValue::Str(s) => s@,
        JsonValue::Number(n) => n@,
        JsonValue::Bool(b) => if b {
            "true"@
        } else {
            "false"@
        },
        _ => json_text(v),
    }
}

/// The names of the inputs of `a`, in order, that `b` does not have.
pub open spec fn only_in(a: Seq<(String, JsonValue)>, b: Seq<(String, JsonValue)>) -> Seq<Seq<char>>
    decreases a.len(),
{
    if a.len() == 0 {
        Seq::empty()
    } else {
        only_in(a.drop_last(), b) + if input_names(b).contains(a.last().0@) {
            Seq::empty()
        } else {
            seq![a.last().0@]
        }
    }
}

/// The inputs of `a`, in order, that `b` has with another value: name,
/// value in `a`, value in `b`.
pub open spec fn differing(a: Seq<(String, JsonValue)>, b: Seq<(String, JsonValue)>) -> Seq<
    (Seq<char>, Seq<char>, Seq<char>),
>
    decreases a.len(),
{
    if a.len() == 0 {
        Seq::empty()
    } else {
        differing(a.drop_last(), b) + match input_value(b, a.last().0@) {
            Some(w) => if json_equal(a.last().1, w) {
                Seq::empty()
            } else {
                seq![(a.last().0@, value_text(a.last().1), value_text(w))]
            },
            None => Seq::empty(),
        }
    }
}

/// The first entry of `m` named `k` is found by `input_value`.
proof fn lemma_input_value(m: Seq<(String, JsonValue)>, k: Seq<char>)
    ensures
        input_names(m).contains(k) <==> input_value(m, k) is Some,
    decreases m.len(),
{
    if m.len() > 0 {
        lemma_input_value(m.drop_first(), k);
        assert(input_names(m.drop_first()) =~= input_names(m).drop_first());
        if input_names(m).contains(k) && m[0].0@ != k {
            let i = choose|i: int| 0 <= i < input_names(m).len() && input_names(m)[i] == k;
            assert(input_names(m.drop_first())[i - 1] == k);
        }
        if input_names(m.drop_first()).contains(k) {
            let i = choose|i: int| 0 <= i < input_names(m.drop_first()).len() && input_names(m.drop_first())[i] == k;
            assert(input_names(m)[i + 1] == k);
        }
        if m[0].0@ == k {
            assert(input_names(m)[0] == k);
        }
    }
}

/// In a map whose names are distinct, the value of the name of entry `i`
/// is entry `i`'s.
proof fn lemma_input_value_at(m: Seq<(String, JsonValue)>, i: int)
    requires
        input_names(m).no_duplicates(),
        0 <= i < m.len(),
    ensures
        input_value(m, m[i].0@) == Some(m[i].1),
    decreases m.len(),
{
    if i > 0 {
        assert(input_names(m)[0] != input_names(m)[i]);
        assert(input_names(m.drop_first()) =~= input_names(m).drop_first());
        lemma_input_value_at(m.drop_first(), i - 1);
    }
}

impl EnvCommand {
    /// How the value `v` is shown.
    pub fn value_to_string(v: &JsonValue) -> (r: String)
        ensures
            r@ == value_text(*v),
    {
        match v {
            JsonValue::Str(s) => s.clone(),
            JsonValue::Number(n) => n.clone(),
            JsonValue::Bool(b) => if *b {
                "true".to_owned()
            } else {
                "false".to_owned()
            },
            _ => json_to_string(v),
        }
    }

    /// The value of the input named `k` in `m`, if any.
    pub(crate) fn find_input<'a>(m: &'a Vec<(String, JsonValue)>, k: &str) -> (r: Option<&'a JsonValue>)
        ensures
            match r {
                Some(v) => input_value(m@, k@) == Some(*v),
                None => input_value(m@, k@) is None,
            },
    {
        let mut i: usize = 0;
        assert(m@.skip(0) =~= m@);
        while i < m.len()
            invariant
                0 <= i <= m.len(),
                input_value(m@, k@) == input_value(m@.skip(i as int), k@),
            decreases m.len() - i,
        {
            assert(m@.skip(i as int)[0] == m@[i as int]);
            if str_eq(m[i].0.as_str(), k) {
                return Some(&m[i].1);
            }
            assert(m@.skip(i as int).drop_first() =~= m@.skip(i + 1));
            i = i + 1;
        }
        None
    }

    /// Whether `m` has an input named `k`.
    fn has_input(m: &Vec<(String, JsonValue)>, k: &str) -> (r: bool)
        ensures
            r == input_names(m@).contains(k@),
    {
        proof {
            lemma_input_value(m@, k@);
        }
        Self::find_input(m, k).is_some()
    }

    /// The names of the inputs of `a`, in order, that `b` lacks.
    fn names_only_in(a: &Vec<(String, JsonValue)>, b: &Vec<(String, JsonValue)>) -> (r: Vec<String>)
        ensures
            crate::text::views_of(r@) == only_in(a@, b@),
    {
        let mut out: Vec<String> = Vec::new();
        let mut i: usize = 0;
        assert(a@.take(0) =~= Seq::<(String, JsonValue)>::empty());
        while i < a.len()
            invariant
                0 <= i <= a.len(),
                crate::text::views_of(out@) == only_in(a@.take(i as int), b@),
            decreases a.len() - i,
        {
            assert(a@.take(i + 1).drop_last() =~= a@.take(i as int));
            assert(a@.take(i + 1).last() == a@[i as int]);
            if !Self::has_input(b, a[i].0.as_str()) {
                let ghost before = out@;
                let name = a[i].0.clone();
                out.push(name);
                assert(crate::text::views_of(out@) =~= crate::text::views_of(before).push(a@[i as int].0@));
            }
            i = i + 1;
        }
        assert(a@.take(a.len() as int) =~= a@);
        out
    }

    /// How the inputs `target` differ from the inputs `source`: the names
    /// only `source` has, those only `target` has (each in its map's
    /// order), and those both have with values that differ, with both
    /// values as shown.
    pub fn compare_inputs(source: &Vec<(String, JsonValue)>, target: &Vec<(String, JsonValue)>) -> (r: EnvDiff)
        ensures
            crate::text::views_of(r.only_in_source@) == only_in(source@, target@),
            crate::text::views_of(r.only_in_target@) == only_in(target@, source@),
            r.different_values@.map_values(|d: (String, String, String)| (d.0@, d.1@, d.2@)) == differing(
                source@,
                target@,
            ),
            source@ == target@ && input_names(source@).no_duplicates() ==> r.only_in_source@.len() == 0
                && r.only_in_target@.len() == 0 && r.different_values@.len() == 0,
    {
        let only_in_source = Self::names_only_in(source, target);
        let only_in_target = Self::names_only_in(target, source);
        let ghost same = source@ == target@ && input_names(source@).no_duplicates();
        let mut diffs: Vec<(String, String, String)> = Vec::new();
        let mut i: usize = 0;
        assert(source@.take(0) =~= Seq::<(String, JsonValue)>::empty());
        while i < source.len()
            invariant
                0 <= i <= source.len(),
                same == (source@ == target@ && input_names(source@).no_duplicates()),
                diffs@.map_values(|d: (String, String, String)| (d.0@, d.1@, d.2@)) == differing(
                    source@.take(i as int),
                    target@,
                ),
                same ==> diffs@.len() == 0,
            decreases source.len() - i,
        {
            assert(source@.take(i + 1).drop_last() =~= source@.take(i as int));
            assert(source@.take(i + 1).last() == source@[i as int]);
            let key = source[i].0.as_str();
            match Self::find_input(target, key) {
                Some(w) => {
                    proof {
                        if same {
                            lemma_input_value_at(source@, i as int);
                        }
                    }
                    if !json_values_equal(&source[i].1, w) {
                        let ghost before = diffs@;
                        let entry = (source[i].0.clone(), Self::value_to_string(&source[i].1), Self::value_to_string(w));
                        let ghost ev = (entry.0@, entry.1@, entry.2@);
                        diffs.push(entry);
                        assert(diffs@.map_values(|d: (String, String, String)| (d.0@, d.1@, d.2@)) =~= before.map_values(
                            |d: (String, String, String)| (d.0@, d.1@, d.2@),
                        ).push(ev));
                    }
                },
                None => {},
            }
            i = i + 1;
        }
        assert(source@.take(source.len() as int) =~= source@);
        proof {
            if same {
                lemma_only_in_self(source@);
            }
        }
        EnvDiff { only_in_source, only_in_target, different_values: diffs }
    }
}

/// A map has no name that it lacks.
proof fn lemma_only_in_self(m: Seq<(String, JsonValue)>)
    ensures
        only_in(m, m).len() == 0,
{
    assert forall|i: int| 0 <= i < m.len() implies input_names(m).contains(#[trigger] m[i].0@) by {
        assert(input_names(m)[i] == m[i].0@);
    }
    lemma_only_in_within(m, m);
}

/// The names of a prefix of `b` are all names of `b`.
proof fn lemma_only_in_within(a: Seq<(String, JsonValue)>, b: Seq<(String, JsonValue)>)
    requires
        forall|i: int| 0 <= i < a.len() ==> input_names(b).contains(#[trigger] a[i].0@),
    ensures
        only_in(a, b).len() == 0,
    decreases a.len(),
{
    if a.len() > 0 {
        lemma_only_in_within(a.drop_last(), b);
        assert(a.last() == a[a.len() - 1]);
    }
}


/// The value under `spec.inputs` of an environment document, if any.
pub open spec fn inputs_value(doc: YamlValue) -> Option<YamlValue> {
    yaml_get_opt(yaml_get(doc, "spec"@), "inputs"@)
}

/// Whether the entries `ms` of a YAML mapping read as the named values `m`,
/// in order.
pub open spec fn entries_read(ms: Seq<(YamlValue, YamlValue)>, m: Seq<(String, JsonValue)>) -> bool {
    ms.len() == m.len() && forall|i: int|
        0 <= i < ms.len() ==> ((#[trigger] ms[i]).0 matches YamlValue::Str(k) && k@ == m[i].0@ && json_of(
            ms[i].1,
            m[i].1,
        ))
}

/// Whether `m` are the inputs that the environment file `file` of `v`
/// holds: the file is an environment whose `spec.inputs` is absent (no
/// inputs) or a mapping from names to values.
pub open spec fn file_inputs(v: Seq<(Seq<char>, Option<Seq<char>>)>, file: Seq<char>, m: Seq<(String, JsonValue)>) -> bool {
    match fs_file(v, file) {
        Some(text) => match yaml_document(text) {
            Ok(doc) => environment_spec(doc) is Some && match inputs_value(doc) {
                None => m.len() == 0,
                Some(YamlValue::Mapping(ms)) => entries_read(ms@, m),
                _ => false,
            },
            Err(_) => false,
        },
        None => false,
    }
}

/// Whether the inputs of the environment file `file` of `v` can be read.
pub open spec fn file_inputs_readable(v: Seq<(Seq<char>, Option<Seq<char>>)>, file: Seq<char>) -> bool {
    match fs_file(v, file) {
        Some(text) => match yaml_document(text) {
            Ok(doc) => environment_spec(doc) is Some && match inputs_value(doc) {
                None => true,
                Some(y) => y is Mapping && json_readable(y),
            },
            Err(_) => false,
        },
        None => false,
    }
}

/// The lines that show how the inputs of two environments of the project
/// `name` differ: the names only in `src` (`os`), only in `tgt` (`ot`),
/// and the differing values (`d`); nothing where they agree.
pub open spec fn diff_lines_spec(
    name: Seq<char>,
    src: Seq<char>,
    tgt: Seq<char>,
    os: Seq<Seq<char>>,
    ot: Seq<Seq<char>>,
    d: Seq<(Seq<char>, Seq<char>, Seq<char>)>,
) -> Seq<LineView> {
    if os.len() == 0 && ot.len() == 0 && d.len() == 0 {
        Seq::empty()
    } else {
        seq![LineView::Subsection("Project: "@ + name)] + (if os.len() > 0 {
            seq![LineView::Dimmed("  Only in "@ + src + ": "@ + joined(os, ", "@))]
        } else {
            Seq::empty()
        }) + (if ot.len() > 0 {
            seq![LineView::Dimmed("  Only in "@ + tgt + ": "@ + joined(ot, ", "@))]
        } else {
            Seq::empty()
        }) + d.map_values(
            |x: (Seq<char>, Seq<char>, Seq<char>)| LineView::Dimmed("  "@ + x.0 + ": "@ + x.1 + " → "@ + x.2),
        ) + seq![LineView::Blank]
    }
}

/// The lines that show how the inputs `b` of the environment `tgt` differ
/// from the inputs `a` of `src`, for the project `name`.
pub open spec fn diff_block(
    name: Seq<char>,
    src: Seq<char>,
    tgt: Seq<char>,
    a: Seq<(String, JsonValue)>,
    b: Seq<(String, JsonValue)>,
) -> Seq<LineView> {
    diff_lines_spec(name, src, tgt, only_in(a, b), only_in(b, a), differing(a, b))
}

/// The environment directory `env` of the project `p` of the infrastructure
/// at `root`.
pub open spec fn env_dir_of(root: Seq<char>, p: ProjectReference, env: Seq<char>) -> Seq<char> {
    join_spec(join_spec(join_spec(root, p.path@), "environments"@), env)
}

/// The environment file in the directory `dir`.
pub open spec fn env_file_in(dir: Seq<char>) -> Seq<char> {
    join_spec(dir, ".pmp.environment.yaml"@)
}

/// Whether comparing the environments `src` and `tgt` of the project `p`
/// showed `block`, and `counted` whether it was compared: not when one of
/// the environments is missing; with nothing shown when a file is missing;
/// else the differences of the inputs read from both files.
pub open spec fn project_outcome(
    v: Seq<(Seq<char>, Option<Seq<char>>)>,
    root: Seq<char>,
    p: ProjectReference,
    src: Seq<char>,
    tgt: Seq<char>,
    counted: bool,
    block: Seq<LineView>,
) -> bool {
    let sd = env_dir_of(root, p, src);
    let td = env_dir_of(root, p, tgt);
    if !(fs_has(v, sd) && fs_has(v, td)) {
        !counted && block.len() == 0
    } else if !(fs_has(v, env_file_in(sd)) && fs_has(v, env_file_in(td))) {
        counted && block.len() == 0
    } else {
        counted && exists|a: Seq<(String, JsonValue)>, b: Seq<(String, JsonValue)>|
            #![trigger file_inputs(v, env_file_in(sd), a), file_inputs(v, env_file_in(td), b)]
            file_inputs(v, env_file_in(sd), a) && file_inputs(v, env_file_in(td), b) && block == diff_block(
                p.name@,
                src,
                tgt,
                a,
                b,
            )
    }
}

/// Whether comparing the environments `src` and `tgt` of the project `p`
/// fails: both files are there and one of them cannot be read.
pub open spec fn project_fails(
    v: Seq<(Seq<char>, Option<Seq<char>>)>,
    root: Seq<char>,
    p: ProjectReference,
    src: Seq<char>,
    tgt: Seq<char>,
) -> bool {
    let sd = env_dir_of(root, p, src);
    let td = env_dir_of(root, p, tgt);
    &&& fs_has(v, sd) && fs_has(v, td)
    &&& fs_has(v, env_file_in(sd)) && fs_has(v, env_file_in(td))
    &&& !file_inputs_readable(v, env_file_in(sd)) || !file_inputs_readable(v, env_file_in(td))
}

/// How many of `cs` hold.
pub open spec fn count_true(cs: Seq<bool>) -> nat
    decreases cs.len(),
{
    if cs.len() == 0 {
        0
    } else {
        count_true(cs.drop_last()) + if cs.last() {
            1nat
        } else {
            0nat
        }
    }
}

/// Whether one of `bs` shows anything.
pub open spec fn any_shown(bs: Seq<Seq<LineView>>) -> bool {
    exists|i: int| 0 <= i < bs.len() && (#[trigger] bs[i]).len() > 0
}

/// The line that ends a comparison of `compared` projects.
pub open spec fn closing_line(compared: nat, differences: bool) -> LineView {
    if differences {
        LineView::Info("Compared "@ + decimal(compared) + " project(s) - differences found"@)
    } else {
        LineView::Success("No differences found between environments"@)
    }
}

/// Whether `cs` and `bs` are the outcomes of comparing the first projects
/// of `refs`, one each.
pub open spec fn outcomes_of(
    v: Seq<(Seq<char>, Option<Seq<char>>)>,
    root: Seq<char>,
    refs: Seq<ProjectReference>,
    src: Seq<char>,
    tgt: Seq<char>,
    cs: Seq<bool>,
    bs: Seq<Seq<LineView>>,
) -> bool {
    &&& cs.len() == bs.len() <= refs.len()
    &&& forall|i: int| 0 <= i < cs.len() ==> project_outcome(v, root, #[trigger] refs[i], src, tgt, cs[i], bs[i])
}

/// Whether `ls`, shown after the header, and `res` are what comparing the
/// environments `src` and `tgt` of the projects `refs` gives: each
/// project's differences in turn, then how it ended; or the lines up to a
/// project whose environments could not be read, and an error.
pub open spec fn comparison_tail(
    v: Seq<(Seq<char>, Option<Seq<char>>)>,
    root: Seq<char>,
    refs: Seq<ProjectReference>,
    src: Seq<char>,
    tgt: Seq<char>,
    ls: Seq<LineView>,
    res: Result<(), String>,
) -> bool {
    if refs.len() == 0 {
        ls == seq![LineView::Dimmed("No projects found."@)] && res is Ok
    } else {
        exists|cs: Seq<bool>, bs: Seq<Seq<LineView>>|
            #[trigger] outcomes_of(v, root, refs, src, tgt, cs, bs) && if cs.len() < refs.len() {
                project_fails(v, root, refs[cs.len() as int], src, tgt) && res is Err && ls == bs.flatten_alt()
            } else {
                res is Ok && ls == bs.flatten_alt().push(closing_line(count_true(cs), any_shown(bs)))
            }
    }
}

/// The first lines of a comparison of the environments `src` and `tgt` of
/// the infrastructure named `infra`.
pub open spec fn comparison_header(infra: Seq<char>, src: Seq<char>, tgt: Seq<char>) -> Seq<LineView> {
    seq![
        LineView::Section("Environment Comparison"@),
        LineView::KeyValue("Infrastructure"@, infra),
        LineView::KeyValue("Source Environment"@, src),
        LineView::KeyValue("Target Environment"@, tgt),
        LineView::Blank,
    ]
}

/// Whether `ls` and `res` are what comparing the environments `src` and
/// `tgt` of every project of the infrastructure nearest at or above `start`
/// gives: the header, then the comparison of the projects found (or an
/// error where they could not be looked for).
pub open spec fn comparison_report(
    v: Seq<(Seq<char>, Option<Seq<char>>)>,
    start: Seq<char>,
    src: Seq<char>,
    tgt: Seq<char>,
    ls: Seq<LineView>,
    res: Result<(), String>,
) -> bool {
    exists|root: Seq<char>|
        #[trigger] is_nearest_collection(v, start, root) && match infrastructure_at(v, root) {
            Some(i) => ls.len() >= 5 && ls.take(5) == comparison_header(i.0, src, tgt) && ((crate::discovery::discovery(v, root) is None && ls.len() == 5
                && res is Err) || exists|refs: Seq<ProjectReference>|
                #[trigger] all_found_projects(v, join_spec(root, "projects"@), root, refs)
                    && crate::discovery::discovery(v, root) == Some(crate::discovery::refs_view(refs)) && comparison_tail(v, root, refs, src, tgt, ls.skip(5), res)),
            None => false,
        }
}

/// A line that shows one input with different values.
fn change_line(name: &str, from: &str, to: &str) -> (r: OutputLine)
    ensures
        r@ == LineView::Dimmed("  "@ + name@ + ": "@ + from@ + " → "@ + to@),
{
    let a = concat("  ", name);
    let b = concat(a.as_str(), ": ");
    let c = concat(b.as_str(), from);
    let d = concat(c.as_str(), " → ");
    OutputLine::Dimmed(concat(d.as_str(), to))
}

impl EnvCommand {
    /// The executor named `name`: OpenTofu, also under the name
    /// `terraform`; any other name is refused.
    pub fn get_executor(name: &str) -> (r: Result<ExecutorKind, String>)
        ensures
            name@ == "opentofu"@ || name@ == "terraform"@ ==> r == Ok::<ExecutorKind, String>(ExecutorKind::OpenTofu),
            name@ != "opentofu"@ && name@ != "terraform"@ ==> (r matches Err(m) && m@ == "Unknown executor: "@ + name@),
    {
        if str_eq(name, "opentofu") || str_eq(name, "terraform") {
            Ok(ExecutorKind::OpenTofu)
        } else {
            Err(concat("Unknown executor: ", name))
        }
    }

    /// The inputs of the environment file `file`: the entries of its
    /// `spec.inputs` mapping, none where it has no such field.
    pub fn environment_inputs(fs: &MemoryFileSystem, file: &str) -> (r: Result<Vec<(String, JsonValue)>, String>)
        ensures
            r matches Ok(m) ==> file_inputs(fs@, file@, m@),
            r is Ok <==> file_inputs_readable(fs@, file@),
    {
        let text = match fs.read_to_string(file) {
            Ok(t) => t,
            Err(e) => {
                return Err(e);
            },
        };
        let doc = match parse_yaml(text.as_str()) {
            Ok(d) => d,
            Err(e) => {
                return Err(e);
            },
        };
        if let Err(e) = EnvironmentResource::from_yaml(&doc) {
            return Err(e);
        }
        let inputs = match doc.get("spec") {
            Some(sp) => sp.get("inputs"),
            None => None,
        };
        match inputs {
            None => Ok(Vec::new()),
            Some(y) => {
                let is_map = match y {
                    YamlValue::Mapping(_) => true,
                    _ => false,
                };
                if is_map {
                    match json_from_yaml(y) {
                        Some(JsonValue::Object(os)) => {
                            proof {
                                crate::json::lemma_json_of_readable(*y, JsonValue::Object(os));
                            }
                            return Ok(os);
                        },
                        _ => {},
                    }
                }
                Err("Invalid environment inputs: expected a mapping of names to values".to_owned())
            },
        }
    }

    /// The lines that show `diff`, the differences between the
    /// environments `src` and `tgt` of the project `name`.
    pub fn diff_lines(name: &str, src: &str, tgt: &str, diff: &EnvDiff) -> (r: Vec<OutputLine>)
        ensures
            lines_view(r@) == diff_lines_spec(
                name@,
                src@,
                tgt@,
                views_of(diff.only_in_source@),
                views_of(diff.only_in_target@),
                diff.different_values@.map_values(|d: (String, String, String)| (d.0@, d.1@, d.2@)),
            ),
    {
        let ghost os = views_of(diff.only_in_source@);
        let ghost ot = views_of(diff.only_in_target@);
        let ghost d = diff.different_values@.map_values(|d: (String, String, String)| (d.0@, d.1@, d.2@));
        let mut out: Vec<OutputLine> = Vec::new();
        if diff.only_in_source.len() == 0 && diff.only_in_target.len() == 0 && diff.different_values.len() == 0 {
            assert(lines_view(out@) =~= Seq::<LineView>::empty());
            return out;
        }
        emit(&mut out, OutputLine::Subsection(concat("Project: ", name)));
        let ghost mut expect: Seq<LineView> = seq![LineView::Subsection("Project: "@ + name@)];
        assert(lines_view(out@) =~= expect);
        if diff.only_in_source.len() > 0 {
            let names = join_strings(&diff.only_in_source, ", ");
            let a = concat("  Only in ", src);
            let b = concat(a.as_str(), ": ");
            emit(&mut out, OutputLine::Dimmed(concat(b.as_str(), names.as_str())));
            proof {
                expect = expect + seq![LineView::Dimmed("  Only in "@ + src@ + ": "@ + joined(os, ", "@))];
            }
            assert(lines_view(out@) =~= expect);
        }
        if diff.only_in_target.len() > 0 {
            let names = join_strings(&diff.only_in_target, ", ");
            let a = concat("  Only in ", tgt);
            let b = concat(a.as_str(), ": ");
            emit(&mut out, OutputLine::Dimmed(concat(b.as_str(), names.as_str())));
            proof {
                expect = expect + seq![LineView::Dimmed("  Only in "@ + tgt@ + ": "@ + joined(ot, ", "@))];
            }
            assert(lines_view(out@) =~= expect);
        }
        let ghost head = expect;
        let ghost dl = d.map_values(
            |x: (Seq<char>, Seq<char>, Seq<char>)| LineView::Dimmed("  "@ + x.0 + ": "@ + x.1 + " → "@ + x.2),
        );
        let mut i: usize = 0;
        while i < diff.different_values.len()
            invariant
                i <= diff.different_values.len(),
                d == diff.different_values@.map_values(|d: (String, String, String)| (d.0@, d.1@, d.2@)),
                dl == d.map_values(
                    |x: (Seq<char>, Seq<char>, Seq<char>)| LineView::Dimmed("  "@ + x.0 + ": "@ + x.1 + " → "@ + x.2),
                ),
                lines_view(out@) == head + dl.take(i as int),
            decreases diff.different_values.len() - i,
        {
            let e = &diff.different_values[i];
            let l = change_line(e.0.as_str(), e.1.as_str(), e.2.as_str());
            let ghost before = lines_view(out@);
            emit(&mut out, l);
            assert(dl[i as int] == l@);
            assert(lines_view(out@) =~= head + dl.take(i + 1));
            i = i + 1;
        }
        emit(&mut out, OutputLine::Blank);
        assert(dl.take(d.len() as int) =~= dl);
        assert(lines_view(out@) =~= head + dl + seq![LineView::Blank]);
        out
    }

    /// Compares the environments `src` and `tgt` of the project `p` of the
    /// infrastructure at `root`: whether it was compared, and the lines that
    /// show the differences of their inputs.
    fn compare_project(fs: &MemoryFileSystem, root: &str, p: &ProjectReference, src: &str, tgt: &str) -> (r: Result<
        (bool, Vec<OutputLine>),
        String,
    >)
        ensures
            match r {
                Ok(o) => project_outcome(fs@, root@, *p, src@, tgt@, o.0, lines_view(o.1@)),
                Err(_) => project_fails(fs@, root@, *p, src@, tgt@),
            },
    {
        let project_dir = join(root, p.path.as_str());
        let envs = join(project_dir.as_str(), "environments");
        let sd = join(envs.as_str(), src);
        let td = join(envs.as_str(), tgt);
        if !fs.path_exists(sd.as_str()) || !fs.path_exists(td.as_str()) {
            let none: Vec<OutputLine> = Vec::new();
            assert(lines_view(none@) =~= Seq::<LineView>::empty());
            return Ok((false, none));
        }
        let sf = join(sd.as_str(), ".pmp.environment.yaml");
        let tf = join(td.as_str(), ".pmp.environment.yaml");
        if !fs.path_exists(sf.as_str()) || !fs.path_exists(tf.as_str()) {
            let none: Vec<OutputLine> = Vec::new();
            assert(lines_view(none@) =~= Seq::<LineView>::empty());
            return Ok((true, none));
        }
        let a = match Self::environment_inputs(fs, sf.as_str()) {
            Ok(m) => m,
            Err(e) => {
                return Err(e);
            },
        };
        let b = match Self::environment_inputs(fs, tf.as_str()) {
            Ok(m) => m,
            Err(e) => {
                return Err(e);
            },
        };
        let diff = Self::compare_inputs(&a, &b);
        let ls = Self::diff_lines(p.name.as_str(), src, tgt, &diff);
        assert(lines_view(ls@) == diff_block(p.name@, src@, tgt@, a@, b@));
        assert(file_inputs(fs@, env_file_in(env_dir_of(root@, *p, src@)), a@));
        assert(file_inputs(fs@, env_file_in(env_dir_of(root@, *p, tgt@)), b@));
        Ok((true, ls))
    }

    /// Compares the inputs of the environments `source_env` and
    /// `target_env` of every project of the infrastructure at or above
    /// `current_dir`: the lines shown, and the error that ended it, if any.
    /// Problems with single project files go to `warnings`.
    pub fn execute_diff(
        fs: &MemoryFileSystem,
        warnings: &mut Vec<String>,
        current_dir: &str,
        source_env: &str,
        target_env: &str,
    ) -> (r: (Vec<OutputLine>, Result<(), String>))
        ensures
            no_collection_above(fs@, current_dir@) ==> lines_view(r.0@) == seq![
                LineView::Section("Environment Comparison"@),
            ] && (r.1 matches Err(e) && e@ == "Infrastructure is required. Run 'pmp init' first."@),
            !no_collection_above(fs@, current_dir@) ==> comparison_report(
                fs@,
                current_dir@,
                source_env@,
                target_env@,
                lines_view(r.0@),
                r.1,
            ),
    {
        let mut out: Vec<OutputLine> = Vec::new();
        emit(&mut out, OutputLine::Section("Environment Comparison".to_owned()));
        let found = match CollectionDiscovery::find_collection_in_path(fs, current_dir) {
            Ok(f) => f,
            Err(e) => {
                return (out, Err(e));
            },
        };
        let (infrastructure, root) = match found {
            Some(x) => x,
            None => {
                assert(lines_view(out@) =~= seq![LineView::Section("Environment Comparison"@)]);
                return (out, Err("Infrastructure is required. Run 'pmp init' first.".to_owned()));
            },
        };
        proof {
            if no_collection_above(fs@, current_dir@) {
                let k = choose|k: int|
                    0 <= k < crate::discovery::ancestors(current_dir@).len()
                        && crate::discovery::ancestors(current_dir@)[k] == root@
                        && infrastructure_at(fs@, root@) is Some
                        && forall|j: int|
                        0 <= j < k ==> infrastructure_at(
                            fs@,
                            #[trigger] crate::discovery::ancestors(current_dir@)[j],
                        ) is None;
                assert(infrastructure_at(fs@, crate::discovery::ancestors(current_dir@)[k]) is None);
            }
        }
        let name = infrastructure.metadata.name.clone();
        let ghost nm = name@;
        assert(nm == infrastructure_view(infrastructure).0);
        emit(&mut out, OutputLine::KeyValue("Infrastructure".to_owned(), name));
        emit(&mut out, OutputLine::KeyValue("Source Environment".to_owned(), source_env.to_owned()));
        emit(&mut out, OutputLine::KeyValue("Target Environment".to_owned(), target_env.to_owned()));
        emit(&mut out, OutputLine::Blank);
        let ghost head = lines_view(out@);
        assert(head =~= comparison_header(nm, source_env@, target_env@));
        assert(is_nearest_collection(fs@, current_dir@, root@));
        let projects = match CollectionDiscovery::discover_projects(fs, warnings, root.as_str()) {
            Ok(p) => p,
            Err(e) => {
                assert(lines_view(out@).take(5) =~= head);
                return (out, Err(e));
            },
        };
        assert(all_found_projects(fs@, join_spec(root@, "projects"@), root@, projects@));
        if projects.len() == 0 {
            emit(&mut out, OutputLine::Dimmed("No projects found.".to_owned()));
            assert(lines_view(out@).take(5) =~= head);
            assert(lines_view(out@).skip(5) =~= seq![LineView::Dimmed("No projects found."@)]);
            return (out, Ok(()));
        }
        let ghost refs = projects@;
        let ghost mut cs: Seq<bool> = Seq::empty();
        let ghost mut bs: Seq<Seq<LineView>> = Seq::empty();
        let mut compared: usize = 0;
        let mut differences = false;
        let mut i: usize = 0;
        assert(bs.flatten_alt() =~= Seq::<LineView>::empty());
        assert(lines_view(out@) =~= head + bs.flatten_alt());
        while i < projects.len()
            invariant
                i <= projects.len(),
                refs == projects@,
                cs.len() == i,
                outcomes_of(fs@, root@, refs, source_env@, target_env@, cs, bs),
                compared == count_true(cs),
                compared <= i,
                differences == any_shown(bs),
                head == comparison_header(nm, source_env@, target_env@),
                lines_view(out@) == head + bs.flatten_alt(),
                !no_collection_above(fs@, current_dir@),
                is_nearest_collection(fs@, current_dir@, root@),
                infrastructure_at(fs@, root@) == Some(infrastructure_view(infrastructure)),
                nm == infrastructure_view(infrastructure).0,
                all_found_projects(fs@, join_spec(root@, "projects"@), root@, refs),
                crate::discovery::discovery(fs@, root@) == Some(crate::discovery::refs_view(refs)),
            decreases projects.len() - i,
        {
            match Self::compare_project(fs, root.as_str(), &projects[i], source_env, target_env) {
                Ok((counted, block)) => {
                    let ghost bv = lines_view(block@);
                    let ghost before = lines_view(out@);
                    if counted {
                        compared = compared + 1;
                    }
                    if block.len() > 0 {
                        differences = true;
                    }
                    let mut rest = block;
                    out.append(&mut rest);
                    proof {
                        assert(lines_view(out@) =~= before + bv);
                        let cs2 = cs.push(counted);
                        let bs2 = bs.push(bv);
                        assert(cs2.drop_last() =~= cs);
                        assert(bs2.drop_last() =~= bs);
                        assert(bs2.flatten_alt() == bs.flatten_alt() + bv);
                        assert(lines_view(out@) =~= head + bs2.flatten_alt());
                        assert(forall|j: int| 0 <= j < cs2.len() ==> project_outcome(fs@, root@, #[trigger] refs[j], source_env@, target_env@, cs2[j], bs2[j]));
                        if bv.len() > 0 {
                            assert(bs2[bs.len() as int] == bv);
                        }
                        if any_shown(bs) {
                            let w = choose|w: int| 0 <= w < bs.len() && (#[trigger] bs[w]).len() > 0;
                            assert(bs2[w] == bs[w]);
                        }
                        if any_shown(bs2) && bv.len() == 0 {
                            let w = choose|w: int| 0 <= w < bs2.len() && (#[trigger] bs2[w]).len() > 0;
                            assert(w < bs.len());
                            assert(bs[w] == bs2[w]);
                        }
                        cs = cs2;
                        bs = bs2;
                    }
                },
                Err(e) => {
                    proof {
                        assert(lines_view(out@).take(5) =~= head);
                        assert(lines_view(out@).skip(5) =~= bs.flatten_alt());
                        assert(outcomes_of(fs@, root@, refs, source_env@, target_env@, cs, bs));
                        assert(comparison_tail(fs@, root@, refs, source_env@, target_env@, lines_view(out@).skip(5), Err::<(), String>(e)));
                    }
                    return (out, Err(e));
                },
            }
            i = i + 1;
        }
        let closing = if differences {
            let a = concat("Compared ", usize_to_string(compared).as_str());
            OutputLine::Info(concat(a.as_str(), " project(s) - differences found"))
        } else {
            OutputLine::Success("No differences found between environments".to_owned())
        };
        assert(closing@ == closing_line(count_true(cs), any_shown(bs)));
        emit(&mut out, closing);
        proof {
            assert(lines_view(out@).take(5) =~= head);
            assert(lines_view(out@).skip(5) =~= bs.flatten_alt().push(closing_line(count_true(cs), any_shown(bs))));
            assert(outcomes_of(fs@, root@, refs, source_env@, target_env@, cs, bs));
        }
        (out, Ok(()))
    }
}

} // verus!
