//! The `env variables` command: the inputs of every environment, grouped by
//! environment and then by input name.

use vstd::prelude::*;
use crate::ci::opt_view;
use crate::discovery::{all_found_projects, infrastructure_at, is_nearest_collection, no_collection_above, CollectionDiscovery};
use crate::env_command::{env_file_in, file_inputs, file_inputs_readable, EnvCommand};
use crate::env_sync::{envs_dir_of, matching, readings_of};
use crate::fs::{children_spec, fs_has, fs_is_dir, MemoryFileSystem};
use crate::json::{json_text, json_to_string, JsonValue};
use crate::output::{emit, lines_view, LineView, OutputLine};
use crate::paths::{file_name, file_name_spec, join, join_spec};
use crate::resources::{infrastructure_view, ProjectReference};
use crate::text::{concat, concat3, str_eq, views_of};

verus! {

broadcast use vstd::string::group_string_axioms;

/// One listed input: environment, project, input name and value as shown.
pub type Listed = (Seq<char>, Seq<char>, Seq<char>, Seq<char>);

/// The inputs of each environment: the environment, and each input name
/// with the projects that set it and their values.
pub type VarGroups = Seq<(Seq<char>, Seq<(Seq<char>, Seq<(Seq<char>, Seq<char>)>)>)>;

/// How the value of an input is listed: a string as it is, anything else
/// as compact JSON.
pub open spec fn listed_value(v: JsonValue) -> Seq<char> {
    match v {
        JsonValue::Str(s) => s@,
        _ => json_text(v),
    }
}

/// The environments listed among the directories `dirs` of the project
/// named `name`: those whose file exists and whose name passes
/// `env_filter`, each with the project's name, its own name and its file.
pub open spec fn listed_envs(
    v: Seq<(Seq<char>, Option<Seq<char>>)>,
    name: Seq<char>,
    dirs: Seq<Seq<char>>,
    env_filter: Option<Seq<char>>,
) -> Seq<(Seq<char>, Seq<char>, Seq<char>)>
    decreases dirs.len(),
{
    if dirs.len() == 0 {
        Seq::empty()
    } else {
        let d = dirs.last();
        listed_envs(v, name, dirs.drop_last(), env_filter) + if fs_has(v, env_file_in(d)) && (
        env_filter matches Some(e) ==> file_name_spec(d) == e) {
            seq![(name, file_name_spec(d), env_file_in(d))]
        } else {
            Seq::empty()
        }
    }
}

/// The environments listed for the projects `ps` of the infrastructure at
/// `root`, in order.
pub open spec fn variable_sources(
    v: Seq<(Seq<char>, Option<Seq<char>>)>,
    root: Seq<char>,
    ps: Seq<ProjectReference>,
    env_filter: Option<Seq<char>>,
) -> Seq<(Seq<char>, Seq<char>, Seq<char>)>
    decreases ps.len(),
{
    if ps.len() == 0 {
        Seq::empty()
    } else {
        let ed = envs_dir_of(root, ps.last());
        variable_sources(v, root, ps.drop_last(), env_filter) + if fs_has(v, ed) {
            listed_envs(v, ps.last().name@, children_spec(v, ed), env_filter)
        } else {
            Seq::empty()
        }
    }
}

/// Whether listing the inputs of the projects `ps` fails: one has an
/// environments path that is no directory, or a listed environment file
/// cannot be read.
pub open spec fn listing_fails(
    v: Seq<(Seq<char>, Option<Seq<char>>)>,
    root: Seq<char>,
    ps: Seq<ProjectReference>,
    env_filter: Option<Seq<char>>,
) -> bool {
    ||| exists|i: int|
        0 <= i < ps.len() && fs_has(v, envs_dir_of(root, #[trigger] ps[i])) && !fs_is_dir(v, envs_dir_of(root, ps[i]))
    ||| exists|i: int|
        0 <= i < variable_sources(v, root, ps, env_filter).len() && !file_inputs_readable(
            v,
            (#[trigger] variable_sources(v, root, ps, env_filter)[i]).2,
        )
}

/// The files of the listed environments `srcs`.
pub open spec fn source_files(srcs: Seq<(Seq<char>, Seq<char>, Seq<char>)>) -> Seq<Seq<char>> {
    srcs.map_values(|s: (Seq<char>, Seq<char>, Seq<char>)| s.2)
}

/// The inputs `m` of one listed environment `src`.
pub open spec fn listed_of(src: (Seq<char>, Seq<char>, Seq<char>), m: Seq<(String, JsonValue)>) -> Seq<Listed> {
    m.map_values(|e: (String, JsonValue)| (src.1, src.0, e.0@, listed_value(e.1)))
}

/// The inputs read as `rs` from the environments `srcs`, in order.
pub open spec fn all_listed(srcs: Seq<(Seq<char>, Seq<char>, Seq<char>)>, rs: Seq<Seq<(String, JsonValue)>>) -> Seq<Listed>
    decreases rs.len(),
{
    if rs.len() == 0 || srcs.len() < rs.len() {
        Seq::empty()
    } else {
        all_listed(srcs, rs.drop_last()) + listed_of(srcs[rs.len() - 1], rs.last())
    }
}

/// The index of the last entry of `s` for `k` that comes first among the
/// entries for `k`, or `-1`.
pub open spec fn group_index<X>(s: Seq<(Seq<char>, X)>, k: Seq<char>) -> int
    decreases s.len(),
{
    if s.len() == 0 {
        -1
    } else if group_index(s.drop_last(), k) >= 0 {
        group_index(s.drop_last(), k)
    } else if s.last().0 == k {
        s.len() - 1
    } else {
        -1
    }
}

/// `ks` with `pv` added to the input `key`, which starts empty.
pub open spec fn add_var(
    ks: Seq<(Seq<char>, Seq<(Seq<char>, Seq<char>)>)>,
    key: Seq<char>,
    pv: (Seq<char>, Seq<char>),
) -> Seq<(Seq<char>, Seq<(Seq<char>, Seq<char>)>)> {
    let j = group_index(ks, key);
    if j >= 0 {
        ks.update(j, (key, ks[j].1.push(pv)))
    } else {
        ks.push((key, seq![pv]))
    }
}

/// The listed inputs `qs` grouped by environment and then by input name,
/// each group in the order it first occurs.
pub open spec fn group_vars(qs: Seq<Listed>) -> VarGroups
    decreases qs.len(),
{
    if qs.len() == 0 {
        Seq::empty()
    } else {
        let gs = group_vars(qs.drop_last());
        let q = qs.last();
        let i = group_index(gs, q.0);
        if i >= 0 {
            gs.update(i, (q.0, add_var(gs[i].1, q.2, (q.1, q.3))))
        } else {
            gs.push((q.0, seq![(q.2, seq![(q.1, q.3)])]))
        }
    }
}

/// The lines of one input: its name, then each project's value.
pub open spec fn key_block(k: (Seq<char>, Seq<(Seq<char>, Seq<char>)>)) -> Seq<LineView> {
    seq![LineView::Dimmed("  "@ + k.0)] + k.1.map_values(
        |pv: (Seq<char>, Seq<char>)| LineView::Dimmed("    "@ + pv.0 + " = "@ + pv.1),
    )
}

/// The lines of one environment: its name, its inputs, a blank line.
pub open spec fn env_block(g: (Seq<char>, Seq<(Seq<char>, Seq<(Seq<char>, Seq<char>)>)>)) -> Seq<LineView> {
    seq![LineView::Subsection("Environment: "@ + g.0)] + g.1.map_values(
        |k: (Seq<char>, Seq<(Seq<char>, Seq<char>)>)| key_block(k),
    ).flatten_alt() + seq![LineView::Blank]
}

/// The lines that list the groups `gs`.
pub open spec fn variables_lines(gs: VarGroups) -> Seq<LineView> {
    gs.map_values(|g: (Seq<char>, Seq<(Seq<char>, Seq<(Seq<char>, Seq<char>)>)>)| env_block(g)).flatten_alt()
}

/// The first lines of the listing for the infrastructure named `infra`.
pub open spec fn variables_header(infra: Seq<char>, env: Option<Seq<char>>) -> Seq<LineView> {
    seq![LineView::Section("Environment Variables"@), LineView::KeyValue("Infrastructure"@, infra)] + match env {
        Some(e) => seq![LineView::KeyValue("Environment"@, e)],
        None => Seq::empty(),
    } + seq![LineView::Blank]
}

/// Whether `ls` and `res` are what the `env variables` command gives for
/// the infrastructure nearest at or above `start`, with the environment
/// filter `env` and the project filter `filter`.
pub open spec fn variables_report(
    v: Seq<(Seq<char>, Option<Seq<char>>)>,
    start: Seq<char>,
    env: Option<Seq<char>>,
    filter: Option<Seq<char>>,
    ls: Seq<LineView>,
    res: Result<(), String>,
) -> bool {
    exists|root: Seq<char>|
        #[trigger] is_nearest_collection(v, start, root) && match infrastructure_at(v, root) {
            Some(i) => {
                let h = variables_header(i.0, env);
                ls.len() >= h.len() && ls.take(h.len() as int) == h && ((crate::discovery::discovery(v, root) is None && ls.len() == h.len() && res is Err)
                    || exists|refs: Seq<ProjectReference>|
                    #[trigger] all_found_projects(v, join_spec(root, "projects"@), root, refs) && crate::discovery::discovery(v, root) == Some(crate::discovery::refs_view(refs)) && {
                        let rest = ls.skip(h.len() as int);
                        if refs.len() == 0 {
                            rest == seq![LineView::Dimmed("No projects found."@)] && res is Ok
                        } else if matching(refs, filter).len() == 0 {
                            rest == seq![LineView::Dimmed("No matching projects found."@)] && res is Ok
                        } else {
                            let srcs = variable_sources(v, root, matching(refs, filter), env);
                            match res {
                                Ok(()) => exists|rs: Seq<Seq<(String, JsonValue)>>|
                                    #[trigger] readings_of(v, source_files(srcs), rs)
                                        && rest == variables_lines(group_vars(all_listed(srcs, rs))),
                                Err(_) => rest.len() == 0 && listing_fails(v, root, matching(refs, filter), env),
                            }
                        }
                    })
            },
            None => false,
        }
}

/// The plain values of (project, value) pairs.
pub open spec fn pvs_view(v: Seq<(String, String)>) -> Seq<(Seq<char>, Seq<char>)> {
    v.map_values(|e: (String, String)| (e.0@, e.1@))
}

/// The plain values of inputs with their (project, value) pairs.
pub open spec fn keys_view(v: Seq<(String, Vec<(String, String)>)>) -> Seq<(Seq<char>, Seq<(Seq<char>, Seq<char>)>)> {
    v.map_values(|e: (String, Vec<(String, String)>)| (e.0@, pvs_view(e.1@)))
}

/// The plain values of environments with their inputs.
pub open spec fn groups_view(v: Seq<(String, Vec<(String, Vec<(String, String)>)>)>) -> VarGroups {
    v.map_values(|e: (String, Vec<(String, Vec<(String, String)>)>)| (e.0@, keys_view(e.1@)))
}

/// The plain values of listed inputs.
pub open spec fn listed_view(v: Seq<(String, String, String, String)>) -> Seq<Listed> {
    v.map_values(|e: (String, String, String, String)| (e.0@, e.1@, e.2@, e.3@))
}

/// Changing an entry's value keeps where each name is found.
pub proof fn lemma_group_index_update<X>(s: Seq<(Seq<char>, X)>, i: int, x: X, k: Seq<char>)
    requires
        0 <= i < s.len(),
    ensures
        group_index(s.update(i, (s[i].0, x)), k) == group_index(s, k),
    decreases s.len(),
{
    let t = s.update(i, (s[i].0, x));
    if i < s.len() - 1 {
        assert(t.drop_last() =~= s.drop_last().update(i, (s[i].0, x)));
        lemma_group_index_update(s.drop_last(), i, x, k);
    } else {
        assert(t.drop_last() =~= s.drop_last());
    }
}

/// `group_index` is `-1` or the index of an entry for `k`.
pub proof fn lemma_group_index<X>(s: Seq<(Seq<char>, X)>, k: Seq<char>)
    ensures
        -1 <= group_index(s, k) < s.len(),
        group_index(s, k) >= 0 ==> s[group_index(s, k)].0 == k,
        group_index(s, k) < 0 ==> forall|j: int| 0 <= j < s.len() ==> (#[trigger] s[j]).0 != k,
    decreases s.len(),
{
    if s.len() > 0 {
        lemma_group_index(s.drop_last(), k);
        assert forall|j: int| 0 <= j < s.len() - 1 implies (#[trigger] s[j]) == s.drop_last()[j] by {}
    }
}

/// The index that `group_index` gives, found by a walk from the front.
fn find_group<X>(s: &Vec<(String, X)>, k: &str) -> (r: Option<usize>)
    ensures
        match r {
            Some(i) => group_index(s@.map_values(|e: (String, X)| (e.0@, 0int)), k@) == i && i < s@.len()
                && s@[i as int].0@ == k@,
            None => group_index(s@.map_values(|e: (String, X)| (e.0@, 0int)), k@) == -1,
        },
{
    let ghost sv = s@.map_values(|e: (String, X)| (e.0@, 0int));
    proof {
        lemma_group_index(sv, k@);
    }
    let mut i: usize = 0;
    while i < s.len()
        invariant
            i <= s.len(),
            sv == s@.map_values(|e: (String, X)| (e.0@, 0int)),
            forall|j: int| 0 <= j < i ==> (#[trigger] sv[j]).0 != k@,
            -1 <= group_index(sv, k@) < sv.len(),
            group_index(sv, k@) >= 0 ==> sv[group_index(sv, k@)].0 == k@,
            group_index(sv, k@) < 0 ==> forall|j: int| 0 <= j < sv.len() ==> (#[trigger] sv[j]).0 != k@,
        decreases s.len() - i,
    {
        assert(sv[i as int].0 == s@[i as int].0@);
        if str_eq(s[i].0.as_str(), k) {
            proof {
                lemma_group_first(sv, i as int, k@);
            }
            return Some(i);
        }
        i = i + 1;
    }
    None
}

/// Where the first entry for `k` is at `i`, `group_index` gives `i`.
proof fn lemma_group_first<X>(s: Seq<(Seq<char>, X)>, i: int, k: Seq<char>)
    requires
        0 <= i < s.len(),
        s[i].0 == k,
        forall|j: int| 0 <= j < i ==> (#[trigger] s[j]).0 != k,
    ensures
        group_index(s, k) == i,
    decreases s.len(),
{
    if i < s.len() - 1 {
        lemma_group_first(s.drop_last(), i, k);
    } else {
        lemma_group_index(s.drop_last(), k);
        assert forall|j: int| 0 <= j < s.drop_last().len() implies (#[trigger] s.drop_last()[j]).0 != k by {
            assert(s.drop_last()[j] == s[j]);
        }
    }
}

/// `group_index` looks at the names only.
proof fn lemma_group_index_names<X, Y>(s: Seq<(Seq<char>, X)>, t: Seq<(Seq<char>, Y)>, k: Seq<char>)
    requires
        s.len() == t.len(),
        forall|j: int| 0 <= j < s.len() ==> (#[trigger] s[j]).0 == t[j].0,
    ensures
        group_index(s, k) == group_index(t, k),
    decreases s.len(),
{
    if s.len() > 0 {
        lemma_group_index_names(s.drop_last(), t.drop_last(), k);
    }
}

/// `pv` added to the input `key` of `ks`.
fn add_var_exec(ks: Vec<(String, Vec<(String, String)>)>, key: String, pv: (String, String)) -> (r: Vec<
    (String, Vec<(String, String)>),
>)
    ensures
        keys_view(r@) == add_var(keys_view(ks@), key@, (pv.0@, pv.1@)),
{
    let ghost kv = keys_view(ks@);
    let ghost pvv = (pv.0@, pv.1@);
    let mut ks = ks;
    proof {
        lemma_group_index_names(ks@.map_values(|e: (String, Vec<(String, String)>)| (e.0@, 0int)), kv, key@);
    }
    match find_group(&ks, key.as_str()) {
        Some(j) => {
            let (k, mut pvs) = ks.remove(j);
            let ghost old_pvs = pvs@;
            pvs.push(pv);
            assert(pvs_view(pvs@) =~= pvs_view(old_pvs).push(pvv));
            ks.insert(j, (k, pvs));
            assert(keys_view(ks@) =~= kv.update(j as int, (key@, kv[j as int].1.push(pvv))));
            ks
        },
        None => {
            let mut pvs: Vec<(String, String)> = Vec::new();
            pvs.push(pv);
            assert(pvs_view(pvs@) =~= seq![pvv]);
            ks.push((key, pvs));
            assert(keys_view(ks@) =~= kv.push((key@, seq![pvv])));
            ks
        },
    }
}

impl EnvCommand {
    /// How the value `v` of an input is listed.
    pub fn value_listed(v: &JsonValue) -> (r: String)
        ensures
            r@ == listed_value(*v),
    {
        match v {
            JsonValue::Str(s) => s.clone(),
            _ => json_to_string(v),
        }
    }

    /// The listed inputs grouped by environment and then by input name.
    pub fn group_variables(qs: Vec<(String, String, String, String)>) -> (r: Vec<(String, Vec<(String, Vec<(String, String)>)>)>)
        ensures
            groups_view(r@) == group_vars(listed_view(qs@)),
    {
        let ghost qv = listed_view(qs@);
        assert(qv.len() == qs.len());
        let mut rest = qs;
        let mut gs: Vec<(String, Vec<(String, Vec<(String, String)>)>)> = Vec::new();
        let mut i: usize = 0;
        assert(qv.take(0) =~= Seq::<Listed>::empty());
        while rest.len() > 0
            invariant
                i + rest@.len() == qv.len(),
                qv.len() <= usize::MAX,
                listed_view(rest@) == qv.skip(i as int),
                groups_view(gs@) == group_vars(qv.take(i as int)),
            decreases rest.len(),
        {
            let ghost rv = rest@;
            let ghost gv = groups_view(gs@);
            let q = rest.remove(0);
            proof {
                assert(listed_view(rv)[0] == qv.skip(i as int)[0]);
                assert forall|j: int| 0 <= j < rest@.len() implies listed_view(rest@)[j] == qv.skip(i + 1)[j] by {
                    assert(rest@[j] == rv[j + 1]);
                    assert(listed_view(rv)[j + 1] == qv.skip(i as int)[j + 1]);
                }
                assert(listed_view(rest@) =~= qv.skip(i + 1));
                assert(qv.take(i + 1).drop_last() =~= qv.take(i as int));
                assert(qv.take(i + 1).last() == qv[i as int]);
                assert(qv[i as int] == (q.0@, q.1@, q.2@, q.3@));
                lemma_group_index_names(gs@.map_values(|e: (String, Vec<(String, Vec<(String, String)>)>)| (e.0@, 0int)), gv, q.0@);
            }
            let (env, project, key, value) = q;
            match find_group(&gs, env.as_str()) {
                Some(gi) => {
                    let (e, ks) = gs.remove(gi);
                    let ks2 = add_var_exec(ks, key, (project, value));
                    let ghost k2 = keys_view(ks2@);
                    gs.insert(gi, (e, ks2));
                    assert(groups_view(gs@) =~= gv.update(gi as int, (env@, k2)));
                },
                None => {
                    let mut pvs: Vec<(String, String)> = Vec::new();
                    let ghost pvv = (project@, value@);
                    pvs.push((project, value));
                    assert(pvs_view(pvs@) =~= seq![pvv]);
                    let mut ks: Vec<(String, Vec<(String, String)>)> = Vec::new();
                    let ghost keyv = key@;
                    ks.push((key, pvs));
                    assert(keys_view(ks@) =~= seq![(keyv, seq![pvv])]);
                    let ghost envv = env@;
                    gs.push((env, ks));
                    assert(groups_view(gs@) =~= gv.push((envv, seq![(keyv, seq![pvv])])));
                },
            }
            i = i + 1;
        }
        assert(qv.take(qv.len() as int) =~= qv);
        gs
    }

    /// The lines that list the groups `gs`.
    pub fn display_variables(gs: &Vec<(String, Vec<(String, Vec<(String, String)>)>)>) -> (r: Vec<OutputLine>)
        ensures
            lines_view(r@) == variables_lines(groups_view(gs@)),
    {
        let ghost gv = groups_view(gs@);
        let mut out: Vec<OutputLine> = Vec::new();
        let mut i: usize = 0;
        assert(gv.take(0).map_values(|g: (Seq<char>, Seq<(Seq<char>, Seq<(Seq<char>, Seq<char>)>)>)| env_block(g)).flatten_alt() =~= Seq::<LineView>::empty());
        while i < gs.len()
            invariant
                i <= gs.len(),
                gv == groups_view(gs@),
                lines_view(out@) == gv.take(i as int).map_values(
                    |g: (Seq<char>, Seq<(Seq<char>, Seq<(Seq<char>, Seq<char>)>)>)| env_block(g),
                ).flatten_alt(),
            decreases gs.len() - i,
        {
            let ghost before = lines_view(out@);
            let g = &gs[i];
            let ghost g_v = gv[i as int];
            emit(&mut out, OutputLine::Subsection(concat("Environment: ", g.0.as_str())));
            let ghost kv = keys_view(g.1@);
            let ghost head = lines_view(out@);
            let mut j: usize = 0;
            while j < g.1.len()
                invariant
                    j <= g.1.len(),
                    kv == keys_view(g.1@),
                    lines_view(out@) == head + kv.take(j as int).map_values(
                        |k: (Seq<char>, Seq<(Seq<char>, Seq<char>)>)| key_block(k),
                    ).flatten_alt(),
                decreases g.1.len() - j,
            {
                let ghost before_k = lines_view(out@);
                let k = &g.1[j];
                emit(&mut out, OutputLine::Dimmed(concat("  ", k.0.as_str())));
                let ghost kh = lines_view(out@);
                let ghost pv = pvs_view(k.1@);
                let mut t: usize = 0;
                while t < k.1.len()
                    invariant
                        t <= k.1.len(),
                        pv == pvs_view(k.1@),
                        lines_view(out@) == kh + pv.take(t as int).map_values(
                            |p: (Seq<char>, Seq<char>)| LineView::Dimmed("    "@ + p.0 + " = "@ + p.1),
                        ),
                    decreases k.1.len() - t,
                {
                    let a = concat3("    ", k.1[t].0.as_str(), " = ");
                    emit(&mut out, OutputLine::Dimmed(concat(a.as_str(), k.1[t].1.as_str())));
                    assert(pv.take(t + 1).map_values(
                        |p: (Seq<char>, Seq<char>)| LineView::Dimmed("    "@ + p.0 + " = "@ + p.1),
                    ) =~= pv.take(t as int).map_values(
                        |p: (Seq<char>, Seq<char>)| LineView::Dimmed("    "@ + p.0 + " = "@ + p.1),
                    ).push(LineView::Dimmed("    "@ + pv[t as int].0 + " = "@ + pv[t as int].1)));
                    t = t + 1;
                }
                assert(pv.take(pv.len() as int) =~= pv);
                proof {
                    let m = kv.take(j + 1).map_values(|k: (Seq<char>, Seq<(Seq<char>, Seq<char>)>)| key_block(k));
                    assert(m =~= kv.take(j as int).map_values(|k: (Seq<char>, Seq<(Seq<char>, Seq<char>)>)| key_block(k)).push(key_block(kv[j as int])));
                    assert(m.drop_last() =~= kv.take(j as int).map_values(|k: (Seq<char>, Seq<(Seq<char>, Seq<char>)>)| key_block(k)));
                    assert(kv[j as int] == (k.0@, pv));
                    assert(lines_view(out@) =~= before_k + key_block(kv[j as int]));
                }
                j = j + 1;
            }
            emit(&mut out, OutputLine::Blank);
            proof {
                assert(kv.take(kv.len() as int) =~= kv);
                assert(g_v == (g.0@, kv));
                assert(lines_view(out@) =~= before + env_block(g_v));
                let m = gv.take(i + 1).map_values(|g: (Seq<char>, Seq<(Seq<char>, Seq<(Seq<char>, Seq<char>)>)>)| env_block(g));
                assert(m =~= gv.take(i as int).map_values(|g: (Seq<char>, Seq<(Seq<char>, Seq<(Seq<char>, Seq<char>)>)>)| env_block(g)).push(env_block(g_v)));
                assert(m.drop_last() =~= gv.take(i as int).map_values(|g: (Seq<char>, Seq<(Seq<char>, Seq<(Seq<char>, Seq<char>)>)>)| env_block(g)));
            }
            i = i + 1;
        }
        assert(gv.take(gv.len() as int) =~= gv);
        out
    }
}

/// The plain values of listed environments.
pub open spec fn sources_view(v: Seq<(String, String, String)>) -> Seq<(Seq<char>, Seq<char>, Seq<char>)> {
    v.map_values(|e: (String, String, String)| (e.0@, e.1@, e.2@))
}

/// The environments listed among the directories `dirs` of the project
/// named `name`.
fn listed_envs_exec(fs: &MemoryFileSystem, name: &str, dirs: &Vec<String>, env_filter: Option<&str>) -> (r: Vec<
    (String, String, String),
>)
    ensures
        sources_view(r@) == listed_envs(fs@, name@, views_of(dirs@), opt_view(env_filter)),
{
    let ghost dv = views_of(dirs@);
    let mut out: Vec<(String, String, String)> = Vec::new();
    let mut i: usize = 0;
    while i < dirs.len()
        invariant
            i <= dirs.len(),
            dv == views_of(dirs@),
            sources_view(out@) == listed_envs(fs@, name@, dv.take(i as int), opt_view(env_filter)),
        decreases dirs.len() - i,
    {
        assert(dv.take(i + 1).drop_last() =~= dv.take(i as int));
        assert(dv.take(i + 1).last() == dirs@[i as int]@);
        let f = join(dirs[i].as_str(), ".pmp.environment.yaml");
        if fs.path_exists(f.as_str()) {
            let env_name = file_name(dirs[i].as_str());
            let keep = match env_filter {
                Some(e) => str_eq(env_name.as_str(), e),
                None => true,
            };
            if keep {
                let ghost before = sources_view(out@);
                let ghost entry = (name@, env_name@, f@);
                out.push((name.to_owned(), env_name, f));
                assert(sources_view(out@) =~= before.push(entry));
            }
        }
        i = i + 1;
    }
    assert(dv.take(dirs.len() as int) =~= dv);
    out
}

/// The environments listed for the projects `ps` of the infrastructure at
/// `root`.
fn variable_sources_exec(
    fs: &MemoryFileSystem,
    root: &str,
    ps: &Vec<ProjectReference>,
    env_filter: Option<&str>,
) -> (r: Result<Vec<(String, String, String)>, String>)
    ensures
        r matches Ok(v) ==> sources_view(v@) == variable_sources(fs@, root@, ps@, opt_view(env_filter)),
        r is Err ==> exists|i: int|
            0 <= i < ps@.len() && fs_has(fs@, envs_dir_of(root@, #[trigger] ps@[i])) && !fs_is_dir(
                fs@,
                envs_dir_of(root@, ps@[i]),
            ),
{
    let mut out: Vec<(String, String, String)> = Vec::new();
    let mut i: usize = 0;
    while i < ps.len()
        invariant
            i <= ps.len(),
            sources_view(out@) == variable_sources(fs@, root@, ps@.take(i as int), opt_view(env_filter)),
        decreases ps.len() - i,
    {
        assert(ps@.take(i + 1).drop_last() =~= ps@.take(i as int));
        assert(ps@.take(i + 1).last() == ps@[i as int]);
        let p = &ps[i];
        let project_dir = join(root, p.path.as_str());
        let envs = join(project_dir.as_str(), "environments");
        if fs.path_exists(envs.as_str()) {
            let dirs = match fs.read_dir(envs.as_str()) {
                Ok(d) => d,
                Err(e) => {
                    assert(fs_has(fs@, envs_dir_of(root@, ps@[i as int])));
                    return Err(e);
                },
            };
            let found = listed_envs_exec(fs, p.name.as_str(), &dirs, env_filter);
            let ghost before = sources_view(out@);
            let ghost fv = sources_view(found@);
            let mut rest = found;
            out.append(&mut rest);
            assert(sources_view(out@) =~= before + fv);
        } else {
            assert(variable_sources(fs@, root@, ps@.take(i + 1), opt_view(env_filter)) =~= variable_sources(
                fs@,
                root@,
                ps@.take(i as int),
                opt_view(env_filter),
            ));
        }
        i = i + 1;
    }
    assert(ps@.take(ps.len() as int) =~= ps@);
    Ok(out)
}

impl EnvCommand {
    /// The `env variables` command on the infrastructure at or above
    /// `current_dir`: the inputs of the environments named `environment`
    /// (all where it is `None`) of the projects whose name holds
    /// `project_filter`, grouped by environment and then by input name.
    /// Problems with single project files go to `warnings`.
    pub fn execute_variables(
        fs: &MemoryFileSystem,
        warnings: &mut Vec<String>,
        current_dir: &str,
        environment: Option<&str>,
        project_filter: Option<&str>,
    ) -> (r: (Vec<OutputLine>, Result<(), String>))
        ensures
            no_collection_above(fs@, current_dir@) ==> lines_view(r.0@) == seq![
                LineView::Section("Environment Variables"@),
            ] && (r.1 matches Err(e) && e@ == "Infrastructure is required. Run 'pmp init' first."@),
            !no_collection_above(fs@, current_dir@) ==> variables_report(
                fs@,
                current_dir@,
                opt_view(environment),
                opt_view(project_filter),
                lines_view(r.0@),
                r.1,
            ),
    {
        let mut out: Vec<OutputLine> = Vec::new();
        emit(&mut out, OutputLine::Section("Environment Variables".to_owned()));
        let found = match CollectionDiscovery::find_collection_in_path(fs, current_dir) {
            Ok(f) => f,
            Err(e) => {
                return (out, Err(e));
            },
        };
        let (infrastructure, root) = match found {
            Some(x) => x,
            None => {
                assert(lines_view(out@) =~= seq![LineView::Section("Environment Variables"@)]);
                return (out, Err("Infrastructure is required. Run 'pmp init' first.".to_owned()));
            },
        };
        proof {
            if no_collection_above(fs@, current_dir@) {
                let k = choose|k: int|
                    0 <= k < crate::discovery::ancestors(current_dir@).len()
                        && crate::discovery::ancestors(current_dir@)[k] == root@
                        && infrastructure_at(fs@, root@) is Some
                        && forall|j: int|
                        0 <= j < k ==> infrastructure_at(
                            fs@,
                            #[trigger] crate::discovery::ancestors(current_dir@)[j],
                        ) is None;
                assert(infrastructure_at(fs@, crate::discovery::ancestors(current_dir@)[k]) is None);
            }
        }
        let name = infrastructure.metadata.name.clone();
        let ghost nm = name@;
        assert(nm == infrastructure_view(infrastructure).0);
        emit(&mut out, OutputLine::KeyValue("Infrastructure".to_owned(), name));
        if let Some(env) = environment {
            emit(&mut out, OutputLine::KeyValue("Environment".to_owned(), env.to_owned()));
        }
        emit(&mut out, OutputLine::Blank);
        let ghost head = lines_view(out@);
        let ghost h = variables_header(nm, opt_view(environment));
        assert(head =~= h);
        assert(is_nearest_collection(fs@, current_dir@, root@));
        let projects = match CollectionDiscovery::discover_projects(fs, warnings, root.as_str()) {
            Ok(p) => p,
            Err(e) => {
                assert(lines_view(out@).take(h.len() as int) =~= head);
                return (out, Err(e));
            },
        };
        assert(all_found_projects(fs@, join_spec(root@, "projects"@), root@, projects@));
        if projects.len() == 0 {
            emit(&mut out, OutputLine::Dimmed("No projects found.".to_owned()));
            assert(lines_view(out@).take(h.len() as int) =~= head);
            assert(lines_view(out@).skip(h.len() as int) =~= seq![LineView::Dimmed("No projects found."@)]);
            return (out, Ok(()));
        }
        let chosen = Self::matching_projects(&projects, project_filter);
        if chosen.len() == 0 {
            emit(&mut out, OutputLine::Dimmed("No matching projects found.".to_owned()));
            assert(lines_view(out@).take(h.len() as int) =~= head);
            assert(lines_view(out@).skip(h.len() as int) =~= seq![LineView::Dimmed("No matching projects found."@)]);
            return (out, Ok(()));
        }
        let ghost ps = chosen@;
        let sources = match variable_sources_exec(fs, root.as_str(), &chosen, environment) {
            Ok(s) => s,
            Err(e) => {
                assert(lines_view(out@).take(h.len() as int) =~= head);
                assert(lines_view(out@).skip(h.len() as int) =~= Seq::<LineView>::empty());
                assert(listing_fails(fs@, root@, ps, opt_view(environment)));
                return (out, Err(e));
            },
        };
        let ghost sv = sources_view(sources@);
        let ghost mut rs: Seq<Seq<(String, JsonValue)>> = Seq::empty();
        let mut quads: Vec<(String, String, String, String)> = Vec::new();
        let mut i: usize = 0;
        assert(listed_view(quads@) =~= all_listed(sv, rs));
        while i < sources.len()
            invariant
                i <= sources.len(),
                sv == sources_view(sources@),
                sv == variable_sources(fs@, root@, ps, opt_view(environment)),
                rs.len() == i,
                forall|j: int| 0 <= j < i ==> file_inputs(fs@, sv[j].2, #[trigger] rs[j]),
                listed_view(quads@) == all_listed(sv, rs),
                lines_view(out@) == head,
                head == h,
                h == variables_header(nm, opt_view(environment)),
                !no_collection_above(fs@, current_dir@),
                is_nearest_collection(fs@, current_dir@, root@),
                infrastructure_at(fs@, root@) == Some(infrastructure_view(infrastructure)),
                nm == infrastructure_view(infrastructure).0,
                all_found_projects(fs@, join_spec(root@, "projects"@), root@, projects@),
                crate::discovery::discovery(fs@, root@) == Some(crate::discovery::refs_view(projects@)),
                ps == chosen@,
                ps == matching(projects@, opt_view(project_filter)),
                projects@.len() > 0,
                ps.len() > 0,
            decreases sources.len() - i,
        {
            let src = &sources[i];
            let m = match Self::environment_inputs(fs, src.2.as_str()) {
                Ok(m) => m,
                Err(e) => {
                    assert(!file_inputs_readable(fs@, sv[i as int].2));
                    assert(listing_fails(fs@, root@, ps, opt_view(environment)));
                    assert(lines_view(out@).take(h.len() as int) =~= head);
                    assert(lines_view(out@).skip(h.len() as int) =~= Seq::<LineView>::empty());
                    return (out, Err(e));
                },
            };
            let ghost before = listed_view(quads@);
            let ghost lv = listed_of(sv[i as int], m@);
            let mut j: usize = 0;
            while j < m.len()
                invariant
                    j <= m.len(),
                    sv == sources_view(sources@),
                    i < sources@.len(),
                    src == sources@[i as int],
                    lv == listed_of(sv[i as int], m@),
                    listed_view(quads@) == before + lv.take(j as int),
                decreases m.len() - j,
            {
                let q = (src.1.clone(), src.0.clone(), m[j].0.clone(), Self::value_listed(&m[j].1));
                let ghost qv = (q.0@, q.1@, q.2@, q.3@);
                let ghost prev = listed_view(quads@);
                quads.push(q);
                assert(qv == lv[j as int]);
                assert(listed_view(quads@) =~= prev.push(qv));
                assert(lv.take(j + 1) =~= lv.take(j as int).push(lv[j as int]));
                j = j + 1;
            }
            assert(lv.take(m.len() as int) =~= lv);
            proof {
                let rs2 = rs.push(m@);
                assert(rs2.drop_last() =~= rs);
                assert(all_listed(sv, rs2) == all_listed(sv, rs) + listed_of(sv[i as int], m@));
                rs = rs2;
            }
            i = i + 1;
        }
        assert(readings_of(fs@, source_files(sv), rs));
        let groups = Self::group_variables(quads);
        let mut shown = Self::display_variables(&groups);
        let ghost shv = lines_view(shown@);
        out.append(&mut shown);
        proof {
            assert(lines_view(out@) =~= head + shv);
            assert(lines_view(out@).take(h.len() as int) =~= head);
            assert(lines_view(out@).skip(h.len() as int) =~= shv);
        }
        (out, Ok(()))
    }
}

} // verus!
