//! Which project environments a change touches: the project environments
//! whose files changed, and those whose dependency graph holds one of them.

use vstd::prelude::*;
use crate::dependency_graph::{environment_at, node_key, DependencyGraph};
use crate::fs::{children_spec, MemoryFileSystem};
use crate::paths::{join, join_spec};
use crate::resources::{EnvironmentResource, ProjectReference};
use crate::text::{
    ends_with, ends_with_spec, lemma_pair_total, lemma_pair_trans, lines, lines_spec, pair_le,
    pair_le_exec, split, split_spec, str_eq, trim, trim_spec, views_of,
};

verus! {

broadcast use vstd::string::group_string_axioms;

/// A project environment touched by a change, and its directory.
pub struct ChangedProject {
    pub name: String,
    pub environment: String,
    pub path: String,
}

/// Finds the project environments that a change touches.
pub struct CiDetectChangesCommand;

/// A project name and an environment name.
pub type PairView = (Seq<char>, Seq<char>);

/// The views of a list of name pairs.
pub open spec fn pairs_view(v: Seq<(String, String)>) -> Seq<PairView> {
    v.map_values(|p: (String, String)| (p.0@, p.1@))
}

/// The view of an optional string.
pub open spec fn opt_str_view(f: Option<&str>) -> Option<Seq<char>> {
    match f {
        Some(s) => Some(s@),
        None => None,
    }
}

/// The project and environment that the changed file `p` belongs to, when it
/// lies at `projects/{name}/environments/{env}/...` and `env` passes the
/// filter.
pub open spec fn path_project(p: Seq<char>, filter: Option<Seq<char>>) -> Option<PairView> {
    let parts = split_spec(p, '/');
    if parts.len() >= 4 && parts[0] == "projects"@ && parts[2] == "environments"@ && (
    filter matches Some(f) ==> parts[3] == f) {
        Some((parts[1], parts[3]))
    } else {
        None
    }
}

/// The project environments that the changed files `paths` belong to, each
/// once, in the order in which they first occur.
pub open spec fn changed_pairs(paths: Seq<Seq<char>>, filter: Option<Seq<char>>) -> Seq<PairView>
    decreases paths.len(),
{
    if paths.len() == 0 {
        Seq::empty()
    } else {
        let rest = changed_pairs(paths.drop_last(), filter);
        match path_project(paths.last(), filter) {
            Some(x) => if rest.contains(x) {
                rest
            } else {
                rest.push(x)
            },
            None => rest,
        }
    }
}

/// The changed project environments hold no pair twice, and a pair is among
/// them exactly when some changed file belongs to it.
pub proof fn lemma_changed_pairs(paths: Seq<Seq<char>>, filter: Option<Seq<char>>)
    ensures
        changed_pairs(paths, filter).no_duplicates(),
        forall|x: PairView|
            changed_pairs(paths, filter).contains(x) <==> exists|j: int|
                0 <= j < paths.len() && path_project(#[trigger] paths[j], filter) == Some(x),
    decreases paths.len(),
{
    if paths.len() > 0 {
        let init = paths.drop_last();
        lemma_changed_pairs(init, filter);
        let rest = changed_pairs(init, filter);
        assert forall|x: PairView|
            changed_pairs(paths, filter).contains(x) <==> exists|j: int|
                0 <= j < paths.len() && path_project(#[trigger] paths[j], filter) == Some(x) by {
            if changed_pairs(paths, filter).contains(x) {
                if rest.contains(x) {
                    let j = choose|j: int|
                        0 <= j < init.len() && path_project(#[trigger] init[j], filter) == Some(x);
                    assert(paths[j] == init[j]);
                } else {
                    let j = paths.len() - 1;
                    assert(path_project(paths[j], filter) == Some(x));
                }
            }
            if exists|j: int| 0 <= j < paths.len() && path_project(#[trigger] paths[j], filter) == Some(x) {
                let j = choose|j: int|
                    0 <= j < paths.len() && path_project(#[trigger] paths[j], filter) == Some(x);
                if j < paths.len() - 1 {
                    assert(init[j] == paths[j]);
                    assert(rest.contains(x));
                    if !rest.contains(x) {
                    }
                }
                if j == paths.len() - 1 {
                    if !rest.contains(x) {
                        assert(changed_pairs(paths, filter) == rest.push(x));
                        assert(rest.push(x)[rest.len() as int] == x);
                    }
                }
                if rest.contains(x) {
                    let t = choose|t: int| 0 <= t < rest.len() && rest[t] == x;
                    match path_project(paths.last(), filter) {
                        Some(y) => {
                            if !rest.contains(y) {
                                assert(rest.push(y)[t] == x);
                            }
                        },
                        None => {},
                    }
                }
            }
        }
    }
}

/// Whether a line of `git diff --name-only` names the infrastructure file.
pub open spec fn names_infrastructure_file(line: Seq<char>) -> bool {
    trim_spec(line) == ".pmp.infrastructure.yaml"@ || ends_with_spec(
        trim_spec(line),
        "/.pmp.infrastructure.yaml"@,
    )
}

/// Whether `v` holds the pair `(a, b)`.
fn contains_pair(v: &Vec<(String, String)>, a: &str, b: &str) -> (r: bool)
    ensures
        r == pairs_view(v@).contains((a@, b@)),
{
    let mut i: usize = 0;
    while i < v.len()
        invariant
            0 <= i <= v.len(),
            forall|j: int| 0 <= j < i ==> pairs_view(v@)[j] != (a@, b@),
        decreases v.len() - i,
    {
        if str_eq(v[i].0.as_str(), a) && str_eq(v[i].1.as_str(), b) {
            assert(pairs_view(v@)[i as int] == (a@, b@));
            return true;
        }
        i = i + 1;
    }
    false
}

/// A map from project environments to their directories, as a list of entries.
pub type EnvEntries = Seq<(PairView, Seq<char>)>;

/// The views of the entries of a map from project environments to directories.
pub open spec fn entries_view(e: Seq<((String, String), String)>) -> EnvEntries {
    e.map_values(|x: ((String, String), String)| ((x.0.0@, x.0.1@), x.1@))
}

/// The directory that the entries `e` give for `k`: the last entry for `k`
/// wins, as later inserts do in a map.
pub open spec fn env_lookup(e: EnvEntries, k: PairView) -> Option<Seq<char>>
    decreases e.len(),
{
    if e.len() == 0 {
        None
    } else if e.last().0 == k {
        Some(e.last().1)
    } else {
        env_lookup(e.drop_last(), k)
    }
}

/// The project environment of a changed project.
pub open spec fn cp_key(c: ChangedProject) -> PairView {
    (c.name@, c.environment@)
}

/// Whether `s` is in strictly ascending order of project, then environment.
pub open spec fn strictly_sorted(s: Seq<ChangedProject>) -> bool {
    forall|i: int, j: int|
        0 <= i < j < s.len() ==> pair_le(cp_key(#[trigger] s[i]), cp_key(#[trigger] s[j]))
            && cp_key(s[i]) != cp_key(s[j])
}

/// Whether `g` is the graph that `build` makes for the environment `k`,
/// looked for at `root`, from the file system `v`.
pub open spec fn graph_for(
    g: DependencyGraph,
    v: Seq<(Seq<char>, Option<Seq<char>>)>,
    root: Seq<char>,
    k: PairView,
) -> bool {
    &&& g.built_from(v)
    &&& g.root.project_name@ == k.0
    &&& g.root.environment_name@ == k.1
    &&& g.root.environment_path@ == root
}

/// Whether the project environment `k`, its graph built from `root`, reaches
/// one of the `changed` project environments.
pub open spec fn depends_on_changed(
    v: Seq<(Seq<char>, Option<Seq<char>>)>,
    root: Seq<char>,
    k: PairView,
    changed: Seq<PairView>,
) -> bool {
    exists|g: DependencyGraph, i: int|
        0 <= i < changed.len() && #[trigger] graph_for(g, v, root, k) && g.reachable(
            g.root.key_view(),
            node_key(#[trigger] changed[i].0, changed[i].1),
        )
}

/// Whether `k` is affected by a change of `changed`: it is one of them, or
/// reaches one of them.
pub open spec fn is_affected(
    v: Seq<(Seq<char>, Option<Seq<char>>)>,
    root: Seq<char>,
    k: PairView,
    changed: Seq<PairView>,
) -> bool {
    changed.contains(k) || depends_on_changed(v, root, k, changed)
}

/// The directory that `envs` gives for the environment `env` of `name`.
fn env_path_of(envs: &Vec<((String, String), String)>, name: &str, env: &str) -> (r: Option<String>)
    ensures
        r matches Some(p) ==> env_lookup(entries_view(envs@), (name@, env@)) == Some(p@),
        r is None ==> env_lookup(entries_view(envs@), (name@, env@)) is None,
{
    let ghost ev = entries_view(envs@);
    let mut i: usize = envs.len();
    assert(ev.take(i as int) =~= ev);
    while i > 0
        invariant
            0 <= i <= envs.len(),
            ev == entries_view(envs@),
            env_lookup(ev, (name@, env@)) == env_lookup(ev.take(i as int), (name@, env@)),
        decreases i,
    {
        let e = &envs[i - 1];
        proof {
            assert(ev.take(i as int).last() == ev[i - 1]);
            assert(ev[i - 1] == ((e.0.0@, e.0.1@), e.1@));
            assert(ev.take(i as int).drop_last() =~= ev.take(i - 1));
        }
        if str_eq(e.0.0.as_str(), name) && str_eq(e.0.1.as_str(), env) {
            return Some(e.1.clone());
        }
        i = i - 1;
    }
    None
}

/// Puts `cp` into the sorted list `out` where it belongs.
fn insert_sorted(out: &mut Vec<ChangedProject>, cp: ChangedProject)
    requires
        strictly_sorted(old(out)@),
        forall|i: int| 0 <= i < old(out)@.len() ==> cp_key(#[trigger] old(out)@[i]) != cp_key(cp),
    ensures
        strictly_sorted(final(out)@),
        final(out)@.len() == old(out)@.len() + 1,
        forall|x: ChangedProject| #[trigger]
            final(out)@.contains(x) <==> (old(out)@.contains(x) || x == cp),
{
    let mut p: usize = 0;
    while p < out.len() && pair_le_exec(
        out[p].name.as_str(),
        out[p].environment.as_str(),
        cp.name.as_str(),
        cp.environment.as_str(),
    )
        invariant
            0 <= p <= out.len(),
            forall|j: int| 0 <= j < p ==> pair_le(cp_key(#[trigger] out@[j]), cp_key(cp)),
        decreases out.len() - p,
    {
        p = p + 1;
    }
    let ghost before = out@;
    let ghost key = cp_key(cp);
    out.insert(p, cp);
    proof {
        let after = out@;
        before.insert_ensures(p as int, cp);
        assert(after =~= before.insert(p as int, cp));
        if p < before.len() {
            lemma_pair_total(cp_key(before[p as int]), key);
        }
        assert forall|i: int, j: int| 0 <= i < j < after.len() implies pair_le(
            cp_key(#[trigger] after[i]),
            cp_key(#[trigger] after[j]),
        ) && cp_key(after[i]) != cp_key(after[j]) by {
            if j < p {
                assert(after[i] == before[i] && after[j] == before[j]);
            } else if j == p {
                assert(after[j] == cp);
                assert(after[i] == before[i]);
            } else if i == p {
                assert(after[i] == cp);
                assert(after[j] == before[j - 1]);
                if j - 1 > p {
                    lemma_pair_trans(key, cp_key(before[p as int]), cp_key(before[j - 1]));
                }
            } else if i < p {
                assert(after[i] == before[i] && after[j] == before[j - 1]);
            } else {
                assert(after[i] == before[i - 1] && after[j] == before[j - 1]);
            }
        }
        assert forall|x: ChangedProject| #[trigger]
            after.contains(x) <==> (before.contains(x) || x == cp) by {
            if after.contains(x) {
                let t = choose|t: int| 0 <= t < after.len() && after[t] == x;
                if t < p {
                    assert(after[t] == before[t]);
                } else if t > p {
                    assert(after[t] == before[t - 1]);
                }
            }
            if before.contains(x) {
                let t = choose|t: int| 0 <= t < before.len() && before[t] == x;
                if t < p {
                    assert(after[t] == before[t]);
                } else {
                    assert(after[t + 1] == before[t]);
                }
            }
            if x == cp {
                assert(after[p as int] == cp);
            }
        }
    }
}

/// Whether `order` holds a node for the environment `env` of `name`.
fn order_has(order: &Vec<crate::dependency_graph::DependencyNode>, name: &str, env: &str) -> (r: bool)
    ensures
        r == exists|m: int|
            0 <= m < order@.len() && (#[trigger] order@[m]).project_name@ == name@
                && order@[m].environment_name@ == env@,
{
    let mut m: usize = 0;
    while m < order.len()
        invariant
            0 <= m <= order.len(),
            forall|t: int|
                0 <= t < m ==> !((#[trigger] order@[t]).project_name@ == name@
                    && order@[t].environment_name@ == env@),
        decreases order.len() - m,
    {
        if str_eq(order[m].project_name.as_str(), name) && str_eq(
            order[m].environment_name.as_str(),
            env,
        ) {
            return true;
        }
        m = m + 1;
    }
    false
}

/// Whether the environment `env` of `name`, its graph built from `root`,
/// holds one of `changed` in its execution order.
fn reaches_changed(
    fs: &MemoryFileSystem,
    root: &str,
    name: &str,
    env: &str,
    changed: &Vec<(String, String)>,
) -> (r: bool)
    ensures
        r ==> depends_on_changed(fs@, root@, (name@, env@), pairs_view(changed@)),
{
    let graph = match DependencyGraph::build(fs, root, name, env) {
        Ok(g) => g,
        Err(_) => {
            return false;
        },
    };
    let order = match graph.execution_order() {
        Ok(o) => o,
        Err(_) => {
            return false;
        },
    };
    let mut t: usize = 0;
    while t < changed.len()
        invariant
            0 <= t <= changed.len(),
            graph_for(graph, fs@, root@, (name@, env@)),
            graph.is_execution_order(order@),
        decreases changed.len() - t,
    {
        if order_has(&order, changed[t].0.as_str(), changed[t].1.as_str()) {
            proof {
                let m = choose|m: int|
                    0 <= m < order@.len() && (#[trigger] order@[m]).project_name@ == changed@[t as int].0@
                        && order@[m].environment_name@ == changed@[t as int].1@;
                assert(graph.reachable(graph.root.key_view(), order@[m].key_view()));
                let cv = pairs_view(changed@);
                assert(cv[t as int] == (changed@[t as int].0@, changed@[t as int].1@));
                assert(order@[m].key_view() == node_key(cv[t as int].0, cv[t as int].1));
                assert(graph_for(graph, fs@, root@, (name@, env@)));
            }
            return true;
        }
        t = t + 1;
    }
    false
}

/// The project environments of a list of map entries.
pub open spec fn entry_keys(e: EnvEntries) -> Seq<PairView> {
    e.map_values(|x: (PairView, Seq<char>)| x.0)
}

/// The environments directory of the project `r` of the infrastructure at `root`.
pub open spec fn env_dir_of_ref(root: Seq<char>, r: ProjectReference) -> Seq<char> {
    join_spec(join_spec(root, r.path@), "environments"@)
}

/// The project and environment named by the environment file in `dir`,
/// when it holds one.
pub open spec fn env_key_at(v: Seq<(Seq<char>, Option<Seq<char>>)>, dir: Seq<char>) -> Option<PairView> {
    match environment_at(v, dir) {
        Some(x) => Some((x.2, x.3)),
        None => None,
    }
}

/// Whether `p` is a directory inside the environments directory of one of
/// `refs`, whose environment file names the project environment `k`.
pub open spec fn found_env(
    v: Seq<(Seq<char>, Option<Seq<char>>)>,
    root: Seq<char>,
    refs: Seq<ProjectReference>,
    k: PairView,
    p: Seq<char>,
) -> bool {
    exists|i: int, j: int|
        0 <= i < refs.len() && 0 <= j < children_spec(v, env_dir_of_ref(root, refs[i])).len()
            && #[trigger] children_spec(v, env_dir_of_ref(root, refs[i]))[j] == p && env_key_at(v, p)
            == Some(k)
}

/// Sets the directory of `(n, e)` to `p`: replaces the entry for that key, or
/// adds one.
fn map_insert(envs: &mut Vec<((String, String), String)>, n: String, e: String, p: String)
    requires
        entry_keys(entries_view(old(envs)@)).no_duplicates(),
    ensures
        entry_keys(entries_view(final(envs)@)).no_duplicates(),
        forall|x: PairView| #[trigger]
            entry_keys(entries_view(final(envs)@)).contains(x) <==> (entry_keys(
                entries_view(old(envs)@),
            ).contains(x) || x == (n@, e@)),
        forall|t: int|
            0 <= t < final(envs)@.len() ==> #[trigger] entries_view(final(envs)@)[t] == ((n@, e@), p@)
                || entries_view(old(envs)@).contains(entries_view(final(envs)@)[t]),
{
    let ghost ov = entries_view(envs@);
    let ghost ok = entry_keys(ov);
    let ghost key = (n@, e@);
    let mut i: usize = 0;
    while i < envs.len()
        invariant
            0 <= i <= envs.len(),
            ov == entries_view(envs@),
            ov == entries_view(old(envs)@),
            ok == entry_keys(ov),
            ok.no_duplicates(),
            key == (n@, e@),
            forall|t: int| 0 <= t < i ==> ok[t] != key,
        decreases envs.len() - i,
    {
        assert(ok[i as int] == (envs@[i as int].0.0@, envs@[i as int].0.1@));
        if str_eq(envs[i].0.0.as_str(), n.as_str()) && str_eq(envs[i].0.1.as_str(), e.as_str()) {
            envs.set(i, ((n, e), p));
            proof {
                let nv = entries_view(envs@);
                let nk = entry_keys(nv);
                assert(nv =~= ov.update(i as int, (key, nv[i as int].1)));
                assert(nk =~= ok);
                assert forall|t: int| 0 <= t < envs@.len() implies #[trigger] nv[t] == (key, p@)
                    || ov.contains(nv[t]) by {
                    if t != i {
                        assert(nv[t] == ov[t]);
                    }
                }
            }
            return;
        }
        i = i + 1;
    }
    envs.push(((n, e), p));
    proof {
        let nv = entries_view(envs@);
        let nk = entry_keys(nv);
        assert(nv =~= ov.push((key, p@)));
        assert(nk =~= ok.push(key));
        assert(!ok.contains(key));
        assert forall|x: PairView| #[trigger] nk.contains(x) <==> (ok.contains(x) || x == key) by {
            if nk.contains(x) {
                let t = choose|t: int| 0 <= t < nk.len() && nk[t] == x;
                if t < ok.len() {
                    assert(ok[t] == x);
                }
            }
            if ok.contains(x) {
                let t = choose|t: int| 0 <= t < ok.len() && ok[t] == x;
                assert(nk[t] == x);
            }
            if x == key {
                assert(nk[ok.len() as int] == x);
            }
        }
        assert forall|t: int| 0 <= t < envs@.len() implies #[trigger] nv[t] == (key, p@) || ov.contains(
            nv[t],
        ) by {
            if t < ov.len() {
                assert(nv[t] == ov[t]);
            }
        }
    }
}

impl CiDetectChangesCommand {
    /// The project environments that the changed files `paths` belong to
    /// (`projects/{name}/environments/{env}/...`), each once, keeping only
    /// environment `environment_filter` when one is given.
    pub fn extract_projects_from_paths(paths: &[String], environment_filter: Option<&str>) -> (r:
        Result<Vec<(String, String)>, String>)
        ensures
            r is Ok,
            r matches Ok(v) ==> pairs_view(v@) == changed_pairs(
                views_of(paths@),
                opt_str_view(environment_filter),
            ),
            r matches Ok(v) ==> pairs_view(v@).no_duplicates(),
            r matches Ok(v) ==> forall|x: PairView|
                pairs_view(v@).contains(x) <==> exists|j: int|
                    0 <= j < paths@.len() && path_project(
                        #[trigger] paths@[j]@,
                        opt_str_view(environment_filter),
                    ) == Some(x),
    {
        let ghost filter = opt_str_view(environment_filter);
        let ghost ps = views_of(paths@);
        let mut projects: Vec<(String, String)> = Vec::new();
        let mut i: usize = 0;
        assert(ps.take(0) =~= Seq::<Seq<char>>::empty());
        while i < paths.len()
            invariant
                0 <= i <= paths.len(),
                ps == views_of(paths@),
                filter == opt_str_view(environment_filter),
                pairs_view(projects@) == changed_pairs(ps.take(i as int), filter),
            decreases paths.len() - i,
        {
            let path = paths[i].as_str();
            proof {
                assert(ps[i as int] == path@);
                assert(ps.take(i + 1).drop_last() =~= ps.take(i as int));
                assert(ps.take(i + 1).last() == path@);
            }
            let parts = split(path, '/');
            let ghost pv = split_spec(path@, '/');
            assert(views_of(parts@) == pv);
            let ghost before = projects@;
            if parts.len() >= 4 && str_eq(parts[0].as_str(), "projects") && str_eq(
                parts[2].as_str(),
                "environments",
            ) {
                assert(pv[0] == parts@[0]@ && pv[1] == parts@[1]@);
                assert(pv[2] == parts@[2]@ && pv[3] == parts@[3]@);
                let keep = match environment_filter {
                    Some(f) => str_eq(parts[3].as_str(), f),
                    None => true,
                };
                if keep {
                    if !contains_pair(&projects, parts[1].as_str(), parts[3].as_str()) {
                        projects.push((parts[1].clone(), parts[3].clone()));
                        assert(pairs_view(projects@) =~= pairs_view(before).push(
                            (pv[1], pv[3]),
                        ));
                    }
                }
            }
            i = i + 1;
        }
        proof {
            assert(ps.take(paths@.len() as int) =~= ps);
            lemma_changed_pairs(ps, filter);
            assert forall|x: PairView|
                pairs_view(projects@).contains(x) <==> exists|j: int|
                    0 <= j < paths@.len() && path_project(#[trigger] paths@[j]@, filter) == Some(x) by {
                if pairs_view(projects@).contains(x) {
                    let j = choose|j: int|
                        0 <= j < ps.len() && path_project(#[trigger] ps[j], filter) == Some(x);
                    assert(ps[j] == paths@[j]@);
                }
                if exists|j: int|
                    0 <= j < paths@.len() && path_project(#[trigger] paths@[j]@, filter) == Some(x) {
                    let j = choose|j: int|
                        0 <= j < paths@.len() && path_project(#[trigger] paths@[j]@, filter) == Some(x);
                    assert(ps[j] == paths@[j]@);
                }
            }
        }
        Ok(projects)
    }

    /// Whether the output of `git diff --name-only` names the infrastructure
    /// file, at the top or in a subdirectory.
    pub fn has_infrastructure_changes(diff_output: &str) -> (r: bool)
        ensures
            r == exists|i: int|
                0 <= i < lines_spec(diff_output@).len() && names_infrastructure_file(
                    #[trigger] lines_spec(diff_output@)[i],
                ),
    {
        let ls = lines(diff_output);
        let mut i: usize = 0;
        while i < ls.len()
            invariant
                0 <= i <= ls.len(),
                views_of(ls@) == lines_spec(diff_output@),
                forall|j: int| 0 <= j < i ==> !names_infrastructure_file(#[trigger] lines_spec(diff_output@)[j]),
            decreases ls.len() - i,
        {
            let t = trim(ls[i].as_str());
            assert(views_of(ls@)[i as int] == ls@[i as int]@);
            if str_eq(t.as_str(), ".pmp.infrastructure.yaml") || ends_with(
                t.as_str(),
                "/.pmp.infrastructure.yaml",
            ) {
                assert(names_infrastructure_file(lines_spec(diff_output@)[i as int]));
                return true;
            }
            i = i + 1;
        }
        false
    }
    /// The changed project environments and those whose dependency graph,
    /// built from the environment's own directory in `project_envs`, holds
    /// one of them, each with that directory, sorted by project and then
    /// environment. Those that `project_envs` has no directory for are left
    /// out.
    pub fn include_dependents(
        fs: &MemoryFileSystem,
        changed_projects: &Vec<(String, String)>,
        project_envs: &Vec<((String, String), String)>,
        _infrastructure_root: &str,
    ) -> (r: Result<Vec<ChangedProject>, String>)
        ensures
            r is Ok,
            r matches Ok(v) ==> strictly_sorted(v@),
            r matches Ok(v) ==> forall|i: int|
                0 <= i < v@.len() ==> env_lookup(entries_view(project_envs@), cp_key(#[trigger] v@[i]))
                    == Some(v@[i].path@) && is_affected(
                    fs@,
                    v@[i].path@,
                    cp_key(v@[i]),
                    pairs_view(changed_projects@),
                ),
            r matches Ok(v) ==> forall|i: int|
                0 <= i < changed_projects@.len() && env_lookup(
                    entries_view(project_envs@),
                    #[trigger] pairs_view(changed_projects@)[i],
                ) is Some ==> exists|j: int|
                    0 <= j < v@.len() && cp_key(v@[j]) == pairs_view(changed_projects@)[i],
    {
        let ghost cv = pairs_view(changed_projects@);
        let ghost ev = entries_view(project_envs@);
        let mut affected: Vec<(String, String)> = Vec::new();
        let mut i: usize = 0;
        while i < changed_projects.len()
            invariant
                0 <= i <= changed_projects.len(),
                cv == pairs_view(changed_projects@),
                pairs_view(affected@).no_duplicates(),
                forall|x: PairView| #[trigger] pairs_view(affected@).contains(x) ==> cv.contains(x),
                forall|j: int| 0 <= j < i ==> pairs_view(affected@).contains(#[trigger] cv[j]),
            decreases changed_projects.len() - i,
        {
            let n = changed_projects[i].0.as_str();
            let e = changed_projects[i].1.as_str();
            assert(cv[i as int] == (n@, e@));
            if !contains_pair(&affected, n, e) {
                let ghost before = pairs_view(affected@);
                affected.push((changed_projects[i].0.clone(), changed_projects[i].1.clone()));
                proof {
                    let after = pairs_view(affected@);
                    assert(after =~= before.push((n@, e@)));
                    assert(after[before.len() as int] == (n@, e@));
                    assert forall|x: PairView| #[trigger] after.contains(x) implies cv.contains(x) by {
                        let t = choose|t: int| 0 <= t < after.len() && after[t] == x;
                        if t < before.len() {
                            assert(before[t] == x);
                            assert(before.contains(x));
                        } else {
                            assert(cv[i as int] == x);
                        }
                    }
                    assert forall|j: int| 0 <= j <= i implies after.contains(#[trigger] cv[j]) by {
                        if j < i {
                            let t = choose|t: int| 0 <= t < before.len() && before[t] == cv[j];
                            assert(after[t] == cv[j]);
                        }
                    }
                }
            }
            i = i + 1;
        }
        let mut k: usize = 0;
        while k < project_envs.len()
            invariant
                0 <= k <= project_envs.len(),
                cv == pairs_view(changed_projects@),
                pairs_view(affected@).no_duplicates(),
                ev == entries_view(project_envs@),
                forall|x: PairView| #[trigger]
                    pairs_view(affected@).contains(x) ==> cv.contains(x) || (env_lookup(ev, x) matches Some(
                        p,
                    ) && depends_on_changed(fs@, p, x, cv)),
                forall|j: int|
                    0 <= j < changed_projects@.len() ==> pairs_view(affected@).contains(
                        #[trigger] cv[j],
                    ),
            decreases project_envs.len() - k,
        {
            let n = project_envs[k].0.0.as_str();
            let e = project_envs[k].0.1.as_str();
            let found_dir = env_path_of(project_envs, n, e);
            if !contains_pair(&affected, n, e) && found_dir.is_some() && reaches_changed(
                fs,
                found_dir.unwrap().as_str(),
                n,
                e,
                changed_projects,
            ) {
                let ghost before = pairs_view(affected@);
                affected.push((project_envs[k].0.0.clone(), project_envs[k].0.1.clone()));
                proof {
                    let after = pairs_view(affected@);
                    assert(after =~= before.push((n@, e@)));
                    assert(after[before.len() as int] == (n@, e@));
                    assert forall|x: PairView| #[trigger] after.contains(x) implies cv.contains(x) || (env_lookup(
                        ev,
                        x,
                    ) matches Some(p) && depends_on_changed(fs@, p, x, cv)) by {
                        let t = choose|t: int| 0 <= t < after.len() && after[t] == x;
                        if t < before.len() {
                            assert(before[t] == x);
                            assert(before.contains(x));
                        }
                    }
                    assert forall|j: int| 0 <= j < changed_projects@.len() implies after.contains(
                        #[trigger] cv[j],
                    ) by {
                        let t = choose|t: int| 0 <= t < before.len() && before[t] == cv[j];
                        assert(after[t] == cv[j]);
                    }
                }
            }
            k = k + 1;
        }
        let ghost av = pairs_view(affected@);
        let mut out: Vec<ChangedProject> = Vec::new();
        let mut a: usize = 0;
        while a < affected.len()
            invariant
                0 <= a <= affected.len(),
                av == pairs_view(affected@),
                ev == entries_view(project_envs@),
                av.no_duplicates(),
                strictly_sorted(out@),
                forall|x: ChangedProject| #[trigger]
                    out@.contains(x) ==> exists|j: int|
                        0 <= j < a && av[j] == cp_key(x) && env_lookup(ev, cp_key(x)) == Some(x.path@),
                forall|j: int|
                    0 <= j < a && env_lookup(ev, #[trigger] av[j]) is Some ==> exists|t: int|
                        0 <= t < out@.len() && cp_key(out@[t]) == av[j],
            decreases affected.len() - a,
        {
            let n = affected[a].0.as_str();
            let e = affected[a].1.as_str();
            assert(av[a as int] == (n@, e@));
            match env_path_of(project_envs, n, e) {
                Some(path) => {
                    let cp = ChangedProject {
                        name: affected[a].0.clone(),
                        environment: affected[a].1.clone(),
                        path,
                    };
                    proof {
                        assert forall|t: int| 0 <= t < out@.len() implies cp_key(
                            #[trigger] out@[t],
                        ) != cp_key(cp) by {
                            assert(out@.contains(out@[t]));
                            let j = choose|j: int|
                                0 <= j < a && av[j] == cp_key(out@[t]) && env_lookup(
                                    ev,
                                    cp_key(out@[t]),
                                ) == Some(out@[t].path@);
                            assert(av[j] != av[a as int]);
                        }
                    }
                    let ghost before = out@;
                    let ghost c = cp;
                    insert_sorted(&mut out, cp);
                    proof {
                        assert(out@.contains(c));
                        assert forall|x: ChangedProject| #[trigger] out@.contains(x) implies exists|j: int|
                            0 <= j < a + 1 && av[j] == cp_key(x) && env_lookup(ev, cp_key(x))
                                == Some(x.path@) by {
                            if before.contains(x) {
                            } else {
                                assert(x == c);
                                assert(av[a as int] == cp_key(x));
                            }
                        }
                        assert forall|j: int|
                            0 <= j < a + 1 && env_lookup(ev, #[trigger] av[j]) is Some implies exists|t: int|
                                0 <= t < out@.len() && cp_key(out@[t]) == av[j] by {
                            if j < a {
                                let t = choose|t: int| 0 <= t < before.len() && cp_key(before[t]) == av[j];
                                assert(before.contains(before[t]));
                                assert(out@.contains(before[t]));
                                let u = choose|u: int| 0 <= u < out@.len() && out@[u] == before[t];
                            } else {
                                let u = choose|u: int| 0 <= u < out@.len() && out@[u] == c;
                            }
                        }
                    }
                },
                None => {},
            }
            a = a + 1;
        }
        proof {
            assert forall|i: int| 0 <= i < out@.len() implies env_lookup(
                entries_view(project_envs@),
                cp_key(#[trigger] out@[i]),
            ) == Some(out@[i].path@) && is_affected(
                fs@,
                out@[i].path@,
                cp_key(out@[i]),
                pairs_view(changed_projects@),
            ) by {
                assert(out@.contains(out@[i]));
                let j = choose|j: int|
                    0 <= j < affected@.len() && av[j] == cp_key(out@[i]) && env_lookup(ev, cp_key(out@[i]))
                        == Some(out@[i].path@);
                assert(av.contains(av[j]));
            }
            assert forall|i: int|
                0 <= i < changed_projects@.len() && env_lookup(
                    entries_view(project_envs@),
                    #[trigger] pairs_view(changed_projects@)[i],
                ) is Some implies exists|j: int|
                    0 <= j < out@.len() && cp_key(out@[j]) == pairs_view(changed_projects@)[i] by {
                assert(av.contains(cv[i]));
                let t = choose|t: int| 0 <= t < av.len() && av[t] == cv[i];
            }
        }
        Ok(out)
    }
    /// The environments of the projects `project_refs` of the infrastructure
    /// at `infrastructure_root`, as a map from project and environment name
    /// (as each environment file names them) to the environment's directory.
    /// Where two directories name the same environment, the later one is kept.
    pub fn project_environments(
        fs: &MemoryFileSystem,
        infrastructure_root: &str,
        project_refs: &[ProjectReference],
    ) -> (r: Vec<((String, String), String)>)
        ensures
            entry_keys(entries_view(r@)).no_duplicates(),
            forall|t: int|
                0 <= t < r@.len() ==> found_env(
                    fs@,
                    infrastructure_root@,
                    project_refs@,
                    (#[trigger] entries_view(r@)[t]).0,
                    entries_view(r@)[t].1,
                ),
            forall|i: int, j: int|
                0 <= i < project_refs@.len() && crate::fs::fs_is_dir(
                    fs@,
                    env_dir_of_ref(infrastructure_root@, project_refs@[i]),
                ) && 0 <= j < children_spec(fs@, env_dir_of_ref(infrastructure_root@, project_refs@[i])).len()
                    && env_key_at(
                    fs@,
                    #[trigger] children_spec(fs@, env_dir_of_ref(infrastructure_root@, project_refs@[i]))[j],
                ) is Some ==> entry_keys(entries_view(r@)).contains(
                    env_key_at(
                        fs@,
                        children_spec(fs@, env_dir_of_ref(infrastructure_root@, project_refs@[i]))[j],
                    ).unwrap(),
                ),
    {
        let ghost root = infrastructure_root@;
        let ghost refs = project_refs@;
        let mut envs: Vec<((String, String), String)> = Vec::new();
        let mut i: usize = 0;
        assert(entry_keys(entries_view(envs@)) =~= Seq::<PairView>::empty());
        while i < project_refs.len()
            invariant
                0 <= i <= project_refs.len(),
                root == infrastructure_root@,
                refs == project_refs@,
                entry_keys(entries_view(envs@)).no_duplicates(),
                forall|t: int|
                    0 <= t < envs@.len() ==> found_env(
                        fs@,
                        root,
                        refs,
                        (#[trigger] entries_view(envs@)[t]).0,
                        entries_view(envs@)[t].1,
                    ),
                forall|i2: int, j: int|
                    0 <= i2 < i && crate::fs::fs_is_dir(fs@, env_dir_of_ref(root, refs[i2])) && 0 <= j
                        < children_spec(fs@, env_dir_of_ref(root, refs[i2])).len() && env_key_at(
                        fs@,
                        #[trigger] children_spec(fs@, env_dir_of_ref(root, refs[i2]))[j],
                    ) is Some ==> entry_keys(entries_view(envs@)).contains(
                        env_key_at(fs@, children_spec(fs@, env_dir_of_ref(root, refs[i2]))[j]).unwrap(),
                    ),
            decreases project_refs.len() - i,
        {
            let project_path = join(infrastructure_root, project_refs[i].path.as_str());
            let environments_dir = join(project_path.as_str(), "environments");
            let ghost dir = environments_dir@;
            assert(dir == env_dir_of_ref(root, refs[i as int]));
            match fs.read_dir(environments_dir.as_str()) {
                Ok(entries) => {
                    let ghost ch = children_spec(fs@, dir);
                    let mut j: usize = 0;
                    while j < entries.len()
                        invariant
                            0 <= j <= entries.len(),
                            0 <= i < project_refs.len(),
                            root == infrastructure_root@,
                            refs == project_refs@,
                            dir == env_dir_of_ref(root, refs[i as int]),
                            ch == children_spec(fs@, dir),
                            entries@.map_values(|s: String| s@) == ch,
                            entry_keys(entries_view(envs@)).no_duplicates(),
                            forall|t: int|
                                0 <= t < envs@.len() ==> found_env(
                                    fs@,
                                    root,
                                    refs,
                                    (#[trigger] entries_view(envs@)[t]).0,
                                    entries_view(envs@)[t].1,
                                ),
                            forall|i2: int, j2: int|
                                0 <= i2 < i && crate::fs::fs_is_dir(fs@, env_dir_of_ref(root, refs[i2]))
                                    && 0 <= j2 < children_spec(fs@, env_dir_of_ref(root, refs[i2])).len()
                                    && env_key_at(
                                    fs@,
                                    #[trigger] children_spec(fs@, env_dir_of_ref(root, refs[i2]))[j2],
                                ) is Some ==> entry_keys(entries_view(envs@)).contains(
                                    env_key_at(
                                        fs@,
                                        children_spec(fs@, env_dir_of_ref(root, refs[i2]))[j2],
                                    ).unwrap(),
                                ),
                            forall|j2: int|
                                0 <= j2 < j && env_key_at(fs@, #[trigger] ch[j2]) is Some
                                    ==> entry_keys(entries_view(envs@)).contains(
                                    env_key_at(fs@, ch[j2]).unwrap(),
                                ),
                        decreases entries.len() - j,
                    {
                        let env_path = entries[j].as_str();
                        assert(entries@.map_values(|s: String| s@)[j as int] == env_path@);
                        assert(ch[j as int] == env_path@);
                        let env_file = join(env_path, ".pmp.environment.yaml");
                        if fs.path_exists(env_file.as_str()) {
                            match EnvironmentResource::from_file(fs, env_file.as_str()) {
                                Ok(resource) => {
                                    let ghost before = entries_view(envs@);
                                    let ghost k = (resource.metadata.name@, resource.metadata.environment_name@);
                                    assert(env_key_at(fs@, env_path@) == Some(k));
                                    assert(found_env(fs@, root, refs, k, env_path@)) by {
                                        assert(children_spec(fs@, env_dir_of_ref(root, refs[i as int]))[j as int] == env_path@);
                                    }
                                    map_insert(
                                        &mut envs,
                                        resource.metadata.name,
                                        resource.metadata.environment_name,
                                        env_path.to_owned(),
                                    );
                                    proof {
                                        let after = entries_view(envs@);
                                        assert forall|t: int| 0 <= t < envs@.len() implies found_env(
                                            fs@,
                                            root,
                                            refs,
                                            (#[trigger] after[t]).0,
                                            after[t].1,
                                        ) by {
                                            if after[t] != (k, env_path@) {
                                                let u = choose|u: int| 0 <= u < before.len() && before[u] == after[t];
                                                assert(found_env(fs@, root, refs, before[u].0, before[u].1));
                                            }
                                        }
                                        assert(entry_keys(before).contains(k) ==> entry_keys(after).contains(k));
                                        assert(entry_keys(after).contains(k));
                                    }
                                },
                                Err(_) => {},
                            }
                        }
                        j = j + 1;
                    }
                },
                Err(_) => {},
            }
            i = i + 1;
        }
        envs
    }
}

} // verus!
