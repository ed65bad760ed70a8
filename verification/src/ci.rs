//! CI/CD pipelines for an infrastructure: which environments a pipeline
//! runs, in which stages, and the pipeline text for each CI system.

use vstd::prelude::*;
use crate::discovery::{all_found_projects, is_nearest_collection, lemma_discoverable_at, no_collection_above, projects_discoverable, CollectionDiscovery};
use crate::environments::{all_infos, info_key, infos_view, scan_environments, EnvironmentInfo, InfoView};
use crate::fs::MemoryFileSystem;
use crate::output::{emit, lines_view, LineView, OutputLine};
use crate::paths::join_spec;
use crate::resources::{infrastructure_view, ProjectReference};
use crate::text::{
    concat3, contains_str, decimal, lowercase, str_eq, to_chars, to_lowercase, usize_to_string, views_of,
};

verus! {

broadcast use {
    vstd::string::group_string_axioms,
    vstd::seq_lib::lemma_seq_contains_after_push,
    vstd::seq_lib::lemma_seq_concat_contains_all_elements,
};

/// Generates CI/CD pipelines.
pub struct CiCommand;

/// The CI systems a pipeline can be generated for.
pub enum PipelineType {
    GitHubActions,
    GitLabCI,
    Jenkins,
}

/// The key of the environment at index `i` of `infos`.
pub open spec fn key_at(infos: Seq<InfoView>, i: usize) -> Seq<char> {
    info_key(infos[i as int])
}

/// Whether every dependency of the environment at `i` is among `ks`.
pub open spec fn deps_met(infos: Seq<InfoView>, i: usize, ks: Seq<Seq<char>>) -> bool {
    forall|d: Seq<char>| #[trigger] infos[i as int].3.contains(d) ==> ks.contains(d)
}

/// The indices of `infos`, in order, whose key is not among `ks`.
pub open spec fn unassigned(infos: Seq<InfoView>, ks: Seq<Seq<char>>, n: nat) -> Seq<usize>
    decreases n,
{
    if n == 0 {
        Seq::empty()
    } else {
        let rest = unassigned(infos, ks, (n - 1) as nat);
        if ks.contains(info_key(infos[n - 1])) {
            rest
        } else {
            rest.push((n - 1) as usize)
        }
    }
}

/// All indices of the groups `gs`, group after group.
pub open spec fn flatten(gs: Seq<Seq<usize>>) -> Seq<usize>
    decreases gs.len(),
{
    if gs.len() == 0 {
        Seq::empty()
    } else {
        flatten(gs.drop_last()) + gs.last()
    }
}

/// The keys of the environments at the indices `ix`.
pub open spec fn keys_at(infos: Seq<InfoView>, ix: Seq<usize>) -> Seq<Seq<char>> {
    ix.map_values(|i: usize| info_key(infos[i as int]))
}

/// Whether every member of the group `g` of `gs` comes after all it depends
/// on (in an earlier group, or earlier in its own), or the group was forced:
/// none of its members had its dependencies met by the earlier groups.
pub open spec fn group_ordered(infos: Seq<InfoView>, gs: Seq<Seq<usize>>, g: int) -> bool {
    let before = keys_at(infos, flatten(gs.take(g)));
    ||| forall|j: int| 0 <= j < gs[g].len() ==> deps_met(infos, #[trigger] gs[g][j], before)
    ||| forall|j: int| 0 <= j < gs[g].len() ==> !deps_met(infos, #[trigger] gs[g][j], before)
}

/// Whether no member of the group `g` of `gs` has a key placed in an
/// earlier group.
pub open spec fn stage_fresh(infos: Seq<InfoView>, gs: Seq<Seq<usize>>, g: int) -> bool {
    forall|j: int|
        0 <= j < gs[g].len() ==> !keys_at(infos, flatten(gs.take(g))).contains(#[trigger] key_at(infos, gs[g][j]))
}

/// Whether no member of the group `g` of `gs` whose dependencies lie in
/// earlier groups depends on a member of the same group: such a group can
/// run in parallel.
pub open spec fn stage_independent(infos: Seq<InfoView>, gs: Seq<Seq<usize>>, g: int) -> bool {
    forall|j: int, k: int|
        #![trigger gs[g][j], gs[g][k]]
        0 <= j < gs[g].len() && 0 <= k < gs[g].len() && deps_met(
            infos,
            gs[g][j],
            keys_at(infos, flatten(gs.take(g))),
        ) ==> !infos[gs[g][j] as int].3.contains(key_at(infos, gs[g][k]))
}

/// The plain values of a list of groups of indices.
pub open spec fn groups_view(v: Seq<Vec<usize>>) -> Seq<Seq<usize>> {
    v.map_values(|g: Vec<usize>| g@)
}

/// `deps_met` only depends on which keys occur.
pub proof fn lemma_deps_met_same(infos: Seq<InfoView>, i: usize, a: Seq<Seq<char>>, b: Seq<Seq<char>>)
    requires
        forall|k: Seq<char>| a.contains(k) <==> b.contains(k),
    ensures
        deps_met(infos, i, a) == deps_met(infos, i, b),
{
}

/// The unassigned indices are below `n`, in increasing order.
pub proof fn lemma_unassigned(infos: Seq<InfoView>, ks: Seq<Seq<char>>, n: nat)
    requires
        n <= usize::MAX,
        n <= infos.len(),
    ensures
        forall|t: int| 0 <= t < unassigned(infos, ks, n).len() ==> (#[trigger] unassigned(infos, ks, n)[t]) < n,
        forall|t: int, u: int|
            0 <= t < u < unassigned(infos, ks, n).len() ==> (#[trigger] unassigned(infos, ks, n)[t])
                < (#[trigger] unassigned(infos, ks, n)[u]),
        forall|i: usize| i < n ==> (#[trigger] unassigned(infos, ks, n).contains(i) <==> !ks.contains(
            info_key(infos[i as int]),
        )),
    decreases n,
{
    if n > 0 {
        lemma_unassigned(infos, ks, (n - 1) as nat);
        let rest = unassigned(infos, ks, (n - 1) as nat);
        let me = unassigned(infos, ks, n);
        let last = (n - 1) as usize;
        assert(!rest.contains(last)) by {
            if rest.contains(last) {
                let t = choose|t: int| 0 <= t < rest.len() && rest[t] == last;
                assert(rest[t] < n - 1);
            }
        }
        if ks.contains(info_key(infos[n - 1])) {
            assert(me == rest);
        } else {
            assert(me == rest.push(last));
            assert forall|t: int, u: int| 0 <= t < u < me.len() implies (#[trigger] me[t]) < (
            #[trigger] me[u]) by {
                if u < rest.len() {
                    assert(me[t] == rest[t] && me[u] == rest[u]);
                } else {
                    assert(me[t] == rest[t]);
                    assert(rest[t] < n - 1);
                }
            }
        }
    }
}

/// Assigning more keys leaves no more unassigned indices, and fewer when an
/// unassigned index's key is among the new ones.
pub proof fn lemma_unassigned_shrinks(infos: Seq<InfoView>, a: Seq<Seq<char>>, b: Seq<Seq<char>>, n: nat, w: usize)
    requires
        forall|k: Seq<char>| a.contains(k) ==> b.contains(k),
        n <= usize::MAX,
        n <= infos.len(),
        w < n,
        !a.contains(info_key(infos[w as int])),
        b.contains(info_key(infos[w as int])),
    ensures
        unassigned(infos, b, n).len() < unassigned(infos, a, n).len(),
    decreases n,
{
    if n - 1 > w {
        lemma_unassigned_shrinks(infos, a, b, (n - 1) as nat, w);
    } else {
        lemma_unassigned_le(infos, a, b, (n - 1) as nat);
    }
}

/// Assigning more keys leaves no more unassigned indices.
pub proof fn lemma_unassigned_le(infos: Seq<InfoView>, a: Seq<Seq<char>>, b: Seq<Seq<char>>, n: nat)
    requires
        forall|k: Seq<char>| a.contains(k) ==> b.contains(k),
    ensures
        unassigned(infos, b, n).len() <= unassigned(infos, a, n).len(),
    decreases n,
{
    if n > 0 {
        lemma_unassigned_le(infos, a, b, (n - 1) as nat);
    }
}

/// The keys of two runs of indices one after the other.
pub proof fn lemma_keys_at_concat(infos: Seq<InfoView>, a: Seq<usize>, b: Seq<usize>)
    ensures
        keys_at(infos, a + b) == keys_at(infos, a) + keys_at(infos, b),
{
    assert(keys_at(infos, a + b) =~= keys_at(infos, a) + keys_at(infos, b));
}

/// The indices of the groups `gs` with one more group `g` at the end.
pub proof fn lemma_flatten_push(gs: Seq<Seq<usize>>, g: Seq<usize>)
    ensures
        flatten(gs.push(g)) == flatten(gs) + g,
{
    assert(gs.push(g).drop_last() =~= gs);
}

/// The key of an environment.
fn key_of(info: &EnvironmentInfo) -> (r: String)
    ensures
        r@ == info_key(info@),
{
    concat3(info.name.as_str(), ":", info.environment.as_str())
}

/// Whether every dependency of `info` is among `assigned`.
fn all_deps_assigned(info: &EnvironmentInfo, assigned: &Vec<String>) -> (r: bool)
    ensures
        r == forall|d: Seq<char>| #[trigger] info@.3.contains(d) ==> views_of(assigned@).contains(d),
{
    let ds = &info.dependencies;
    let mut j: usize = 0;
    while j < ds.len()
        invariant
            0 <= j <= ds.len(),
            info@.3 == views_of(ds@),
            forall|t: int| 0 <= t < j ==> views_of(assigned@).contains(#[trigger] views_of(ds@)[t]),
        decreases ds.len() - j,
    {
        if !contains_str(assigned, ds[j].as_str()) {
            assert(views_of(ds@)[j as int] == ds@[j as int]@);
            assert(info@.3 == views_of(ds@));
            assert(info@.3[j as int] == ds@[j as int]@);
            assert(info@.3.contains(ds@[j as int]@));
            return false;
        }
        j = j + 1;
    }
    assert forall|d: Seq<char>| #[trigger] info@.3.contains(d) implies views_of(assigned@).contains(d) by {
        let t = choose|t: int| 0 <= t < info@.3.len() && info@.3[t] == d;
        assert(views_of(ds@)[t] == d);
    }
    true
}

/// The indices of `infos`, in order, whose key is not among `assigned`.
fn unassigned_indices(infos: &Vec<EnvironmentInfo>, assigned: &Vec<String>) -> (r: Vec<usize>)
    ensures
        r@ == unassigned(infos_view(infos@), views_of(assigned@), infos@.len()),
{
    let ghost iv = infos_view(infos@);
    let mut out: Vec<usize> = Vec::new();
    let mut i: usize = 0;
    while i < infos.len()
        invariant
            0 <= i <= infos.len(),
            iv == infos_view(infos@),
            out@ == unassigned(iv, views_of(assigned@), i as nat),
        decreases infos.len() - i,
    {
        let k = key_of(&infos[i]);
        assert(iv[i as int] == infos@[i as int]@);
        if !contains_str(assigned, k.as_str()) {
            out.push(i);
        }
        i = i + 1;
    }
    out
}

impl CiCommand {
    /// Splits the environments `projects` into stages, each a list of
    /// indices: a pass over the environments not placed yet puts into the
    /// next stage each one whose dependencies are all placed in earlier
    /// stages, so that a stage can run in parallel; when a pass places none, the
    /// stage takes every one left, to get past a cycle or a missing
    /// dependency. Every environment's key ends up placed, no index twice.
    pub fn group_by_dependency_level(projects: &Vec<EnvironmentInfo>) -> (r: Vec<Vec<usize>>)
        ensures
            flatten(groups_view(r@)).no_duplicates(),
            forall|t: int|
                0 <= t < flatten(groups_view(r@)).len() ==> #[trigger] flatten(groups_view(r@))[t]
                    < projects@.len(),
            forall|i: usize|
                i < projects@.len() ==> keys_at(infos_view(projects@), flatten(groups_view(r@))).contains(
                    #[trigger] key_at(infos_view(projects@), i),
                ),
            forall|g: int| 0 <= g < r@.len() ==> (#[trigger] r@[g])@.len() > 0,
            forall|g: int|
                0 <= g < r@.len() ==> #[trigger] group_ordered(
                    infos_view(projects@),
                    groups_view(r@),
                    g,
                ),
            forall|g: int|
                0 <= g < r@.len() ==> #[trigger] stage_independent(infos_view(projects@), groups_view(r@), g),
    {
        let ghost iv = infos_view(projects@);
        let ghost n = projects@.len();
        assert(projects@.len() == projects.len());
        let mut groups: Vec<Vec<usize>> = Vec::new();
        let mut assigned: Vec<String> = Vec::new();
        let mut remaining = unassigned_indices(projects, &assigned);
        proof {
            assert(views_of(assigned@) =~= Seq::<Seq<char>>::empty());
            assert(groups_view(groups@) =~= Seq::<Seq<usize>>::empty());
            assert(flatten(groups_view(groups@)) =~= Seq::<usize>::empty());
            assert(keys_at(iv, flatten(groups_view(groups@))) =~= Seq::<Seq<char>>::empty());
        }
        while remaining.len() > 0
            invariant
                iv == infos_view(projects@),
                n == projects@.len(),
                n <= usize::MAX,
                views_of(assigned@).no_duplicates(),
                forall|k: Seq<char>|
                    #[trigger] views_of(assigned@).contains(k) <==> keys_at(
                        iv,
                        flatten(groups_view(groups@)),
                    ).contains(k),
                remaining@ == unassigned(iv, views_of(assigned@), n),
                flatten(groups_view(groups@)).no_duplicates(),
                forall|t: int|
                    0 <= t < flatten(groups_view(groups@)).len() ==> #[trigger] flatten(
                        groups_view(groups@),
                    )[t] < n,
                forall|g: int| 0 <= g < groups@.len() ==> (#[trigger] groups@[g])@.len() > 0,
                forall|g: int|
                    0 <= g < groups@.len() ==> #[trigger] group_ordered(iv, groups_view(groups@), g),
                forall|g: int| 0 <= g < groups@.len() ==> #[trigger] stage_fresh(iv, groups_view(groups@), g),
            decreases remaining.len(),
        {
            let ghost a0 = views_of(assigned@);
            let ghost rem = remaining@;
            let ghost placed0 = flatten(groups_view(groups@));
            proof {
                lemma_unassigned(iv, a0, n);
            }
            let mut current: Vec<usize> = Vec::new();
            let mut j: usize = 0;
            let placed_before = crate::text::copy_strings(&assigned);
            assert(keys_at(iv, current@) =~= Seq::<Seq<char>>::empty());
            while j < remaining.len()
                invariant
                    0 <= j <= remaining.len(),
                    iv == infos_view(projects@),
                    n == projects@.len(),
                    n <= usize::MAX,
                    remaining@ == rem,
                    rem == unassigned(iv, a0, n),
                    forall|t: int| 0 <= t < rem.len() ==> (#[trigger] rem[t]) < n,
                    forall|t: int, u: int| 0 <= t < u < rem.len() ==> (#[trigger] rem[t]) < (#[trigger] rem[u]),
                    forall|i: usize| i < n ==> (#[trigger] rem.contains(i) <==> !a0.contains(info_key(iv[i as int]))),
                    views_of(assigned@).no_duplicates(),
                    forall|k: Seq<char>|
                        #[trigger] views_of(assigned@).contains(k) <==> (a0.contains(k) || keys_at(
                            iv,
                            current@,
                        ).contains(k)),
                    forall|t: int| 0 <= t < current@.len() ==> rem.contains(#[trigger] current@[t]),
                    forall|t: int, u: int|
                        0 <= t < u < current@.len() ==> (#[trigger] current@[t]) < (#[trigger] current@[u]),
                    current@.len() > 0 ==> exists|t: int| 0 <= t < j && rem[t] == current@.last(),
                    views_of(placed_before@) == a0,
                    forall|t: int| 0 <= t < current@.len() ==> deps_met(iv, #[trigger] current@[t], a0),
                    current@.len() == 0 ==> views_of(assigned@) == a0 && forall|t: int|
                        0 <= t < j ==> !deps_met(iv, #[trigger] rem[t], a0),
                decreases remaining.len() - j,
            {
                let p = remaining[j];
                let info = &projects[p];
                assert(iv[p as int] == info@);
                let key = key_of(info);
                if all_deps_assigned(info, &placed_before) {
                    let ghost c0 = current@;
                    let ghost as0 = views_of(assigned@);
                    current.push(p);
                    if !contains_str(&assigned, key.as_str()) {
                        assigned.push(key);
                        assert(views_of(assigned@) =~= as0.push(info_key(iv[p as int])));
                    }
                    proof {
                        assert(keys_at(iv, current@) =~= keys_at(iv, c0).push(info_key(iv[p as int])));
                        assert forall|t: int| 0 <= t < current@.len() implies deps_met(
                            iv,
                            #[trigger] current@[t],
                            a0,
                        ) by {
                            if t < c0.len() {
                                assert(current@[t] == c0[t]);
                            }
                        }
                        assert(rem.contains(p));
                        assert forall|t: int, u: int| 0 <= t < u < current@.len() implies (
                        #[trigger] current@[t]) < (#[trigger] current@[u]) by {
                            if u == c0.len() && c0.len() > 0 {
                                assert(c0.last() < p);
                                if t < c0.len() - 1 {
                                    assert(c0[t] < c0.last());
                                }
                            }
                        }
                        if c0.len() > 0 {
                            let w = choose|w: int| 0 <= w < j && rem[w] == c0.last();
                            assert(rem[w] < rem[j as int]);
                        }
                    }
                } else {
                    proof {
                        assert(!deps_met(iv, p, a0));
                    }
                }
                j = j + 1;
            }
            proof {
                lemma_unassigned(iv, a0, n);
            }
            if current.len() == 0 {
                let mut k: usize = 0;
                while k < remaining.len()
                    invariant
                        0 <= k <= remaining.len(),
                        iv == infos_view(projects@),
                        n == projects@.len(),
                        n <= usize::MAX,
                        remaining@ == rem,
                        rem == unassigned(iv, a0, n),
                        forall|t: int| 0 <= t < rem.len() ==> (#[trigger] rem[t]) < n,
                        forall|t: int, u: int| 0 <= t < u < rem.len() ==> (#[trigger] rem[t]) < (#[trigger] rem[u]),
                        forall|i: usize| i < n ==> (#[trigger] rem.contains(i) <==> !a0.contains(info_key(iv[i as int]))),
                        forall|t: int| 0 <= t < rem.len() ==> !deps_met(iv, #[trigger] rem[t], a0),
                        views_of(assigned@).no_duplicates(),
                        forall|x: Seq<char>|
                            #[trigger] views_of(assigned@).contains(x) <==> (a0.contains(x) || keys_at(
                                iv,
                                current@,
                            ).contains(x)),
                        forall|t: int| 0 <= t < current@.len() ==> rem.contains(#[trigger] current@[t]),
                        forall|t: int, u: int|
                            0 <= t < u < current@.len() ==> (#[trigger] current@[t]) < (#[trigger] current@[u]),
                        current@.len() > 0 ==> exists|t: int| 0 <= t < k && rem[t] == current@.last(),
                        k > 0 ==> current@.len() > 0,
                        forall|t: int| 0 <= t < current@.len() ==> !deps_met(iv, #[trigger] current@[t], a0),
                    decreases remaining.len() - k,
                {
                    let p = remaining[k];
                    let key = key_of(&projects[p]);
                    assert(iv[p as int] == projects@[p as int]@);
                    if !contains_str(&assigned, key.as_str()) {
                        let ghost c0 = current@;
                        let ghost as0 = views_of(assigned@);
                        current.push(p);
                        assigned.push(key);
                        proof {
                            assert(views_of(assigned@) =~= as0.push(info_key(iv[p as int])));
                            assert(keys_at(iv, current@) =~= keys_at(iv, c0).push(info_key(iv[p as int])));
                            assert(rem.contains(p));
                            assert(!deps_met(iv, rem[k as int], a0));
                            assert forall|t: int, u: int| 0 <= t < u < current@.len() implies (
                            #[trigger] current@[t]) < (#[trigger] current@[u]) by {
                                if u == c0.len() && c0.len() > 0 {
                                    let w = choose|w: int| 0 <= w < k && rem[w] == c0.last();
                                    assert(rem[w] < rem[k as int]);
                                    if t < c0.len() - 1 {
                                        assert(c0[t] < c0.last());
                                    }
                                }
                            }
                        }
                    } else {
                        proof {
                            if k == 0 {
                                assert(rem.contains(p));
                                assert(!a0.contains(info_key(iv[p as int])));
                                assert(current@.len() == 0);
                            }
                        }
                    }
                    k = k + 1;
                }
            }
            let ghost cur = current@;
            let ghost gv0 = groups_view(groups@);
            proof {
                assert(cur.len() > 0);
                lemma_flatten_push(gv0, cur);
                lemma_keys_at_concat(iv, placed0, cur);
            }
            groups.push(current);
            proof {
                let gv = groups_view(groups@);
                assert(gv =~= gv0.push(cur));
                assert(gv.take(gv0.len() as int) =~= gv0);
                let fl = flatten(gv);
                assert(fl == placed0 + cur);
                assert forall|t: int, u: int| 0 <= t < u < fl.len() implies fl[t] != fl[u] by {
                    if u >= placed0.len() && t < placed0.len() {
                        let x = fl[u];
                        assert(x == cur[u - placed0.len()]);
                        assert(rem.contains(x));
                        assert(keys_at(iv, placed0).contains(info_key(iv[fl[t] as int]))) by {
                            assert(keys_at(iv, placed0)[t] == info_key(iv[fl[t] as int]));
                        }
                        if fl[t] == x {
                            assert(a0.contains(info_key(iv[x as int])));
                        }
                    } else if t >= placed0.len() {
                        assert(fl[t] == cur[t - placed0.len()] && fl[u] == cur[u - placed0.len()]);
                    }
                }
                assert forall|t: int| 0 <= t < fl.len() implies #[trigger] fl[t] < n by {
                    if t >= placed0.len() {
                        assert(fl[t] == cur[t - placed0.len()]);
                        assert(rem.contains(fl[t]));
                        let w = choose|w: int| 0 <= w < rem.len() && rem[w] == fl[t];
                    } else {
                        assert(fl[t] == placed0[t]);
                    }
                }
                assert forall|g: int| 0 <= g < groups@.len() implies #[trigger] group_ordered(iv, gv, g) by {
                    if g < gv0.len() {
                        assert(gv[g] == gv0[g]);
                        assert(gv.take(g) =~= gv0.take(g));
                        assert(group_ordered(iv, gv0, g));
                    } else {
                        assert(gv[g] == cur);
                        assert(gv.take(g) =~= gv0);
                        let before = keys_at(iv, flatten(gv.take(g)));
                        assert(before == keys_at(iv, placed0));
                        assert forall|j: int| 0 <= j < cur.len() implies (deps_met(iv, cur[j], a0) <==> deps_met(iv, #[trigger] cur[j], before)) by {
                            lemma_deps_met_same(iv, cur[j], a0, before);
                        }
                    }
                }
                assert(gv[gv0.len() as int] == cur);
                assert forall|g: int| 0 <= g < groups@.len() implies #[trigger] stage_fresh(iv, gv, g) by {
                    if g < gv0.len() {
                        assert(gv[g] == gv0[g]);
                        assert(gv.take(g) =~= gv0.take(g));
                        assert(stage_fresh(iv, gv0, g));
                    } else {
                        assert(gv[g] == cur);
                        assert(gv.take(g) =~= gv0);
                        assert forall|j: int| 0 <= j < cur.len() implies !keys_at(iv, placed0).contains(
                            #[trigger] key_at(iv, cur[j]),
                        ) by {
                            assert(rem.contains(cur[j]));
                            assert(!a0.contains(info_key(iv[cur[j] as int])));
                        }
                    }
                }
                assert forall|g: int| 0 <= g < groups@.len() implies (#[trigger] groups@[g])@.len() > 0 by {
                    if g < gv0.len() {
                        assert(groups@[g]@ == gv0[g]);
                    }
                }
            }
            let ghost a1 = views_of(assigned@);
            proof {
                let w = cur[0];
                assert(rem.contains(w));
                assert(!a0.contains(info_key(iv[w as int])));
                assert(keys_at(iv, cur)[0] == info_key(iv[w as int]));
                assert(a1.contains(info_key(iv[w as int])));
                lemma_unassigned_shrinks(iv, a0, a1, n, w);
            }
            remaining = unassigned_indices(projects, &assigned);
        }
        proof {
            let gv = groups_view(groups@);
            assert forall|g: int| 0 <= g < groups@.len() implies #[trigger] stage_independent(iv, gv, g) by {
                assert(stage_fresh(iv, gv, g));
                assert forall|j: int, k: int|
                    #![trigger gv[g][j], gv[g][k]]
                    0 <= j < gv[g].len() && 0 <= k < gv[g].len() && deps_met(
                        iv,
                        gv[g][j],
                        keys_at(iv, flatten(gv.take(g))),
                    ) implies !iv[gv[g][j] as int].3.contains(key_at(iv, gv[g][k])) by {
                    assert(!keys_at(iv, flatten(gv.take(g))).contains(key_at(iv, gv[g][k])));
                }
            }
            lemma_unassigned(iv, views_of(assigned@), n);
            assert forall|i: usize| i < n implies keys_at(iv, flatten(groups_view(groups@))).contains(
                #[trigger] key_at(iv, i),
            ) by {
                if !views_of(assigned@).contains(info_key(iv[i as int])) {
                    assert(remaining@.contains(i));
                }
            }
        }
        groups
    }
}

/// `s` with each `from` replaced by `to`.
pub open spec fn replace_char(s: Seq<char>, from: char, to: char) -> Seq<char> {
    s.map_values(|c: char| if c == from { to } else { c })
}

/// `s` with each `from` replaced by `to`, as `str::replace` with a `char`
/// pattern and a one-character replacement.
pub fn replace_char_exec(s: &str, from: char, to: char) -> (r: String)
    ensures
        r@ == replace_char(s@, from, to),
{
    let cs = to_chars(s);
    let mut out: Vec<char> = Vec::new();
    let mut i: usize = 0;
    while i < cs.len()
        invariant
            0 <= i <= cs.len(),
            cs@ == s@,
            out@ == replace_char(s@, from, to).take(i as int),
        decreases cs.len() - i,
    {
        let c = cs[i];
        out.push(if c == from {
            to
        } else {
            c
        });
        assert(out@ =~= replace_char(s@, from, to).take(i + 1));
        i = i + 1;
    }
    assert(replace_char(s@, from, to).take(cs.len() as int) =~= replace_char(s@, from, to));
    crate::text::string_from_chars(out.as_slice())
}

/// Appends `s` to `out`.
fn put(out: &mut String, s: &str)
    ensures
        final(out)@ == old(out)@ + s@,
{
    out.append(s);
}

/// The name of a pipeline type, as it is shown.
pub open spec fn pipeline_name(t: PipelineType) -> Seq<char> {
    match t {
        PipelineType::GitHubActions => "GitHubActions"@,
        PipelineType::GitLabCI => "GitLabCI"@,
        PipelineType::Jenkins => "Jenkins"@,
    }
}

impl PipelineType {
    /// The pipeline type a name stands for, ignoring case: `github` or
    /// `github-actions`, `gitlab` or `gitlab-ci`, `jenkins`.
    pub fn from_str(s: &str) -> (r: Result<PipelineType, String>)
        ensures
            r matches Ok(PipelineType::GitHubActions) <==> (lowercase(s@) == "github"@ || lowercase(s@)
                == "github-actions"@),
            r matches Ok(PipelineType::GitLabCI) <==> (lowercase(s@) == "gitlab"@ || lowercase(s@)
                == "gitlab-ci"@),
            r matches Ok(PipelineType::Jenkins) <==> lowercase(s@) == "jenkins"@,
            r matches Err(e) ==> e@ == "Unsupported pipeline type: "@ + s@,
    {
        proof {
            reveal_strlit("github");
            reveal_strlit("github-actions");
            reveal_strlit("gitlab");
            reveal_strlit("gitlab-ci");
            reveal_strlit("jenkins");
            assert("github"@ != "gitlab"@ && "github"@ != "gitlab-ci"@ && "github"@ != "jenkins"@) by {
                assert("github"@[3] != "gitlab"@[3]);
                assert("github"@.len() != "gitlab-ci"@.len());
                assert("github"@[0] != "jenkins"@[0]);
            }
            assert("github-actions"@ != "gitlab"@ && "github-actions"@ != "gitlab-ci"@
                && "github-actions"@ != "jenkins"@) by {
                assert("github-actions"@.len() != "gitlab"@.len());
                assert("github-actions"@.len() != "gitlab-ci"@.len());
                assert("github-actions"@.len() != "jenkins"@.len());
            }
            assert("gitlab"@ != "jenkins"@ && "gitlab-ci"@ != "jenkins"@) by {
                assert("gitlab"@[0] != "jenkins"@[0]);
                assert("gitlab-ci"@.len() != "jenkins"@.len());
            }
        }
        let lower = to_lowercase(s);
        let l = lower.as_str();
        if str_eq(l, "github") || str_eq(l, "github-actions") {
            Ok(PipelineType::GitHubActions)
        } else if str_eq(l, "gitlab") || str_eq(l, "gitlab-ci") {
            Ok(PipelineType::GitLabCI)
        } else if str_eq(l, "jenkins") {
            Ok(PipelineType::Jenkins)
        } else {
            let mut e = "Unsupported pipeline type: ".to_owned();
            e.append(s);
            Err(e)
        }
    }

    /// The name of this pipeline type, as it is shown.
    pub fn name(&self) -> (r: &'static str)
        ensures
            r@ == pipeline_name(*self),
    {
        match self {
            PipelineType::GitHubActions => "GitHubActions",
            PipelineType::GitLabCI => "GitLabCI",
            PipelineType::Jenkins => "Jenkins",
        }
    }
}

/// The start of a GitHub Actions workflow that runs every environment.
pub const GH_HEAD: &'static str = "name: PMP Infrastructure Deployment\n\non:\n  push:\n    branches:\n      - main\n  pull_request:\n    branches:\n      - main\n  workflow_dispatch:\n\nenv:\n  TOFU_VERSION: \"1.6.0\"\n\njobs:\n";

/// The start of the matrix of a GitHub Actions stage.
pub const GH_STRATEGY: &'static str = "    strategy:\n      matrix:\n        project:\n";

/// The steps of a GitHub Actions stage.
pub const GH_STEPS: &'static str = "\n    steps:\n      - name: Checkout\n        uses: actions/checkout@v4\n\n      - name: Setup OpenTofu\n        uses: opentofu/setup-opentofu@v1\n        with:\n          tofu_version: ${{ env.TOFU_VERSION }}\n\n      # TODO: Install PMP binary\n      # - name: Install PMP\n      #   run: |\n      #     # Download and install PMP\n\n      - name: Preview (Plan)\n        if: github.event_name == 'pull_request'\n        working-directory: ${{ matrix.project.path }}\n        run: pmp project preview\n\n      - name: Apply\n        if: github.ref == 'refs/heads/main' && github.event_name == 'push'\n        working-directory: ${{ matrix.project.path }}\n        run: pmp project apply\n\n";

/// The start of a GitLab CI configuration that runs every environment.
pub const GL_HEAD: &'static str = "# GitLab CI/CD Pipeline for PMP Infrastructure\n\nstages:\n";

/// The variables and defaults of a GitLab CI configuration.
pub const GL_VARS: &'static str = "variables:\n  TOFU_VERSION: \"1.6.0\"\n\ndefault:\n  image: alpine:latest\n  before_script:\n    - apk add --no-cache curl\n    - curl -Lo /usr/local/bin/tofu https://github.com/opentofu/opentofu/releases/download/v${TOFU_VERSION}/tofu_${TOFU_VERSION}_linux_amd64.zip\n    - chmod +x /usr/local/bin/tofu\n    # TODO: Install PMP binary\n\n";

/// The rest of a GitLab CI job, after it enters the environment directory.
pub const GL_REST: &'static str = "    - |\n      # Run preview on MR, apply on main branch\n      if [ \"$CI_PIPELINE_SOURCE\" == \"merge_request_event\" ]; then\n        pmp project preview\n      elif [ \"$CI_COMMIT_BRANCH\" == \"main\" ]; then\n        pmp project apply\n      fi\n  rules:\n    - if: $CI_PIPELINE_SOURCE == \"merge_request_event\"\n    - if: $CI_COMMIT_BRANCH == \"main\"\n\n";

/// The start of a Jenkins pipeline.
pub const JK_HEAD: &'static str = "// Jenkinsfile for PMP Infrastructure\n\npipeline {\n    agent any\n\n    environment {\n        TOFU_VERSION = '1.6.0'\n    }\n\n    stages {\n";

/// The rest of the Jenkins stage of an environment.
pub const JK_MEMBER_REST: &'static str = "                            script {\n                                // Run preview on PR, apply on main branch\n                                if (env.CHANGE_ID) {\n                                    // Pull request\n                                    sh 'pmp project preview'\n                                } else if (env.BRANCH_NAME == 'main') {\n                                    // Main branch\n                                    sh 'pmp project apply'\n                                }\n                            }\n                        }\n                    }\n                }\n";

/// The end of a parallel Jenkins stage.
pub const JK_GROUP_END: &'static str = "            }\n        }\n";

/// The end of a Jenkins pipeline.
pub const JK_FOOT: &'static str = "    }\n\n    post {\n        success {\n            echo 'Deployment successful!'\n        }\n        failure {\n            echo 'Deployment failed!'\n        }\n    }\n}\n";

/// The GitHub Actions workflow that runs the environments a change touches.
pub const GH_DYN: &'static str = "name: PMP Infrastructure Deployment\n\non:\n  push:\n    branches:\n      - main\n    tags:\n      - '*'\n  pull_request:\n    branches:\n      - main\n  workflow_dispatch:\n\nenv:\n  TOFU_VERSION: \"1.6.0\"\n\njobs:\n  detect-changes:\n    name: Detect Changed Projects\n    runs-on: ubuntu-latest\n    outputs:\n      projects: ${{ steps.detect.outputs.projects }}\n      has_changes: ${{ steps.detect.outputs.has_changes }}\n    steps:\n      - name: Checkout\n        uses: actions/checkout@v4\n        with:\n          fetch-depth: 0  # Need full history for git diff\n\n      # TODO: Install PMP binary (from GitHub release or build)\n      # - name: Install PMP\n      #   run: |\n      #     # Download and install PMP from GitHub releases\n      #     # or build from source\n\n      - name: Detect changed projects\n        id: detect\n        run: |\n          # Determine base ref based on event type\n          if [ \"${{ github.event_name }}\" = \"pull_request\" ]; then\n            BASE_REF=\"origin/${{ github.event.pull_request.base.ref }}\"\n          else\n            BASE_REF=\"origin/main\"\n          fi\n          \n          HEAD_REF=\"${{ github.sha }}\"\n          \n          # Run PMP detect-changes command\n          PROJECTS=$(pmp ci detect-changes --base \"$BASE_REF\" --head \"$HEAD_REF\" --output-format json 2>&1) || EXIT_CODE=$?\n          \n          # Check exit code\n          if [ \"${EXIT_CODE:-0}\" -eq 2 ]; then\n            echo \"Infrastructure configuration changed - skipping project CI\"\n            echo \"has_changes=false\" >> $GITHUB_OUTPUT\n            echo \"projects=[]\" >> $GITHUB_OUTPUT\n            exit 0\n          fi\n          \n          # Output results\n          echo \"projects=$PROJECTS\" >> $GITHUB_OUTPUT\n          if [ \"$PROJECTS\" = \"[]\" ]; then\n            echo \"has_changes=false\" >> $GITHUB_OUTPUT\n          else\n            echo \"has_changes=true\" >> $GITHUB_OUTPUT\n          fi\n\n  preview:\n    name: Preview ${{ matrix.project.name }} (${{ matrix.project.env }})\n    needs: detect-changes\n    if: github.event_name == 'pull_request' && needs.detect-changes.outputs.has_changes == 'true'\n    runs-on: ubuntu-latest\n    strategy:\n      fail-fast: false\n      matrix:\n        project: ${{ fromJSON(needs.detect-changes.outputs.projects) }}\n    steps:\n      - name: Checkout\n        uses: actions/checkout@v4\n\n      - name: Setup OpenTofu\n        uses: opentofu/setup-opentofu@v1\n        with:\n          tofu_version: ${{ env.TOFU_VERSION }}\n\n      # TODO: Install PMP binary\n      # - name: Install PMP\n      #   run: |\n      #     # Download and install PMP\n\n      - name: Preview changes\n        working-directory: ${{ matrix.project.path }}\n        run: pmp project preview\n\n  apply:\n    name: Apply ${{ matrix.project.name }} (${{ matrix.project.env }})\n    needs: detect-changes\n    if: (github.ref == 'refs/heads/main' || startsWith(github.ref, 'refs/tags/')) && github.event_name == 'push' && needs.detect-changes.outputs.has_changes == 'true'\n    runs-on: ubuntu-latest\n    strategy:\n      fail-fast: false\n      matrix:\n        project: ${{ fromJSON(needs.detect-changes.outputs.projects) }}\n    steps:\n      - name: Checkout\n        uses: actions/checkout@v4\n\n      - name: Setup OpenTofu\n        uses: opentofu/setup-opentofu@v1\n        with:\n          tofu_version: ${{ env.TOFU_VERSION }}\n\n      # TODO: Install PMP binary\n      # - name: Install PMP\n      #   run: |\n      #     # Download and install PMP\n\n      - name: Apply changes\n        working-directory: ${{ matrix.project.path }}\n        run: pmp project apply\n\n";

/// The GitLab CI configuration that runs the environments a change touches.
pub const GL_DYN: &'static str = "# GitLab CI/CD Pipeline for PMP Infrastructure (Dynamic - Change Detection)\n\nstages:\n  - detect\n  - preview\n  - apply\n\nvariables:\n  TOFU_VERSION: \"1.6.0\"\n\ndefault:\n  image: alpine:latest\n  before_script:\n    - apk add --no-cache curl git jq\n    - |\n      # Download and install OpenTofu\n      curl -Lo /tmp/tofu.tar.gz https://github.com/opentofu/opentofu/releases/download/v${TOFU_VERSION}/tofu_${TOFU_VERSION}_linux_amd64.tar.gz\n      tar -xzf /tmp/tofu.tar.gz -C /usr/local/bin\n      chmod +x /usr/local/bin/tofu\n    # TODO: Install PMP binary\n\ndetect-changes:\n  stage: detect\n  before_script:\n    - apk add --no-cache git\n    # TODO: Install PMP binary (from release or build from source)\n  script:\n    - |\n      # Determine base ref\n      if [ -n \"$CI_MERGE_REQUEST_TARGET_BRANCH_NAME\" ]; then\n        BASE_REF=\"origin/$CI_MERGE_REQUEST_TARGET_BRANCH_NAME\"\n      else\n        BASE_REF=\"origin/main\"\n      fi\n      \n      HEAD_REF=\"$CI_COMMIT_SHA\"\n      \n      # Run PMP detect-changes\n      PROJECTS=$(pmp ci detect-changes --base \"$BASE_REF\" --head \"$HEAD_REF\" --output-format json 2>&1) || EXIT_CODE=$?\n      \n      if [ \"${EXIT_CODE:-0}\" -eq 2 ]; then\n        echo \"Infrastructure changed - skipping project CI\"\n        echo \"CHANGED_PROJECTS=[]\" >> variables.env\n        echo \"HAS_CHANGES=false\" >> variables.env\n        exit 0\n      fi\n      \n      echo \"CHANGED_PROJECTS=$PROJECTS\" >> variables.env\n      if [ \"$PROJECTS\" = \"[]\" ]; then\n        echo \"HAS_CHANGES=false\" >> variables.env\n      else\n        echo \"HAS_CHANGES=true\" >> variables.env\n      fi\n  artifacts:\n    reports:\n      dotenv: variables.env\n\npreview-projects:\n  stage: preview\n  needs:\n    - job: detect-changes\n      artifacts: true\n  rules:\n    - if: $CI_PIPELINE_SOURCE == \"merge_request_event\" && $HAS_CHANGES == \"true\"\n  script:\n    - |\n      # Parse CHANGED_PROJECTS JSON and run pmp project preview for each\n      echo \"$CHANGED_PROJECTS\" | jq -r '.[] | \"\\(.path)\"' | while read -r project_path; do\n        echo \"Previewing project: $project_path\"\n        cd \"$project_path\"\n        pmp project preview\n        cd -\n      done\n\napply-projects:\n  stage: apply\n  needs:\n    - job: detect-changes\n      artifacts: true\n  rules:\n    - if: $CI_COMMIT_BRANCH == \"main\" && $CI_PIPELINE_SOURCE == \"push\" && $HAS_CHANGES == \"true\"\n    - if: $CI_COMMIT_TAG && $HAS_CHANGES == \"true\"\n  script:\n    - |\n      # Parse CHANGED_PROJECTS JSON and run pmp project apply for each\n      echo \"$CHANGED_PROJECTS\" | jq -r '.[] | \"\\(.path)\"' | while read -r project_path; do\n        echo \"Applying project: $project_path\"\n        cd \"$project_path\"\n        pmp project apply\n        cd -\n      done\n\n# NOTE: This implementation uses jq to parse the JSON array of changed projects\n# and runs pmp project preview/apply for each project in sequence.\n# For parallel execution, consider using GitLab dynamic child pipelines.\n";

/// `p` with `\` turned into `/`.
pub open spec fn slashes(p: Seq<char>) -> Seq<char> {
    replace_char(p, '\\', '/')
}

/// The GitHub Actions matrix entry of an environment.
pub open spec fn gh_member(i: InfoView) -> Seq<char> {
    "          - name: \""@ + i.0 + "\"\n"@ + "            env: \""@ + i.1 + "\"\n"@
        + "            path: \""@ + slashes(i.2) + "\"\n"@
}

/// The GitHub Actions matrix entries of the environments at `ms`.
pub open spec fn gh_members(iv: Seq<InfoView>, ms: Seq<usize>) -> Seq<char>
    decreases ms.len(),
{
    if ms.len() == 0 {
        Seq::empty()
    } else {
        gh_members(iv, ms.drop_last()) + gh_member(iv[ms.last() as int])
    }
}

/// The start of the GitHub Actions job of stage `l`: its name, and the
/// stage before it that it waits for.
pub open spec fn gh_stage_head(l: nat) -> Seq<char> {
    "  stage_"@ + decimal(l) + ":\n"@ + "    name: Deploy Stage "@ + decimal(l) + "\n"@
        + "    runs-on: ubuntu-latest\n"@ + (if l > 0 {
        "    needs:\n"@ + "      - stage_"@ + decimal((l - 1) as nat) + "\n"@
    } else {
        Seq::empty()
    })
}

/// The GitHub Actions job of stage `l`, running the environments at `ms`.
pub open spec fn gh_stage(iv: Seq<InfoView>, l: nat, ms: Seq<usize>) -> Seq<char> {
    gh_stage_head(l) + GH_STRATEGY@ + gh_members(iv, ms) + GH_STEPS@
}

/// The GitHub Actions jobs of the stages `gs`.
pub open spec fn gh_stages(iv: Seq<InfoView>, gs: Seq<Seq<usize>>) -> Seq<char>
    decreases gs.len(),
{
    if gs.len() == 0 {
        Seq::empty()
    } else {
        gh_stages(iv, gs.drop_last()) + gh_stage(iv, (gs.len() - 1) as nat, gs.last())
    }
}

/// The GitHub Actions workflow that runs the stages `gs` in turn.
pub open spec fn github_static(iv: Seq<InfoView>, gs: Seq<Seq<usize>>) -> Seq<char> {
    GH_HEAD@ + gh_stages(iv, gs)
}

/// The jobs of the stages hold the job of each stage.
proof fn lemma_gh_stages_split(iv: Seq<InfoView>, gs: Seq<Seq<usize>>, l: int) -> (r: (Seq<char>, Seq<char>))
    requires
        0 <= l < gs.len(),
    ensures
        gh_stages(iv, gs) == r.0 + gh_stage(iv, l as nat, gs[l]) + r.1,
    decreases gs.len(),
{
    let last = gh_stage(iv, (gs.len() - 1) as nat, gs.last());
    if l == gs.len() - 1 {
        assert(gh_stages(iv, gs) =~= gh_stages(iv, gs.drop_last()) + last + Seq::empty());
        (gh_stages(iv, gs.drop_last()), Seq::empty())
    } else {
        let r = lemma_gh_stages_split(iv, gs.drop_last(), l);
        assert(gs.drop_last()[l] == gs[l]);
        assert(gh_stages(iv, gs) =~= r.0 + gh_stage(iv, l as nat, gs[l]) + (r.1 + last));
        (r.0, r.1 + last)
    }
}

/// In the GitHub Actions workflow, the job of each stage after the first
/// needs the job of the stage before it, so stages run one after another.
pub proof fn lemma_github_stage_needs_previous(iv: Seq<InfoView>, gs: Seq<Seq<usize>>, l: int)
    requires
        0 < l < gs.len(),
    ensures
        crate::text::has_substring(
            github_static(iv, gs),
            "  stage_"@ + decimal(l as nat) + ":\n"@ + "    name: Deploy Stage "@ + decimal(l as nat) + "\n"@
                + "    runs-on: ubuntu-latest\n"@ + "    needs:\n"@ + "      - stage_"@ + decimal((l - 1) as nat)
                + "\n"@,
        ),
{
    let r = lemma_gh_stages_split(iv, gs, l);
    let want = "  stage_"@ + decimal(l as nat) + ":\n"@ + "    name: Deploy Stage "@ + decimal(l as nat) + "\n"@
        + "    runs-on: ubuntu-latest\n"@ + "    needs:\n"@ + "      - stage_"@ + decimal((l - 1) as nat) + "\n"@;
    assert(gh_stage_head(l as nat) =~= want);
    let tail = GH_STRATEGY@ + gh_members(iv, gs[l]) + GH_STEPS@;
    assert(github_static(iv, gs) =~= (GH_HEAD@ + r.0) + want + (tail + r.1));
    crate::graph::lemma_has_substring_middle(GH_HEAD@ + r.0, want, tail + r.1);
}

/// The GitLab CI stage names of `n` stages.
pub open spec fn gl_stage_names(n: nat) -> Seq<char>
    decreases n,
{
    if n == 0 {
        Seq::empty()
    } else {
        gl_stage_names((n - 1) as nat) + "  - stage_"@ + decimal((n - 1) as nat) + "\n"@
    }
}

/// The GitLab CI job of an environment in stage `l`.
pub open spec fn gl_job(i: InfoView, l: nat) -> Seq<char> {
    replace_char(i.0, '-', '_') + "_"@ + i.1 + ":\n"@ + "  stage: stage_"@ + decimal(l) + "\n"@
        + "  script:\n"@ + "    - cd "@ + slashes(i.2) + "\n"@ + GL_REST@
}

/// The GitLab CI jobs of the environments at `ms`, in stage `l`.
pub open spec fn gl_jobs_of(iv: Seq<InfoView>, l: nat, ms: Seq<usize>) -> Seq<char>
    decreases ms.len(),
{
    if ms.len() == 0 {
        Seq::empty()
    } else {
        gl_jobs_of(iv, l, ms.drop_last()) + gl_job(iv[ms.last() as int], l)
    }
}

/// The GitLab CI jobs of the stages `gs`.
pub open spec fn gl_jobs(iv: Seq<InfoView>, gs: Seq<Seq<usize>>) -> Seq<char>
    decreases gs.len(),
{
    if gs.len() == 0 {
        Seq::empty()
    } else {
        gl_jobs(iv, gs.drop_last()) + gl_jobs_of(iv, (gs.len() - 1) as nat, gs.last())
    }
}

/// The GitLab CI configuration that runs the stages `gs` in turn.
pub open spec fn gitlab_static(iv: Seq<InfoView>, gs: Seq<Seq<usize>>) -> Seq<char> {
    GL_HEAD@ + gl_stage_names(gs.len()) + "\n"@ + GL_VARS@ + gl_jobs(iv, gs)
}

/// The Jenkins stage of an environment.
pub open spec fn jk_member(i: InfoView) -> Seq<char> {
    "                stage('"@ + i.0 + ":"@ + i.1 + "') {\n"@ + "                    steps {\n"@
        + "                        dir('"@ + slashes(i.2) + "') {\n"@ + JK_MEMBER_REST@
}

/// The Jenkins stages of the environments at `ms`.
pub open spec fn jk_members(iv: Seq<InfoView>, ms: Seq<usize>) -> Seq<char>
    decreases ms.len(),
{
    if ms.len() == 0 {
        Seq::empty()
    } else {
        jk_members(iv, ms.drop_last()) + jk_member(iv[ms.last() as int])
    }
}

/// The Jenkins stage `l`, running the environments at `ms` in parallel.
pub open spec fn jk_stage(iv: Seq<InfoView>, l: nat, ms: Seq<usize>) -> Seq<char> {
    "        stage('Stage "@ + decimal(l) + "') {\n"@ + "            parallel {\n"@ + jk_members(iv, ms)
        + JK_GROUP_END@
}

/// The Jenkins stages of the stages `gs`.
pub open spec fn jk_stages(iv: Seq<InfoView>, gs: Seq<Seq<usize>>) -> Seq<char>
    decreases gs.len(),
{
    if gs.len() == 0 {
        Seq::empty()
    } else {
        jk_stages(iv, gs.drop_last()) + jk_stage(iv, (gs.len() - 1) as nat, gs.last())
    }
}

/// The Jenkins pipeline that runs the stages `gs` in turn.
pub open spec fn jenkins_static(iv: Seq<InfoView>, gs: Seq<Seq<usize>>) -> Seq<char> {
    JK_HEAD@ + jk_stages(iv, gs) + JK_FOOT@
}

/// The GitHub Actions workflow that runs the environments a change touches.
pub open spec fn github_dynamic() -> Seq<char> {
    GH_DYN@
}

/// The GitLab CI configuration that runs the environments a change touches.
pub open spec fn gitlab_dynamic() -> Seq<char> {
    GL_DYN@
}

/// Whether every index of the groups `gs` is an index of `iv`.
pub open spec fn indices_in(iv: Seq<InfoView>, gs: Seq<Seq<usize>>) -> bool {
    forall|g: int, j: int| 0 <= g < gs.len() && 0 <= j < gs[g].len() ==> (#[trigger] gs[g][j]) < iv.len()
}

fn push_gh_stage_head(out: &mut String, l: usize)
    ensures
        final(out)@ == old(out)@ + gh_stage_head(l as nat),
{
    let ghost before = out@;
    let ls = usize_to_string(l);
    put(out, "  stage_");
    put(out, ls.as_str());
    put(out, ":\n");
    put(out, "    name: Deploy Stage ");
    put(out, ls.as_str());
    put(out, "\n");
    put(out, "    runs-on: ubuntu-latest\n");
    let ghost mid = out@;
    if l > 0 {
        put(out, "    needs:\n");
        put(out, "      - stage_");
        put(out, usize_to_string(l - 1).as_str());
        put(out, "\n");
    }
    assert(out@ =~= before + gh_stage_head(l as nat));
}

fn push_slashes(out: &mut String, p: &str)
    ensures
        final(out)@ == old(out)@ + slashes(p@),
{
    let s = replace_char_exec(p, '\\', '/');
    out.append(s.as_str());
}

impl CiCommand {
    /// The GitHub Actions workflow that runs all environments, stage after
    /// stage, each stage as a matrix over its environments.
    pub fn generate_github_actions_static(projects: &Vec<EnvironmentInfo>, groups: &Vec<Vec<usize>>) -> (r:
        String)
        requires
            indices_in(infos_view(projects@), groups_view(groups@)),
        ensures
            r@ == github_static(infos_view(projects@), groups_view(groups@)),
    {
        let ghost iv = infos_view(projects@);
        let ghost gv = groups_view(groups@);
        let mut out = String::new();
        put(&mut out, GH_HEAD);
        let mut l: usize = 0;
        assert(gv.take(0) =~= Seq::<Seq<usize>>::empty());
        while l < groups.len()
            invariant
                0 <= l <= groups.len(),
                iv == infos_view(projects@),
                gv == groups_view(groups@),
                indices_in(iv, gv),
                out@ == GH_HEAD@ + gh_stages(iv, gv.take(l as int)),
            decreases groups.len() - l,
        {
            let ghost before = out@;
            push_gh_stage_head(&mut out, l);
            put(&mut out, GH_STRATEGY);
            let ms = &groups[l];
            let ghost head = out@;
            let mut k: usize = 0;
            assert(ms@.take(0) =~= Seq::<usize>::empty());
            while k < ms.len()
                invariant
                    0 <= k <= ms.len(),
                    iv == infos_view(projects@),
                    gv == groups_view(groups@),
                    indices_in(iv, gv),
                    l < groups.len(),
                    gv[l as int] == ms@,
                    out@ == head + gh_members(iv, ms@.take(k as int)),
                decreases ms.len() - k,
            {
                let p = ms[k];
                assert(gv[l as int][k as int] == p);
                let info = &projects[p];
                assert(iv[p as int] == info@);
                assert(ms@.take(k + 1).drop_last() =~= ms@.take(k as int));
                assert(ms@.take(k + 1).last() == p);
                put(&mut out, "          - name: \"");
                put(&mut out, info.name.as_str());
                put(&mut out, "\"\n");
                put(&mut out, "            env: \"");
                put(&mut out, info.environment.as_str());
                put(&mut out, "\"\n");
                put(&mut out, "            path: \"");
                push_slashes(&mut out, info.path.as_str());
                put(&mut out, "\"\n");
                assert(out@ =~= head + gh_members(iv, ms@.take(k + 1)));
                k = k + 1;
            }
            assert(ms@.take(ms@.len() as int) =~= ms@);
            put(&mut out, GH_STEPS);
            assert(gv.take(l + 1).drop_last() =~= gv.take(l as int));
            assert(gv.take(l + 1).last() == ms@);
            assert(out@ =~= before + gh_stage(iv, l as nat, ms@));
            l = l + 1;
        }
        assert(gv.take(groups@.len() as int) =~= gv);
        out
    }

    /// The GitLab CI configuration that runs all environments, stage after
    /// stage, one job per environment.
    pub fn generate_gitlab_ci_static(projects: &Vec<EnvironmentInfo>, groups: &Vec<Vec<usize>>) -> (r: String)
        requires
            indices_in(infos_view(projects@), groups_view(groups@)),
        ensures
            r@ == gitlab_static(infos_view(projects@), groups_view(groups@)),
    {
        let ghost iv = infos_view(projects@);
        let ghost gv = groups_view(groups@);
        let mut out = String::new();
        put(&mut out, GL_HEAD);
        let mut l: usize = 0;
        while l < groups.len()
            invariant
                0 <= l <= groups.len(),
                out@ == GL_HEAD@ + gl_stage_names(l as nat),
            decreases groups.len() - l,
        {
            put(&mut out, "  - stage_");
            put(&mut out, usize_to_string(l).as_str());
            put(&mut out, "\n");
            l = l + 1;
        }
        put(&mut out, "\n");
        put(&mut out, GL_VARS);
        let ghost top = out@;
        let mut l: usize = 0;
        assert(gv.take(0) =~= Seq::<Seq<usize>>::empty());
        while l < groups.len()
            invariant
                0 <= l <= groups.len(),
                iv == infos_view(projects@),
                gv == groups_view(groups@),
                indices_in(iv, gv),
                out@ == top + gl_jobs(iv, gv.take(l as int)),
            decreases groups.len() - l,
        {
            let ms = &groups[l];
            let ghost head = out@;
            let ls = usize_to_string(l);
            let mut k: usize = 0;
            assert(ms@.take(0) =~= Seq::<usize>::empty());
            while k < ms.len()
                invariant
                    0 <= k <= ms.len(),
                    iv == infos_view(projects@),
                    gv == groups_view(groups@),
                    indices_in(iv, gv),
                    l < groups.len(),
                    gv[l as int] == ms@,
                    ls@ == decimal(l as nat),
                    out@ == head + gl_jobs_of(iv, l as nat, ms@.take(k as int)),
                decreases ms.len() - k,
            {
                let p = ms[k];
                assert(gv[l as int][k as int] == p);
                let info = &projects[p];
                assert(iv[p as int] == info@);
                assert(ms@.take(k + 1).drop_last() =~= ms@.take(k as int));
                assert(ms@.take(k + 1).last() == p);
                let job = replace_char_exec(info.name.as_str(), '-', '_');
                put(&mut out, job.as_str());
                put(&mut out, "_");
                put(&mut out, info.environment.as_str());
                put(&mut out, ":\n");
                put(&mut out, "  stage: stage_");
                put(&mut out, ls.as_str());
                put(&mut out, "\n");
                put(&mut out, "  script:\n");
                put(&mut out, "    - cd ");
                push_slashes(&mut out, info.path.as_str());
                put(&mut out, "\n");
                put(&mut out, GL_REST);
                assert(out@ =~= head + gl_jobs_of(iv, l as nat, ms@.take(k + 1)));
                k = k + 1;
            }
            assert(ms@.take(ms@.len() as int) =~= ms@);
            assert(gv.take(l + 1).drop_last() =~= gv.take(l as int));
            assert(gv.take(l + 1).last() == ms@);
            assert(out@ =~= top + gl_jobs(iv, gv.take(l + 1)));
            l = l + 1;
        }
        assert(gv.take(groups@.len() as int) =~= gv);
        assert(groups@.len() == gv.len());
        out
    }

    /// The Jenkins pipeline that runs all environments, stage after stage,
    /// the environments of a stage in parallel.
    pub fn generate_jenkins_static(projects: &Vec<EnvironmentInfo>, groups: &Vec<Vec<usize>>) -> (r: String)
        requires
            indices_in(infos_view(projects@), groups_view(groups@)),
        ensures
            r@ == jenkins_static(infos_view(projects@), groups_view(groups@)),
    {
        let ghost iv = infos_view(projects@);
        let ghost gv = groups_view(groups@);
        let mut out = String::new();
        put(&mut out, JK_HEAD);
        let mut l: usize = 0;
        assert(gv.take(0) =~= Seq::<Seq<usize>>::empty());
        while l < groups.len()
            invariant
                0 <= l <= groups.len(),
                iv == infos_view(projects@),
                gv == groups_view(groups@),
                indices_in(iv, gv),
                out@ == JK_HEAD@ + jk_stages(iv, gv.take(l as int)),
            decreases groups.len() - l,
        {
            let ghost before = out@;
            put(&mut out, "        stage('Stage ");
            put(&mut out, usize_to_string(l).as_str());
            put(&mut out, "') {\n");
            put(&mut out, "            parallel {\n");
            let ms = &groups[l];
            let ghost head = out@;
            let mut k: usize = 0;
            assert(ms@.take(0) =~= Seq::<usize>::empty());
            while k < ms.len()
                invariant
                    0 <= k <= ms.len(),
                    iv == infos_view(projects@),
                    gv == groups_view(groups@),
                    indices_in(iv, gv),
                    l < groups.len(),
                    gv[l as int] == ms@,
                    out@ == head + jk_members(iv, ms@.take(k as int)),
                decreases ms.len() - k,
            {
                let p = ms[k];
                assert(gv[l as int][k as int] == p);
                let info = &projects[p];
                assert(iv[p as int] == info@);
                assert(ms@.take(k + 1).drop_last() =~= ms@.take(k as int));
                assert(ms@.take(k + 1).last() == p);
                put(&mut out, "                stage('");
                put(&mut out, info.name.as_str());
                put(&mut out, ":");
                put(&mut out, info.environment.as_str());
                put(&mut out, "') {\n");
                put(&mut out, "                    steps {\n");
                put(&mut out, "                        dir('");
                push_slashes(&mut out, info.path.as_str());
                put(&mut out, "') {\n");
                put(&mut out, JK_MEMBER_REST);
                assert(out@ =~= head + jk_members(iv, ms@.take(k + 1)));
                k = k + 1;
            }
            assert(ms@.take(ms@.len() as int) =~= ms@);
            put(&mut out, JK_GROUP_END);
            assert(gv.take(l + 1).drop_last() =~= gv.take(l as int));
            assert(gv.take(l + 1).last() == ms@);
            assert(out@ =~= before + jk_stage(iv, l as nat, ms@));
            l = l + 1;
        }
        assert(gv.take(groups@.len() as int) =~= gv);
        put(&mut out, JK_FOOT);
        out
    }

    /// The GitHub Actions workflow that finds the environments a change
    /// touches and previews or applies each.
    pub fn generate_github_actions_dynamic() -> (r: String)
        ensures
            r@ == github_dynamic(),
    {
        GH_DYN.to_owned()
    }

    /// The GitLab CI configuration that finds the environments a change
    /// touches and previews or applies each.
    pub fn generate_gitlab_ci_dynamic() -> (r: String)
        ensures
            r@ == gitlab_dynamic(),
    {
        GL_DYN.to_owned()
    }
}

/// The environments of `infos`, in order, that `env` (when given) names.
pub open spec fn infos_for_env(infos: Seq<InfoView>, env: Option<Seq<char>>) -> Seq<InfoView>
    decreases infos.len(),
{
    if infos.len() == 0 {
        Seq::empty()
    } else {
        let rest = infos_for_env(infos.drop_last(), env);
        if env matches Some(e) && infos.last().1 != e {
            rest
        } else {
            rest.push(infos.last())
        }
    }
}

/// Whether the groups `gs` split the environments `iv` as
/// `group_by_dependency_level` promises.
pub open spec fn valid_groups(iv: Seq<InfoView>, gs: Seq<Seq<usize>>) -> bool {
    &&& flatten(gs).no_duplicates()
    &&& forall|t: int| 0 <= t < flatten(gs).len() ==> #[trigger] flatten(gs)[t] < iv.len()
    &&& forall|i: usize| i < iv.len() ==> keys_at(iv, flatten(gs)).contains(#[trigger] key_at(iv, i))
    &&& forall|g: int| 0 <= g < gs.len() ==> (#[trigger] gs[g]).len() > 0
    &&& forall|g: int| 0 <= g < gs.len() ==> #[trigger] group_ordered(iv, gs, g)
}

/// The pipeline text for the environments `iv` split into `gs`.
pub open spec fn pipeline_text(t: PipelineType, static_mode: bool, iv: Seq<InfoView>, gs: Seq<Seq<usize>>) -> Seq<char> {
    match t {
        PipelineType::GitHubActions => if static_mode {
            github_static(iv, gs)
        } else {
            github_dynamic()
        },
        PipelineType::GitLabCI => if static_mode {
            gitlab_static(iv, gs)
        } else {
            gitlab_dynamic()
        },
        PipelineType::Jenkins => jenkins_static(iv, gs),
    }
}

/// The lines that describe a pipeline about to be made.
pub open spec fn generate_header(name: Seq<char>, t: PipelineType, static_mode: bool) -> Seq<LineView> {
    seq![
        LineView::KeyValue("Infrastructure"@, name),
        LineView::KeyValue("Pipeline Type"@, pipeline_name(t)),
        LineView::KeyValue(
            "Mode"@,
            if static_mode {
                "Static (all projects)"@
            } else {
                "Dynamic (changed projects)"@
            },
        ),
        LineView::Blank,
    ]
}

/// Whether `ls` and `text` are what generating a pipeline of type `t` gives
/// for the infrastructure nearest at or above `start`, of projects found in
/// it: `text` is `None` when there are no projects.
pub open spec fn generate_report(
    v: Seq<(Seq<char>, Option<Seq<char>>)>,
    start: Seq<char>,
    t: PipelineType,
    env: Option<Seq<char>>,
    static_mode: bool,
    ls: Seq<LineView>,
    text: Option<Seq<char>>,
) -> bool {
    exists|root: Seq<char>, refs: Seq<ProjectReference>|
        #[trigger] is_nearest_collection(v, start, root) && #[trigger] all_found_projects(
            v,
            join_spec(root, "projects"@),
            root,
            refs,
        ) && (crate::discovery::infrastructure_at(v, root) matches Some(i) && ls.len() >= 4
            && ls.take(4) == generate_header(i.0, t, static_mode)) && if refs.len() == 0 {
            ls.skip(4) == seq![LineView::Dimmed("No projects found."@)] && text is None
        } else {
            let iv = infos_for_env(all_infos(v, root, refs), env);
            exists|gs: Seq<Seq<usize>>|
                valid_groups(iv, gs) && #[trigger] pipeline_text(t, static_mode, iv, gs) == text->0
                    && text is Some && ls.skip(4) == if !static_mode && t is Jenkins {
                    seq![
                        LineView::Warning(
                            "Jenkins does not support dynamic mode yet. Generating static pipeline."@,
                        ),
                    ]
                } else {
                    Seq::<LineView>::empty()
                }
        }
}

/// The view of an optional string.
pub open spec fn opt_view(s: Option<&str>) -> Option<Seq<char>> {
    match s {
        Some(x) => Some(x@),
        None => None,
    }
}

impl CiCommand {
    /// The environments of `infos` that `filter_environment` (when given)
    /// names, in order.
    pub fn build_project_infos(infos: Vec<EnvironmentInfo>, filter_environment: Option<&str>) -> (r: Vec<
        EnvironmentInfo,
    >)
        ensures
            infos_view(r@) == infos_for_env(infos_view(infos@), opt_view(filter_environment)),
    {
        let ghost orig = infos_view(infos@);
        let ghost env = opt_view(filter_environment);
        assert(orig.len() == infos.len());
        let mut rest = infos;
        let mut out: Vec<EnvironmentInfo> = Vec::new();
        let mut k: usize = 0;
        assert(orig.take(0) =~= Seq::<InfoView>::empty());
        assert(infos_view(out@) =~= Seq::<InfoView>::empty());
        while rest.len() > 0
            invariant
                k + rest@.len() == orig.len(),
                orig.len() <= usize::MAX,
                infos_view(rest@) == orig.skip(k as int),
                infos_view(out@) == infos_for_env(orig.take(k as int), env),
                env == opt_view(filter_environment),
            decreases rest.len(),
        {
            let ghost r0 = rest@;
            let x = rest.remove(0);
            proof {
                assert(infos_view(r0)[0] == x@);
                assert(orig.skip(k as int)[0] == orig[k as int]);
                assert(rest@ =~= r0.subrange(1, r0.len() as int));
                assert(infos_view(rest@) =~= infos_view(r0).subrange(1, r0.len() as int));
                assert(infos_view(rest@) =~= orig.skip(k + 1));
                assert(orig.take(k + 1).drop_last() =~= orig.take(k as int));
                assert(orig.take(k + 1).last() == x@);
            }
            let keep = match filter_environment {
                Some(e) => str_eq(x.environment.as_str(), e),
                None => true,
            };
            if keep {
                let ghost o0 = infos_view(out@);
                let ghost xv = x@;
                out.push(x);
                assert(infos_view(out@) =~= o0.push(xv));
            }
            k = k + 1;
        }
        assert(orig.take(k as int) =~= orig);
        out
    }

    /// Generates a pipeline of the type `pipeline_type` for the
    /// infrastructure at or above `current_dir`: the lines shown, then the
    /// pipeline text (none when there are no projects), or the error that
    /// ended it. Static pipelines run every environment (of
    /// `environment` only, when given) stage by stage; dynamic ones run what
    /// a change touches (Jenkins has only static ones). Problems with single
    /// project files go to `warnings`.
    pub fn execute_generate(
        fs: &MemoryFileSystem,
        warnings: &mut Vec<String>,
        current_dir: &str,
        pipeline_type: &str,
        environment: Option<&str>,
        static_mode: bool,
    ) -> (r: (Vec<OutputLine>, Result<Option<String>, String>))
        ensures
            (r.1 matches Err(e) && e@ == "Unsupported pipeline type: "@ + pipeline_type@) <== (lowercase(
                pipeline_type@,
            ) != "github"@ && lowercase(pipeline_type@) != "github-actions"@ && lowercase(pipeline_type@)
                != "gitlab"@ && lowercase(pipeline_type@) != "gitlab-ci"@ && lowercase(pipeline_type@)
                != "jenkins"@),
            r.1 matches Ok(text) ==> exists|t: PipelineType|
                #![trigger pipeline_name(t)]
                (t is GitHubActions <==> (lowercase(pipeline_type@) == "github"@ || lowercase(pipeline_type@)
                    == "github-actions"@)) && (t is GitLabCI <==> (lowercase(pipeline_type@) == "gitlab"@
                    || lowercase(pipeline_type@) == "gitlab-ci"@)) && generate_report(
                    fs@,
                    current_dir@,
                    t,
                    opt_view(environment),
                    static_mode,
                    lines_view(r.0@),
                    match text {
                        Some(x) => Some(x@),
                        None => None,
                    },
                ),
            supported_pipeline(pipeline_type@) && no_collection_above(fs@, current_dir@) ==> (r.1 matches Err(
                e,
            ) && e@ == "Infrastructure is required. Run 'pmp init' first."@),
            supported_pipeline(pipeline_type@) && !no_collection_above(fs@, current_dir@) ==> (r.1 is Ok
                <==> projects_discoverable(fs@, current_dir@)),
    {
        let mut out: Vec<OutputLine> = Vec::new();
        let pipeline = match PipelineType::from_str(pipeline_type) {
            Ok(p) => p,
            Err(e) => {
                return (out, Err(e));
            },
        };
        let found = match CollectionDiscovery::find_collection_in_path(fs, current_dir) {
            Ok(f) => f,
            Err(e) => {
                return (out, Err(e));
            },
        };
        let (infrastructure, root) = match found {
            Some(x) => x,
            None => {
                return (out, Err("Infrastructure is required. Run 'pmp init' first.".to_owned()));
            },
        };
        proof {
            lemma_discoverable_at(fs@, current_dir@, root@);
            crate::discovery::lemma_nearest_excludes_none(fs@, current_dir@, root@);
        }
        let name = infrastructure.metadata.name.clone();
        assert(name@ == infrastructure_view(infrastructure).0);
        emit(&mut out, OutputLine::KeyValue("Infrastructure".to_owned(), name));
        emit(&mut out, OutputLine::KeyValue("Pipeline Type".to_owned(), pipeline.name().to_owned()));
        let mode = if static_mode {
            "Static (all projects)"
        } else {
            "Dynamic (changed projects)"
        };
        emit(&mut out, OutputLine::KeyValue("Mode".to_owned(), mode.to_owned()));
        emit(&mut out, OutputLine::Blank);
        let ghost head = lines_view(out@);
        assert(head =~= generate_header(infrastructure_view(infrastructure).0, pipeline, static_mode));
        let projects = match CollectionDiscovery::discover_projects(fs, warnings, root.as_str()) {
            Ok(p) => p,
            Err(e) => {
                return (out, Err(e));
            },
        };
        if projects.len() == 0 {
            emit(&mut out, OutputLine::Dimmed("No projects found.".to_owned()));
            proof {
                assert(lines_view(out@).take(4) =~= head);
                assert(lines_view(out@).skip(4) =~= seq![LineView::Dimmed("No projects found."@)]);
                assert(is_nearest_collection(fs@, current_dir@, root@));
                assert(all_found_projects(fs@, join_spec(root@, "projects"@), root@, projects@));
            }
            return (out, Ok(None));
        }
        let scanned = scan_environments(fs, root.as_str(), projects.as_slice());
        let infos = Self::build_project_infos(scanned, environment);
        let groups = Self::group_by_dependency_level(&infos);
        let ghost iv = infos_view(infos@);
        let ghost gv = groups_view(groups@);
        proof {
            assert forall|g: int, j: int| 0 <= g < gv.len() && 0 <= j < gv[g].len() implies (
            #[trigger] gv[g][j]) < iv.len() by {
                let fl_before = flatten(gv.take(g));
                lemma_flatten_index(gv, g, j);
            }
        }
        let text = match pipeline {
            PipelineType::GitHubActions => if static_mode {
                Self::generate_github_actions_static(&infos, &groups)
            } else {
                Self::generate_github_actions_dynamic()
            },
            PipelineType::GitLabCI => if static_mode {
                Self::generate_gitlab_ci_static(&infos, &groups)
            } else {
                Self::generate_gitlab_ci_dynamic()
            },
            PipelineType::Jenkins => {
                if !static_mode {
                    emit(
                        &mut out,
                        OutputLine::Warning(
                            "Jenkins does not support dynamic mode yet. Generating static pipeline.".to_owned(),
                        ),
                    );
                }
                Self::generate_jenkins_static(&infos, &groups)
            },
        };
        proof {
            assert(lines_view(out@).take(4) =~= head);
            assert(is_nearest_collection(fs@, current_dir@, root@));
            assert(all_found_projects(fs@, join_spec(root@, "projects"@), root@, projects@));
            assert(valid_groups(iv, gv));
            assert(pipeline_text(pipeline, static_mode, iv, gv) == text@);
            if !static_mode && pipeline is Jenkins {
                assert(lines_view(out@).skip(4) =~= seq![
                    LineView::Warning(
                        "Jenkins does not support dynamic mode yet. Generating static pipeline."@,
                    ),
                ]);
            } else {
                assert(lines_view(out@).skip(4) =~= Seq::<LineView>::empty());
            }
            assert(pipeline_name(pipeline) == pipeline_name(pipeline));
        }
        (out, Ok(Some(text)))
    }
}

/// Whether `t` names a pipeline type: GitHub Actions, GitLab CI or Jenkins,
/// in any case.
pub open spec fn supported_pipeline(t: Seq<char>) -> bool {
    ||| lowercase(t) == "github"@
    ||| lowercase(t) == "github-actions"@
    ||| lowercase(t) == "gitlab"@
    ||| lowercase(t) == "gitlab-ci"@
    ||| lowercase(t) == "jenkins"@
}

/// An index of a group is an index of the flattened groups.
pub proof fn lemma_flatten_index(gs: Seq<Seq<usize>>, g: int, j: int)
    requires
        0 <= g < gs.len(),
        0 <= j < gs[g].len(),
    ensures
        flatten(gs).contains(gs[g][j]),
    decreases gs.len(),
{
    let init = gs.drop_last();
    assert(flatten(gs) == flatten(init) + gs.last());
    if g == gs.len() - 1 {
        assert(flatten(gs)[flatten(init).len() + j] == gs[g][j]);
    } else {
        assert(init[g] == gs[g]);
        lemma_flatten_index(init, g, j);
        let t = choose|t: int| 0 <= t < flatten(init).len() && flatten(init)[t] == gs[g][j];
        assert(flatten(gs)[t] == gs[g][j]);
    }
}

} // verus!
