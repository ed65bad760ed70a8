//! Dependency analysis across all project environments of an infrastructure:
//! who depends on whom, which environments a change would reach, cycles,
//! missing and much-used dependencies.

use vstd::prelude::*;
use crate::dependency_graph::lemma_unique_within_len;
use crate::ci_detect_changes::pairs_view;
use crate::discovery::{all_found_projects, is_nearest_collection, lemma_discoverable_at, no_collection_above, projects_discoverable, CollectionDiscovery};
use crate::environments::{all_infos, info_key, infos_view, scan_environments, EnvironmentInfo, InfoView};
use crate::fs::MemoryFileSystem;
use crate::paths::join_spec;
use crate::resources::{infrastructure_view, ProjectReference};
use crate::keymap::{append, find_key, has_key, key_index, key_map_view, list_of, map_append, map_put, put, KeyMap};
use crate::output::{emit, lines_view, LineView, OutputLine};
use crate::text::{
    concat3, contains_str, decimal, is_sorted, join_strings, joined, sort_strings, str_eq,
    usize_to_string, views_of,
};

verus! {

broadcast use {vstd::string::group_string_axioms, vstd::seq_lib::lemma_seq_contains_after_push};

/// Runs dependency analyses.
pub struct DepsCommand;

/// Whether `m` lists `b` for `a`.
pub open spec fn linked(m: KeyMap, a: Seq<char>, b: Seq<char>) -> bool {
    list_of(m, a).contains(b)
}

/// Whether `p` is a chain of keys, each listed by `m` for the one before.
pub open spec fn is_chain(m: KeyMap, p: Seq<Seq<char>>) -> bool {
    &&& p.len() >= 1
    &&& forall|i: int| 0 <= i < p.len() - 1 ==> #[trigger] linked(m, p[i], p[i + 1])
}

/// Whether `b` can be reached from `a` in one step or more along `m`.
pub open spec fn reaches(m: KeyMap, a: Seq<char>, b: Seq<char>) -> bool {
    exists|p: Seq<Seq<char>>| #[trigger] is_chain(m, p) && p.len() >= 2 && p[0] == a && p.last() == b
}

/// Every key listed anywhere in `m`, list after list.
pub open spec fn all_listed(m: KeyMap) -> Seq<Seq<char>>
    decreases m.len(),
{
    if m.len() == 0 {
        Seq::empty()
    } else {
        m[0].1 + all_listed(m.drop_first())
    }
}

/// What `m` lists for a key is among all that it lists.
pub proof fn lemma_list_of_listed(m: KeyMap, k: Seq<char>, x: Seq<char>)
    requires
        list_of(m, k).contains(x),
    ensures
        all_listed(m).contains(x),
    decreases m.len(),
{
    if m[0].0 == k {
        let i = choose|i: int| 0 <= i < m[0].1.len() && m[0].1[i] == x;
        assert((m[0].1 + all_listed(m.drop_first()))[i] == x);
    } else {
        lemma_list_of_listed(m.drop_first(), k, x);
        let i = choose|i: int| 0 <= i < all_listed(m.drop_first()).len() && all_listed(m.drop_first())[i] == x;
        assert((m[0].1 + all_listed(m.drop_first()))[m[0].1.len() + i] == x);
    }
}

/// A chain extended by a key listed for its last key is a chain.
pub proof fn lemma_chain_push(m: KeyMap, p: Seq<Seq<char>>, x: Seq<char>)
    requires
        is_chain(m, p),
        linked(m, p.last(), x),
    ensures
        is_chain(m, p.push(x)),
{
    let q = p.push(x);
    assert forall|i: int| 0 <= i < q.len() - 1 implies #[trigger] linked(m, q[i], q[i + 1]) by {
        if i < p.len() - 1 {
            assert(q[i] == p[i] && q[i + 1] == p[i + 1]);
            assert(linked(m, p[i], p[i + 1]));
        }
    }
}

/// The keys of the environments `infos`, each once, in the order in which
/// they first occur.
pub open spec fn project_keys(infos: Seq<InfoView>) -> Seq<Seq<char>>
    decreases infos.len(),
{
    if infos.len() == 0 {
        Seq::empty()
    } else {
        let p = project_keys(infos.drop_last());
        let k = info_key(infos.last());
        if p.contains(k) {
            p
        } else {
            p.push(k)
        }
    }
}

/// For each environment of `infos` that depends on others, its dependency
/// keys; a later environment with the same key replaces an earlier one.
pub open spec fn dep_map(infos: Seq<InfoView>) -> KeyMap
    decreases infos.len(),
{
    if infos.len() == 0 {
        Seq::empty()
    } else {
        let m = dep_map(infos.drop_last());
        if infos.last().3.len() > 0 {
            map_put(m, info_key(infos.last()), infos.last().3)
        } else {
            m
        }
    }
}

/// `m` with `k` added to the list of each of `ds`, in order.
pub open spec fn rev_add_all(m: KeyMap, k: Seq<char>, ds: Seq<Seq<char>>) -> KeyMap
    decreases ds.len(),
{
    if ds.len() == 0 {
        m
    } else {
        map_append(rev_add_all(m, k, ds.drop_last()), ds.last(), k)
    }
}

/// For each key, the keys of the environments of `infos` that depend on it,
/// once per mention.
pub open spec fn rev_map(infos: Seq<InfoView>) -> KeyMap
    decreases infos.len(),
{
    if infos.len() == 0 {
        Seq::empty()
    } else {
        rev_add_all(rev_map(infos.drop_last()), info_key(infos.last()), infos.last().3)
    }
}

/// The pairs `(k, d)` for each `d` of `ds` not among `keys`.
pub open spec fn errors_of(keys: Seq<Seq<char>>, k: Seq<char>, ds: Seq<Seq<char>>) -> Seq<
    (Seq<char>, Seq<char>),
>
    decreases ds.len(),
{
    if ds.len() == 0 {
        Seq::empty()
    } else {
        errors_of(keys, k, ds.drop_last()) + if keys.contains(ds.last()) {
            Seq::empty()
        } else {
            seq![(k, ds.last())]
        }
    }
}

/// Each dependency that names an environment not met yet when it is read:
/// the key of the environment that names it, and its own key.
pub open spec fn dep_errors(infos: Seq<InfoView>) -> Seq<(Seq<char>, Seq<char>)>
    decreases infos.len(),
{
    if infos.len() == 0 {
        Seq::empty()
    } else {
        dep_errors(infos.drop_last()) + errors_of(
            project_keys(infos),
            info_key(infos.last()),
            infos.last().3,
        )
    }
}

/// Who depends on whom among a set of environments.
pub struct DependencyData {
    /// The keys of all environments, each once.
    pub projects: Vec<String>,
    /// For each environment that has dependencies, their keys.
    pub dependencies: Vec<(String, Vec<String>)>,
    /// For each key, the keys of the environments that depend on it.
    pub reverse: Vec<(String, Vec<String>)>,
    /// Dependencies met before the environment they name.
    pub errors: Vec<(String, String)>,
}

/// The keys of `keys`, in order, that `m` has no entry for.
pub open spec fn keys_without(keys: Seq<Seq<char>>, m: KeyMap) -> Seq<Seq<char>>
    decreases keys.len(),
{
    if keys.len() == 0 {
        Seq::empty()
    } else {
        let rest = keys_without(keys.drop_last(), m);
        if has_key(m, keys.last()) {
            rest
        } else {
            rest.push(keys.last())
        }
    }
}

/// The errors of `errs`, in order, whose dependency is not among `keys`.
pub open spec fn missing_of(errs: Seq<(Seq<char>, Seq<char>)>, keys: Seq<Seq<char>>) -> Seq<
    (Seq<char>, Seq<char>),
>
    decreases errs.len(),
{
    if errs.len() == 0 {
        Seq::empty()
    } else {
        let rest = missing_of(errs.drop_last(), keys);
        if keys.contains(errs.last().1) {
            rest
        } else {
            rest.push(errs.last())
        }
    }
}

/// A key and how many environments depend on it.
pub type CountView = (Seq<char>, nat);

/// `s` (ordered by count, most first) with `x` put after every entry whose
/// count is at least its own.
pub open spec fn insert_by_count(s: Seq<CountView>, x: CountView) -> Seq<CountView>
    decreases s.len(),
{
    if s.len() == 0 {
        seq![x]
    } else if s[0].1 >= x.1 {
        seq![s[0]] + insert_by_count(s.drop_first(), x)
    } else {
        seq![x] + s
    }
}

/// The entries of `s` ordered by count, most first; entries with equal
/// counts keep their order.
pub open spec fn sort_by_count(s: Seq<CountView>) -> Seq<CountView>
    decreases s.len(),
{
    if s.len() == 0 {
        Seq::empty()
    } else {
        insert_by_count(sort_by_count(s.drop_last()), s.last())
    }
}

/// Each key of `m` with the length of its list.
pub open spec fn counts_of(m: KeyMap) -> Seq<CountView> {
    m.map_values(|e: (Seq<char>, Seq<Seq<char>>)| (e.0, e.1.len()))
}

/// The keys that most environments depend on: at most ten, most first.
pub open spec fn bottlenecks_of(m: KeyMap) -> Seq<CountView> {
    let s = sort_by_count(counts_of(m));
    if s.len() <= 10 {
        s
    } else {
        s.take(10)
    }
}

/// Whether `s` runs from the highest count to the lowest.
pub open spec fn by_count_desc(s: Seq<CountView>) -> bool {
    forall|i: int, j: int| 0 <= i < j < s.len() ==> (#[trigger] s[i]).1 >= (#[trigger] s[j]).1
}

/// Inserting by count keeps an ordering by count, and adds `x` to the entries.
pub proof fn lemma_insert_by_count(s: Seq<CountView>, x: CountView)
    requires
        by_count_desc(s),
    ensures
        by_count_desc(insert_by_count(s, x)),
        insert_by_count(s, x).to_multiset() == s.to_multiset().insert(x),
        insert_by_count(s, x).len() == s.len() + 1,
    decreases s.len(),
{
    broadcast use vstd::seq_lib::group_to_multiset_ensures;
    broadcast use vstd::multiset::group_multiset_axioms;
    if s.len() == 0 {
        assert(seq![x] =~= Seq::<CountView>::empty().push(x));
    } else if s[0].1 >= x.1 {
        let t = s.drop_first();
        assert(by_count_desc(t)) by {
            assert forall|i: int, j: int| 0 <= i < j < t.len() implies (#[trigger] t[i]).1 >= (#[trigger] t[j]).1 by {
                assert(t[i] == s[i + 1] && t[j] == s[j + 1]);
            }
        }
        lemma_insert_by_count(t, x);
        let r = insert_by_count(t, x);
        let q = seq![s[0]] + r;
        assert forall|i: int, j: int| 0 <= i < j < q.len() implies (#[trigger] q[i]).1 >= (#[trigger] q[j]).1 by {
            if i == 0 {
                assert(q[j] == r[j - 1]);
                assert(r.to_multiset().contains(r[j - 1]));
                assert(s.to_multiset().insert(x).contains(r[j - 1]) ==> (r[j - 1] == x || s.to_multiset().contains(r[j - 1])));
                if r[j - 1] != x {
                    assert(t.to_multiset().contains(r[j - 1]));
                    assert(t.contains(r[j - 1]));
                    let k = choose|k: int| 0 <= k < t.len() && t[k] == r[j - 1];
                    assert(t[k] == s[k + 1]);
                }
            } else {
                assert(q[i] == r[i - 1] && q[j] == r[j - 1]);
            }
        }
        assert(s =~= seq![s[0]] + t);
        vstd::seq_lib::lemma_multiset_commutative(seq![s[0]], r);
        vstd::seq_lib::lemma_multiset_commutative(seq![s[0]], t);
        assert(seq![s[0]] =~= Seq::<CountView>::empty().push(s[0]));
        assert(q.to_multiset() =~= s.to_multiset().insert(x));
    } else {
        let q = seq![x] + s;
        assert forall|i: int, j: int| 0 <= i < j < q.len() implies (#[trigger] q[i]).1 >= (#[trigger] q[j]).1 by {
            if i == 0 {
                assert(q[j] == s[j - 1]);
                assert(s[0].1 >= s[j - 1].1);
            } else {
                assert(q[i] == s[i - 1] && q[j] == s[j - 1]);
            }
        }
        vstd::seq_lib::lemma_multiset_commutative(seq![x], s);
        assert(seq![x] =~= Seq::<CountView>::empty().push(x));
        assert(q.to_multiset() =~= s.to_multiset().insert(x));
    }
}

/// Sorting by count orders by count, and keeps the entries.
pub proof fn lemma_sort_by_count(s: Seq<CountView>)
    ensures
        by_count_desc(sort_by_count(s)),
        sort_by_count(s).to_multiset() == s.to_multiset(),
        sort_by_count(s).len() == s.len(),
    decreases s.len(),
{
    broadcast use vstd::seq_lib::group_to_multiset_ensures;
    if s.len() > 0 {
        lemma_sort_by_count(s.drop_last());
        lemma_insert_by_count(sort_by_count(s.drop_last()), s.last());
        assert(s =~= s.drop_last().push(s.last()));
    }
}

/// Inserting by count puts the entry before the first with a smaller count.
pub proof fn lemma_insert_by_count_at(s: Seq<CountView>, x: CountView, p: int)
    requires
        0 <= p <= s.len(),
        forall|i: int| 0 <= i < p ==> (#[trigger] s[i]).1 >= x.1,
        p < s.len() ==> s[p].1 < x.1,
    ensures
        insert_by_count(s, x) == s.insert(p, x),
    decreases s.len(),
{
    if s.len() == 0 {
        assert(s.insert(p, x) =~= seq![x]);
    } else if p == 0 {
        assert(s.insert(0, x) =~= seq![x] + s);
    } else {
        let t = s.drop_first();
        assert forall|i: int| 0 <= i < p - 1 implies (#[trigger] t[i]).1 >= x.1 by {
            assert(t[i] == s[i + 1]);
        }
        lemma_insert_by_count_at(t, x, p - 1);
        assert(s.insert(p, x) =~= seq![s[0]] + t.insert(p - 1, x));
    }
}

/// The plain values of a list of keys with counts.
pub open spec fn counts_view(v: Seq<(String, usize)>) -> Seq<CountView> {
    v.map_values(|e: (String, usize)| (e.0@, e.1 as nat))
}

/// The keys of `keys`, in order, that `m` has no entry for.
fn keys_without_entry(keys: &Vec<String>, m: &Vec<(String, Vec<String>)>) -> (r: Vec<String>)
    ensures
        views_of(r@) == keys_without(views_of(keys@), key_map_view(m@)),
{
    let ghost kv = views_of(keys@);
    let mut out: Vec<String> = Vec::new();
    let mut i: usize = 0;
    assert(kv.take(0) =~= Seq::<Seq<char>>::empty());
    while i < keys.len()
        invariant
            0 <= i <= keys.len(),
            kv == views_of(keys@),
            views_of(out@) == keys_without(kv.take(i as int), key_map_view(m@)),
        decreases keys.len() - i,
    {
        let k = keys[i].as_str();
        assert(kv[i as int] == k@);
        assert(kv.take(i + 1).drop_last() =~= kv.take(i as int));
        assert(kv.take(i + 1).last() == k@);
        let found = find_key(m, k);
        if found.is_none() {
            let ghost o0 = views_of(out@);
            out.push(k.to_owned());
            assert(views_of(out@) =~= o0.push(k@));
        }
        i = i + 1;
    }
    assert(kv.take(keys@.len() as int) =~= kv);
    out
}

/// The errors of `errs`, in order, whose dependency is not among `keys`.
fn missing_errors(errs: &Vec<(String, String)>, keys: &Vec<String>) -> (r: Vec<(String, String)>)
    ensures
        pairs_view(r@) == missing_of(pairs_view(errs@), views_of(keys@)),
{
    let ghost ev = pairs_view(errs@);
    let mut out: Vec<(String, String)> = Vec::new();
    let mut i: usize = 0;
    assert(ev.take(0) =~= Seq::<(Seq<char>, Seq<char>)>::empty());
    assert(pairs_view(out@) =~= Seq::<(Seq<char>, Seq<char>)>::empty());
    while i < errs.len()
        invariant
            0 <= i <= errs.len(),
            ev == pairs_view(errs@),
            pairs_view(out@) == missing_of(ev.take(i as int), views_of(keys@)),
        decreases errs.len() - i,
    {
        let e = &errs[i];
        assert(ev[i as int] == (e.0@, e.1@));
        assert(ev.take(i + 1).drop_last() =~= ev.take(i as int));
        assert(ev.take(i + 1).last() == (e.0@, e.1@));
        if !contains_str(keys, e.1.as_str()) {
            let ghost o0 = pairs_view(out@);
            out.push((e.0.clone(), e.1.clone()));
            assert(pairs_view(out@) =~= o0.push((e.0@, e.1@)));
        }
        i = i + 1;
    }
    assert(ev.take(errs@.len() as int) =~= ev);
    out
}

/// The keys of `m` that most environments depend on, at most ten, most
/// first.
fn top_bottlenecks(m: &Vec<(String, Vec<String>)>) -> (r: Vec<(String, usize)>)
    ensures
        counts_view(r@) == bottlenecks_of(key_map_view(m@)),
{
    let ghost cv = counts_of(key_map_view(m@));
    let mut sorted: Vec<(String, usize)> = Vec::new();
    let mut i: usize = 0;
    assert(cv.take(0) =~= Seq::<CountView>::empty());
    assert(counts_view(sorted@) =~= Seq::<CountView>::empty());
    while i < m.len()
        invariant
            0 <= i <= m.len(),
            cv == counts_of(key_map_view(m@)),
            counts_view(sorted@) == sort_by_count(cv.take(i as int)),
        decreases m.len() - i,
    {
        let n = m[i].1.len();
        let ghost x: CountView = (m@[i as int].0@, n as nat);
        assert(cv[i as int] == x);
        assert(cv.take(i + 1).drop_last() =~= cv.take(i as int));
        assert(cv.take(i + 1).last() == x);
        let ghost s0 = counts_view(sorted@);
        let mut p: usize = 0;
        while p < sorted.len() && sorted[p].1 >= n
            invariant
                0 <= p <= sorted.len(),
                s0 == counts_view(sorted@),
                forall|j: int| 0 <= j < p ==> (#[trigger] s0[j]).1 >= n,
            decreases sorted.len() - p,
        {
            assert(s0[p as int].1 == sorted@[p as int].1);
            p = p + 1;
        }
        proof {
            if p < sorted.len() {
                assert(s0[p as int].1 == sorted@[p as int].1);
            }
            lemma_insert_by_count_at(s0, x, p as int);
        }
        sorted.insert(p, (m[i].0.clone(), n));
        assert(counts_view(sorted@) =~= s0.insert(p as int, x));
        i = i + 1;
    }
    assert(cv.take(m@.len() as int) =~= cv);
    proof {
        lemma_sort_by_count(cv);
    }
    let mut out: Vec<(String, usize)> = Vec::new();
    let mut k: usize = 0;
    let ghost sv = counts_view(sorted@);
    let limit: usize = if sorted.len() < 10 {
        sorted.len()
    } else {
        10
    };
    assert(counts_view(out@) =~= sv.take(0));
    while k < limit
        invariant
            0 <= k <= limit <= sorted.len(),
            sv == counts_view(sorted@),
            counts_view(out@) == sv.take(k as int),
        decreases limit - k,
    {
        let ghost o0 = counts_view(out@);
        let key = sorted[k].0.clone();
        assert(sv[k as int] == (key@, sorted@[k as int].1 as nat));
        out.push((key, sorted[k].1));
        assert(counts_view(out@) =~= o0.push(sv[k as int]));
        assert(counts_view(out@) =~= sv.take(k + 1));
        k = k + 1;
    }
    proof {
        if sv.len() <= 10 {
            assert(sv.take(limit as int) =~= sv);
        }
    }
    out
}

/// Whether `c` is a cycle of `m`: a chain whose last key lists its first.
pub open spec fn is_cycle(m: KeyMap, c: Seq<Seq<char>>) -> bool {
    is_chain(m, c) && linked(m, c.last(), c[0])
}

/// The plain values of a list of lists of keys.
pub open spec fn lists_view(v: Seq<Vec<String>>) -> Seq<Seq<Seq<char>>> {
    v.map_values(|l: Vec<String>| views_of(l@))
}

/// The keys that have an entry in `m`, in order.
pub open spec fn map_keys(m: KeyMap) -> Seq<Seq<char>> {
    m.map_values(|e: (Seq<char>, Seq<Seq<char>>)| e.0)
}

/// Whether `f` holds, each once, the keys that a depth-first walk has left
/// (those of `visited` not on its current `path`), each after every key that
/// `m` lists for it.
pub open spec fn finished_walk(
    m: KeyMap,
    f: Seq<Seq<char>>,
    visited: Seq<Seq<char>>,
    path: Seq<Seq<char>>,
) -> bool {
    &&& f.no_duplicates()
    &&& forall|x: Seq<char>| #[trigger] f.contains(x) ==> visited.contains(x) && !path.contains(x)
    &&& forall|x: Seq<char>| #[trigger] visited.contains(x) ==> f.contains(x) || path.contains(x)
    &&& forall|a: int, x: Seq<char>|
        0 <= a < f.len() && #[trigger] linked(m, f[a], x) ==> f.take(a).contains(x)
}

/// Leaving the last key of the path, once every key it lists is left, keeps
/// the walk finished in order.
proof fn lemma_finish_node(
    m: KeyMap,
    f: Seq<Seq<char>>,
    visited: Seq<Seq<char>>,
    p0: Seq<Seq<char>>,
    node: Seq<char>,
)
    requires
        finished_walk(m, f, visited, p0.push(node)),
        !p0.contains(node),
        visited.contains(node),
        forall|x: Seq<char>| #[trigger] linked(m, node, x) ==> f.contains(x),
    ensures
        finished_walk(m, f.push(node), visited, p0),
{
    let p1 = p0.push(node);
    let g = f.push(node);
    assert(p1.contains(node)) by {
        assert(p1[p0.len() as int] == node);
    }
    assert(!f.contains(node));
    assert(g.no_duplicates()) by {
        assert forall|a: int, b: int| 0 <= a < g.len() && 0 <= b < g.len() && a != b implies g[a] != g[b] by {
            if a < f.len() && b < f.len() {
                assert(g[a] == f[a] && g[b] == f[b]);
            } else if a < f.len() {
                assert(g[a] == f[a] && f.contains(f[a]));
            } else {
                assert(g[b] == f[b] && f.contains(f[b]));
            }
        }
    }
    assert forall|x: Seq<char>| #[trigger] g.contains(x) implies visited.contains(x) && !p0.contains(x) by {
        let t = choose|t: int| 0 <= t < g.len() && g[t] == x;
        if t < f.len() {
            assert(f[t] == x && f.contains(x));
            if p0.contains(x) {
                let q = choose|q: int| 0 <= q < p0.len() && p0[q] == x;
                assert(p1[q] == x);
            }
        }
    }
    assert forall|x: Seq<char>| #[trigger] visited.contains(x) implies g.contains(x) || p0.contains(x) by {
        if f.contains(x) {
            let t = choose|t: int| 0 <= t < f.len() && f[t] == x;
            assert(g[t] == x);
        } else if x == node {
            assert(g[f.len() as int] == node);
        } else {
            assert(p1.contains(x));
            let q = choose|q: int| 0 <= q < p1.len() && p1[q] == x;
            assert(p0[q] == x);
        }
    }
    assert forall|a: int, x: Seq<char>| 0 <= a < g.len() && #[trigger] linked(m, g[a], x) implies g.take(a).contains(
        x,
    ) by {
        if a < f.len() {
            assert(g[a] == f[a]);
            assert(g.take(a) =~= f.take(a));
        } else {
            assert(g.take(a) =~= f);
        }
    }
}

/// A key that `m` lists something for has an entry in `m`.
proof fn lemma_linked_key(m: KeyMap, k: Seq<char>, x: Seq<char>)
    requires
        linked(m, k, x),
    ensures
        map_keys(m).contains(k),
    decreases m.len(),
{
    if m[0].0 == k {
        assert(map_keys(m)[0] == k);
    } else {
        lemma_linked_key(m.drop_first(), k, x);
        let t = choose|t: int| 0 <= t < map_keys(m.drop_first()).len() && map_keys(m.drop_first())[t] == k;
        assert(map_keys(m)[t + 1] == k);
    }
}

/// Along a chain whose keys are all in a walk finished in order, each key
/// sits earlier in it than the one before.
proof fn lemma_chain_descends(m: KeyMap, f: Seq<Seq<char>>, c: Seq<Seq<char>>, t: int) -> (idx: int)
    requires
        f.no_duplicates(),
        forall|a: int, x: Seq<char>| 0 <= a < f.len() && #[trigger] linked(m, f[a], x) ==> f.take(a).contains(x),
        is_chain(m, c),
        f.contains(c[0]),
        0 <= t < c.len(),
    ensures
        0 <= idx < f.len(),
        f[idx] == c[t],
        forall|i0: int| 0 <= i0 < f.len() && f[i0] == c[0] ==> idx <= i0 - t,
    decreases t,
{
    if t == 0 {
        let i0 = choose|i0: int| 0 <= i0 < f.len() && f[i0] == c[0];
        i0
    } else {
        let prev = lemma_chain_descends(m, f, c, t - 1);
        let u = t - 1;
        assert(linked(m, c[u], c[u + 1]));
        assert(linked(m, f[prev], c[t]));
        assert(f.take(prev).contains(c[t]));
        let b = choose|b: int| 0 <= b < f.take(prev).len() && f.take(prev)[b] == c[t];
        assert(f[b] == c[t]);
        b
    }
}

/// A walk finished in order over every key of `m` rules out a cycle.
proof fn lemma_finished_acyclic(m: KeyMap, f: Seq<Seq<char>>, c: Seq<Seq<char>>)
    requires
        f.no_duplicates(),
        forall|a: int, x: Seq<char>| 0 <= a < f.len() && #[trigger] linked(m, f[a], x) ==> f.take(a).contains(x),
        forall|k: Seq<char>| #[trigger] map_keys(m).contains(k) ==> f.contains(k),
    ensures
        !is_cycle(m, c),
{
    if is_cycle(m, c) {
        lemma_linked_key(m, c.last(), c[0]);
        assert(linked(m, c.last(), c[0]));
        assert(is_chain(m, c));
        if c.len() >= 2 {
            let z: int = 0;
            assert(linked(m, c[z], c[z + 1]));
            lemma_linked_key(m, c[0], c[1]);
        }
        let i0 = choose|i0: int| 0 <= i0 < f.len() && f[i0] == c[0];
        let il = lemma_chain_descends(m, f, c, c.len() - 1);
        assert(linked(m, f[il], c[0]));
        assert(f.take(il).contains(c[0]));
        let b = choose|b: int| 0 <= b < f.take(il).len() && f.take(il)[b] == c[0];
        assert(f[b] == c[0]);
        assert(b == i0);
    }
}

/// A run of consecutive keys of a chain is a chain.
pub proof fn lemma_subchain(m: KeyMap, p: Seq<Seq<char>>, a: int)
    requires
        is_chain(m, p),
        0 <= a < p.len(),
    ensures
        is_chain(m, p.subrange(a, p.len() as int)),
{
    let q = p.subrange(a, p.len() as int);
    assert forall|i: int| 0 <= i < q.len() - 1 implies #[trigger] linked(m, q[i], q[i + 1]) by {
        assert(q[i] == p[a + i] && q[i + 1] == p[a + i + 1]);
        let j = a + i;
        assert(linked(m, p[j], p[j + 1]));
    }
}

/// The position of `k` in `v`, when it occurs there.
fn position_of(v: &Vec<String>, k: &str) -> (r: Option<usize>)
    ensures
        r matches Some(i) ==> i < v@.len() && views_of(v@)[i as int] == k@,
        r is None ==> !views_of(v@).contains(k@),
{
    let mut i: usize = 0;
    while i < v.len()
        invariant
            0 <= i <= v.len(),
            forall|j: int| 0 <= j < i ==> views_of(v@)[j] != k@,
        decreases v.len() - i,
    {
        if str_eq(v[i].as_str(), k) {
            assert(views_of(v@)[i as int] == v@[i as int]@);
            return Some(i);
        }
        i = i + 1;
    }
    None
}

/// Depth-first walk from `node` along `deps`; each time a dependency leads
/// back onto the walk's current `path`, the cycle found is recorded.
fn detect_cycle_dfs(
    node: &str,
    deps: &Vec<(String, Vec<String>)>,
    visited: &mut Vec<String>,
    path: &mut Vec<String>,
    cycles: &mut Vec<Vec<String>>,
    Ghost(u): Ghost<Seq<Seq<char>>>,
    Ghost(seen): Ghost<nat>,
    Ghost(f0): Ghost<Seq<Seq<char>>>,
) -> (fin: Ghost<Seq<Seq<char>>>)
    requires
        old(cycles)@.len() == 0 ==> finished_walk(
            key_map_view(deps@),
            f0,
            views_of(old(visited)@),
            views_of(old(path)@),
        ),
        seen == old(visited)@.len(),
        u == map_keys(key_map_view(deps@)) + all_listed(key_map_view(deps@)),
        u.contains(node@),
        !views_of(old(visited)@).contains(node@),
        views_of(old(visited)@).no_duplicates(),
        forall|x: Seq<char>| #[trigger] views_of(old(visited)@).contains(x) ==> u.contains(x),
        forall|x: Seq<char>| #[trigger] views_of(old(path)@).contains(x) ==> views_of(old(visited)@).contains(x),
        views_of(old(path)@).len() > 0 ==> is_chain(key_map_view(deps@), views_of(old(path)@))
            && linked(key_map_view(deps@), views_of(old(path)@).last(), node@),
        forall|c: int|
            0 <= c < old(cycles)@.len() ==> is_cycle(
                key_map_view(deps@),
                #[trigger] lists_view(old(cycles)@)[c],
            ),
    ensures
        views_of(final(path)@) == views_of(old(path)@),
        views_of(final(visited)@).no_duplicates(),
        views_of(final(visited)@).contains(node@),
        views_of(final(visited)@).len() > views_of(old(visited)@).len(),
        forall|x: Seq<char>| #[trigger] views_of(old(visited)@).contains(x) ==> views_of(final(visited)@).contains(x),
        forall|x: Seq<char>| #[trigger] views_of(final(visited)@).contains(x) ==> u.contains(x),
        forall|c: int|
            0 <= c < final(cycles)@.len() ==> is_cycle(
                key_map_view(deps@),
                #[trigger] lists_view(final(cycles)@)[c],
            ),
        final(cycles)@.len() >= old(cycles)@.len(),
        final(cycles)@.len() == 0 ==> finished_walk(
            key_map_view(deps@),
            fin@,
            views_of(final(visited)@),
            views_of(final(path)@),
        ),
    decreases u.len() - seen,
{
    let ghost m = key_map_view(deps@);
    let ghost p0 = views_of(path@);
    let ghost v0 = views_of(visited@);
    let ghost n0 = cycles@.len();
    let ghost mut f = f0;
    proof {
        assert forall|t: int| 0 <= t < v0.len() implies u.contains(#[trigger] v0[t]) by {
            assert(v0.contains(v0[t]));
        }
        lemma_unique_within_len(v0, u);
    }
    visited.push(node.to_owned());
    path.push(node.to_owned());
    let ghost p1 = views_of(path@);
    let ghost v1 = views_of(visited@);
    proof {
        assert(p1 =~= p0.push(node@));
        assert(v1 =~= v0.push(node@));
        if p0.len() > 0 {
            lemma_chain_push(m, p0, node@);
        } else {
            assert(is_chain(m, p1));
        }
        assert(v1[v0.len() as int] == node@);
        assert(p1[p0.len() as int] == node@);
        if cycles@.len() == 0 {
            assert forall|x: Seq<char>| #[trigger] f.contains(x) implies v1.contains(x) && !p1.contains(x) by {
                assert(v0.contains(x));
                if x == node@ {
                    assert(false);
                }
                if p1.contains(x) {
                    let q = choose|q: int| 0 <= q < p1.len() && p1[q] == x;
                    assert(q < p0.len());
                    assert(p0[q] == x);
                }
            }
            assert forall|x: Seq<char>| #[trigger] v1.contains(x) implies f.contains(x) || p1.contains(x) by {
                let q = choose|q: int| 0 <= q < v1.len() && v1[q] == x;
                if q < v0.len() {
                    assert(v0[q] == x);
                    assert(v0.contains(x));
                    if p0.contains(x) {
                        let r = choose|r: int| 0 <= r < p0.len() && p0[r] == x;
                        assert(p1[r] == x);
                    }
                }
            }
            assert(finished_walk(m, f, v1, p1));
        }
    }
    match find_key(deps, node) {
        Some(i) => {
            let ds = &deps[i].1;
            let mut j: usize = 0;
            while j < ds.len()
                invariant
                    0 <= j <= ds.len(),
                    m == key_map_view(deps@),
                    u == map_keys(m) + all_listed(m),
                    list_of(m, node@) == views_of(ds@),
                    views_of(path@) == p1,
                    is_chain(m, p1),
                    p1.last() == node@,
                    views_of(visited@).no_duplicates(),
                    v0.len() < views_of(visited@).len(),
                    v0.len() <= u.len(),
                    seen == v0.len(),
                    forall|x: Seq<char>| #[trigger] v1.contains(x) ==> views_of(visited@).contains(x),
                    forall|x: Seq<char>| #[trigger] views_of(visited@).contains(x) ==> u.contains(x),
                    forall|x: Seq<char>| #[trigger] p1.contains(x) ==> views_of(visited@).contains(x),
                    forall|c: int|
                        0 <= c < cycles@.len() ==> is_cycle(m, #[trigger] lists_view(cycles@)[c]),
                    cycles@.len() >= n0,
                    cycles@.len() == 0 ==> finished_walk(m, f, views_of(visited@), p1),
                    cycles@.len() == 0 ==> forall|b: int| 0 <= b < j ==> f.contains(#[trigger] views_of(ds@)[b]),
                decreases ds.len() - j,
            {
                let dep = ds[j].as_str();
                proof {
                    assert(views_of(ds@)[j as int] == dep@);
                    assert(list_of(m, node@).contains(dep@));
                    assert(linked(m, node@, dep@));
                }
                if !contains_str(visited, dep) {
                    proof {
                        lemma_list_of_listed(m, node@, dep@);
                        let t = choose|t: int| 0 <= t < all_listed(m).len() && all_listed(m)[t] == dep@;
                        assert(u[map_keys(m).len() + t] == dep@);
                        let vn = views_of(visited@);
                        assert forall|t2: int| 0 <= t2 < vn.len() implies u.contains(#[trigger] vn[t2]) by {
                            assert(vn.contains(vn[t2]));
                        }
                        lemma_unique_within_len(vn, u);
                    }
                    let ghost vb = views_of(visited@);
                    assert(u.len() - vb.len() < u.len() - v0.len());
                    assert(u.len() - vb.len() >= 0);
                    assert(vb.len() == visited@.len());
                    let ghost seen2 = visited@.len();
                    let fr = detect_cycle_dfs(dep, deps, visited, path, cycles, Ghost(u), Ghost(seen2), Ghost(f));
                    proof {
                        if cycles@.len() == 0 {
                            let vn = views_of(visited@);
                            assert(!p1.contains(dep@));
                            assert(fr@.contains(dep@));
                            assert forall|b: int| 0 <= b < j + 1 implies fr@.contains(#[trigger] views_of(ds@)[b]) by {
                                if b < j {
                                    let x = views_of(ds@)[b];
                                    assert(f.contains(x));
                                    assert(vb.contains(x));
                                    assert(vn.contains(x));
                                }
                            }
                        }
                        f = fr@;
                        assert forall|x: Seq<char>| #[trigger] v1.contains(x) implies views_of(visited@).contains(x) by {
                            assert(vb.contains(x));
                        }
                        assert forall|x: Seq<char>| #[trigger] p1.contains(x) implies views_of(visited@).contains(x) by {
                            assert(vb.contains(x));
                        }
                    }
                } else {
                    match position_of(path, dep) {
                        Some(pos) => {
                            let mut cycle: Vec<String> = Vec::new();
                            let mut k: usize = pos;
                            while k < path.len()
                                invariant
                                    pos <= k <= path.len(),
                                    views_of(path@) == p1,
                                    views_of(cycle@) == p1.subrange(pos as int, k as int),
                                decreases path.len() - k,
                            {
                                let ghost c0 = views_of(cycle@);
                                let x = path[k].clone();
                                assert(views_of(path@)[k as int] == path@[k as int]@);
                                assert(p1[k as int] == x@);
                                cycle.push(x);
                                assert(views_of(cycle@) =~= c0.push(x@));
                                assert(views_of(cycle@) =~= p1.subrange(pos as int, k + 1));
                                k = k + 1;
                            }
                            proof {
                                lemma_subchain(m, p1, pos as int);
                                let cv = views_of(cycle@);
                                assert(cv[0] == dep@);
                                assert(cv.last() == node@);
                            }
                            let ghost cs0 = cycles@;
                            let ghost cyc = views_of(cycle@);
                            cycles.push(cycle);
                            proof {
                                assert forall|c: int| 0 <= c < cycles@.len() implies is_cycle(
                                    m,
                                    #[trigger] lists_view(cycles@)[c],
                                ) by {
                                    if c < cs0.len() {
                                        assert(lists_view(cycles@)[c] == lists_view(cs0)[c]);
                                    } else {
                                        assert(lists_view(cycles@)[c] == cyc);
                                    }
                                }
                            }
                        },
                        None => {
                            proof {
                                if cycles@.len() == 0 {
                                    assert(views_of(visited@).contains(dep@));
                                    assert(f.contains(dep@));
                                    assert forall|b: int| 0 <= b < j + 1 implies f.contains(
                                        #[trigger] views_of(ds@)[b],
                                    ) by {}
                                }
                            }
                        },
                    }
                }
                j = j + 1;
            }
            proof {
                if cycles@.len() == 0 {
                    assert forall|x: Seq<char>| #[trigger] linked(m, node@, x) implies f.contains(x) by {
                        let b = choose|b: int| 0 <= b < views_of(ds@).len() && views_of(ds@)[b] == x;
                    }
                }
            }
        },
        None => {
            proof {
                if cycles@.len() == 0 {
                    assert forall|x: Seq<char>| #[trigger] linked(m, node@, x) implies f.contains(x) by {}
                }
            }
        },
    }
    proof {
        if cycles@.len() == 0 {
            assert(p1 == p0.push(node@));
            assert(!p0.contains(node@));
            assert(views_of(visited@).contains(node@)) by {
                assert(v1.contains(node@));
            }
            lemma_finish_node(m, f, views_of(visited@), p0, node@);
            f = f.push(node@);
        }
    }
    let ghost pp = path@;
    assert(views_of(pp) == p1);
    let _ = path.pop();
    assert(path@ =~= pp.drop_last());
    assert(views_of(path@) =~= views_of(pp).drop_last());
    assert(views_of(path@) =~= p0);
    proof {
        assert(v1.contains(node@));
        assert forall|x: Seq<char>| #[trigger] v0.contains(x) implies v1.contains(x) by {}
        assert forall|x: Seq<char>| #[trigger] v0.contains(x) implies views_of(visited@).contains(x) by {
            assert(v1.contains(x));
        }
        let vn = views_of(visited@);
        assert forall|t2: int| 0 <= t2 < v1.len() implies vn.contains(#[trigger] v1[t2]) by {
            assert(v1.contains(v1[t2]));
        }
        lemma_unique_within_len(v1, vn);
    }
    Ghost(f)
}

impl DepsCommand {
    /// Cycles among the dependencies `dependencies`, found by walking depth
    /// first from each environment in turn. Each one found is a real cycle:
    /// every key depends on the next, and the last on the first.
    pub fn detect_circular_dependencies(dependencies: &Vec<(String, Vec<String>)>) -> (r: Vec<Vec<String>>)
        ensures
            forall|c: int|
                0 <= c < r@.len() ==> is_cycle(key_map_view(dependencies@), #[trigger] lists_view(r@)[c]),
            r@.len() == 0 ==> forall|c: Seq<Seq<char>>| !#[trigger] is_cycle(key_map_view(dependencies@), c),
    {
        let ghost m = key_map_view(dependencies@);
        let ghost u = map_keys(m) + all_listed(m);
        let ghost mut f: Seq<Seq<char>> = Seq::empty();
        let mut cycles: Vec<Vec<String>> = Vec::new();
        let mut visited: Vec<String> = Vec::new();
        let mut path: Vec<String> = Vec::new();
        let mut i: usize = 0;
        assert(views_of(visited@) =~= Seq::<Seq<char>>::empty());
        assert(views_of(path@) =~= Seq::<Seq<char>>::empty());
        while i < dependencies.len()
            invariant
                0 <= i <= dependencies.len(),
                m == key_map_view(dependencies@),
                u == map_keys(m) + all_listed(m),
                views_of(path@).len() == 0,
                views_of(visited@).no_duplicates(),
                forall|x: Seq<char>| #[trigger] views_of(visited@).contains(x) ==> u.contains(x),
                forall|c: int| 0 <= c < cycles@.len() ==> is_cycle(m, #[trigger] lists_view(cycles@)[c]),
                cycles@.len() == 0 ==> finished_walk(m, f, views_of(visited@), views_of(path@)),
                forall|t: int| 0 <= t < i ==> views_of(visited@).contains(#[trigger] map_keys(m)[t]),
            decreases dependencies.len() - i,
        {
            let key = dependencies[i].0.as_str();
            proof {
                assert(map_keys(m)[i as int] == key@);
            }
            if !contains_str(&visited, key) {
                proof {
                    assert(u[i as int] == key@);
                }
                let ghost seen = visited@.len();
                let ghost vb = views_of(visited@);
                let fr = detect_cycle_dfs(
                    key,
                    dependencies,
                    &mut visited,
                    &mut path,
                    &mut cycles,
                    Ghost(u),
                    Ghost(seen),
                    Ghost(f),
                );
                proof {
                    f = fr@;
                    assert forall|t: int| 0 <= t < i + 1 implies views_of(visited@).contains(
                        #[trigger] map_keys(m)[t],
                    ) by {
                        if t < i {
                            assert(vb.contains(map_keys(m)[t]));
                        }
                    }
                }
            }
            i = i + 1;
        }
        proof {
            if cycles@.len() == 0 {
                assert forall|k: Seq<char>| #[trigger] map_keys(m).contains(k) implies f.contains(k) by {
                    let t = choose|t: int| 0 <= t < map_keys(m).len() && map_keys(m)[t] == k;
                    assert(views_of(visited@).contains(map_keys(m)[t]));
                }
                assert forall|c: Seq<Seq<char>>| !#[trigger] is_cycle(m, c) by {
                    lemma_finished_acyclic(m, f, c);
                }
            }
        }
        cycles
    }
}

impl DepsCommand {
    /// Who depends on whom among the environments `infos`, read in order.
    pub fn collect_dependencies(infos: &Vec<EnvironmentInfo>) -> (r: DependencyData)
        ensures
            views_of(r.projects@) == project_keys(infos_view(infos@)),
            key_map_view(r.dependencies@) == dep_map(infos_view(infos@)),
            key_map_view(r.reverse@) == rev_map(infos_view(infos@)),
            pairs_view(r.errors@) == dep_errors(infos_view(infos@)),
    {
        let ghost iv = infos_view(infos@);
        let mut projects: Vec<String> = Vec::new();
        let mut dependencies: Vec<(String, Vec<String>)> = Vec::new();
        let mut reverse: Vec<(String, Vec<String>)> = Vec::new();
        let mut errors: Vec<(String, String)> = Vec::new();
        let mut i: usize = 0;
        proof {
            assert(iv.take(0) =~= Seq::<InfoView>::empty());
            assert(views_of(projects@) =~= Seq::<Seq<char>>::empty());
            assert(key_map_view(dependencies@) =~= Seq::<(Seq<char>, Seq<Seq<char>>)>::empty());
            assert(key_map_view(reverse@) =~= Seq::<(Seq<char>, Seq<Seq<char>>)>::empty());
            assert(pairs_view(errors@) =~= Seq::<(Seq<char>, Seq<char>)>::empty());
        }
        while i < infos.len()
            invariant
                0 <= i <= infos.len(),
                iv == infos_view(infos@),
                views_of(projects@) == project_keys(iv.take(i as int)),
                key_map_view(dependencies@) == dep_map(iv.take(i as int)),
                key_map_view(reverse@) == rev_map(iv.take(i as int)),
                pairs_view(errors@) == dep_errors(iv.take(i as int)),
            decreases infos.len() - i,
        {
            let info = &infos[i];
            let ghost cur = iv.take(i + 1);
            proof {
                assert(iv[i as int] == info@);
                assert(cur.drop_last() =~= iv.take(i as int));
                assert(cur.last() == info@);
            }
            let key = concat3(info.name.as_str(), ":", info.environment.as_str());
            assert(key@ == info_key(info@));
            if !contains_str(&projects, key.as_str()) {
                let ghost p0 = views_of(projects@);
                projects.push(key.clone());
                assert(views_of(projects@) =~= p0.push(key@));
            }
            assert(views_of(projects@) == project_keys(cur));
            let ds = &info.dependencies;
            let ghost rev0 = key_map_view(reverse@);
            let ghost err0 = pairs_view(errors@);
            let mut j: usize = 0;
            assert(views_of(ds@).take(0) =~= Seq::<Seq<char>>::empty());
            assert(err0 + errors_of(project_keys(cur), key@, Seq::<Seq<char>>::empty()) =~= err0);
            while j < ds.len()
                invariant
                    0 <= j <= ds.len(),
                    views_of(projects@) == project_keys(cur),
                    key_map_view(reverse@) == rev_add_all(rev0, key@, views_of(ds@).take(j as int)),
                    pairs_view(errors@) == err0 + errors_of(
                        project_keys(cur),
                        key@,
                        views_of(ds@).take(j as int),
                    ),
                decreases ds.len() - j,
            {
                let d = ds[j].as_str();
                let ghost dv = views_of(ds@);
                proof {
                    assert(dv[j as int] == d@);
                    assert(dv.take(j + 1).drop_last() =~= dv.take(j as int));
                    assert(dv.take(j + 1).last() == d@);
                }
                append(&mut reverse, d, key.as_str());
                let ghost e0 = pairs_view(errors@);
                if !contains_str(&projects, d) {
                    errors.push((key.clone(), d.to_owned()));
                    assert(pairs_view(errors@) =~= e0.push((key@, d@)));
                }
                assert(pairs_view(errors@) =~= err0 + errors_of(
                    project_keys(cur),
                    key@,
                    dv.take(j + 1),
                ));
                j = j + 1;
            }
            assert(views_of(ds@).take(ds@.len() as int) =~= views_of(ds@));
            if ds.len() > 0 {
                let copy = crate::text::copy_strings(ds);
                put(&mut dependencies, key, copy);
            }
            proof {
                assert(views_of(ds@) == info@.3);
            }
            i = i + 1;
        }
        assert(iv.take(infos@.len() as int) =~= iv);
        DependencyData { projects, dependencies, reverse, errors }
    }
}

impl DepsCommand {
    /// Every key that reaches `target` along the reverse dependencies
    /// `reverse_dependencies` (which list, for a key, the keys that depend on
    /// it), in one step or more; `target` itself is left out.
    pub fn find_impacted_projects(
        target: &str,
        reverse_dependencies: &Vec<(String, Vec<String>)>,
    ) -> (r: Vec<String>)
        ensures
            views_of(r@).no_duplicates(),
            forall|x: Seq<char>|
                #[trigger] views_of(r@).contains(x) <==> (x != target@ && reaches(
                    key_map_view(reverse_dependencies@),
                    target@,
                    x,
                )),
    {
        let ghost m = key_map_view(reverse_dependencies@);
        let ghost u = all_listed(m);
        let mut impacted: Vec<String> = Vec::new();
        let mut queue: Vec<String> = Vec::new();
        queue.push(target.to_owned());
        let mut visited: Vec<String> = Vec::new();
        proof {
            assert(views_of(impacted@) =~= Seq::<Seq<char>>::empty());
            assert(views_of(visited@) =~= Seq::<Seq<char>>::empty());
            assert(views_of(queue@) =~= seq![target@]);
            assert(views_of(queue@)[0] == target@);
        }
        while queue.len() > 0
            invariant
                m == key_map_view(reverse_dependencies@),
                u == all_listed(m),
                views_of(impacted@).no_duplicates(),
                forall|x: Seq<char>| #[trigger] views_of(impacted@).contains(x) ==> u.contains(x),
                forall|x: Seq<char>| #[trigger]
                    views_of(impacted@).contains(x) ==> reaches(m, target@, x),
                forall|x: Seq<char>| #[trigger]
                    views_of(queue@).contains(x) ==> x == target@ || views_of(impacted@).contains(x),
                forall|v: Seq<char>, s: Seq<char>|
                    #[trigger] views_of(visited@).contains(v) && #[trigger] list_of(m, v).contains(s)
                        ==> views_of(impacted@).contains(s),
                forall|x: Seq<char>| #[trigger]
                    views_of(impacted@).contains(x) ==> views_of(visited@).contains(x) || views_of(
                        queue@,
                    ).contains(x),
                views_of(visited@).contains(target@) || views_of(queue@).contains(target@),
            decreases u.len() - impacted@.len(), queue@.len(),
        {
            proof {
                let imp = views_of(impacted@);
                assert forall|t: int| 0 <= t < imp.len() implies u.contains(#[trigger] imp[t]) by {
                    assert(imp.contains(imp[t]));
                }
                lemma_unique_within_len(imp, u);
            }
            let ghost q0 = views_of(queue@);
            let current = queue.pop().unwrap();
            proof {
                assert(q0.last() == current@);
                assert(q0 =~= views_of(queue@).push(current@));
                assert(q0.contains(current@));
            }
            if !contains_str(&visited, current.as_str()) {
                let ghost vis0 = views_of(visited@);
                visited.push(current.clone());
                assert(views_of(visited@) =~= vis0.push(current@));
                match find_key(reverse_dependencies, current.as_str()) {
                    Some(i) => {
                        let deps = &reverse_dependencies[i].1;
                        let ghost imp0 = views_of(impacted@);
                        let ghost que0 = views_of(queue@);
                        let mut j: usize = 0;
                        while j < deps.len()
                            invariant
                                0 <= j <= deps.len(),
                                m == key_map_view(reverse_dependencies@),
                                u == all_listed(m),
                                list_of(m, current@) == views_of(deps@),
                                current@ == target@ || imp0.contains(current@),
                                views_of(impacted@).no_duplicates(),
                                forall|x: Seq<char>| #[trigger] imp0.contains(x) ==> views_of(impacted@).contains(x),
                                forall|x: Seq<char>| #[trigger] que0.contains(x) ==> views_of(queue@).contains(x),
                                forall|x: Seq<char>| #[trigger]
                                    views_of(impacted@).contains(x) ==> u.contains(x),
                                forall|x: Seq<char>| #[trigger]
                                    views_of(impacted@).contains(x) ==> reaches(m, target@, x),
                                forall|x: Seq<char>| #[trigger]
                                    views_of(queue@).contains(x) ==> que0.contains(x) || views_of(impacted@).contains(x),
                                forall|x: Seq<char>| #[trigger]
                                    views_of(impacted@).contains(x) ==> imp0.contains(x) || views_of(queue@).contains(x),
                                forall|t: int| 0 <= t < j ==> views_of(impacted@).contains(#[trigger] views_of(deps@)[t]),
                                impacted@.len() >= imp0.len(),
                                impacted@.len() == imp0.len() ==> views_of(queue@) == que0,
                            decreases deps.len() - j,
                        {
                            let d = deps[j].as_str();
                            assert(views_of(deps@)[j as int] == d@);
                            if !contains_str(&impacted, d) {
                                let ghost imp1 = views_of(impacted@);
                                let ghost que1 = views_of(queue@);
                                impacted.push(d.to_owned());
                                queue.push(d.to_owned());
                                proof {
                                    let imp2 = views_of(impacted@);
                                    let que2 = views_of(queue@);
                                    assert(imp2 =~= imp1.push(d@));
                                    assert(que2 =~= que1.push(d@));
                                    assert(list_of(m, current@).contains(d@));
                                    lemma_list_of_listed(m, current@, d@);
                                    assert(reaches(m, target@, d@)) by {
                                        if current@ == target@ {
                                            let p = seq![target@, d@];
                                            assert(linked(m, p[0], p[1]));
                                            assert(is_chain(m, p));
                                        } else {
                                            let p = choose|p: Seq<Seq<char>>|
                                                #[trigger] is_chain(m, p) && p.len() >= 2 && p[0] == target@
                                                    && p.last() == current@;
                                            lemma_chain_push(m, p, d@);
                                            assert(p.push(d@)[0] == target@);
                                        }
                                    }
                                    assert forall|x: Seq<char>| #[trigger] imp2.contains(x) implies u.contains(x)
                                        && reaches(m, target@, x) && (imp0.contains(x) || que2.contains(x)) by {
                                        if x != d@ {
                                            assert(imp1.contains(x));
                                        } else {
                                            assert(que2[que2.len() - 1] == d@);
                                        }
                                    }
                                    assert forall|x: Seq<char>| #[trigger] que2.contains(x) implies que0.contains(x)
                                        || imp2.contains(x) by {
                                        if x == d@ {
                                            assert(imp2[imp2.len() - 1] == d@);
                                        } else {
                                            let t = choose|t: int| 0 <= t < que2.len() && que2[t] == x;
                                            assert(que1[t] == x);
                                            assert(que1.contains(x));
                                            if imp1.contains(x) {
                                                let w = choose|w: int| 0 <= w < imp1.len() && imp1[w] == x;
                                                assert(imp2[w] == x);
                                            }
                                        }
                                    }
                                    assert forall|x: Seq<char>| #[trigger] imp0.contains(x) implies imp2.contains(x) by {
                                        let w = choose|w: int| 0 <= w < imp1.len() && imp1[w] == x;
                                        assert(imp2[w] == x);
                                    }
                                    assert forall|x: Seq<char>| #[trigger] que0.contains(x) implies que2.contains(x) by {
                                        let w = choose|w: int| 0 <= w < que1.len() && que1[w] == x;
                                        assert(que2[w] == x);
                                    }
                                    assert forall|t: int| 0 <= t < j + 1 implies imp2.contains(
                                        #[trigger] views_of(deps@)[t],
                                    ) by {
                                        if t < j {
                                            let w = choose|w: int| 0 <= w < imp1.len() && imp1[w] == views_of(deps@)[t];
                                            assert(imp2[w] == views_of(deps@)[t]);
                                        } else {
                                            assert(imp2[imp2.len() - 1] == d@);
                                        }
                                    }
                                }
                            }
                            j = j + 1;
                        }
                        proof {
                            let imp = views_of(impacted@);
                            assert forall|v: Seq<char>, s: Seq<char>|
                                #[trigger] views_of(visited@).contains(v) && #[trigger] list_of(m, v).contains(s)
                                    implies imp.contains(s) by {
                                if v == current@ {
                                    let t = choose|t: int| 0 <= t < views_of(deps@).len() && views_of(deps@)[t] == s;
                                } else {
                                    let w = choose|w: int| 0 <= w < views_of(visited@).len() && views_of(visited@)[w] == v;
                                    assert(vis0[w] == v);
                                    assert(vis0.contains(v));
                                }
                            }
                            assert forall|x: Seq<char>| #[trigger] imp.contains(x) implies views_of(visited@).contains(x)
                                || views_of(queue@).contains(x) by {
                                if imp0.contains(x) && !views_of(queue@).contains(x) {
                                    if x == current@ {
                                        assert(views_of(visited@)[vis0.len() as int] == x);
                                    } else if q0.contains(x) {
                                        let w = choose|w: int| 0 <= w < q0.len() && q0[w] == x;
                                        assert(que0[w] == x);
                                    } else {
                                        let w = choose|w: int| 0 <= w < vis0.len() && vis0[w] == x;
                                        assert(views_of(visited@)[w] == x);
                                    }
                                }
                            }
                            assert(views_of(visited@)[vis0.len() as int] == current@);
                            assert forall|x: Seq<char>| #[trigger]
                                views_of(queue@).contains(x) implies x == target@ || imp.contains(x) by {
                                if que0.contains(x) {
                                    let w = choose|w: int| 0 <= w < que0.len() && que0[w] == x;
                                    assert(q0[w] == x);
                                    assert(q0.contains(x));
                                    if imp0.contains(x) {
                                        assert(imp.contains(x));
                                    }
                                }
                            }
                            if !views_of(visited@).contains(target@) {
                                let w = choose|w: int| 0 <= w < q0.len() && q0[w] == target@;
                                assert(que0[w] == target@);
                            }
                        }
                    },
                    None => {
                        proof {
                            assert forall|v: Seq<char>, s: Seq<char>|
                                #[trigger] views_of(visited@).contains(v) && #[trigger] list_of(m, v).contains(s)
                                    implies views_of(impacted@).contains(s) by {
                                if v != current@ {
                                    let w = choose|w: int| 0 <= w < views_of(visited@).len() && views_of(visited@)[w] == v;
                                    assert(vis0[w] == v);
                                }
                            }
                            assert forall|x: Seq<char>| #[trigger]
                                views_of(impacted@).contains(x) implies views_of(visited@).contains(x) || views_of(
                                    queue@,
                                ).contains(x) by {
                                if x == current@ {
                                    assert(views_of(visited@)[vis0.len() as int] == x);
                                } else if vis0.contains(x) {
                                    let w = choose|w: int| 0 <= w < vis0.len() && vis0[w] == x;
                                    assert(views_of(visited@)[w] == x);
                                } else {
                                    assert(q0.contains(x));
                                    let w = choose|w: int| 0 <= w < q0.len() && q0[w] == x;
                                    assert(views_of(queue@)[w] == x);
                                }
                            }
                            assert forall|x: Seq<char>| #[trigger]
                                views_of(queue@).contains(x) implies x == target@ || views_of(impacted@).contains(x) by {
                                let w = choose|w: int| 0 <= w < views_of(queue@).len() && views_of(queue@)[w] == x;
                                assert(q0[w] == x);
                                assert(q0.contains(x));
                            }
                            if current@ != target@ && !vis0.contains(target@) {
                                let w = choose|w: int| 0 <= w < q0.len() && q0[w] == target@;
                                assert(views_of(queue@)[w] == target@);
                            }
                            if current@ == target@ {
                                assert(views_of(visited@)[vis0.len() as int] == target@);
                            } else if vis0.contains(target@) {
                                let w = choose|w: int| 0 <= w < vis0.len() && vis0[w] == target@;
                                assert(views_of(visited@)[w] == target@);
                            }
                        }
                    },
                }
            } else {
                proof {
                    assert forall|x: Seq<char>| #[trigger]
                        views_of(impacted@).contains(x) implies views_of(visited@).contains(x) || views_of(
                            queue@,
                        ).contains(x) by {
                        if !views_of(visited@).contains(x) {
                            assert(q0.contains(x));
                            let w = choose|w: int| 0 <= w < q0.len() && q0[w] == x;
                            assert(x != current@);
                            assert(views_of(queue@)[w] == x);
                        }
                    }
                    assert forall|x: Seq<char>| #[trigger]
                        views_of(queue@).contains(x) implies x == target@ || views_of(impacted@).contains(x) by {
                        let w = choose|w: int| 0 <= w < views_of(queue@).len() && views_of(queue@)[w] == x;
                        assert(q0[w] == x);
                        assert(q0.contains(x));
                    }
                    if !views_of(visited@).contains(target@) {
                        let w = choose|w: int| 0 <= w < q0.len() && q0[w] == target@;
                        assert(views_of(queue@)[w] == target@);
                    }
                }
            }
            proof {
                let imp = views_of(impacted@);
                assert forall|t: int| 0 <= t < imp.len() implies u.contains(#[trigger] imp[t]) by {
                    assert(imp.contains(imp[t]));
                }
                lemma_unique_within_len(imp, u);
            }
        }
        proof {
            assert(views_of(queue@) =~= Seq::<Seq<char>>::empty());
            assert forall|x: Seq<char>| reaches(m, target@, x) implies #[trigger] views_of(impacted@).contains(x) by {
                let p = choose|p: Seq<Seq<char>>|
                    #[trigger] is_chain(m, p) && p.len() >= 2 && p[0] == target@ && p.last() == x;
                Self::lemma_closed_covers(m, views_of(visited@), views_of(impacted@), target@, p, p.len() - 1);
            }
        }
        let mut result: Vec<String> = Vec::new();
        let mut k: usize = 0;
        let ghost imp = views_of(impacted@);
        while k < impacted.len()
            invariant
                0 <= k <= impacted.len(),
                imp == views_of(impacted@),
                imp.no_duplicates(),
                views_of(result@).no_duplicates(),
                forall|x: Seq<char>| #[trigger]
                    views_of(result@).contains(x) <==> (x != target@ && imp.take(k as int).contains(x)),
            decreases impacted.len() - k,
        {
            let ghost r0 = views_of(result@);
            let ghost t0 = imp.take(k as int);
            let ghost t1 = imp.take(k + 1);
            assert(t1 =~= t0.push(imp[k as int]));
            assert(!t0.contains(imp[k as int]));
            assert(imp[k as int] == impacted@[k as int]@);
            if !str_eq(impacted[k].as_str(), target) {
                result.push(impacted[k].clone());
                proof {
                    let r1 = views_of(result@);
                    assert(r1 =~= r0.push(imp[k as int]));
                    assert(!r0.contains(imp[k as int]));
                    assert forall|x: Seq<char>| #[trigger] r1.contains(x) <==> (x != target@ && t1.contains(x)) by {
                        if r1.contains(x) && x != imp[k as int] {
                            let w = choose|w: int| 0 <= w < r1.len() && r1[w] == x;
                            assert(r0[w] == x);
                        }
                        if x != target@ && t1.contains(x) && x != imp[k as int] {
                            let w = choose|w: int| 0 <= w < t1.len() && t1[w] == x;
                            assert(t0[w] == x);
                            assert(r0.contains(x));
                            let v = choose|v: int| 0 <= v < r0.len() && r0[v] == x;
                            assert(r1[v] == x);
                        }
                        if x == imp[k as int] {
                            assert(r1[r0.len() as int] == x);
                            assert(t1[k as int] == x);
                        }
                    }
                }
            } else {
                proof {
                    assert forall|x: Seq<char>| #[trigger] r0.contains(x) <==> (x != target@ && t1.contains(x)) by {
                        if x != target@ && t1.contains(x) {
                            let w = choose|w: int| 0 <= w < t1.len() && t1[w] == x;
                            assert(w != k);
                            assert(t0[w] == x);
                        }
                        if r0.contains(x) {
                            assert(t0.contains(x));
                            let w = choose|w: int| 0 <= w < t0.len() && t0[w] == x;
                            assert(t1[w] == x);
                        }
                    }
                }
            }
            k = k + 1;
        }
        assert(imp.take(imp.len() as int) =~= imp);
        result
    }

    /// When every visited key's list lies within `imp`, the target is visited
    /// and every key of `imp` is visited, each key of a chain from the target
    /// (after the first) is in `imp`.
    proof fn lemma_closed_covers(
        m: KeyMap,
        visited: Seq<Seq<char>>,
        imp: Seq<Seq<char>>,
        target: Seq<char>,
        p: Seq<Seq<char>>,
        i: int,
    )
        requires
            is_chain(m, p),
            p[0] == target,
            1 <= i < p.len(),
            visited.contains(target),
            forall|v: Seq<char>, s: Seq<char>|
                #[trigger] visited.contains(v) && #[trigger] list_of(m, v).contains(s) ==> imp.contains(s),
            forall|x: Seq<char>| #[trigger] imp.contains(x) ==> visited.contains(x),
        ensures
            imp.contains(p[i]),
        decreases i,
    {
        let j = i - 1;
        assert(linked(m, p[j], p[j + 1]));
        if i > 1 {
            Self::lemma_closed_covers(m, visited, imp, target, p, i - 1);
            assert(visited.contains(p[i - 1]));
        }
        assert(list_of(m, p[i - 1]).contains(p[i]));
    }
}

/// What a dependency analysis finds.
pub struct DependencyAnalysis {
    pub total_projects: usize,
    pub projects_with_dependencies: usize,
    /// Environments with no dependencies, sorted.
    pub standalone_projects: Vec<String>,
    pub circular_dependencies: Vec<Vec<String>>,
    /// Environments nothing depends on, sorted.
    pub orphaned_projects: Vec<String>,
    /// The most depended-on environments and how many depend on each.
    pub bottlenecks: Vec<(String, usize)>,
    /// Environments and the missing environment each names.
    pub missing_dependencies: Vec<(String, String)>,
}

/// Whether `a` is the analysis of `d`.
pub open spec fn analysis_of(a: DependencyAnalysis, d: DependencyData) -> bool {
    let keys = views_of(d.projects@);
    &&& a.total_projects == d.projects@.len()
    &&& a.projects_with_dependencies == d.dependencies@.len()
    &&& is_sorted(views_of(a.standalone_projects@))
    &&& views_of(a.standalone_projects@).to_multiset() == keys_without(
        keys,
        key_map_view(d.dependencies@),
    ).to_multiset()
    &&& is_sorted(views_of(a.orphaned_projects@))
    &&& views_of(a.orphaned_projects@).to_multiset() == keys_without(
        keys,
        key_map_view(d.reverse@),
    ).to_multiset()
    &&& counts_view(a.bottlenecks@) == bottlenecks_of(key_map_view(d.reverse@))
    &&& forall|c: int|
        0 <= c < a.circular_dependencies@.len() ==> is_cycle(
            key_map_view(d.dependencies@),
            #[trigger] lists_view(a.circular_dependencies@)[c],
        )
    &&& pairs_view(a.missing_dependencies@) == missing_of(pairs_view(d.errors@), keys)
}

/// How many times `k` occurs in `ds`.
pub open spec fn occurrences(ds: Seq<Seq<char>>, k: Seq<char>) -> nat
    decreases ds.len(),
{
    if ds.len() == 0 {
        0
    } else {
        occurrences(ds.drop_last(), k) + if ds.last() == k {
            1nat
        } else {
            0nat
        }
    }
}

/// How many times the environments `infos` list `k` among their
/// dependencies: the number of environments that depend on `k`.
pub open spec fn dependents_count(infos: Seq<InfoView>, k: Seq<char>) -> nat
    decreases infos.len(),
{
    if infos.len() == 0 {
        0
    } else {
        dependents_count(infos.drop_last(), k) + occurrences(infos.last().3, k)
    }
}

/// Whether each key of `m` has one entry, with a list that is not empty.
pub open spec fn keys_unique_nonempty(m: KeyMap) -> bool {
    &&& forall|i: int, j: int| 0 <= i < j < m.len() ==> #[trigger] m[i].0 != #[trigger] m[j].0
    &&& forall|i: int| 0 <= i < m.len() ==> (#[trigger] m[i]).1.len() > 0
}

/// Appending to the list of `d` extends that list and leaves the others.
proof fn lemma_list_of_append(m: KeyMap, d: Seq<char>, x: Seq<char>, k: Seq<char>)
    ensures
        list_of(map_append(m, d, x), k) == if k == d {
            list_of(m, k).push(x)
        } else {
            list_of(m, k)
        },
    decreases m.len(),
{
    crate::keymap::lemma_key_index(m, d);
    let m1 = map_append(m, d, x);
    if m.len() == 0 {
        assert(m1 =~= seq![(d, seq![x])]);
        assert(m1.drop_first() =~= Seq::<(Seq<char>, Seq<Seq<char>>)>::empty());
        assert(list_of(m, k) == Seq::<Seq<char>>::empty());
        assert(Seq::<Seq<char>>::empty().push(x) =~= seq![x]);
        if k == d {
            assert(list_of(m1, k) == seq![x]);
        } else {
            assert(list_of(m1, k) == list_of(m1.drop_first(), k));
        }
    } else if m[0].0 == d {
        assert(key_index(m, d) == 0);
        assert(m1 == m.update(0, (d, m[0].1.push(x))));
        assert(m1.drop_first() =~= m.drop_first());
        assert(m1[0] == (d, m[0].1.push(x)));
        if k == d {
            assert(list_of(m1, k) == m[0].1.push(x));
        } else {
            assert(list_of(m1, k) == list_of(m1.drop_first(), k));
        }
    } else {
        let t = m.drop_first();
        crate::keymap::lemma_key_index(t, d);
        assert(m1 =~= seq![m[0]] + map_append(t, d, x));
        assert(m1.drop_first() =~= map_append(t, d, x));
        assert(m1[0] == m[0]);
        lemma_list_of_append(t, d, x, k);
        if m[0].0 == k {
            assert(list_of(m1, k) == m[0].1);
        } else {
            assert(list_of(m1, k) == list_of(map_append(t, d, x), k));
        }
    }
}

/// Appending keeps each key once with a list that is not empty.
proof fn lemma_append_unique(m: KeyMap, d: Seq<char>, x: Seq<char>)
    requires
        keys_unique_nonempty(m),
    ensures
        keys_unique_nonempty(map_append(m, d, x)),
{
    crate::keymap::lemma_key_index(m, d);
    let m1 = map_append(m, d, x);
    assert forall|i: int, j: int| 0 <= i < j < m1.len() implies #[trigger] m1[i].0 != #[trigger] m1[j].0 by {
        if key_index(m, d) >= 0 {
            assert(m1[i].0 == m[i].0 && m1[j].0 == m[j].0);
        } else if j == m.len() {
            assert(m[i].0 != d);
        } else {
            assert(m1[i] == m[i] && m1[j] == m[j]);
        }
    }
    assert forall|i: int| 0 <= i < m1.len() implies (#[trigger] m1[i]).1.len() > 0 by {
        if key_index(m, d) >= 0 && i == key_index(m, d) {
        } else if i < m.len() {
            assert(m1[i] == m[i]);
        }
    }
}

/// Adding `key` for each of `ds` lengthens the list of `k` by the times `k`
/// occurs in `ds`, and keeps keys unique with lists that are not empty.
proof fn lemma_rev_add_all(m: KeyMap, key: Seq<char>, ds: Seq<Seq<char>>, k: Seq<char>)
    requires
        keys_unique_nonempty(m),
    ensures
        list_of(rev_add_all(m, key, ds), k).len() == list_of(m, k).len() + occurrences(ds, k),
        keys_unique_nonempty(rev_add_all(m, key, ds)),
    decreases ds.len(),
{
    if ds.len() > 0 {
        lemma_rev_add_all(m, key, ds.drop_last(), k);
        let m0 = rev_add_all(m, key, ds.drop_last());
        lemma_list_of_append(m0, ds.last(), key, k);
        lemma_append_unique(m0, ds.last(), key);
    }
}

/// The reverse map lists for `k` one entry per time an environment names `k`
/// as a dependency.
pub proof fn lemma_rev_map_counts(infos: Seq<InfoView>, k: Seq<char>)
    ensures
        list_of(rev_map(infos), k).len() == dependents_count(infos, k),
        keys_unique_nonempty(rev_map(infos)),
    decreases infos.len(),
{
    if infos.len() > 0 {
        lemma_rev_map_counts(infos.drop_last(), k);
        lemma_rev_add_all(rev_map(infos.drop_last()), info_key(infos.last()), infos.last().3, k);
    }
}

/// The bottlenecks of an analysis of what `infos` give: each names a key and
/// how many times environments depend on it (more than none), most first,
/// at most ten; a key depended on that is left out is outnumbered by every
/// one of ten bottlenecks.
pub proof fn lemma_bottlenecks_are_most_depended_on(infos: Seq<InfoView>, d: DependencyData, a: DependencyAnalysis)
    requires
        key_map_view(d.reverse@) == rev_map(infos),
        analysis_of(a, d),
    ensures
        forall|i: int|
            0 <= i < counts_view(a.bottlenecks@).len() ==> (#[trigger] counts_view(a.bottlenecks@)[i]).1
                == dependents_count(infos, counts_view(a.bottlenecks@)[i].0) && counts_view(a.bottlenecks@)[i].1 > 0,
        by_count_desc(counts_view(a.bottlenecks@)),
        counts_view(a.bottlenecks@).len() <= 10,
        forall|k: Seq<char>|
            #![trigger dependents_count(infos, k)]
            dependents_count(infos, k) > 0 && (forall|i: int|
                0 <= i < counts_view(a.bottlenecks@).len() ==> counts_view(a.bottlenecks@)[i].0 != k) ==> counts_view(
                a.bottlenecks@,
            ).len() == 10 && forall|i: int|
                0 <= i < counts_view(a.bottlenecks@).len() ==> counts_view(a.bottlenecks@)[i].1 >= dependents_count(
                    infos,
                    k,
                ),
{
    broadcast use vstd::seq_lib::group_to_multiset_ensures;
    let m = rev_map(infos);
    let c = counts_of(m);
    let s = sort_by_count(c);
    let bn = counts_view(a.bottlenecks@);
    lemma_sort_by_count(c);
    lemma_rev_map_counts(infos, Seq::empty());
    assert(bn == bottlenecks_of(m));
    // Each entry of the sorted counts is the count of its key.
    assert forall|p: int| 0 <= p < s.len() implies (#[trigger] s[p]).1 == dependents_count(infos, s[p].0)
        && s[p].1 > 0 by {
        assert(s.to_multiset().count(s[p]) > 0);
        assert(c.to_multiset().count(s[p]) > 0);
        assert(c.contains(s[p]));
        let j = choose|j: int| 0 <= j < c.len() && c[j] == s[p];
        let k = m[j].0;
        crate::keymap::lemma_key_index(m, k);
        lemma_rev_map_counts(infos, k);
        if key_index(m, k) != j {
            assert(m[key_index(m, k)].0 == k);
        }
    }
    assert forall|i: int| 0 <= i < bn.len() implies (#[trigger] bn[i]).1 == dependents_count(infos, bn[i].0)
        && bn[i].1 > 0 by {
        assert(bn[i] == s[i]);
    }
    assert(by_count_desc(bn)) by {
        assert forall|i: int, j: int| 0 <= i < j < bn.len() implies (#[trigger] bn[i]).1 >= (#[trigger] bn[j]).1 by {
            assert(bn[i] == s[i] && bn[j] == s[j]);
        }
    }
    assert forall|k: Seq<char>|
        #![trigger dependents_count(infos, k)]
        dependents_count(infos, k) > 0 && (forall|i: int| 0 <= i < bn.len() ==> bn[i].0 != k) implies bn.len()
        == 10 && forall|i: int| 0 <= i < bn.len() ==> bn[i].1 >= dependents_count(infos, k) by {
        lemma_rev_map_counts(infos, k);
        crate::keymap::lemma_key_index(m, k);
        let j = key_index(m, k);
        assert(j >= 0);
        let e = c[j];
        assert(e == (k, dependents_count(infos, k)));
        assert(c.to_multiset().count(e) > 0);
        assert(s.to_multiset().count(e) > 0);
        assert(s.contains(e));
        let p = choose|p: int| 0 <= p < s.len() && s[p] == e;
        if p < 10 {
            assert(bn[p] == s[p]);
            assert(false);
        }
        assert forall|i: int| 0 <= i < bn.len() implies bn[i].1 >= dependents_count(infos, k) by {
            assert(bn[i] == s[i]);
            assert(s[i].1 >= s[p].1);
        }
    }
}

/// The lines listing cycles, numbered from one.
pub open spec fn cycle_lines(cs: Seq<Seq<Seq<char>>>) -> Seq<LineView>
    decreases cs.len(),
{
    if cs.len() == 0 {
        Seq::empty()
    } else {
        cycle_lines(cs.drop_last()).push(
            LineView::Dimmed("  Cycle "@ + decimal(cs.len()) + ": "@ + joined(cs.last(), " → "@)),
        )
    }
}

/// The lines listing missing dependencies.
pub open spec fn missing_lines(ms: Seq<(Seq<char>, Seq<char>)>) -> Seq<LineView>
    decreases ms.len(),
{
    if ms.len() == 0 {
        Seq::empty()
    } else {
        missing_lines(ms.drop_last()).push(
            LineView::Dimmed("  "@ + ms.last().0 + " references missing project: "@ + ms.last().1),
        )
    }
}

/// The lines listing keys as bullets.
pub open spec fn bullet_lines(ps: Seq<Seq<char>>) -> Seq<LineView>
    decreases ps.len(),
{
    if ps.len() == 0 {
        Seq::empty()
    } else {
        bullet_lines(ps.drop_last()).push(LineView::Info("• "@ + ps.last()))
    }
}

/// The lines listing bottlenecks.
pub open spec fn bottleneck_lines(bs: Seq<CountView>) -> Seq<LineView>
    decreases bs.len(),
{
    if bs.len() == 0 {
        Seq::empty()
    } else {
        bottleneck_lines(bs.drop_last()).push(
            LineView::Info(bs.last().0 + " ← "@ + decimal(bs.last().1) + " project(s) depend on this"@),
        )
    }
}

/// The health check on cycles.
pub open spec fn cycles_part(cs: Seq<Seq<Seq<char>>>) -> Seq<LineView> {
    if cs.len() == 0 {
        seq![LineView::Success("✓ No circular dependencies detected"@)]
    } else {
        seq![LineView::Error("✗ Circular dependencies detected: "@ + decimal(cs.len()))] + cycle_lines(cs)
    }
}

/// The health check on missing dependencies.
pub open spec fn missing_part(ms: Seq<(Seq<char>, Seq<char>)>) -> Seq<LineView> {
    if ms.len() == 0 {
        seq![LineView::Success("✓ No missing dependencies (all references are valid)"@)]
    } else {
        seq![LineView::Error("✗ Missing dependencies: "@ + decimal(ms.len()))] + missing_lines(ms)
    }
}

/// A titled list of keys as bullets, when there are any.
pub open spec fn bullets_part(title: Seq<char>, note: Seq<char>, ps: Seq<Seq<char>>) -> Seq<LineView> {
    if ps.len() == 0 {
        Seq::empty()
    } else {
        seq![LineView::Subsection(title), LineView::Dimmed(note), LineView::Blank] + bullet_lines(ps)
            + seq![LineView::Blank]
    }
}

/// The list of bottlenecks, when there are any.
pub open spec fn bottlenecks_part(bs: Seq<CountView>) -> Seq<LineView> {
    if bs.len() == 0 {
        Seq::empty()
    } else {
        seq![
            LineView::Subsection("Dependency Bottlenecks"@),
            LineView::Dimmed("Projects that many others depend on (top 10):"@),
            LineView::Blank,
        ] + bottleneck_lines(bs) + seq![LineView::Blank]
    }
}

/// How an analysis reads.
pub open spec fn analysis_lines(a: DependencyAnalysis) -> Seq<LineView> {
    let st = views_of(a.standalone_projects@);
    seq![
        LineView::Subsection("Summary"@),
        LineView::KeyValue("Total Projects"@, decimal(a.total_projects as nat)),
        LineView::KeyValue("Projects with Dependencies"@, decimal(a.projects_with_dependencies as nat)),
        LineView::KeyValue("Standalone Projects"@, decimal(st.len())),
        LineView::Blank,
        LineView::Subsection("Health Checks"@),
    ] + cycles_part(lists_view(a.circular_dependencies@)) + missing_part(
        pairs_view(a.missing_dependencies@),
    ) + seq![LineView::Blank] + bullets_part(
        "Orphaned Projects"@,
        "Projects that no other projects depend on:"@,
        views_of(a.orphaned_projects@),
    ) + bottlenecks_part(counts_view(a.bottlenecks@)) + bullets_part(
        "Standalone Projects"@,
        "Projects with no dependencies (can be deployed independently):"@,
        st,
    )
}

fn push_bullets(out: &mut Vec<OutputLine>, ps: &Vec<String>)
    ensures
        lines_view(final(out)@) == lines_view(old(out)@) + bullet_lines(views_of(ps@)),
{
    let ghost head = lines_view(out@);
    let ghost pv = views_of(ps@);
    let mut i: usize = 0;
    assert(pv.take(0) =~= Seq::<Seq<char>>::empty());
    assert(head + bullet_lines(pv.take(0)) =~= head);
    while i < ps.len()
        invariant
            0 <= i <= ps.len(),
            pv == views_of(ps@),
            lines_view(out@) == head + bullet_lines(pv.take(i as int)),
        decreases ps.len() - i,
    {
        assert(pv.take(i + 1).drop_last() =~= pv.take(i as int));
        assert(pv.take(i + 1).last() == ps@[i as int]@);
        let mut l = "• ".to_owned();
        l.append(ps[i].as_str());
        emit(out, OutputLine::Info(l));
        assert(lines_view(out@) =~= head + bullet_lines(pv.take(i + 1)));
        i = i + 1;
    }
    assert(pv.take(ps@.len() as int) =~= pv);
}

impl DepsCommand {
    /// The analysis of `data`: counts, environments without dependencies or
    /// dependents, the most depended-on ones, cycles and missing
    /// dependencies.
    pub fn analyze_dependencies(data: &DependencyData) -> (r: DependencyAnalysis)
        ensures
            analysis_of(r, *data),
    {
        let mut standalone = keys_without_entry(&data.projects, &data.dependencies);
        sort_strings(&mut standalone);
        let mut orphaned = keys_without_entry(&data.projects, &data.reverse);
        sort_strings(&mut orphaned);
        let bottlenecks = top_bottlenecks(&data.reverse);
        let circular = Self::detect_circular_dependencies(&data.dependencies);
        let missing = missing_errors(&data.errors, &data.projects);
        DependencyAnalysis {
            total_projects: data.projects.len(),
            projects_with_dependencies: data.dependencies.len(),
            standalone_projects: standalone,
            circular_dependencies: circular,
            orphaned_projects: orphaned,
            bottlenecks,
            missing_dependencies: missing,
        }
    }
}

fn push_cycles_part(out: &mut Vec<OutputLine>, cs: &Vec<Vec<String>>)
    ensures
        lines_view(final(out)@) == lines_view(old(out)@) + cycles_part(lists_view(cs@)),
{
    let ghost h0 = lines_view(out@);
    let ghost cv = lists_view(cs@);
    if cs.len() == 0 {
        emit(out, OutputLine::Success("✓ No circular dependencies detected".to_owned()));
        assert(lines_view(out@) =~= h0 + cycles_part(cv));
        return;
    }
    let mut e = "✗ Circular dependencies detected: ".to_owned();
    e.append(usize_to_string(cs.len()).as_str());
    emit(out, OutputLine::Error(e));
    let ghost h = lines_view(out@);
    let mut i: usize = 0;
    assert(cv.take(0) =~= Seq::<Seq<Seq<char>>>::empty());
    assert(h + cycle_lines(cv.take(0)) =~= h);
    while i < cs.len()
        invariant
            0 <= i <= cs.len(),
            cv == lists_view(cs@),
            lines_view(out@) == h + cycle_lines(cv.take(i as int)),
        decreases cs.len() - i,
    {
        assert(cv.take(i + 1).drop_last() =~= cv.take(i as int));
        assert(cv.take(i + 1).last() == views_of(cs@[i as int]@));
        let mut l = "  Cycle ".to_owned();
        l.append(usize_to_string(i + 1).as_str());
        l.append(": ");
        l.append(join_strings(&cs[i], " → ").as_str());
        emit(out, OutputLine::Dimmed(l));
        assert(lines_view(out@) =~= h + cycle_lines(cv.take(i + 1)));
        i = i + 1;
    }
    assert(cv.take(cs@.len() as int) =~= cv);
    assert(lines_view(out@) =~= h0 + cycles_part(cv));
}

fn push_missing_part(out: &mut Vec<OutputLine>, ms: &Vec<(String, String)>)
    ensures
        lines_view(final(out)@) == lines_view(old(out)@) + missing_part(pairs_view(ms@)),
{
    let ghost h0 = lines_view(out@);
    let ghost mv = pairs_view(ms@);
    if ms.len() == 0 {
        emit(out, OutputLine::Success("✓ No missing dependencies (all references are valid)".to_owned()));
        assert(lines_view(out@) =~= h0 + missing_part(mv));
        return;
    }
    let mut e = "✗ Missing dependencies: ".to_owned();
    e.append(usize_to_string(ms.len()).as_str());
    emit(out, OutputLine::Error(e));
    let ghost h = lines_view(out@);
    let mut i: usize = 0;
    assert(mv.take(0) =~= Seq::<(Seq<char>, Seq<char>)>::empty());
    assert(h + missing_lines(mv.take(0)) =~= h);
    while i < ms.len()
        invariant
            0 <= i <= ms.len(),
            mv == pairs_view(ms@),
            lines_view(out@) == h + missing_lines(mv.take(i as int)),
        decreases ms.len() - i,
    {
        assert(mv.take(i + 1).drop_last() =~= mv.take(i as int));
        assert(mv.take(i + 1).last() == (ms@[i as int].0@, ms@[i as int].1@));
        let mut l = "  ".to_owned();
        l.append(ms[i].0.as_str());
        l.append(" references missing project: ");
        l.append(ms[i].1.as_str());
        emit(out, OutputLine::Dimmed(l));
        assert(lines_view(out@) =~= h + missing_lines(mv.take(i + 1)));
        i = i + 1;
    }
    assert(mv.take(ms@.len() as int) =~= mv);
    assert(lines_view(out@) =~= h0 + missing_part(mv));
}

fn push_bullets_part(out: &mut Vec<OutputLine>, title: &str, note: &str, ps: &Vec<String>)
    ensures
        lines_view(final(out)@) == lines_view(old(out)@) + bullets_part(title@, note@, views_of(ps@)),
{
    let ghost h0 = lines_view(out@);
    if ps.len() == 0 {
        assert(lines_view(out@) =~= h0 + bullets_part(title@, note@, views_of(ps@)));
        return;
    }
    emit(out, OutputLine::Subsection(title.to_owned()));
    emit(out, OutputLine::Dimmed(note.to_owned()));
    emit(out, OutputLine::Blank);
    push_bullets(out, ps);
    emit(out, OutputLine::Blank);
    assert(lines_view(out@) =~= h0 + bullets_part(title@, note@, views_of(ps@)));
}

fn push_bottlenecks_part(out: &mut Vec<OutputLine>, bs: &Vec<(String, usize)>)
    ensures
        lines_view(final(out)@) == lines_view(old(out)@) + bottlenecks_part(counts_view(bs@)),
{
    let ghost h0 = lines_view(out@);
    let ghost bv = counts_view(bs@);
    if bs.len() == 0 {
        assert(lines_view(out@) =~= h0 + bottlenecks_part(bv));
        return;
    }
    emit(out, OutputLine::Subsection("Dependency Bottlenecks".to_owned()));
    emit(out, OutputLine::Dimmed("Projects that many others depend on (top 10):".to_owned()));
    emit(out, OutputLine::Blank);
    let ghost h = lines_view(out@);
    let mut i: usize = 0;
    assert(bv.take(0) =~= Seq::<CountView>::empty());
    assert(h + bottleneck_lines(bv.take(0)) =~= h);
    while i < bs.len()
        invariant
            0 <= i <= bs.len(),
            bv == counts_view(bs@),
            lines_view(out@) == h + bottleneck_lines(bv.take(i as int)),
        decreases bs.len() - i,
    {
        assert(bv.take(i + 1).drop_last() =~= bv.take(i as int));
        assert(bv.take(i + 1).last() == (bs@[i as int].0@, bs@[i as int].1 as nat));
        let mut l = bs[i].0.clone();
        l.append(" ← ");
        l.append(usize_to_string(bs[i].1).as_str());
        l.append(" project(s) depend on this");
        emit(out, OutputLine::Info(l));
        assert(lines_view(out@) =~= h + bottleneck_lines(bv.take(i + 1)));
        i = i + 1;
    }
    assert(bv.take(bs@.len() as int) =~= bv);
    emit(out, OutputLine::Blank);
    assert(lines_view(out@) =~= h0 + bottlenecks_part(bv));
}

impl DepsCommand {
    /// How the analysis `a` reads: a summary, the health checks (cycles,
    /// missing dependencies), then the environments nothing depends on, the
    /// most depended-on ones and those without dependencies.
    pub fn display_analysis(a: &DependencyAnalysis) -> (r: Vec<OutputLine>)
        ensures
            lines_view(r@) == analysis_lines(*a),
    {
        let mut out: Vec<OutputLine> = Vec::new();
        emit(&mut out, OutputLine::Subsection("Summary".to_owned()));
        emit(&mut out, OutputLine::KeyValue("Total Projects".to_owned(), usize_to_string(a.total_projects)));
        emit(
            &mut out,
            OutputLine::KeyValue(
                "Projects with Dependencies".to_owned(),
                usize_to_string(a.projects_with_dependencies),
            ),
        );
        emit(
            &mut out,
            OutputLine::KeyValue(
                "Standalone Projects".to_owned(),
                usize_to_string(a.standalone_projects.len()),
            ),
        );
        emit(&mut out, OutputLine::Blank);
        emit(&mut out, OutputLine::Subsection("Health Checks".to_owned()));
        push_cycles_part(&mut out, &a.circular_dependencies);
        push_missing_part(&mut out, &a.missing_dependencies);
        emit(&mut out, OutputLine::Blank);
        push_bullets_part(
            &mut out,
            "Orphaned Projects",
            "Projects that no other projects depend on:",
            &a.orphaned_projects,
        );
        push_bottlenecks_part(&mut out, &a.bottlenecks);
        push_bullets_part(
            &mut out,
            "Standalone Projects",
            "Projects with no dependencies (can be deployed independently):",
            &a.standalone_projects,
        );
        assert(lines_view(out@) =~= analysis_lines(*a));
        out
    }
}

/// Whether `d` records the dependencies among the environments `infos`.
pub open spec fn data_of(d: DependencyData, infos: Seq<InfoView>) -> bool {
    &&& views_of(d.projects@) == project_keys(infos)
    &&& key_map_view(d.dependencies@) == dep_map(infos)
    &&& key_map_view(d.reverse@) == rev_map(infos)
    &&& pairs_view(d.errors@) == dep_errors(infos)
}

/// The message given when no infrastructure is found.
pub open spec fn no_infrastructure_message() -> Seq<char> {
    "Infrastructure is required. Run 'pmp init' first."@
}

/// Whether `lines` follow, after the infrastructure's name, the analysis of
/// the environments of `refs` (or the note that there are no projects).
pub open spec fn analyze_tail(
    v: Seq<(Seq<char>, Option<Seq<char>>)>,
    root: Seq<char>,
    refs: Seq<ProjectReference>,
    tail: Seq<LineView>,
) -> bool {
    if refs.len() == 0 {
        tail == seq![LineView::Dimmed("No projects found in this infrastructure."@)]
    } else {
        exists|d: DependencyData, a: DependencyAnalysis|
            data_of(d, all_infos(v, root, refs)) && analysis_of(a, d) && tail == analysis_lines(a)
    }
}

/// Whether `key` is one of the environments of the project `name`
/// (`name:...`).
pub open spec fn key_of_project(key: Seq<char>, name: Seq<char>) -> bool {
    let p = name + ":"@;
    p.len() <= key.len() && key.subrange(0, p.len() as int) == p
}

/// The keys of `keys`, in order, of the environments of the project `name`.
pub open spec fn targets_of(keys: Seq<Seq<char>>, name: Seq<char>) -> Seq<Seq<char>>
    decreases keys.len(),
{
    if keys.len() == 0 {
        Seq::empty()
    } else {
        let rest = targets_of(keys.drop_last(), name);
        if key_of_project(keys.last(), name) {
            rest.push(keys.last())
        } else {
            rest
        }
    }
}

/// Whether `s` lists, sorted and each once, the keys that reach `t` along
/// `m` (other than `t`).
pub open spec fn impacted_list(m: KeyMap, t: Seq<char>, s: Seq<Seq<char>>) -> bool {
    &&& is_sorted(s)
    &&& s.no_duplicates()
    &&& forall|x: Seq<char>| #[trigger] s.contains(x) <==> (x != t && reaches(m, t, x))
}

/// The numbered lines listing `s`.
pub open spec fn numbered_lines(s: Seq<Seq<char>>) -> Seq<LineView>
    decreases s.len(),
{
    if s.len() == 0 {
        Seq::empty()
    } else {
        numbered_lines(s.drop_last()).push(LineView::Info(decimal(s.len()) + ". "@ + s.last()))
    }
}

/// The lines shown for the environment `t` and the sorted list `s` of the
/// environments a change of it would reach.
pub open spec fn impact_lines(t: Seq<char>, s: Seq<Seq<char>>) -> Seq<LineView> {
    seq![LineView::Subsection(t), LineView::Blank] + (if s.len() == 0 {
        seq![LineView::Dimmed("No projects depend on this project."@)]
    } else {
        seq![
            LineView::Info("Projects that would be impacted by changes: "@ + decimal(s.len())),
            LineView::Blank,
        ] + numbered_lines(s)
    }) + seq![LineView::Blank]
}

/// Whether `ls` is the impact report for the environments `ts`, one after
/// another.
pub open spec fn impact_blocks(m: KeyMap, ts: Seq<Seq<char>>, ls: Seq<LineView>) -> bool
    decreases ts.len(),
{
    if ts.len() == 0 {
        ls.len() == 0
    } else {
        exists|s: Seq<Seq<char>>, k: int|
            #![trigger ls.take(k), impact_lines(ts.last(), s)]
            0 <= k <= ls.len() && impact_blocks(m, ts.drop_last(), ls.take(k)) && impacted_list(
                m,
                ts.last(),
                s,
            ) && ls.skip(k) == impact_lines(ts.last(), s)
    }
}

/// Whether `lines` follow, after the infrastructure's name, the impact
/// report for the project `name` among the environments of `refs`; `err`
/// tells whether the project has no environment there.
pub open spec fn impact_tail(
    v: Seq<(Seq<char>, Option<Seq<char>>)>,
    root: Seq<char>,
    refs: Seq<ProjectReference>,
    name: Seq<char>,
    tail: Seq<LineView>,
    err: Option<Seq<char>>,
) -> bool {
    if refs.len() == 0 {
        tail == seq![LineView::Dimmed("No projects found in this infrastructure."@)] && err is None
    } else {
        let infos = all_infos(v, root, refs);
        let ts = targets_of(project_keys(infos), name);
        if ts.len() == 0 {
            tail.len() == 0 && err == Some("Project '"@ + name + "' not found"@)
        } else {
            err is None && impact_blocks(rev_map(infos), ts, tail)
        }
    }
}

fn push_numbered(out: &mut Vec<OutputLine>, s: &Vec<String>)
    ensures
        lines_view(final(out)@) == lines_view(old(out)@) + numbered_lines(views_of(s@)),
{
    let ghost h = lines_view(out@);
    let ghost sv = views_of(s@);
    let mut i: usize = 0;
    assert(sv.take(0) =~= Seq::<Seq<char>>::empty());
    assert(h + numbered_lines(sv.take(0)) =~= h);
    while i < s.len()
        invariant
            0 <= i <= s.len(),
            sv == views_of(s@),
            lines_view(out@) == h + numbered_lines(sv.take(i as int)),
        decreases s.len() - i,
    {
        assert(sv.take(i + 1).drop_last() =~= sv.take(i as int));
        assert(sv.take(i + 1).last() == s@[i as int]@);
        let mut l = usize_to_string(i + 1);
        l.append(". ");
        l.append(s[i].as_str());
        emit(out, OutputLine::Info(l));
        assert(lines_view(out@) =~= h + numbered_lines(sv.take(i + 1)));
        i = i + 1;
    }
    assert(sv.take(s@.len() as int) =~= sv);
}

/// The keys of `keys`, in order, of the environments of the project `name`.
fn project_targets(keys: &Vec<String>, name: &str) -> (r: Vec<String>)
    ensures
        views_of(r@) == targets_of(views_of(keys@), name@),
{
    let prefix = crate::text::to_chars(concat3(name, ":", "").as_str());
    let ghost kv = views_of(keys@);
    let mut out: Vec<String> = Vec::new();
    let mut i: usize = 0;
    assert(kv.take(0) =~= Seq::<Seq<char>>::empty());
    while i < keys.len()
        invariant
            0 <= i <= keys.len(),
            kv == views_of(keys@),
            prefix@ == name@ + ":"@ + ""@,
            views_of(out@) == targets_of(kv.take(i as int), name@),
        decreases keys.len() - i,
    {
        assert(kv.take(i + 1).drop_last() =~= kv.take(i as int));
        assert(kv.take(i + 1).last() == keys@[i as int]@);
        let kc = crate::text::to_chars(keys[i].as_str());
        proof {
            reveal_strlit("");
            assert(name@ + ":"@ + ""@ =~= name@ + ":"@);
        }
        if crate::paths::starts_with(&kc, &prefix) {
            let ghost o0 = views_of(out@);
            out.push(keys[i].clone());
            assert(views_of(out@) =~= o0.push(keys@[i as int]@));
        }
        i = i + 1;
    }
    assert(kv.take(keys@.len() as int) =~= kv);
    out
}

/// Whether `ls` begins with the name of the infrastructure at `root`.
pub open spec fn header_ok(v: Seq<(Seq<char>, Option<Seq<char>>)>, root: Seq<char>, ls: Seq<LineView>) -> bool {
    ls.len() >= 2 && match crate::discovery::infrastructure_at(v, root) {
        Some(i) => ls.take(2) == seq![LineView::KeyValue("Infrastructure"@, i.0), LineView::Blank],
        None => false,
    }
}

/// Whether `ls` is the dependency analysis of the infrastructure nearest at
/// or above `start`, of projects found in it.
pub open spec fn analyze_report(v: Seq<(Seq<char>, Option<Seq<char>>)>, start: Seq<char>, ls: Seq<LineView>) -> bool {
    exists|root: Seq<char>, refs: Seq<ProjectReference>|
        #[trigger] is_nearest_collection(v, start, root) && #[trigger] all_found_projects(
            v,
            join_spec(root, "projects"@),
            root,
            refs,
        ) && header_ok(v, root, ls) && analyze_tail(v, root, refs, ls.skip(2))
}

impl DepsCommand {
    /// The dependency analysis of the infrastructure that lies at or above
    /// `current_dir`: the lines shown, and the error that ended it, if any.
    /// Problems with single project files go to `warnings`.
    pub fn execute_analyze(fs: &MemoryFileSystem, warnings: &mut Vec<String>, current_dir: &str) -> (r: (
        Vec<OutputLine>,
        Result<(), String>,
    ))
        ensures
            no_collection_above(fs@, current_dir@) ==> r.0@.len() == 0 && (r.1 matches Err(e) && e@
                == no_infrastructure_message()),
            r.1 is Ok ==> analyze_report(fs@, current_dir@, lines_view(r.0@)),
            !no_collection_above(fs@, current_dir@) ==> (r.1 is Ok <==> projects_discoverable(
                fs@,
                current_dir@,
            )),
    {
        let mut out: Vec<OutputLine> = Vec::new();
        let found = match CollectionDiscovery::find_collection_in_path(fs, current_dir) {
            Ok(f) => f,
            Err(e) => {
                return (out, Err(e));
            },
        };
        let (infrastructure, root) = match found {
            Some(x) => x,
            None => {
                proof {
                    reveal_strlit("Infrastructure is required. Run 'pmp init' first.");
                }
                return (out, Err("Infrastructure is required. Run 'pmp init' first.".to_owned()));
            },
        };
        proof {
            if no_collection_above(fs@, current_dir@) {
                let k = choose|k: int|
                    0 <= k < crate::discovery::ancestors(current_dir@).len()
                        && crate::discovery::ancestors(current_dir@)[k] == root@
                        && crate::discovery::infrastructure_at(fs@, root@) is Some
                        && forall|j: int|
                        0 <= j < k ==> crate::discovery::infrastructure_at(
                            fs@,
                            #[trigger] crate::discovery::ancestors(current_dir@)[j],
                        ) is None;
                assert(crate::discovery::infrastructure_at(
                    fs@,
                    crate::discovery::ancestors(current_dir@)[k],
                ) is None);
            }
        }
        proof {
            lemma_discoverable_at(fs@, current_dir@, root@);
            crate::discovery::lemma_nearest_excludes_none(fs@, current_dir@, root@);
        }
        let name = infrastructure.metadata.name.clone();
        let ghost nm = name@;
        assert(nm == infrastructure_view(infrastructure).0);
        emit(&mut out, OutputLine::KeyValue("Infrastructure".to_owned(), name));
        emit(&mut out, OutputLine::Blank);
        let ghost head = lines_view(out@);
        assert(head =~= seq![LineView::KeyValue("Infrastructure"@, nm), LineView::Blank]);
        assert(crate::discovery::infrastructure_at(fs@, root@) == Some(infrastructure_view(infrastructure)));
        let projects = match CollectionDiscovery::discover_projects(fs, warnings, root.as_str()) {
            Ok(p) => p,
            Err(e) => {
                return (out, Err(e));
            },
        };
        if projects.len() == 0 {
            emit(&mut out, OutputLine::Dimmed("No projects found in this infrastructure.".to_owned()));
            assert(lines_view(out@).take(2) =~= head);
            assert(lines_view(out@).skip(2) =~= seq![
                LineView::Dimmed("No projects found in this infrastructure."@),
            ]);
            assert(header_ok(fs@, root@, lines_view(out@)));
            assert(analyze_tail(fs@, root@, projects@, lines_view(out@).skip(2)));
            assert(is_nearest_collection(fs@, current_dir@, root@));
            assert(all_found_projects(fs@, join_spec(root@, "projects"@), root@, projects@));
            return (out, Ok(()));
        }
        let infos = scan_environments(fs, root.as_str(), projects.as_slice());
        let data = Self::collect_dependencies(&infos);
        let analysis = Self::analyze_dependencies(&data);
        let report = Self::display_analysis(&analysis);
        let mut rest = report;
        out.append(&mut rest);
        assert(lines_view(out@) =~= head + lines_view(report@));
        assert(lines_view(out@).take(2) =~= head);
        assert(lines_view(out@).skip(2) =~= lines_view(report@));
        assert(data_of(data, all_infos(fs@, root@, projects@)));
        assert(header_ok(fs@, root@, lines_view(out@)));
        assert(analyze_tail(fs@, root@, projects@, lines_view(out@).skip(2)));
        assert(is_nearest_collection(fs@, current_dir@, root@));
        assert(all_found_projects(fs@, join_spec(root@, "projects"@), root@, projects@));
        (out, Ok(()))
    }
}

/// Whether `ls` is the impact report for the project `name` in the
/// infrastructure nearest at or above `start`, of projects found in it.
pub open spec fn impact_report(v: Seq<(Seq<char>, Option<Seq<char>>)>, start: Seq<char>, name: Seq<char>, ls: Seq<LineView>) -> bool {
    exists|root: Seq<char>, refs: Seq<ProjectReference>|
        #[trigger] is_nearest_collection(v, start, root) && #[trigger] all_found_projects(
            v,
            join_spec(root, "projects"@),
            root,
            refs,
        ) && header_ok(v, root, ls) && impact_tail(v, root, refs, name, ls.skip(2), None)
}

/// Whether the impact of the project `name` can be reported from `start`:
/// the projects of the nearest infrastructure can all be read, and either
/// there are none or `name` has an environment among them.
pub open spec fn impact_known(v: Seq<(Seq<char>, Option<Seq<char>>)>, start: Seq<char>, name: Seq<char>) -> bool {
    exists|root: Seq<char>|
        #[trigger] is_nearest_collection(v, start, root) && (crate::discovery::discovery(v, root) matches Some(
            found,
        ) && (found.len() == 0 || targets_of(
            project_keys(crate::environments::found_infos(v, root, found)),
            name,
        ).len() > 0))
}

/// With `root` the nearest infrastructure above `start`, whether the impact
/// of `name` can be reported is decided there.
pub proof fn lemma_impact_known_at(
    v: Seq<(Seq<char>, Option<Seq<char>>)>,
    start: Seq<char>,
    root: Seq<char>,
    name: Seq<char>,
)
    requires
        is_nearest_collection(v, start, root),
    ensures
        impact_known(v, start, name) <==> (crate::discovery::discovery(v, root) matches Some(found) && (
        found.len() == 0 || targets_of(project_keys(crate::environments::found_infos(v, root, found)), name).len()
            > 0)),
{
    if impact_known(v, start, name) {
        let r = choose|r: Seq<char>|
            #[trigger] is_nearest_collection(v, start, r) && (crate::discovery::discovery(v, r) matches Some(
                found,
            ) && (found.len() == 0 || targets_of(
                project_keys(crate::environments::found_infos(v, r, found)),
                name,
            ).len() > 0));
        crate::discovery::lemma_nearest_unique(v, start, r, root);
    }
}

impl DepsCommand {
    /// For each environment of the project `project_name` in the
    /// infrastructure at or above `current_dir`, the environments that a
    /// change of it would reach: the lines shown, and the error that ended it,
    /// if any (among them, that the project has no environment there).
    /// Problems with single project files go to `warnings`.
    pub fn execute_impact(
        fs: &MemoryFileSystem,
        warnings: &mut Vec<String>,
        current_dir: &str,
        project_name: &str,
    ) -> (r: (Vec<OutputLine>, Result<(), String>))
        ensures
            no_collection_above(fs@, current_dir@) ==> r.0@.len() == 0 && (r.1 matches Err(e) && e@
                == no_infrastructure_message()),
            r.1 is Ok ==> impact_report(fs@, current_dir@, project_name@, lines_view(r.0@)),
            !no_collection_above(fs@, current_dir@) ==> (r.1 is Ok <==> impact_known(
                fs@,
                current_dir@,
                project_name@,
            )),
            projects_discoverable(fs@, current_dir@) && r.1 is Err ==> (r.1 matches Err(e) && e@
                == "Project '"@ + project_name@ + "' not found"@),
    {
        let mut out: Vec<OutputLine> = Vec::new();
        let found = match CollectionDiscovery::find_collection_in_path(fs, current_dir) {
            Ok(f) => f,
            Err(e) => {
                return (out, Err(e));
            },
        };
        let (infrastructure, root) = match found {
            Some(x) => x,
            None => {
                proof {
                    reveal_strlit("Infrastructure is required. Run 'pmp init' first.");
                }
                return (out, Err("Infrastructure is required. Run 'pmp init' first.".to_owned()));
            },
        };
        proof {
            if no_collection_above(fs@, current_dir@) {
                let k = choose|k: int|
                    0 <= k < crate::discovery::ancestors(current_dir@).len()
                        && crate::discovery::ancestors(current_dir@)[k] == root@
                        && crate::discovery::infrastructure_at(fs@, root@) is Some
                        && forall|j: int|
                        0 <= j < k ==> crate::discovery::infrastructure_at(
                            fs@,
                            #[trigger] crate::discovery::ancestors(current_dir@)[j],
                        ) is None;
                assert(crate::discovery::infrastructure_at(
                    fs@,
                    crate::discovery::ancestors(current_dir@)[k],
                ) is None);
            }
        }
        proof {
            lemma_discoverable_at(fs@, current_dir@, root@);
            lemma_impact_known_at(fs@, current_dir@, root@, project_name@);
            crate::discovery::lemma_nearest_excludes_none(fs@, current_dir@, root@);
        }
        let name = infrastructure.metadata.name.clone();
        let ghost nm = name@;
        assert(nm == infrastructure_view(infrastructure).0);
        emit(&mut out, OutputLine::KeyValue("Infrastructure".to_owned(), name));
        emit(&mut out, OutputLine::Blank);
        let ghost head = lines_view(out@);
        assert(head =~= seq![LineView::KeyValue("Infrastructure"@, nm), LineView::Blank]);
        assert(crate::discovery::infrastructure_at(fs@, root@) == Some(infrastructure_view(infrastructure)));
        let projects = match CollectionDiscovery::discover_projects(fs, warnings, root.as_str()) {
            Ok(p) => p,
            Err(e) => {
                return (out, Err(e));
            },
        };
        if projects.len() == 0 {
            emit(&mut out, OutputLine::Dimmed("No projects found in this infrastructure.".to_owned()));
            assert(lines_view(out@).take(2) =~= head);
            assert(lines_view(out@).skip(2) =~= seq![
                LineView::Dimmed("No projects found in this infrastructure."@),
            ]);
            assert(header_ok(fs@, root@, lines_view(out@)));
            assert(impact_tail(fs@, root@, projects@, project_name@, lines_view(out@).skip(2), None));
            assert(is_nearest_collection(fs@, current_dir@, root@));
            assert(all_found_projects(fs@, join_spec(root@, "projects"@), root@, projects@));
            return (out, Ok(()));
        }
        let infos = scan_environments(fs, root.as_str(), projects.as_slice());
        let data = Self::collect_dependencies(&infos);
        let ghost iv = all_infos(fs@, root@, projects@);
        proof {
            crate::environments::lemma_found_infos(fs@, root@, projects@);
        }
        let targets = project_targets(&data.projects, project_name);
        let ghost ts = views_of(targets@);
        if targets.len() == 0 {
            let mut e = "Project '".to_owned();
            e.append(project_name);
            e.append("' not found");
            return (out, Err(e));
        }
        let ghost m = rev_map(iv);
        let mut t: usize = 0;
        assert(ts.take(0) =~= Seq::<Seq<char>>::empty());
        assert(lines_view(out@).skip(2) =~= Seq::<LineView>::empty());
        assert(lines_view(out@).take(2) =~= head);
        while t < targets.len()
            invariant
                0 <= t <= targets.len(),
                ts == views_of(targets@),
                m == key_map_view(data.reverse@),
                lines_view(out@).len() >= 2,
                lines_view(out@).take(2) == head,
                impact_blocks(m, ts.take(t as int), lines_view(out@).skip(2)),
            decreases targets.len() - t,
        {
            let target = targets[t].as_str();
            let ghost prev = lines_view(out@);
            let ghost k = prev.len() - 2;
            emit(&mut out, OutputLine::Subsection(target.to_owned()));
            emit(&mut out, OutputLine::Blank);
            let mut impacted = Self::find_impacted_projects(target, &data.reverse);
            let ghost before_sort = views_of(impacted@);
            sort_strings(&mut impacted);
            let ghost sv = views_of(impacted@);
            proof {
                broadcast use vstd::seq_lib::group_to_multiset_ensures;
                before_sort.lemma_multiset_has_no_duplicates();
                sv.lemma_multiset_has_no_duplicates_conv();
                assert forall|x: Seq<char>| #[trigger] sv.contains(x) <==> before_sort.contains(x) by {
                    assert(sv.to_multiset().contains(x) == sv.contains(x));
                    assert(before_sort.to_multiset().contains(x) == before_sort.contains(x));
                }
            }
            if impacted.len() == 0 {
                emit(&mut out, OutputLine::Dimmed("No projects depend on this project.".to_owned()));
            } else {
                let mut l = "Projects that would be impacted by changes: ".to_owned();
                l.append(usize_to_string(impacted.len()).as_str());
                emit(&mut out, OutputLine::Info(l));
                emit(&mut out, OutputLine::Blank);
                push_numbered(&mut out, &impacted);
            }
            emit(&mut out, OutputLine::Blank);
            proof {
                let now = lines_view(out@);
                assert(now.skip(2).take(k) =~= prev.skip(2));
                assert(now.take(2) =~= head);
                assert(now.skip(2).skip(k) =~= impact_lines(target@, sv));
                assert(ts.take(t + 1).drop_last() =~= ts.take(t as int));
                assert(ts.take(t + 1).last() == target@);
                assert(impacted_list(m, target@, sv));
            }
            t = t + 1;
        }
        proof {
            assert(ts.take(targets@.len() as int) =~= ts);
            assert(header_ok(fs@, root@, lines_view(out@)));
            assert(impact_tail(fs@, root@, projects@, project_name@, lines_view(out@).skip(2), None));
            assert(is_nearest_collection(fs@, current_dir@, root@));
            assert(all_found_projects(fs@, join_spec(root@, "projects"@), root@, projects@));
        }
        (out, Ok(()))
    }
}

} // verus!
