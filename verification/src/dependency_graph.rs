//! The dependency graph of a project environment: the environments it
//! depends on, directly or not, and the order in which to run them.

use vstd::prelude::*;
use crate::fs::{
    children_spec, fs_file, fs_has, fs_is_dir, fs_max_len, lemma_children, MemoryFileSystem,
};
use crate::paths::{join, join_spec};
use crate::resources::{
    environment_text_spec, project_text_spec, DependencyView, EnvironmentResource, ProjectResource,
};
use crate::text::{concat, concat3, contains_str, str_eq, views_of};

verus! {

broadcast use vstd::string::group_string_axioms;

/// One environment of one project in a dependency graph.
#[derive(Debug)]
pub struct DependencyNode {
    /// Name of the project.
    pub project_name: String,
    /// Name of the environment.
    pub environment_name: String,
    /// Path of the environment directory.
    pub environment_path: String,
}

/// The key of the environment `env` of the project `project`: `project:env`.
pub open spec fn node_key(project: Seq<char>, env: Seq<char>) -> Seq<char> {
    project + ":"@ + env
}

impl DependencyNode {
    /// The key of this node.
    pub open spec fn key_view(&self) -> Seq<char> {
        node_key(self.project_name@, self.environment_name@)
    }

    /// A node for the environment `environment_name` of `project_name`, found at
    /// `environment_path`.
    pub fn new(project_name: String, environment_name: String, environment_path: String) -> (r:
        Self)
        ensures
            r.project_name == project_name,
            r.environment_name == environment_name,
            r.environment_path == environment_path,
    {
        DependencyNode { project_name, environment_name, environment_path }
    }

    /// The key that identifies this node: `project:environment`.
    pub fn key(&self) -> (r: String)
        ensures
            r@ == self.key_view(),
    {
        concat3(self.project_name.as_str(), ":", self.environment_name.as_str())
    }
}

impl Clone for DependencyNode {
    fn clone(&self) -> (r: Self)
        ensures
            r == *self,
    {
        DependencyNode {
            project_name: self.project_name.clone(),
            environment_name: self.environment_name.clone(),
            environment_path: self.environment_path.clone(),
        }
    }
}

impl PartialEq for DependencyNode {
    fn eq(&self, other: &Self) -> (r: bool) {
        self.project_name == other.project_name && self.environment_name == other.environment_name
            && self.environment_path == other.environment_path
    }
}

impl vstd::std_specs::cmp::PartialEqSpecImpl for DependencyNode {
    open spec fn obeys_eq_spec() -> bool {
        true
    }

    open spec fn eq_spec(&self, other: &Self) -> bool {
        self.project_name@ == other.project_name@ && self.environment_name@
            == other.environment_name@ && self.environment_path@ == other.environment_path@
    }
}

/// The dependency graph of a root project environment.
#[derive(Debug)]
pub struct DependencyGraph {
    /// The environment the graph was built for.
    pub root: DependencyNode,
    /// Every node of the graph, the root first.
    pub nodes: Vec<DependencyNode>,
    /// For the key of a node, the nodes it depends on (only nodes that have some).
    pub dependencies: Vec<(String, Vec<DependencyNode>)>,
}

/// The keys of a sequence of nodes.
pub open spec fn keys_of(nodes: Seq<DependencyNode>) -> Seq<Seq<char>> {
    nodes.map_values(|n: DependencyNode| n.key_view())
}


/// The nodes recorded under `k` in `entries` (the first such entry), or none.
pub open spec fn deps_of(entries: Seq<(String, Vec<DependencyNode>)>, k: Seq<char>) -> Seq<
    DependencyNode,
>
    decreases entries.len(),
{
    if entries.len() == 0 {
        Seq::empty()
    } else if entries[0].0@ == k {
        entries[0].1@
    } else {
        deps_of(entries.drop_first(), k)
    }
}

/// The keys of every node recorded in `entries`.
pub open spec fn dep_keys(entries: Seq<(String, Vec<DependencyNode>)>) -> Seq<Seq<char>>
    decreases entries.len(),
{
    if entries.len() == 0 {
        Seq::empty()
    } else {
        keys_of(entries[0].1@) + dep_keys(entries.drop_first())
    }
}

/// Every node recorded under a key is among `dep_keys`.
pub proof fn lemma_deps_in_dep_keys(entries: Seq<(String, Vec<DependencyNode>)>, k: Seq<char>)
    ensures
        forall|i: int|
            0 <= i < deps_of(entries, k).len() ==> dep_keys(entries).contains(
                #[trigger] deps_of(entries, k)[i].key_view(),
            ),
    decreases entries.len(),
{
    if entries.len() > 0 {
        lemma_deps_in_dep_keys(entries.drop_first(), k);
        let here = keys_of(entries[0].1@);
        let rest = dep_keys(entries.drop_first());
        assert forall|i: int| 0 <= i < deps_of(entries, k).len() implies dep_keys(entries).contains(
            #[trigger] deps_of(entries, k)[i].key_view(),
        ) by {
            assert(dep_keys(entries) == here + rest);
            if entries[0].0@ == k {
                assert(here[i] == deps_of(entries, k)[i].key_view());
                assert((here + rest)[i] == here[i]);
            } else {
                assert(deps_of(entries, k) == deps_of(entries.drop_first(), k));
                assert(rest.contains(deps_of(entries.drop_first(), k)[i].key_view()));
                let j = choose|j: int|
                    0 <= j < rest.len() && rest[j] == deps_of(entries, k)[i].key_view();
                assert((here + rest)[here.len() + j] == rest[j]);
            }
        }
    }
}

/// A sequence without repetitions whose items all occur in `t` is no longer than `t`.
pub proof fn lemma_unique_within_len<T>(s: Seq<T>, t: Seq<T>)
    requires
        s.no_duplicates(),
        forall|i: int| 0 <= i < s.len() ==> t.contains(#[trigger] s[i]),
    ensures
        s.len() <= t.len(),
{
    s.unique_seq_to_set();
    t.lemma_cardinality_of_set();
    assert(s.to_set().subset_of(t.to_set())) by {
        assert forall|x: T| s.to_set().contains(x) implies t.to_set().contains(x) by {
            let i = choose|i: int| 0 <= i < s.len() && s[i] == x;
        }
    }
    vstd::set_lib::lemma_len_subset(s.to_set(), t.to_set());
}

impl DependencyGraph {
    /// The nodes that the node with key `k` depends on.
    pub open spec fn deps(&self, k: Seq<char>) -> Seq<DependencyNode> {
        deps_of(self.dependencies@, k)
    }

    /// Whether the node with key `a` depends on a node with key `b`.
    pub open spec fn edge(&self, a: Seq<char>, b: Seq<char>) -> bool {
        exists|i: int| 0 <= i < self.deps(a).len() && #[trigger] self.deps(a)[i].key_view() == b
    }

    /// Whether `p` is a chain of keys, each depending on the next.
    pub open spec fn is_path(&self, p: Seq<Seq<char>>) -> bool {
        &&& p.len() >= 1
        &&& forall|i: int| 0 <= i < p.len() - 1 ==> #[trigger] self.edge(p[i], p[i + 1])
    }

    /// Whether the node with key `b` can be reached from `a` by following dependencies.
    pub open spec fn reachable(&self, a: Seq<char>, b: Seq<char>) -> bool {
        exists|p: Seq<Seq<char>>| #[trigger] self.is_path(p) && p[0] == a && p.last() == b
    }

    /// Whether the node with key `k` depends on itself, directly or not.
    pub open spec fn on_cycle(&self, k: Seq<char>) -> bool {
        exists|p: Seq<Seq<char>>|
            #[trigger] self.is_path(p) && p.len() >= 2 && p[0] == k && p.last() == k
    }

    /// The root's key and the key of every node that the graph records.
    pub open spec fn universe(&self) -> Seq<Seq<char>> {
        seq![self.root.key_view()] + dep_keys(self.dependencies@)
    }

    /// Whether `order` lists nodes so that every node comes after all it
    /// depends on, no key twice, each reachable from the root, the root last.
    pub open spec fn is_execution_order(&self, order: Seq<DependencyNode>) -> bool {
        &&& keys_of(order).no_duplicates()
        &&& order.len() >= 1
        &&& order.last() == self.root
        &&& forall|i: int, j: int|
            0 <= i < order.len() && 0 <= j < self.deps(order[i].key_view()).len() ==> keys_of(
                order,
            ).take(i).contains(#[trigger] self.deps(order[i].key_view())[j].key_view())
        &&& forall|i: int|
            0 <= i < order.len() ==> self.reachable(
                self.root.key_view(),
                #[trigger] order[i].key_view(),
            )
    }

    /// The state of the depth-first walk: the nodes put in order so far and the
    /// keys of the walk's current chain from the root.
    pub open spec fn walk_state(&self, order: Seq<DependencyNode>, chain: Seq<Seq<char>>) -> bool {
        &&& keys_of(order).no_duplicates()
        &&& chain.no_duplicates()
        &&& forall|i: int, j: int|
            0 <= i < order.len() && 0 <= j < chain.len() ==> #[trigger] order[i].key_view()
                != #[trigger] chain[j]
        &&& forall|i: int, j: int|
            0 <= i < order.len() && 0 <= j < self.deps(order[i].key_view()).len() ==> keys_of(
                order,
            ).take(i).contains(#[trigger] self.deps(order[i].key_view())[j].key_view())
        &&& forall|i: int|
            0 <= i < order.len() ==> self.reachable(
                self.root.key_view(),
                #[trigger] order[i].key_view(),
            )
        &&& chain.len() > 0 ==> self.is_path(chain) && chain[0] == self.root.key_view()
        &&& forall|j: int| 0 <= j < chain.len() ==> self.universe().contains(#[trigger] chain[j])
    }

    /// The message of the error for a dependency cycle through `k`.
    pub open spec fn cycle_message(k: Seq<char>) -> Seq<char> {
        "Circular dependency detected involving: "@ + k
    }

    /// A run of consecutive keys of a chain is a chain.
    pub proof fn lemma_subpath(&self, p: Seq<Seq<char>>, a: int, b: int)
        requires
            self.is_path(p),
            0 <= a < b <= p.len(),
        ensures
            self.is_path(p.subrange(a, b)),
    {
        let q = p.subrange(a, b);
        assert forall|i: int| 0 <= i < q.len() - 1 implies #[trigger] self.edge(q[i], q[i + 1]) by {
            assert(q[i] == p[a + i]);
            assert(q[i + 1] == p[a + i + 1]);
            assert(self.edge(p[a + i], p[a + i + 1]));
        }
    }

    /// A chain extended by a dependency of its last key is a chain.
    pub proof fn lemma_path_push(&self, p: Seq<Seq<char>>, x: Seq<char>)
        requires
            self.is_path(p),
            self.edge(p.last(), x),
        ensures
            self.is_path(p.push(x)),
    {
        let q = p.push(x);
        assert forall|i: int| 0 <= i < q.len() - 1 implies #[trigger] self.edge(q[i], q[i + 1]) by {
            if i < p.len() - 1 {
                assert(q[i] == p[i]);
                assert(q[i + 1] == p[i + 1]);
                assert(self.edge(p[i], p[i + 1]));
            }
        }
    }

    /// The index of the entry that records the dependencies of `k`, if any.
    fn find_deps(&self, k: &str) -> (r: Option<usize>)
        ensures
            r matches Some(i) ==> i < self.dependencies@.len() && self.deps(k@)
                == self.dependencies@[i as int].1@,
            r is None ==> self.deps(k@) == Seq::<DependencyNode>::empty(),
    {
        let mut i: usize = 0;
        assert(self.dependencies@.skip(0) =~= self.dependencies@);
        while i < self.dependencies.len()
            invariant
                0 <= i <= self.dependencies.len(),
                self.deps(k@) == deps_of(self.dependencies@.skip(i as int), k@),
            decreases self.dependencies.len() - i,
        {
            let ghost sk = self.dependencies@.skip(i as int);
            assert(sk[0] == self.dependencies@[i as int]);
            assert(sk.drop_first() =~= self.dependencies@.skip(i + 1));
            if crate::text::str_eq(self.dependencies[i].0.as_str(), k) {
                return Some(i);
            }
            i = i + 1;
        }
        None
    }
}

impl DependencyGraph {
    /// Puts `node` and everything it depends on into `order`, dependencies
    /// first, walking depth first; `visiting` is the chain of keys from the root
    /// down to `node`. Fails on a key that is already on that chain.
    fn topological_sort(
        &self,
        node: &DependencyNode,
        order: &mut Vec<DependencyNode>,
        visiting: &mut Vec<String>,
    ) -> (r: Result<(), String>)
        requires
            self.walk_state(old(order)@, views_of(old(visiting)@)),
            self.universe().contains(node.key_view()),
            old(visiting)@.len() == 0 ==> node.key_view() == self.root.key_view(),
            old(visiting)@.len() > 0 ==> self.edge(
                views_of(old(visiting)@).last(),
                node.key_view(),
            ),
        ensures
            r is Ok ==> self.walk_state(final(order)@, views_of(final(visiting)@)),
            r is Ok ==> final(visiting)@ == old(visiting)@,
            r is Ok ==> old(order)@.len() <= final(order)@.len() && final(order)@.take(
                old(order)@.len() as int,
            ) == old(order)@,
            r is Ok ==> keys_of(final(order)@).contains(node.key_view()),
            r is Ok && !keys_of(old(order)@).contains(node.key_view()) ==> final(order)@.len() > 0
                && final(order)@.last() == *node,
            r matches Err(e) ==> exists|k: Seq<char>|
                self.on_cycle(k) && self.reachable(self.root.key_view(), k) && e@
                    == Self::cycle_message(k),
        decreases self.universe().len() - old(visiting)@.len(),
    {
        let node_key = node.key();
        let nk = node_key.as_str();
        if order_has_key(order, nk) {
            assert(order@.take(order@.len() as int) =~= order@);
            return Ok(());
        }
        let ghost chain = views_of(visiting@);
        if contains_str(visiting, nk) {
            proof {
                let m = choose|m: int| 0 <= m < chain.len() && chain[m] == nk@;
                let cyc = chain.subrange(m, chain.len() as int).push(nk@);
                self.lemma_subpath(chain, m, chain.len() as int);
                assert(chain.subrange(m, chain.len() as int).last() == chain.last());
                self.lemma_path_push(chain.subrange(m, chain.len() as int), nk@);
                assert(cyc[0] == nk@);
                assert(self.on_cycle(nk@));
                let pre = chain.subrange(0, m + 1);
                self.lemma_subpath(chain, 0, m + 1);
                assert(pre[0] == self.root.key_view());
                assert(pre.last() == nk@);
                assert(self.reachable(self.root.key_view(), nk@));
            }
            let msg = crate::text::concat("Circular dependency detected involving: ", nk);
            assert(msg@ == Self::cycle_message(nk@));
            return Err(msg);
        }
        let ghost old_order = order@;
        visiting.push(node_key.clone());
        let ghost chain2 = views_of(visiting@);
        proof {
            assert(chain2 =~= chain.push(nk@));
            assert(chain2.no_duplicates()) by {
                assert forall|a: int, b: int|
                    0 <= a < chain2.len() && 0 <= b < chain2.len() && a != b implies chain2[a]
                    != chain2[b] by {
                    if a < chain.len() && b < chain.len() {
                        assert(chain2[a] == chain[a] && chain2[b] == chain[b]);
                    } else if a < chain.len() {
                        assert(chain2[a] == chain[a]);
                    } else {
                        assert(chain2[b] == chain[b]);
                    }
                }
            }
            if chain.len() == 0 {
                assert(self.is_path(chain2));
            } else {
                self.lemma_path_push(chain, nk@);
            }
            assert(forall|j: int| 0 <= j < chain2.len() ==> self.universe().contains(
                #[trigger] chain2[j],
            )) by {
                assert forall|j: int| 0 <= j < chain2.len() implies self.universe().contains(
                    #[trigger] chain2[j],
                ) by {
                    if j < chain.len() {
                        assert(chain2[j] == chain[j]);
                    }
                }
            }
            assert forall|i: int, j: int|
                0 <= i < order@.len() && 0 <= j < chain2.len() implies #[trigger] order@[i].key_view()
                != #[trigger] chain2[j] by {
                if j < chain.len() {
                    assert(chain2[j] == chain[j]);
                } else {
                    assert(keys_of(order@)[i] == order@[i].key_view());
                }
            }
            assert(self.walk_state(order@, chain2));
            lemma_unique_within_len(chain2, self.universe());
            lemma_deps_in_dep_keys(self.dependencies@, nk@);
        }
        match self.find_deps(nk) {
            Some(ei) => {
                let deps = &self.dependencies[ei].1;
                let mut i: usize = 0;
                while i < deps.len()
                    invariant
                        0 <= i <= deps.len(),
                        deps@ == self.deps(nk@),
                        nk@ == node.key_view(),
                        visiting@ == old(visiting)@.push(node_key),
                        views_of(visiting@) == chain2,
                        chain2 == chain.push(nk@),
                        chain2.len() <= self.universe().len(),
                        self.walk_state(order@, chain2),
                        old_order == old(order)@,
                        old_order.len() <= order@.len(),
                        order@.take(old_order.len() as int) == old_order,
                        forall|j: int| 0 <= j < i ==> keys_of(order@).contains(#[trigger] deps@[j].key_view()),
                        forall|j: int|
                            0 <= j < deps@.len() ==> dep_keys(self.dependencies@).contains(
                                #[trigger] deps@[j].key_view(),
                            ),
                    decreases deps.len() - i,
                {
                    let ghost before = order@;
                    proof {
                        let u = self.universe();
                        let dk = deps@[i as int].key_view();
                        assert(dep_keys(self.dependencies@).contains(dk));
                        let t = choose|t: int|
                            0 <= t < dep_keys(self.dependencies@).len() && dep_keys(
                                self.dependencies@,
                            )[t] == dk;
                        assert(u[t + 1] == dk);
                        assert(self.edge(chain2.last(), dk)) by {
                            assert(chain2.last() == nk@);
                            assert(self.deps(nk@)[i as int].key_view() == dk);
                        }
                        assert(visiting@.len() == chain2.len());
                    }
                    let r = self.topological_sort(&deps[i], order, visiting);
                    match r {
                        Err(e) => {
                            return Err(e);
                        },
                        Ok(()) => {},
                    }
                    proof {
                        assert forall|j: int| 0 <= j < i + 1 implies keys_of(order@).contains(
                            #[trigger] deps@[j].key_view(),
                        ) by {
                            if j < i {
                                let t = choose|t: int|
                                    0 <= t < keys_of(before).len() && keys_of(before)[t]
                                        == deps@[j].key_view();
                                assert(order@.take(before.len() as int) == before);
                                assert(order@[t] == before[t]);
                                assert(keys_of(order@)[t] == keys_of(before)[t]);
                            }
                        }
                        assert(order@.take(old_order.len() as int) =~= old_order) by {
                            assert(order@.take(before.len() as int) == before);
                            assert forall|t: int| 0 <= t < old_order.len() implies order@[t]
                                == old_order[t] by {
                                assert(order@.take(before.len() as int)[t] == before[t]);
                                assert(before.take(old_order.len() as int)[t] == old_order[t]);
                            }
                        }
                    }
                    i = i + 1;
                }
            },
            None => {},
        }
        let ghost mid = order@;
        visiting.pop();
        assert(visiting@ =~= old(visiting)@);
        order.push(node.clone());
        proof {
            let ko = keys_of(order@);
            let km = keys_of(mid);
            assert(ko =~= km.push(nk@));
            assert(!km.contains(nk@)) by {
                if km.contains(nk@) {
                    let t = choose|t: int| 0 <= t < km.len() && km[t] == nk@;
                    assert(mid[t].key_view() != chain2[chain2.len() - 1]);
                }
            }
            assert(ko.no_duplicates()) by {
                assert forall|a: int, b: int|
                    0 <= a < ko.len() && 0 <= b < ko.len() && a != b implies ko[a] != ko[b] by {
                    if a < km.len() && b < km.len() {
                        assert(ko[a] == km[a] && ko[b] == km[b]);
                    } else if a < km.len() {
                        assert(ko[a] == km[a]);
                    } else {
                        assert(ko[b] == km[b]);
                    }
                }
            }
            assert forall|i: int, j: int|
                0 <= i < order@.len() && 0 <= j < chain.len() implies #[trigger] order@[i].key_view()
                != #[trigger] chain[j] by {
                assert(chain2[j] == chain[j]);
                if i < mid.len() {
                    assert(order@[i] == mid[i]);
                }
            }
            assert forall|i: int, j: int|
                0 <= i < order@.len() && 0 <= j < self.deps(order@[i].key_view()).len() implies keys_of(
                order@,
            ).take(i).contains(#[trigger] self.deps(order@[i].key_view())[j].key_view()) by {
                if i < mid.len() {
                    assert(order@[i] == mid[i]);
                    assert(keys_of(order@).take(i) =~= keys_of(mid).take(i));
                } else {
                    assert(order@[i] == *node);
                    assert(keys_of(order@).take(i) =~= km);
                    let dk = self.deps(nk@)[j].key_view();
                    if self.deps(nk@).len() > 0 {
                        let ei = choose|ei: int|
                            0 <= ei < self.dependencies@.len() && self.deps(nk@)
                                == self.dependencies@[ei].1@;
                    }
                }
            }
            assert(self.reachable(self.root.key_view(), nk@)) by {
                if chain.len() == 0 {
                    let p = seq![nk@];
                    assert(self.is_path(p));
                } else {
                    assert(self.is_path(chain2));
                    assert(chain2[0] == self.root.key_view());
                    assert(chain2.last() == nk@);
                }
            }
            assert forall|i: int| 0 <= i < order@.len() implies self.reachable(
                self.root.key_view(),
                #[trigger] order@[i].key_view(),
            ) by {
                if i < mid.len() {
                    assert(order@[i] == mid[i]);
                }
            }
            assert(forall|j: int| 0 <= j < chain.len() ==> self.universe().contains(
                #[trigger] chain[j],
            )) by {
                assert forall|j: int| 0 <= j < chain.len() implies self.universe().contains(
                    #[trigger] chain[j],
                ) by {
                    assert(chain2[j] == chain[j]);
                }
            }
            if chain.len() > 0 {
                self.lemma_subpath(chain2, 0, chain.len() as int);
                assert(chain2.subrange(0, chain.len() as int) =~= chain);
            }
            assert(chain.no_duplicates()) by {
                assert forall|a: int, b: int|
                    0 <= a < chain.len() && 0 <= b < chain.len() && a != b implies chain[a]
                    != chain[b] by {
                    assert(chain2[a] == chain[a] && chain2[b] == chain[b]);
                }
            }
            assert(views_of(visiting@) == chain);
            assert(ko[ko.len() - 1] == nk@);
            assert(order@.take(old_order.len() as int) =~= old_order) by {
                assert forall|t: int| 0 <= t < old_order.len() implies order@[t] == old_order[t] by {
                    assert(mid.take(old_order.len() as int)[t] == old_order[t]);
                }
            }
        }
        Ok(())
    }

    /// The order in which to run the graph's nodes: every node after all the
    /// nodes it depends on, the root last. Fails when the root reaches a cycle.
    pub fn execution_order(&self) -> (r: Result<Vec<DependencyNode>, String>)
        ensures
            r matches Ok(order) ==> self.is_execution_order(order@),
            r matches Err(e) ==> exists|k: Seq<char>|
                self.on_cycle(k) && self.reachable(self.root.key_view(), k) && e@
                    == Self::cycle_message(k),
    {
        let mut order: Vec<DependencyNode> = Vec::new();
        let mut visiting: Vec<String> = Vec::new();
        proof {
            assert(keys_of(order@) =~= Seq::<Seq<char>>::empty());
            assert(views_of(visiting@) =~= Seq::<Seq<char>>::empty());
            assert(self.universe()[0] == self.root.key_view());
        }
        match self.topological_sort(&self.root, &mut order, &mut visiting) {
            Ok(()) => {
                proof {
                    let ko = keys_of(order@);
                    let t = choose|t: int| 0 <= t < ko.len() && ko[t] == self.root.key_view();
                }
                Ok(order)
            },
            Err(e) => Err(e),
        }
    }
}

impl DependencyGraph {
    /// In an execution order, a dependency of the node at `i` comes before it.
    proof fn lemma_dependency_earlier(
        &self,
        order: Seq<DependencyNode>,
        i: int,
        b: Seq<char>,
    ) -> (m: int)
        requires
            self.is_execution_order(order),
            0 <= i < order.len(),
            self.edge(order[i].key_view(), b),
        ensures
            0 <= m < i,
            keys_of(order)[m] == b,
    {
        let a = order[i].key_view();
        let j = choose|j: int| 0 <= j < self.deps(a).len() && #[trigger] self.deps(a)[j].key_view() == b;
        assert(keys_of(order).take(i).contains(self.deps(order[i].key_view())[j].key_view()));
        let m = choose|m: int| 0 <= m < i && keys_of(order).take(i)[m] == b;
        m
    }

    /// Along a chain from the key at `i0`, every later key sits earlier in the order.
    proof fn lemma_chain_indices(
        &self,
        order: Seq<DependencyNode>,
        c: Seq<Seq<char>>,
        i0: int,
        t: int,
    ) -> (m: int)
        requires
            self.is_execution_order(order),
            self.is_path(c),
            0 <= i0 < order.len(),
            keys_of(order)[i0] == c[0],
            0 <= t < c.len(),
        ensures
            0 <= m < order.len(),
            keys_of(order)[m] == c[t],
            t == 0 ==> m == i0,
            t > 0 ==> m < i0,
        decreases t,
    {
        if t == 0 {
            i0
        } else {
            let prev = self.lemma_chain_indices(order, c, i0, t - 1);
            let u = t - 1;
            assert(self.edge(c[u], c[u + 1]));
            assert(u + 1 == t);
            assert(order[prev].key_view() == keys_of(order)[prev]);
            self.lemma_dependency_earlier(order, prev, c[t])
        }
    }

    /// Every node reachable from the root is in an execution order.
    pub proof fn lemma_execution_order_complete(&self, order: Seq<DependencyNode>, k: Seq<char>)
        requires
            self.is_execution_order(order),
            self.reachable(self.root.key_view(), k),
        ensures
            keys_of(order).contains(k),
    {
        let p = choose|p: Seq<Seq<char>>|
            #[trigger] self.is_path(p) && p[0] == self.root.key_view() && p.last() == k;
        let i0 = order.len() - 1;
        assert(keys_of(order)[i0] == self.root.key_view());
        let m = self.lemma_chain_indices(order, p, i0, p.len() - 1);
    }

    /// A graph that has an execution order has no cycle reachable from its root.
    pub proof fn lemma_execution_order_acyclic(&self, order: Seq<DependencyNode>, k: Seq<char>)
        requires
            self.is_execution_order(order),
            self.reachable(self.root.key_view(), k),
        ensures
            !self.on_cycle(k),
    {
        self.lemma_execution_order_complete(order, k);
        if self.on_cycle(k) {
            let c = choose|c: Seq<Seq<char>>|
                #[trigger] self.is_path(c) && c.len() >= 2 && c[0] == k && c.last() == k;
            let i0 = choose|i0: int| 0 <= i0 < keys_of(order).len() && keys_of(order)[i0] == k;
            let m = self.lemma_chain_indices(order, c, i0, c.len() - 1);
            assert(keys_of(order)[m] == keys_of(order)[i0]);
        }
    }
}

/// The project file of the directory `dir`.
pub open spec fn project_file_of(dir: Seq<char>) -> Seq<char> {
    join_spec(dir, ".pmp.project.yaml"@)
}

/// The environment file of the directory `dir`.
pub open spec fn environment_file_of(dir: Seq<char>) -> Seq<char> {
    join_spec(dir, ".pmp.environment.yaml"@)
}

/// Whether `dir` of `v` holds a project file that names the project `name`.
pub open spec fn is_project_dir(
    v: Seq<(Seq<char>, Option<Seq<char>>)>,
    dir: Seq<char>,
    name: Seq<char>,
) -> bool {
    fs_file(v, project_file_of(dir)) matches Some(t) && project_text_spec(t) == Some(name)
}

/// The directory of the environment `env` of the project in `project_dir`.
pub open spec fn environment_dir_of(project_dir: Seq<char>, env: Seq<char>) -> Seq<char> {
    join_spec(join_spec(project_dir, "environments"@), env)
}

/// The message of the error for a project that no directory holds.
pub open spec fn project_not_found_message(name: Seq<char>) -> Seq<char> {
    "Project '"@ + name + "' not found"@
}

/// What a depth-first search for the project `name` from `dir` of `v` finds:
/// `dir` itself when its project file names it; an error when that file is
/// there but no project, or when `dir` is no directory; otherwise the first
/// find among the directories directly inside `dir`, in their order.
pub open spec fn project_search(
    v: Seq<(Seq<char>, Option<Seq<char>>)>,
    dir: Seq<char>,
    name: Seq<char>,
) -> Option<Seq<char>>
    decreases fs_max_len(v) + 1 - dir.len(), children_spec(v, dir).len() + 1,
{
    let pf = project_file_of(dir);
    if fs_has(v, pf) && !(fs_file(v, pf) matches Some(t) && project_text_spec(t) is Some) {
        None
    } else if fs_has(v, pf) && is_project_dir(v, dir, name) {
        Some(dir)
    } else if !fs_is_dir(v, dir) {
        None
    } else {
        search_children(v, dir, name, children_spec(v, dir))
    }
}

/// The first find of a search for the project `name` in those of `cs` that
/// are directories below `dir`.
pub open spec fn search_children(
    v: Seq<(Seq<char>, Option<Seq<char>>)>,
    dir: Seq<char>,
    name: Seq<char>,
    cs: Seq<Seq<char>>,
) -> Option<Seq<char>>
    decreases fs_max_len(v) + 1 - dir.len(), cs.len(),
{
    if cs.len() == 0 {
        None
    } else {
        let c = cs[0];
        let here = if fs_is_dir(v, c) && dir.len() < c.len() <= fs_max_len(v) {
            project_search(v, c, name)
        } else {
            None
        };
        if here is Some {
            here
        } else {
            search_children(v, dir, name, cs.drop_first())
        }
    }
}

/// The error of a search for the project `name` from `dir` of `v` that finds
/// nothing: the project file of `dir` that cannot be read, `dir` that is no
/// directory, or that the project is not found below it.
pub open spec fn search_message(v: Seq<(Seq<char>, Option<Seq<char>>)>, dir: Seq<char>, name: Seq<char>) -> Seq<
    char,
> {
    let pf = project_file_of(dir);
    if fs_has(v, pf) && !(fs_file(v, pf) matches Some(t) && project_text_spec(t) is Some) {
        if crate::fs::fs_is_file(v, pf) {
            "Failed to load project file: "@ + pf
        } else {
            "Not a file: "@ + pf
        }
    } else if !fs_is_dir(v, dir) {
        "Not a directory: "@ + dir
    } else {
        project_not_found_message(name)
    }
}

/// The error of looking up the environment `env` of the project `project`
/// in `v` when it is not found.
pub open spec fn dependency_message(v: Seq<(Seq<char>, Option<Seq<char>>)>, project: Seq<char>, env: Seq<char>) -> Seq<
    char,
> {
    match dependency_projects_dir(v) {
        None => "Projects directory not found. Cannot resolve dependency: "@ + project + " (env: "@ + env + ")"@,
        Some(pd) => match project_search(v, pd, project) {
            None => search_message(v, pd, project),
            Some(p) => "Environment '"@ + env + "' not found for project '"@ + project + "' at "@
                + environment_dir_of(p, env),
        },
    }
}

/// Where the projects of `v` are looked up: `projects`, else `/projects`.
pub open spec fn dependency_projects_dir(v: Seq<(Seq<char>, Option<Seq<char>>)>) -> Option<Seq<char>> {
    if fs_has(v, "projects"@) {
        Some("projects"@)
    } else if fs_has(v, "/projects"@) {
        Some("/projects"@)
    } else {
        None
    }
}

/// The directory of the environment `env` of the project `project` of `v`,
/// when the projects directory, the project below it and the environment's
/// directory are all found.
pub open spec fn dependency_location(
    v: Seq<(Seq<char>, Option<Seq<char>>)>,
    project: Seq<char>,
    env: Seq<char>,
) -> Option<Seq<char>> {
    match dependency_projects_dir(v) {
        None => None,
        Some(pd) => match project_search(v, pd, project) {
            None => None,
            Some(p) => if fs_has(v, environment_dir_of(p, env)) {
                Some(environment_dir_of(p, env))
            } else {
                None
            },
        },
    }
}

impl DependencyGraph {
    /// Looks for the directory of the project `project_name` in `search_dir` and
    /// the directories below it, depth first.
    fn search_project(fs: &MemoryFileSystem, search_dir: &str, project_name: &str) -> (r: Result<
        String,
        String,
    >)
        ensures
            r matches Ok(p) ==> is_project_dir(fs@, p@, project_name@),
            match project_search(fs@, search_dir@, project_name@) {
                Some(p) => r matches Ok(q) && q@ == p,
                None => r matches Err(e) && e@ == search_message(fs@, search_dir@, project_name@),
            },
        decreases fs_max_len(fs@) + 1 - search_dir@.len(),
    {
        let project_file = join(search_dir, ".pmp.project.yaml");
        if fs.path_exists(project_file.as_str()) {
            let resource = match ProjectResource::from_file(fs, project_file.as_str()) {
                Ok(res) => res,
                Err(e) => {
                    return Err(e);
                },
            };
            if str_eq(resource.metadata.name.as_str(), project_name) {
                return Ok(search_dir.to_owned());
            }
        }
        let entries = match fs.read_dir(search_dir) {
            Ok(v) => v,
            Err(e) => {
                return Err(e);
            },
        };
        let ghost cs = children_spec(fs@, search_dir@);
        assert(project_search(fs@, search_dir@, project_name@) == search_children(
            fs@,
            search_dir@,
            project_name@,
            cs.skip(0),
        )) by {
            assert(cs.skip(0) =~= cs);
        }
        let mut i: usize = 0;
        while i < entries.len()
            invariant
                0 <= i <= entries.len(),
                cs == children_spec(fs@, search_dir@),
                entries@.map_values(|s: String| s@) == cs,
                project_search(fs@, search_dir@, project_name@) == search_children(
                    fs@,
                    search_dir@,
                    project_name@,
                    cs.skip(i as int),
                ),
            decreases entries.len() - i,
        {
            let entry = entries[i].as_str();
            proof {
                assert(entries@.map_values(|s: String| s@)[i as int] == entry@);
                lemma_children(fs@, search_dir@, i as int);
                assert(cs.skip(i as int)[0] == entry@);
                assert(cs.skip(i as int).drop_first() =~= cs.skip(i + 1));
            }
            if fs.is_dir(entry) {
                match Self::search_project(fs, entry, project_name) {
                    Ok(found) => {
                        return Ok(found);
                    },
                    Err(_) => {},
                }
            }
            i = i + 1;
        }
        Err(concat3("Project '", project_name, "' not found"))
    }

    /// Finds the environment `environment_name` of the project `project_name`
    /// under `projects` (or `/projects`). Where `create_if_missing` holds, a
    /// missing project or environment gives `None` in place of an error.
    fn find_dependency_project(
        fs: &MemoryFileSystem,
        project_name: &str,
        environment_name: &str,
        create_if_missing: bool,
    ) -> (r: Result<Option<DependencyNode>, String>)
        ensures
            r matches Ok(Some(n)) ==> {
                &&& n.project_name@ == project_name@
                &&& n.environment_name@ == environment_name@
                &&& fs_has(fs@, n.environment_path@)
                &&& exists|pd: Seq<char>|
                    is_project_dir(fs@, pd, project_name@) && n.environment_path@
                        == environment_dir_of(pd, environment_name@)
            },
            r matches Ok(None) ==> create_if_missing,
            r is Err ==> !create_if_missing,
            match dependency_location(fs@, project_name@, environment_name@) {
                Some(e) => r matches Ok(Some(n)) && n.environment_path@ == e,
                None => if create_if_missing {
                    r matches Ok(None)
                } else {
                    r matches Err(e) && e@ == dependency_message(fs@, project_name@, environment_name@)
                },
            },
    {
        let projects_dir = if fs.path_exists("projects") {
            "projects".to_owned()
        } else if fs.path_exists("/projects") {
            "/projects".to_owned()
        } else {
            if create_if_missing {
                return Ok(None);
            }
            let mut msg = "Projects directory not found. Cannot resolve dependency: ".to_owned();
            msg.append(project_name);
            msg.append(" (env: ");
            msg.append(environment_name);
            msg.append(")");
            return Err(msg);
        };
        let project_path = match Self::search_project(fs, projects_dir.as_str(), project_name) {
            Ok(p) => p,
            Err(e) => {
                if create_if_missing {
                    return Ok(None);
                }
                return Err(e);
            },
        };
        let envs_dir = join(project_path.as_str(), "environments");
        let env_path = join(envs_dir.as_str(), environment_name);
        if !fs.path_exists(env_path.as_str()) {
            if create_if_missing {
                return Ok(None);
            }
            let mut msg = "Environment '".to_owned();
            msg.append(environment_name);
            msg.append("' not found for project '");
            msg.append(project_name);
            msg.append("' at ");
            msg.append(env_path.as_str());
            return Err(msg);
        }
        assert(is_project_dir(fs@, project_path@, project_name@));
        assert(env_path@ == environment_dir_of(project_path@, environment_name@));
        let node = DependencyNode::new(project_name.to_owned(), environment_name.to_owned(), env_path);
        Ok(Some(node))
    }
}

/// The keys of the environments that a list of dependencies names, in order.
pub open spec fn dependency_keys(deps: Seq<DependencyView>) -> Seq<Seq<char>>
    decreases deps.len(),
{
    if deps.len() == 0 {
        Seq::empty()
    } else {
        deps[0].1.map_values(|e: Seq<char>| node_key(deps[0].0, e)) + dependency_keys(
            deps.drop_first(),
        )
    }
}

/// Every environment a dependency list names is among its `dependency_keys`.
pub proof fn lemma_dependency_keys(deps: Seq<DependencyView>, i: int, j: int)
    requires
        0 <= i < deps.len(),
        0 <= j < deps[i].1.len(),
    ensures
        dependency_keys(deps).contains(node_key(deps[i].0, deps[i].1[j])),
    decreases deps.len(),
{
    let here = deps[0].1.map_values(|e: Seq<char>| node_key(deps[0].0, e));
    let rest = dependency_keys(deps.drop_first());
    assert(dependency_keys(deps) == here + rest);
    if i == 0 {
        assert((here + rest)[j] == here[j]);
    } else {
        lemma_dependency_keys(deps.drop_first(), i - 1, j);
        let t = choose|t: int|
            0 <= t < rest.len() && rest[t] == node_key(deps[i].0, deps[i].1[j]);
        assert((here + rest)[here.len() + t] == rest[t]);
    }
}

/// The environment that the directory `dir` of `v` holds, when its file is one.
pub open spec fn environment_at(v: Seq<(Seq<char>, Option<Seq<char>>)>, dir: Seq<char>) -> Option<
    crate::resources::EnvironmentView,
> {
    match fs_file(v, environment_file_of(dir)) {
        Some(t) => environment_text_spec(t),
        None => None,
    }
}

/// The dependency keys named by a file's text, when it is an environment.
pub open spec fn text_dependency_keys(t: Option<Seq<char>>) -> Seq<Seq<char>> {
    match t {
        Some(t) => match environment_text_spec(t) {
            Some(e) => dependency_keys(e.4),
            None => Seq::empty(),
        },
        None => Seq::empty(),
    }
}

/// The dependency keys named by every environment file of `v`.
pub open spec fn fs_dependency_keys(v: Seq<(Seq<char>, Option<Seq<char>>)>) -> Seq<Seq<char>>
    decreases v.len(),
{
    if v.len() == 0 {
        Seq::empty()
    } else {
        text_dependency_keys(v[0].1) + fs_dependency_keys(v.drop_first())
    }
}

/// The keys named by the environment of one directory are among those of the
/// whole file system.
pub proof fn lemma_fs_dependency_keys(
    v: Seq<(Seq<char>, Option<Seq<char>>)>,
    p: Seq<char>,
    k: Seq<char>,
)
    requires
        text_dependency_keys(fs_file(v, p)).contains(k),
    ensures
        fs_dependency_keys(v).contains(k),
    decreases v.len(),
{
    crate::fs::lemma_fs_index(v, p);
    let here = text_dependency_keys(v[0].1);
    let rest = fs_dependency_keys(v.drop_first());
    assert(fs_dependency_keys(v) == here + rest);
    if v[0].0 == p {
        assert(crate::fs::fs_index(v, p) == 0);
        let t = choose|t: int| 0 <= t < here.len() && here[t] == k;
        assert((here + rest)[t] == here[t]);
    } else {
        crate::fs::lemma_fs_index(v.drop_first(), p);
        assert(fs_file(v, p) == fs_file(v.drop_first(), p));
        lemma_fs_dependency_keys(v.drop_first(), p, k);
        let t = choose|t: int| 0 <= t < rest.len() && rest[t] == k;
        assert((here + rest)[here.len() + t] == rest[t]);
    }
}

/// Recording a list under a new key leaves every other key's list as it was.
pub proof fn lemma_deps_of_push(
    entries: Seq<(String, Vec<DependencyNode>)>,
    e: (String, Vec<DependencyNode>),
    k: Seq<char>,
)
    requires
        forall|i: int| 0 <= i < entries.len() ==> #[trigger] entries[i].0@ != e.0@,
    ensures
        deps_of(entries.push(e), k) == if k == e.0@ {
            e.1@
        } else {
            deps_of(entries, k)
        },
    decreases entries.len(),
{
    if entries.len() > 0 {
        assert(entries.push(e).drop_first() =~= entries.drop_first().push(e));
        assert forall|i: int| 0 <= i < entries.drop_first().len() implies #[trigger] entries.drop_first()[i].0@ != e.0@ by {
            assert(entries.drop_first()[i] == entries[i + 1]);
        }
        lemma_deps_of_push(entries.drop_first(), e, k);
        assert(entries.push(e)[0] == entries[0]);
    } else {
        assert(entries.push(e).drop_first() =~= entries);
    }
}

/// A key with recorded dependencies is the key of some entry.
pub proof fn lemma_deps_of_entry(entries: Seq<(String, Vec<DependencyNode>)>, k: Seq<char>)
    requires
        deps_of(entries, k).len() > 0,
    ensures
        exists|i: int| 0 <= i < entries.len() && #[trigger] entries[i].0@ == k && entries[i].1@
            == deps_of(entries, k),
    decreases entries.len(),
{
    if entries[0].0@ != k {
        lemma_deps_of_entry(entries.drop_first(), k);
        let i = choose|i: int|
            0 <= i < entries.drop_first().len() && #[trigger] entries.drop_first()[i].0@ == k
                && entries.drop_first()[i].1@ == deps_of(entries.drop_first(), k);
        assert(entries[i + 1] == entries.drop_first()[i]);
    }
}

impl DependencyGraph {
    /// Whether the graph records for `n` what the environment file in its
    /// directory says: every recorded dependency is named there and exists,
    /// and every named dependency that is not to be created is recorded.
    pub open spec fn records_dependencies_of(
        &self,
        v: Seq<(Seq<char>, Option<Seq<char>>)>,
        n: DependencyNode,
    ) -> bool {
        &&& environment_at(v, n.environment_path@) is Some
        &&& forall|i: int|
            0 <= i < self.deps(n.key_view()).len() ==> dependency_keys(
                environment_at(v, n.environment_path@).unwrap().4,
            ).contains(#[trigger] self.deps(n.key_view())[i].key_view()) && fs_has(
                v,
                self.deps(n.key_view())[i].environment_path@,
            )
        &&& forall|i: int, j: int|
            0 <= i < environment_at(v, n.environment_path@).unwrap().4.len() && !environment_at(
                v,
                n.environment_path@,
            ).unwrap().4[i].2 && 0 <= j < environment_at(
                v,
                n.environment_path@,
            ).unwrap().4[i].1.len() ==> keys_of(self.deps(n.key_view())).contains(
                #[trigger] node_key(
                    environment_at(v, n.environment_path@).unwrap().4[i].0,
                    environment_at(v, n.environment_path@).unwrap().4[i].1[j],
                ),
            )
        &&& node_views(self.deps(n.key_view())) == located_dependencies(
            v,
            environment_at(v, n.environment_path@).unwrap().4,
        )
    }

    /// Whether the graph is the one the file system `v` gives for its root:
    /// the root first among unique nodes, each node's dependencies as its
    /// environment file names them, and every recorded dependency a node.
    pub open spec fn built_from(&self, v: Seq<(Seq<char>, Option<Seq<char>>)>) -> bool {
        &&& self.nodes@.len() >= 1
        &&& self.nodes@[0] == self.root
        &&& keys_of(self.nodes@).no_duplicates()
        &&& forall|i: int|
            0 <= i < self.nodes@.len() ==> self.records_dependencies_of(v, #[trigger] self.nodes@[i])
        &&& forall|k: Seq<char>|
            self.deps(k).len() > 0 ==> #[trigger] keys_of(self.nodes@).contains(k)
        &&& forall|i: int, j: int|
            0 <= i < self.nodes@.len() && 0 <= j < self.deps(self.nodes@[i].key_view()).len()
                ==> keys_of(self.nodes@).contains(
                #[trigger] self.deps(self.nodes@[i].key_view())[j].key_view(),
            )
        &&& forall|i: int|
            0 <= i < self.dependencies@.len() ==> #[trigger] self.dependencies@[i].1@.len() > 0
        &&& forall|i: int, j: int|
            0 <= i < j < self.dependencies@.len() ==> #[trigger] self.dependencies@[i].0@
                != #[trigger] self.dependencies@[j].0@
        &&& forall|i: int|
            0 <= i < self.nodes@.len() ==> self.reachable(
                self.root.key_view(),
                #[trigger] self.nodes@[i].key_view(),
            )
    }
}

/// A node as plain values: project, environment and directory.
pub open spec fn node_view(n: DependencyNode) -> (Seq<char>, Seq<char>, Seq<char>) {
    (n.project_name@, n.environment_name@, n.environment_path@)
}

/// The plain values of a list of nodes.
pub open spec fn node_views(nodes: Seq<DependencyNode>) -> Seq<(Seq<char>, Seq<char>, Seq<char>)> {
    nodes.map_values(|n: DependencyNode| node_view(n))
}

/// The nodes of those environments `envs` of the project `name` that are
/// found in `v`, in order.
pub open spec fn located_in(
    v: Seq<(Seq<char>, Option<Seq<char>>)>,
    name: Seq<char>,
    envs: Seq<Seq<char>>,
) -> Seq<(Seq<char>, Seq<char>, Seq<char>)>
    decreases envs.len(),
{
    if envs.len() == 0 {
        Seq::empty()
    } else {
        let rest = located_in(v, name, envs.drop_last());
        match dependency_location(v, name, envs.last()) {
            Some(e) => rest.push((name, envs.last(), e)),
            None => rest,
        }
    }
}

/// The nodes of the environments that `deps` names and that are found in
/// `v`, in order.
pub open spec fn located_dependencies(
    v: Seq<(Seq<char>, Option<Seq<char>>)>,
    deps: Seq<DependencyView>,
) -> Seq<(Seq<char>, Seq<char>, Seq<char>)>
    decreases deps.len(),
{
    if deps.len() == 0 {
        Seq::empty()
    } else {
        located_dependencies(v, deps.drop_last()) + located_in(v, deps.last().0, deps.last().1)
    }
}

/// Whether `deps` names an environment, not to be created, that `v` does not
/// have.
pub open spec fn unresolvable(v: Seq<(Seq<char>, Option<Seq<char>>)>, deps: Seq<DependencyView>) -> bool {
    exists|i: int, j: int|
        0 <= i < deps.len() && !deps[i].2 && 0 <= j < deps[i].1.len() && #[trigger] dependency_location(
            v,
            deps[i].0,
            deps[i].1[j],
        ) is None
}

/// Whether `e` is the error for an environment, named by `deps` and not to
/// be created, that `v` does not have.
pub open spec fn unresolved_error(v: Seq<(Seq<char>, Option<Seq<char>>)>, deps: Seq<DependencyView>, e: Seq<char>) -> bool {
    exists|i: int, j: int|
        0 <= i < deps.len() && !deps[i].2 && 0 <= j < deps[i].1.len() && #[trigger] dependency_location(
            v,
            deps[i].0,
            deps[i].1[j],
        ) is None && e == dependency_message(v, deps[i].0, deps[i].1[j])
}

/// Whether every node of `nodes` is named by `deps` and its directory exists in `v`.
pub open spec fn all_named_and_present(
    v: Seq<(Seq<char>, Option<Seq<char>>)>,
    deps: Seq<DependencyView>,
    nodes: Seq<DependencyNode>,
) -> bool {
    forall|x: int|
        0 <= x < nodes.len() ==> dependency_keys(deps).contains(#[trigger] nodes[x].key_view())
            && fs_has(v, nodes[x].environment_path@)
}

impl DependencyGraph {
    /// Resolves every environment that `deps` names, appending each node found
    /// to `queue`; the nodes found are returned in order.
    #[verifier::spinoff_prover]
    fn resolve_dependencies(
        fs: &MemoryFileSystem,
        deps: &Vec<crate::resources::Dependency>,
        queue: &mut Vec<DependencyNode>,
    ) -> (r: Result<Vec<DependencyNode>, String>)
        ensures
            r matches Ok(l) ==> final(queue)@ == old(queue)@ + l@,
            r matches Ok(l) ==> all_named_and_present(fs@, crate::resources::deps_view(deps@), l@),
            r matches Ok(l) ==> forall|i: int, j: int|
                0 <= i < deps@.len() && !deps@[i].project.create && 0 <= j
                    < deps@[i].project.environments@.len() ==> keys_of(l@).contains(
                    #[trigger] node_key(
                        deps@[i].project.name@,
                        deps@[i].project.environments@[j]@,
                    ),
                ),
            r is Err <==> unresolvable(fs@, crate::resources::deps_view(deps@)),
            r matches Err(e) ==> unresolved_error(fs@, crate::resources::deps_view(deps@), e@),
            r matches Ok(l) ==> node_views(l@) == located_dependencies(
                fs@,
                crate::resources::deps_view(deps@),
            ),
    {
        let ghost dv = crate::resources::deps_view(deps@);
        assert(dv.take(0) =~= Seq::<DependencyView>::empty());
        let mut found: Vec<DependencyNode> = Vec::new();
        let mut i: usize = 0;
        while i < deps.len()
            invariant
                0 <= i <= deps.len(),
                dv == crate::resources::deps_view(deps@),
                queue@ == old(queue)@ + found@,
                all_named_and_present(fs@, dv, found@),
                forall|a: int, b: int|
                    0 <= a < i && !deps@[a].project.create && 0 <= b
                        < deps@[a].project.environments@.len() ==> keys_of(found@).contains(
                        #[trigger] node_key(
                            deps@[a].project.name@,
                            deps@[a].project.environments@[b]@,
                        ),
                    ),
                node_views(found@) == located_dependencies(fs@, dv.take(i as int)),
                forall|a: int, b: int|
                    0 <= a < i && !dv[a].2 && 0 <= b < dv[a].1.len() ==> #[trigger] dependency_location(
                        fs@,
                        dv[a].0,
                        dv[a].1[b],
                    ) is Some,
            decreases deps.len() - i,
        {
            let dep = &deps[i];
            let envs = &dep.project.environments;
            proof {
                assert(dv[i as int] == deps@[i as int]@);
                assert(dv[i as int].1.take(0) =~= Seq::<Seq<char>>::empty());
                assert(located_dependencies(fs@, dv.take(i as int)) + located_in(
                    fs@,
                    dv[i as int].0,
                    dv[i as int].1.take(0),
                ) =~= located_dependencies(fs@, dv.take(i as int)));
            }
            let mut j: usize = 0;
            while j < envs.len()
                invariant
                    0 <= i < deps.len(),
                    0 <= j <= envs.len(),
                    *dep == deps@[i as int],
                    *envs == dep.project.environments,
                    dv == crate::resources::deps_view(deps@),
                    queue@ == old(queue)@ + found@,
                    all_named_and_present(fs@, dv, found@),
                    forall|a: int, b: int|
                        0 <= a < i && !deps@[a].project.create && 0 <= b
                            < deps@[a].project.environments@.len() ==> keys_of(found@).contains(
                            #[trigger] node_key(
                                deps@[a].project.name@,
                                deps@[a].project.environments@[b]@,
                            ),
                        ),
                    forall|b: int|
                        0 <= b < j && !dep.project.create ==> keys_of(found@).contains(
                            #[trigger] node_key(dep.project.name@, envs@[b]@),
                        ),
                    dv[i as int] == deps@[i as int]@,
                    node_views(found@) == located_dependencies(fs@, dv.take(i as int)) + located_in(
                        fs@,
                        dv[i as int].0,
                        dv[i as int].1.take(j as int),
                    ),
                    forall|a: int, b: int|
                        0 <= a < i && !dv[a].2 && 0 <= b < dv[a].1.len() ==> #[trigger] dependency_location(
                            fs@,
                            dv[a].0,
                            dv[a].1[b],
                        ) is Some,
                    forall|b: int|
                        0 <= b < j && !dv[i as int].2 ==> #[trigger] dependency_location(
                            fs@,
                            dv[i as int].0,
                            dv[i as int].1[b],
                        ) is Some,
                decreases envs.len() - j,
            {
                let ghost before = found@;
                proof {
                    assert(dv[i as int].1[j as int] == envs@[j as int]@);
                    assert(dv[i as int].1.take(j + 1).drop_last() =~= dv[i as int].1.take(j as int));
                    assert(dv[i as int].1.take(j + 1).last() == envs@[j as int]@);
                }
                let res = Self::find_dependency_project(
                    fs,
                    dep.project.name.as_str(),
                    envs[j].as_str(),
                    dep.project.create,
                );
                match res {
                    Err(e) => {
                        proof {
                            assert(dependency_location(fs@, dv[i as int].0, dv[i as int].1[j as int]) is None);
                            assert(e@ == dependency_message(fs@, dv[i as int].0, dv[i as int].1[j as int]));
                        }
                        return Err(e);
                    },
                    Ok(None) => {
                        proof {
                            assert(node_views(found@) == located_dependencies(fs@, dv.take(i as int))
                                + located_in(fs@, dv[i as int].0, dv[i as int].1.take(j + 1)));
                        }
                    },
                    Ok(Some(node)) => {
                        proof {
                            assert(dv[i as int] == deps@[i as int]@);
                            assert(dv[i as int].1[j as int] == envs@[j as int]@);
                            lemma_dependency_keys(dv, i as int, j as int);
                        }
                        found.push(node.clone());
                        queue.push(node);
                        proof {
                            assert forall|x: int| 0 <= x < found@.len() implies dependency_keys(
                                dv,
                            ).contains(#[trigger] found@[x].key_view()) && fs_has(
                                fs@,
                                found@[x].environment_path@,
                            ) by {
                                if x < before.len() {
                                    assert(found@[x] == before[x]);
                                }
                            }
                            assert(all_named_and_present(fs@, dv, found@));
                            assert(queue@ =~= old(queue)@ + found@);
                            assert(keys_of(found@) =~= keys_of(before).push(
                                found@.last().key_view(),
                            ));
                            assert(found@.last().key_view() == node_key(
                                dep.project.name@,
                                envs@[j as int]@,
                            ));
                            assert(keys_of(found@)[found@.len() - 1] == node_key(
                                dep.project.name@,
                                envs@[j as int]@,
                            ));
                            assert(node_views(found@) =~= node_views(before).push(node_view(found@.last())));
                            assert(node_views(found@) =~= located_dependencies(fs@, dv.take(i as int))
                                + located_in(fs@, dv[i as int].0, dv[i as int].1.take(j + 1)));
                        }
                    },
                }
                proof {
                    assert forall|x: Seq<char>| keys_of(before).contains(x) implies keys_of(
                        found@,
                    ).contains(x) by {
                        let t = choose|t: int| 0 <= t < keys_of(before).len() && keys_of(before)[t] == x;
                        assert(keys_of(found@)[t] == keys_of(before)[t]);
                    }
                }
                j = j + 1;
            }
            proof {
                assert(dv[i as int].1.take(j as int) =~= dv[i as int].1);
                assert(dv.take(i + 1).drop_last() =~= dv.take(i as int));
                assert(dv.take(i + 1).last() == dv[i as int]);
            }
            i = i + 1;
        }
        proof {
            assert(dv.take(i as int) =~= dv);
        }
        Ok(found)
    }
}

/// The directories that the environment in `dir` of `v` leads to: those of
/// the environments its dependencies name that are found, in order.
pub open spec fn dependency_dirs(v: Seq<(Seq<char>, Option<Seq<char>>)>, dir: Seq<char>) -> Seq<Seq<char>> {
    match environment_at(v, dir) {
        Some(ev) => located_dependencies(v, ev.4).map_values(|t: (Seq<char>, Seq<char>, Seq<char>)| t.2),
        None => Seq::empty(),
    }
}

/// Whether the environment in `dir` of `v` cannot be visited: its file is
/// missing or no environment, or it depends on one, not to be created, that
/// cannot be found.
pub open spec fn unvisitable(v: Seq<(Seq<char>, Option<Seq<char>>)>, dir: Seq<char>) -> bool {
    match environment_at(v, dir) {
        Some(ev) => unresolvable(v, ev.4),
        None => true,
    }
}

/// Whether `e` is the error of visiting the environment in `dir` of `v`:
/// a message ending with the path of its environment file when that file is
/// missing or no environment, else the error for a dependency not found.
pub open spec fn visit_error(v: Seq<(Seq<char>, Option<Seq<char>>)>, dir: Seq<char>, e: Seq<char>) -> bool {
    match environment_at(v, dir) {
        None => {
            let ef = environment_file_of(dir);
            e.len() >= ef.len() && e.skip(e.len() - ef.len()) == ef
        },
        Some(ev) => unresolved_error(v, ev.4, e),
    }
}

/// Whether `chain` starts at `root` and each of its directories is one that
/// the one before it leads to.
pub open spec fn dependency_chain(
    v: Seq<(Seq<char>, Option<Seq<char>>)>,
    root: Seq<char>,
    chain: Seq<Seq<char>>,
) -> bool {
    &&& chain.len() >= 1
    &&& chain[0] == root
    &&& forall|i: int|
        0 <= i < chain.len() - 1 ==> #[trigger] dependency_dirs(v, chain[i]).contains(chain[i + 1])
}

/// Each environment found for a project's dependencies sits where the lookup finds it.
pub proof fn lemma_located_in(v: Seq<(Seq<char>, Option<Seq<char>>)>, name: Seq<char>, envs: Seq<Seq<char>>, t: int)
    requires
        0 <= t < located_in(v, name, envs).len(),
    ensures
        located_in(v, name, envs)[t].0 == name,
        dependency_location(v, name, located_in(v, name, envs)[t].1) == Some(located_in(v, name, envs)[t].2),
    decreases envs.len(),
{
    let rest = located_in(v, name, envs.drop_last());
    if t < rest.len() {
        lemma_located_in(v, name, envs.drop_last(), t);
        match dependency_location(v, name, envs.last()) {
            Some(e) => assert(located_in(v, name, envs)[t] == rest[t]),
            None => {},
        }
    }
}

/// Each environment found for a list of dependencies sits where the lookup finds it.
pub proof fn lemma_located_dependencies(v: Seq<(Seq<char>, Option<Seq<char>>)>, deps: Seq<DependencyView>, t: int)
    requires
        0 <= t < located_dependencies(v, deps).len(),
    ensures
        dependency_location(v, located_dependencies(v, deps)[t].0, located_dependencies(v, deps)[t].1) == Some(
            located_dependencies(v, deps)[t].2,
        ),
    decreases deps.len(),
{
    let rest = located_dependencies(v, deps.drop_last());
    let here = located_in(v, deps.last().0, deps.last().1);
    assert(located_dependencies(v, deps) == rest + here);
    if t < rest.len() {
        lemma_located_dependencies(v, deps.drop_last(), t);
        assert((rest + here)[t] == rest[t]);
    } else {
        lemma_located_in(v, deps.last().0, deps.last().1, t - rest.len());
        assert((rest + here)[t] == here[t - rest.len()]);
    }
}

/// A path stays a path when dependencies are recorded for a key that had none.
proof fn lemma_path_kept(g0: DependencyGraph, g1: DependencyGraph, p: Seq<Seq<char>>, c: Seq<char>)
    requires
        g0.is_path(p),
        g0.deps(c).len() == 0,
        forall|k: Seq<char>| k != c ==> #[trigger] g1.deps(k) == g0.deps(k),
    ensures
        g1.is_path(p),
{
    assert forall|i: int| 0 <= i < p.len() - 1 implies #[trigger] g1.edge(p[i], p[i + 1]) by {
        assert(g0.edge(p[i], p[i + 1]));
        let t = choose|t: int| 0 <= t < g0.deps(p[i]).len() && #[trigger] g0.deps(p[i])[t].key_view() == p[i + 1];
        assert(p[i] != c);
        assert(g1.deps(p[i]) == g0.deps(p[i]));
        assert(g1.deps(p[i])[t].key_view() == p[i + 1]);
    }
}

/// A chain extended by a directory its last one leads to is a chain.
proof fn lemma_chain_extend(
    v: Seq<(Seq<char>, Option<Seq<char>>)>,
    root: Seq<char>,
    chain: Seq<Seq<char>>,
    p: Seq<char>,
)
    requires
        dependency_chain(v, root, chain),
        dependency_dirs(v, chain.last()).contains(p),
    ensures
        dependency_chain(v, root, chain.push(p)),
{
    let c = chain.push(p);
    assert forall|i: int| 0 <= i < c.len() - 1 implies #[trigger] dependency_dirs(v, c[i]).contains(c[i + 1]) by {
        assert(c[i] == chain[i]);
        if i < chain.len() - 1 {
            assert(dependency_dirs(v, chain[i]).contains(chain[i + 1]));
            assert(c[i + 1] == chain[i + 1]);
        }
    }
}

impl DependencyGraph {
    /// In a graph built from `v`, the nodes are exactly the keys reached from
    /// the root.
    pub proof fn lemma_built_nodes_reachable(&self, v: Seq<(Seq<char>, Option<Seq<char>>)>, k: Seq<char>)
        requires
            self.built_from(v),
        ensures
            keys_of(self.nodes@).contains(k) <==> self.reachable(self.root.key_view(), k),
    {
        if keys_of(self.nodes@).contains(k) {
            let i = choose|i: int| 0 <= i < keys_of(self.nodes@).len() && keys_of(self.nodes@)[i] == k;
            assert(self.reachable(self.root.key_view(), self.nodes@[i].key_view()));
        }
        if self.reachable(self.root.key_view(), k) {
            let p = choose|p: Seq<Seq<char>>| #[trigger] self.is_path(p) && p[0] == self.root.key_view() && p.last() == k;
            self.lemma_path_in_nodes(v, p, p.len() - 1);
        }
    }

    /// Along a path from the root, every key is a node of a graph built from `v`.
    proof fn lemma_path_in_nodes(&self, v: Seq<(Seq<char>, Option<Seq<char>>)>, p: Seq<Seq<char>>, t: int)
        requires
            self.built_from(v),
            self.is_path(p),
            p[0] == self.root.key_view(),
            0 <= t < p.len(),
        ensures
            keys_of(self.nodes@).contains(p[t]),
        decreases t,
    {
        if t == 0 {
            assert(keys_of(self.nodes@)[0] == self.root.key_view());
        } else {
            self.lemma_path_in_nodes(v, p, t - 1);
            let u = t - 1;
            assert(self.edge(p[u], p[u + 1]));
            let i = choose|i: int| 0 <= i < keys_of(self.nodes@).len() && keys_of(self.nodes@)[i] == p[u];
            let j = choose|j: int| 0 <= j < self.deps(p[u]).len() && #[trigger] self.deps(p[u])[j].key_view() == p[u + 1];
            assert(self.nodes@[i].key_view() == p[u]);
            assert(keys_of(self.nodes@).contains(self.deps(self.nodes@[i].key_view())[j].key_view()));
        }
    }

    /// In a graph built from `v`, each recorded dependency of a node sits
    /// where the lookup of its project and environment finds it.
    pub proof fn lemma_dependency_located(&self, v: Seq<(Seq<char>, Option<Seq<char>>)>, i: int, j: int)
        requires
            self.built_from(v),
            0 <= i < self.nodes@.len(),
            0 <= j < self.deps(self.nodes@[i].key_view()).len(),
        ensures
            dependency_location(
                v,
                self.deps(self.nodes@[i].key_view())[j].project_name@,
                self.deps(self.nodes@[i].key_view())[j].environment_name@,
            ) == Some(self.deps(self.nodes@[i].key_view())[j].environment_path@),
    {
        let n = self.nodes@[i];
        assert(self.records_dependencies_of(v, n));
        let ds = self.deps(n.key_view());
        let ld = located_dependencies(v, environment_at(v, n.environment_path@).unwrap().4);
        assert(node_views(ds)[j] == ld[j]);
        lemma_located_dependencies(v, environment_at(v, n.environment_path@).unwrap().4, j);
    }
}

impl DependencyGraph {
    /// Builds the dependency graph of the environment `environment_name` of the
    /// project `project_name`, found at `root_path`: starting from it, each
    /// environment's file is read and the environments it depends on are
    /// looked up and visited in turn, breadth first.
    pub fn build(
        fs: &MemoryFileSystem,
        root_path: &str,
        project_name: &str,
        environment_name: &str,
    ) -> (r: Result<DependencyGraph, String>)
        ensures
            r matches Ok(g) ==> {
                &&& g.root.project_name@ == project_name@
                &&& g.root.environment_name@ == environment_name@
                &&& g.root.environment_path@ == root_path@
                &&& g.built_from(fs@)
            },
            r matches Err(e) ==> exists|chain: Seq<Seq<char>>|
                #[trigger] dependency_chain(fs@, root_path@, chain) && unvisitable(fs@, chain.last())
                    && visit_error(fs@, chain.last(), e@),
    {
        let root = DependencyNode::new(
            project_name.to_owned(),
            environment_name.to_owned(),
            root_path.to_owned(),
        );
        let mut graph = DependencyGraph {
            root: root.clone(),
            nodes: Vec::new(),
            dependencies: Vec::new(),
        };
        let mut visited: Vec<String> = Vec::new();
        let mut queue: Vec<DependencyNode> = Vec::new();
        queue.push(root.clone());
        let ghost u = seq![root.key_view()] + fs_dependency_keys(fs@);
        let ghost mut chains: Seq<Seq<Seq<char>>> = seq![seq![root_path@]];
        let ghost mut kpaths: Seq<Seq<Seq<char>>> = seq![seq![root.key_view()]];
        let ghost mut nsrc: Seq<int> = Seq::empty();
        let mut h: usize = 0;
        proof {
            assert(graph.is_path(kpaths[0]));
            assert(views_of(visited@) =~= keys_of(graph.nodes@));
            assert(u[0] == root.key_view());
        }
        while h < queue.len()
            invariant
                graph.root == root,
                root.project_name@ == project_name@,
                root.environment_name@ == environment_name@,
                root.environment_path@ == root_path@,
                u == seq![root.key_view()] + fs_dependency_keys(fs@),
                queue@.len() >= 1,
                queue@[0] == root,
                h <= queue@.len(),
                views_of(visited@) == keys_of(graph.nodes@),
                h == 0 ==> graph.nodes@.len() == 0,
                h > 0 ==> graph.nodes@.len() >= 1 && graph.nodes@[0] == root,
                keys_of(graph.nodes@).no_duplicates(),
                forall|i: int|
                    0 <= i < graph.nodes@.len() ==> graph.records_dependencies_of(
                        fs@,
                        #[trigger] graph.nodes@[i],
                    ),
                forall|i: int|
                    0 <= i < graph.dependencies@.len() ==> keys_of(graph.nodes@).contains(
                        #[trigger] graph.dependencies@[i].0@,
                    ),
                forall|i: int|
                    0 <= i < graph.dependencies@.len() ==> #[trigger] graph.dependencies@[i].1@.len()
                        > 0,
                forall|i: int, j: int|
                    0 <= i < graph.nodes@.len() && 0 <= j < graph.deps(
                        graph.nodes@[i].key_view(),
                    ).len() ==> keys_of(queue@).contains(
                        #[trigger] graph.deps(graph.nodes@[i].key_view())[j].key_view(),
                    ),
                forall|q: int| 0 <= q < h ==> keys_of(graph.nodes@).contains(#[trigger] queue@[q].key_view()),
                forall|q: int| 0 <= q < queue@.len() ==> u.contains(#[trigger] queue@[q].key_view()),
                forall|i: int| 0 <= i < graph.nodes@.len() ==> u.contains(#[trigger] graph.nodes@[i].key_view()),
                chains.len() == queue@.len(),
                forall|q: int|
                    0 <= q < queue@.len() ==> dependency_chain(fs@, root_path@, #[trigger] chains[q])
                        && chains[q].last() == queue@[q].environment_path@,
                forall|i: int, j: int|
                    0 <= i < j < graph.dependencies@.len() ==> #[trigger] graph.dependencies@[i].0@
                        != #[trigger] graph.dependencies@[j].0@,
                kpaths.len() == queue@.len(),
                forall|q: int|
                    0 <= q < queue@.len() ==> graph.is_path(#[trigger] kpaths[q]) && kpaths[q][0]
                        == root.key_view() && kpaths[q].last() == queue@[q].key_view(),
                nsrc.len() == graph.nodes@.len(),
                forall|i: int|
                    0 <= i < graph.nodes@.len() ==> 0 <= #[trigger] nsrc[i] < queue@.len() && queue@[nsrc[i]]
                        == graph.nodes@[i],
            decreases u.len() - graph.nodes@.len(), queue@.len() - h,
        {
            let current = queue[h].clone();
            let cur_key = current.key();
            if contains_str(&visited, cur_key.as_str()) {
                proof {
                    assert(keys_of(graph.nodes@).contains(queue@[h as int].key_view()));
                }
                h = h + 1;
                continue;
            }
            let ghost old_nodes = graph.nodes@;
            let ghost old_entries = graph.dependencies@;
            let ghost old_queue = queue@;
            let ghost old_graph = graph;
            let ghost old_visited = visited@;
            visited.push(cur_key.clone());
            graph.nodes.push(current.clone());
            proof {
                assert(views_of(visited@) =~= views_of(old_visited).push(cur_key@));
                assert(keys_of(graph.nodes@) =~= keys_of(old_nodes).push(cur_key@));
                assert(views_of(visited@) =~= keys_of(graph.nodes@));
                let kn = keys_of(graph.nodes@);
                let ko = keys_of(old_nodes);
                assert(kn =~= ko.push(cur_key@));
                assert(kn.no_duplicates()) by {
                    assert forall|a: int, b: int|
                        0 <= a < kn.len() && 0 <= b < kn.len() && a != b implies kn[a] != kn[b] by {
                        if a < ko.len() && b < ko.len() {
                            assert(kn[a] == ko[a] && kn[b] == ko[b]);
                        } else if a < ko.len() {
                            assert(kn[a] == ko[a]);
                        } else {
                            assert(kn[b] == ko[b]);
                        }
                    }
                }
                assert forall|i: int| 0 <= i < graph.nodes@.len() implies u.contains(
                    #[trigger] graph.nodes@[i].key_view(),
                ) by {
                    if i < old_nodes.len() {
                        assert(graph.nodes@[i] == old_nodes[i]);
                    } else {
                        assert(graph.nodes@[i] == queue@[h as int]);
                    }
                }
                assert forall|i: int| 0 <= i < kn.len() implies u.contains(#[trigger] kn[i]) by {
                    assert(kn[i] == graph.nodes@[i].key_view());
                }
                lemma_unique_within_len(kn, u);
            }
            let ghost cur_chain = chains[h as int];
            assert(dependency_chain(fs@, root_path@, cur_chain) && cur_chain.last() == current.environment_path@);
            let env_file = join(current.environment_path.as_str(), ".pmp.environment.yaml");
            if !fs.path_exists(env_file.as_str()) {
                let mut msg = "Environment file not found for ".to_owned();
                msg.append(cur_key.as_str());
                msg.append(": ");
                msg.append(env_file.as_str());
                assert(unvisitable(fs@, cur_chain.last()));
                assert(msg@.skip(msg@.len() - env_file@.len()) =~= env_file@);
                assert(visit_error(fs@, cur_chain.last(), msg@));
                return Err(msg);
            }
            let resource = match EnvironmentResource::from_file(fs, env_file.as_str()) {
                Ok(res) => res,
                Err(_) => {
                    assert(unvisitable(fs@, cur_chain.last()));
                    let msg = concat("Failed to load environment resource: ", env_file.as_str());
                    assert(msg@.skip(msg@.len() - env_file@.len()) =~= env_file@);
                    assert(visit_error(fs@, cur_chain.last(), msg@));
                    return Err(msg);
                },
            };
            let ghost ev = resource@;
            proof {
                assert(environment_at(fs@, current.environment_path@) == Some(ev));
            }
            let dep_nodes = match Self::resolve_dependencies(
                fs,
                &resource.spec.dependencies,
                &mut queue,
            ) {
                Ok(l) => l,
                Err(e) => {
                    assert(unvisitable(fs@, cur_chain.last()));
                    return Err(e);
                },
            };
            let ghost dl = dep_nodes@;
            proof {
                let new_chains = chains + Seq::new(
                    dl.len(),
                    |x: int| cur_chain.push(dl[x].environment_path@),
                );
                assert forall|q: int| 0 <= q < queue@.len() implies dependency_chain(
                    fs@,
                    root_path@,
                    #[trigger] new_chains[q],
                ) && new_chains[q].last() == queue@[q].environment_path@ by {
                    if q < old_queue.len() {
                        assert(new_chains[q] == chains[q]);
                        assert(queue@[q] == old_queue[q]);
                    } else {
                        let x = q - old_queue.len();
                        assert(queue@[q] == dl[x]);
                        assert(new_chains[q] == cur_chain.push(dl[x].environment_path@));
                        assert(node_views(dl)[x] == located_dependencies(fs@, ev.4)[x]);
                        assert(dependency_dirs(fs@, cur_chain.last())[x] == dl[x].environment_path@);
                        lemma_chain_extend(fs@, root_path@, cur_chain, dl[x].environment_path@);
                    }
                }
                chains = new_chains;
            }
            proof {
                // The new node had no entry yet.
                assert forall|i: int| 0 <= i < old_entries.len() implies #[trigger] old_entries[i].0@
                    != cur_key@ by {
                    assert(keys_of(old_nodes).contains(old_entries[i].0@));
                }
                if deps_of(old_entries, cur_key@).len() > 0 {
                    lemma_deps_of_entry(old_entries, cur_key@);
                }
                assert(queue@.take(old_queue.len() as int) =~= old_queue);
                // Every node found is named by the environment file, so it is in `u`.
                assert forall|q: int| 0 <= q < queue@.len() implies u.contains(
                    #[trigger] queue@[q].key_view(),
                ) by {
                    if q < old_queue.len() {
                        assert(queue@[q] == old_queue[q]);
                    } else {
                        let x = q - old_queue.len();
                        assert(queue@[q] == dl[x]);
                        assert(dependency_keys(ev.4).contains(dl[x].key_view()));
                        assert(text_dependency_keys(fs_file(fs@, env_file@)).contains(
                            dl[x].key_view(),
                        ));
                        lemma_fs_dependency_keys(fs@, env_file@, dl[x].key_view());
                        let t = choose|t: int|
                            0 <= t < fs_dependency_keys(fs@).len() && fs_dependency_keys(fs@)[t]
                                == dl[x].key_view();
                        assert(u[t + 1] == dl[x].key_view());
                    }
                }
            }
            if dep_nodes.len() > 0 {
                graph.dependencies.push((cur_key, dep_nodes));
            }
            proof {
                let e = if dl.len() > 0 {
                    old_entries.push(graph.dependencies@.last())
                } else {
                    old_entries
                };
                assert(graph.dependencies@ == e);
                assert forall|k: Seq<char>| #[trigger] graph.deps(k) == if k == cur_key@ {
                    dl
                } else {
                    deps_of(old_entries, k)
                } by {
                    if dl.len() > 0 {
                        lemma_deps_of_push(old_entries, graph.dependencies@.last(), k);
                    }
                }
                assert(graph.records_dependencies_of(fs@, current)) by {
                    assert(graph.deps(current.key_view()) == dl);
                    assert forall|i: int, j: int|
                        0 <= i < ev.4.len() && !ev.4[i].2 && 0 <= j < ev.4[i].1.len() implies keys_of(
                        graph.deps(current.key_view()),
                    ).contains(#[trigger] node_key(ev.4[i].0, ev.4[i].1[j])) by {
                        let d = resource.spec.dependencies@[i];
                        assert(ev.4[i] == d@);
                        assert(d.project.environments@[j]@ == ev.4[i].1[j]);
                        assert(keys_of(dl).contains(
                            node_key(d.project.name@, d.project.environments@[j]@),
                        ));
                    }
                }
                assert forall|i: int|
                    0 <= i < graph.nodes@.len() implies graph.records_dependencies_of(
                    fs@,
                    #[trigger] graph.nodes@[i],
                ) by {
                    if i < old_nodes.len() {
                        assert(graph.nodes@[i] == old_nodes[i]);
                        assert(keys_of(old_nodes)[i] == old_nodes[i].key_view());
                        assert(old_nodes[i].key_view() != cur_key@);
                        assert(graph.deps(old_nodes[i].key_view()) == deps_of(
                            old_entries,
                            old_nodes[i].key_view(),
                        ));
                        assert(old_graph.records_dependencies_of(fs@, old_nodes[i]));
                        assert(old_graph.deps(old_nodes[i].key_view()) == deps_of(
                            old_entries,
                            old_nodes[i].key_view(),
                        ));
                    } else {
                        assert(graph.nodes@[i] == current);
                    }
                }
                assert forall|i: int|
                    0 <= i < graph.dependencies@.len() implies keys_of(graph.nodes@).contains(
                    #[trigger] graph.dependencies@[i].0@,
                ) by {
                    if i < old_entries.len() {
                        assert(graph.dependencies@[i] == old_entries[i]);
                        let t = choose|t: int|
                            0 <= t < keys_of(old_nodes).len() && keys_of(old_nodes)[t]
                                == old_entries[i].0@;
                        assert(keys_of(graph.nodes@)[t] == keys_of(old_nodes)[t]);
                    } else {
                        assert(keys_of(graph.nodes@)[old_nodes.len() as int] == cur_key@);
                    }
                }
                assert forall|i: int| 0 <= i < graph.dependencies@.len() implies #[trigger] graph.dependencies@[i].1@.len()
                    > 0 by {
                    if i < old_entries.len() {
                        assert(graph.dependencies@[i] == old_entries[i]);
                    }
                }
                assert forall|i: int, j: int|
                    0 <= i < graph.nodes@.len() && 0 <= j < graph.deps(
                        graph.nodes@[i].key_view(),
                    ).len() implies keys_of(queue@).contains(
                    #[trigger] graph.deps(graph.nodes@[i].key_view())[j].key_view(),
                ) by {
                    let dk = graph.deps(graph.nodes@[i].key_view())[j].key_view();
                    if i < old_nodes.len() {
                        assert(graph.nodes@[i] == old_nodes[i]);
                        assert(keys_of(old_nodes)[i] == old_nodes[i].key_view());
                        assert(old_nodes[i].key_view() != cur_key@);
                        assert(graph.deps(old_nodes[i].key_view()) == old_graph.deps(
                            old_nodes[i].key_view(),
                        ));
                        assert(old_graph.nodes@[i] == old_nodes[i]);
                        assert(keys_of(old_queue).contains(
                            old_graph.deps(old_graph.nodes@[i].key_view())[j].key_view(),
                        ));
                        assert(keys_of(old_queue).contains(dk));
                        let t = choose|t: int| 0 <= t < keys_of(old_queue).len() && keys_of(old_queue)[t] == dk;
                        assert(queue@[t] == old_queue[t]);
                        assert(keys_of(queue@)[t] == dk);
                    } else {
                        assert(graph.nodes@[i] == current);
                        assert(queue@[old_queue.len() + j] == dl[j]);
                        assert(keys_of(queue@)[old_queue.len() + j] == dk);
                    }
                }
                assert forall|q: int| 0 <= q < h + 1 implies keys_of(graph.nodes@).contains(
                    #[trigger] queue@[q].key_view(),
                ) by {
                    assert(queue@[q] == old_queue[q]);
                    if q < h {
                        let t = choose|t: int|
                            0 <= t < keys_of(old_nodes).len() && keys_of(old_nodes)[t]
                                == old_queue[q].key_view();
                        assert(keys_of(graph.nodes@)[t] == keys_of(old_nodes)[t]);
                    } else {
                        assert(keys_of(graph.nodes@)[old_nodes.len() as int] == cur_key@);
                    }
                }
                if h == 0 {
                    assert(graph.nodes@[0] == queue@[0]);
                } else {
                    assert(graph.nodes@[0] == old_nodes[0]);
                }
                // Recording the new entry keeps its key apart from the others.
                assert forall|i: int, j: int|
                    0 <= i < j < graph.dependencies@.len() implies #[trigger] graph.dependencies@[i].0@
                    != #[trigger] graph.dependencies@[j].0@ by {
                    if j < old_entries.len() {
                        assert(graph.dependencies@[i] == old_entries[i]);
                        assert(graph.dependencies@[j] == old_entries[j]);
                    } else {
                        assert(graph.dependencies@[i] == old_entries[i]);
                        assert(graph.dependencies@[j].0@ == cur_key@);
                    }
                }
                // Every key in the queue is reached from the root.
                assert(deps_of(old_entries, cur_key@).len() == 0);
                assert(old_graph.deps(cur_key@).len() == 0);
                assert forall|k: Seq<char>| k != cur_key@ implies #[trigger] graph.deps(k) == old_graph.deps(k) by {
                    assert(graph.deps(k) == deps_of(old_entries, k));
                }
                let kp = kpaths[h as int];
                lemma_path_kept(old_graph, graph, kp, cur_key@);
                let new_kpaths = kpaths + Seq::new(dl.len(), |x: int| kp.push(dl[x].key_view()));
                assert forall|q: int| 0 <= q < queue@.len() implies graph.is_path(#[trigger] new_kpaths[q])
                    && new_kpaths[q][0] == root.key_view() && new_kpaths[q].last() == queue@[q].key_view() by {
                    if q < old_queue.len() {
                        assert(new_kpaths[q] == kpaths[q]);
                        assert(queue@[q] == old_queue[q]);
                        lemma_path_kept(old_graph, graph, kpaths[q], cur_key@);
                    } else {
                        let x = q - old_queue.len();
                        assert(queue@[q] == dl[x]);
                        assert(new_kpaths[q] == kp.push(dl[x].key_view()));
                        assert(kp.last() == cur_key@);
                        assert(graph.deps(cur_key@) == dl);
                        assert(graph.deps(cur_key@)[x].key_view() == dl[x].key_view());
                        assert(graph.edge(kp.last(), dl[x].key_view()));
                        graph.lemma_path_push(kp, dl[x].key_view());
                    }
                }
                kpaths = new_kpaths;
                let new_nsrc = nsrc.push(h as int);
                assert forall|i: int| 0 <= i < graph.nodes@.len() implies 0 <= #[trigger] new_nsrc[i] < queue@.len()
                    && queue@[new_nsrc[i]] == graph.nodes@[i] by {
                    if i < old_nodes.len() {
                        assert(new_nsrc[i] == nsrc[i]);
                        assert(graph.nodes@[i] == old_nodes[i]);
                        assert(queue@[nsrc[i]] == old_queue[nsrc[i]]);
                    } else {
                        assert(graph.nodes@[i] == current);
                        assert(queue@[h as int] == old_queue[h as int]);
                    }
                }
                nsrc = new_nsrc;
            }
            h = h + 1;
        }
        proof {
            assert forall|k: Seq<char>| graph.deps(k).len() > 0 implies #[trigger] keys_of(
                graph.nodes@,
            ).contains(k) by {
                lemma_deps_of_entry(graph.dependencies@, k);
            }
            assert forall|i: int, j: int|
                0 <= i < graph.nodes@.len() && 0 <= j < graph.deps(graph.nodes@[i].key_view()).len()
                    implies keys_of(graph.nodes@).contains(
                #[trigger] graph.deps(graph.nodes@[i].key_view())[j].key_view(),
            ) by {
                let dk = graph.deps(graph.nodes@[i].key_view())[j].key_view();
                let t = choose|t: int| 0 <= t < keys_of(queue@).len() && keys_of(queue@)[t] == dk;
                assert(queue@[t].key_view() == dk);
            }
            assert forall|i: int| 0 <= i < graph.nodes@.len() implies graph.reachable(
                graph.root.key_view(),
                #[trigger] graph.nodes@[i].key_view(),
            ) by {
                let q = nsrc[i];
                assert(graph.is_path(kpaths[q]));
            }
        }
        Ok(graph)
    }
}

/// The connector drawn before a node: the last child of its parent gets `└── `.
pub open spec fn connector(is_last: bool) -> Seq<char> {
    if is_last {
        "└── "@
    } else {
        "├── "@
    }
}

/// The prefix under a node for its children.
pub open spec fn child_prefix(prefix: Seq<char>, is_last: bool) -> Seq<char> {
    prefix + if is_last {
        "    "@
    } else {
        "│   "@
    }
}

/// The line that shows `node`: `prefix`, connector, `project (environment)`.
pub open spec fn node_line(node: DependencyNode, prefix: Seq<char>, is_last: bool) -> Seq<char> {
    prefix + connector(is_last) + node.project_name@ + " ("@ + node.environment_name@ + ")\n"@
}

/// The line for a node that was shown higher up.
pub open spec fn shown_line(node: DependencyNode, prefix: Seq<char>, is_last: bool) -> Seq<char> {
    prefix + connector(is_last) + node.project_name@ + " ("@ + node.environment_name@
        + ") [already shown]\n"@
}

impl DependencyGraph {
    /// The text that shows `node` and, below it, what it depends on, with the
    /// keys shown so far before and after; `fuel` bounds the depth.
    pub open spec fn tree_of(
        &self,
        node: DependencyNode,
        prefix: Seq<char>,
        is_last: bool,
        visited: Seq<Seq<char>>,
        fuel: nat,
    ) -> (Seq<char>, Seq<Seq<char>>)
        decreases fuel, 0nat,
    {
        if fuel == 0 {
            (Seq::empty(), visited)
        } else {
            let rest = self.tree_of_deps(
                self.deps(node.key_view()),
                0,
                child_prefix(prefix, is_last),
                visited.push(node.key_view()),
                (fuel - 1) as nat,
            );
            (node_line(node, prefix, is_last) + rest.0, rest.1)
        }
    }

    /// The text that shows `deps[i..]`, each under `prefix`.
    pub open spec fn tree_of_deps(
        &self,
        deps: Seq<DependencyNode>,
        i: int,
        prefix: Seq<char>,
        visited: Seq<Seq<char>>,
        fuel: nat,
    ) -> (Seq<char>, Seq<Seq<char>>)
        decreases fuel, deps.len() - i + 1,
    {
        if i < 0 || i >= deps.len() {
            (Seq::empty(), visited)
        } else {
            let is_last = i == deps.len() - 1;
            let first = if visited.contains(deps[i].key_view()) {
                (shown_line(deps[i], prefix, is_last), visited)
            } else {
                self.tree_of(deps[i], prefix, is_last, visited, fuel)
            };
            let rest = self.tree_of_deps(deps, i + 1, prefix, first.1, fuel);
            (first.0 + rest.0, rest.1)
        }
    }

    /// The whole tree, from the root down.
    pub open spec fn tree_text(&self) -> Seq<char> {
        self.tree_of(self.root, Seq::empty(), true, Seq::empty(), self.universe().len() + 1).0
    }
}

/// The start of the line that shows `node` under `prefix`: the connector,
/// then `project (environment`.
pub open spec fn line_head(node: DependencyNode, prefix: Seq<char>, is_last: bool) -> Seq<char> {
    prefix + connector(is_last) + node.project_name@ + " ("@ + node.environment_name@
}

impl DependencyGraph {
    /// Whether `visited` holds keys of the graph, each once.
    pub open spec fn tree_visited_ok(&self, visited: Seq<Seq<char>>) -> bool {
        &&& visited.no_duplicates()
        &&& forall|x: Seq<char>| #[trigger] visited.contains(x) ==> self.universe().contains(x)
    }

    /// The tree of a node not shown yet is its line followed by one part for
    /// each node it depends on, in order; each part starts with the line of
    /// that dependency, one level deeper (shown in full, or marked as shown
    /// already). So every dependency edge of the node appears directly under
    /// it.
    pub proof fn lemma_tree_of_parts(
        &self,
        node: DependencyNode,
        prefix: Seq<char>,
        is_last: bool,
        visited: Seq<Seq<char>>,
        fuel: nat,
    ) -> (segs: Seq<Seq<char>>)
        requires
            self.tree_visited_ok(visited),
            self.universe().contains(node.key_view()),
            !visited.contains(node.key_view()),
            fuel + visited.len() >= self.universe().len() + 1,
        ensures
            segs.len() == self.deps(node.key_view()).len(),
            self.tree_of(node, prefix, is_last, visited, fuel).0 == node_line(node, prefix, is_last)
                + segs.flatten(),
            forall|k: int|
                0 <= k < segs.len() ==> line_head(
                    self.deps(node.key_view())[k],
                    child_prefix(prefix, is_last),
                    k == segs.len() - 1,
                ).is_prefix_of(#[trigger] segs[k]),
            self.tree_visited_ok(self.tree_of(node, prefix, is_last, visited, fuel).1),
            forall|x: Seq<char>|
                visited.contains(x) ==> #[trigger] self.tree_of(node, prefix, is_last, visited, fuel).1.contains(x),
            self.tree_of(node, prefix, is_last, visited, fuel).1.len() >= visited.len(),
        decreases fuel, 0nat,
    {
        let key = node.key_view();
        let v1 = visited.push(key);
        assert(v1.no_duplicates()) by {
            assert forall|a: int, b: int| 0 <= a < v1.len() && 0 <= b < v1.len() && a != b implies v1[a] != v1[b] by {
                if a < visited.len() && b < visited.len() {
                } else if a < visited.len() {
                    assert(visited.contains(visited[a]));
                } else {
                    assert(visited.contains(visited[b]));
                }
            }
        }
        assert forall|i: int| 0 <= i < v1.len() implies self.universe().contains(#[trigger] v1[i]) by {
            if i < visited.len() {
                assert(visited.contains(visited[i]));
            }
        }
        lemma_unique_within_len(v1, self.universe());
        assert(fuel >= 1);
        let ds = self.deps(key);
        lemma_deps_in_dep_keys(self.dependencies@, key);
        assert forall|j: int| 0 <= j < ds.len() implies self.universe().contains(#[trigger] ds[j].key_view()) by {
            let t = choose|t: int| 0 <= t < dep_keys(self.dependencies@).len() && dep_keys(self.dependencies@)[t] == ds[j].key_view();
            assert(self.universe()[t + 1] == ds[j].key_view());
        }
        assert(self.tree_visited_ok(v1)) by {
            assert forall|x: Seq<char>| #[trigger] v1.contains(x) implies self.universe().contains(x) by {
                let t = choose|t: int| 0 <= t < v1.len() && v1[t] == x;
            }
        }
        let segs = self.lemma_tree_of_deps_parts(ds, 0, child_prefix(prefix, is_last), v1, (fuel - 1) as nat);
        let r = self.tree_of_deps(ds, 0, child_prefix(prefix, is_last), v1, (fuel - 1) as nat);
        assert forall|x: Seq<char>| visited.contains(x) implies #[trigger] r.1.contains(x) by {
            assert(v1.contains(x)) by {
                let t = choose|t: int| 0 <= t < visited.len() && visited[t] == x;
                assert(v1[t] == x);
            }
        }
        assert forall|k: int| 0 <= k < segs.len() implies line_head(
            ds[k],
            child_prefix(prefix, is_last),
            k == segs.len() - 1,
        ).is_prefix_of(#[trigger] segs[k]) by {
            assert(segs[k] == segs[0 + k]);
        }
        segs
    }

    /// The text of the dependencies `deps[i..]` is one part per dependency,
    /// in order, each starting with that dependency's line under `prefix`.
    pub proof fn lemma_tree_of_deps_parts(
        &self,
        deps: Seq<DependencyNode>,
        i: int,
        prefix: Seq<char>,
        visited: Seq<Seq<char>>,
        fuel: nat,
    ) -> (segs: Seq<Seq<char>>)
        requires
            0 <= i <= deps.len(),
            self.tree_visited_ok(visited),
            forall|j: int| 0 <= j < deps.len() ==> self.universe().contains(#[trigger] deps[j].key_view()),
            fuel + visited.len() >= self.universe().len() + 1,
        ensures
            segs.len() == deps.len() - i,
            self.tree_of_deps(deps, i, prefix, visited, fuel).0 == segs.flatten(),
            forall|k: int|
                0 <= k < segs.len() ==> line_head(deps[i + k], prefix, i + k == deps.len() - 1).is_prefix_of(
                    #[trigger] segs[k],
                ),
            self.tree_visited_ok(self.tree_of_deps(deps, i, prefix, visited, fuel).1),
            forall|x: Seq<char>|
                visited.contains(x) ==> #[trigger] self.tree_of_deps(deps, i, prefix, visited, fuel).1.contains(x),
            self.tree_of_deps(deps, i, prefix, visited, fuel).1.len() >= visited.len(),
        decreases fuel, deps.len() - i + 1,
    {
        if i >= deps.len() {
            let segs = Seq::<Seq<char>>::empty();
            assert(segs.flatten() =~= Seq::<char>::empty());
            segs
        } else {
            let is_last = i == deps.len() - 1;
            let d = deps[i];
            let h = line_head(d, prefix, is_last);
            let first = if visited.contains(d.key_view()) {
                (shown_line(d, prefix, is_last), visited)
            } else {
                self.tree_of(d, prefix, is_last, visited, fuel)
            };
            if visited.contains(d.key_view()) {
                assert(shown_line(d, prefix, is_last) == h + ") [already shown]\n"@);
                assert(h.is_prefix_of(first.0)) by {
                    assert(first.0.subrange(0, h.len() as int) =~= h);
                }
            } else {
                let inner = self.lemma_tree_of_parts(d, prefix, is_last, visited, fuel);
                assert(node_line(d, prefix, is_last) == h + ")\n"@);
                assert(first.0 == h + ")\n"@ + inner.flatten());
                assert(h.is_prefix_of(first.0)) by {
                    assert(first.0.subrange(0, h.len() as int) =~= h);
                }
            }
            let rest = self.lemma_tree_of_deps_parts(deps, i + 1, prefix, first.1, fuel);
            let segs = seq![first.0] + rest;
            assert(segs.first() == first.0);
            assert(segs.drop_first() =~= rest);
            assert forall|k: int| 0 <= k < segs.len() implies line_head(deps[i + k], prefix, i + k == deps.len() - 1).is_prefix_of(
                #[trigger] segs[k],
            ) by {
                if k > 0 {
                    assert(segs[k] == rest[k - 1]);
                    assert(i + 1 + (k - 1) == i + k);
                }
            }
            segs
        }
    }

    /// The whole tree is the root's line and, directly under it, one part for
    /// each node the root depends on, each starting with that node's line.
    pub proof fn lemma_tree_text_parts(&self)
        ensures
            exists|segs: Seq<Seq<char>>|
                #![trigger segs.flatten()]
                segs.len() == self.deps(self.root.key_view()).len() && self.tree_text() == node_line(
                    self.root,
                    Seq::empty(),
                    true,
                ) + segs.flatten() && forall|k: int|
                    0 <= k < segs.len() ==> line_head(
                        self.deps(self.root.key_view())[k],
                        "    "@,
                        k == segs.len() - 1,
                    ).is_prefix_of(#[trigger] segs[k]),
    {
        assert(self.universe()[0] == self.root.key_view());
        assert(self.tree_visited_ok(Seq::empty()));
        let segs = self.lemma_tree_of_parts(
            self.root,
            Seq::empty(),
            true,
            Seq::empty(),
            (self.universe().len() + 1) as nat,
        );
        assert(child_prefix(Seq::empty(), true) =~= "    "@);
    }
}

impl DependencyGraph {
    /// Appends to `output` the lines for `node` and what it depends on; the
    /// keys shown are added to `visited`.
    fn format_tree_node(
        &self,
        node: &DependencyNode,
        output: &mut String,
        prefix: &str,
        is_last: bool,
        visited: &mut Vec<String>,
        Ghost(fuel): Ghost<nat>,
    )
        requires
            fuel >= 1,
            !views_of(old(visited)@).contains(node.key_view()),
            self.universe().contains(node.key_view()),
            views_of(old(visited)@).no_duplicates(),
            forall|j: int|
                0 <= j < old(visited)@.len() ==> self.universe().contains(
                    #[trigger] views_of(old(visited)@)[j],
                ),
            fuel + old(visited)@.len() >= self.universe().len() + 1,
        ensures
            final(output)@ == old(output)@ + self.tree_of(
                *node,
                prefix@,
                is_last,
                views_of(old(visited)@),
                fuel,
            ).0,
            views_of(final(visited)@) == self.tree_of(
                *node,
                prefix@,
                is_last,
                views_of(old(visited)@),
                fuel,
            ).1,
            views_of(final(visited)@).no_duplicates(),
            forall|j: int|
                0 <= j < final(visited)@.len() ==> self.universe().contains(
                    #[trigger] views_of(final(visited)@)[j],
                ),
            final(visited)@.len() >= old(visited)@.len(),
        decreases fuel,
    {
        let node_key = node.key();
        output.append(prefix);
        if is_last {
            output.append("└── ");
        } else {
            output.append("├── ");
        }
        output.append(node.project_name.as_str());
        output.append(" (");
        output.append(node.environment_name.as_str());
        output.append(")\n");
        let ghost out1 = output@;
        let ghost v0 = views_of(visited@);
        visited.push(node_key.clone());
        let ghost v1 = views_of(visited@);
        proof {
            assert(v1 =~= v0.push(node.key_view()));
            assert(v1.no_duplicates()) by {
                assert forall|a: int, b: int|
                    0 <= a < v1.len() && 0 <= b < v1.len() && a != b implies v1[a] != v1[b] by {
                    if a < v0.len() && b < v0.len() {
                        assert(v1[a] == v0[a] && v1[b] == v0[b]);
                    } else if a < v0.len() {
                        assert(v1[a] == v0[a]);
                    } else {
                        assert(v1[b] == v0[b]);
                    }
                }
            }
            assert forall|j: int| 0 <= j < visited@.len() implies self.universe().contains(
                #[trigger] views_of(visited@)[j],
            ) by {
                if j < v0.len() {
                    assert(v1[j] == v0[j]);
                }
            }
        }
        let mut new_prefix = prefix.to_owned();
        if is_last {
            new_prefix.append("    ");
        } else {
            new_prefix.append("│   ");
        }
        let ghost np = new_prefix@;
        assert(np == child_prefix(prefix@, is_last));
        let ghost deps = self.deps(node.key_view());
        let ghost whole = self.tree_of_deps(deps, 0, np, v1, (fuel - 1) as nat);
        proof {
            lemma_deps_in_dep_keys(self.dependencies@, node.key_view());
        }
        match self.find_deps(node_key.as_str()) {
            Some(ei) => {
                let dv = &self.dependencies[ei].1;
                let mut i: usize = 0;
                while i < dv.len()
                    invariant
                        0 <= i <= dv.len(),
                        dv@ == deps,
                        fuel >= 1,
                        np == new_prefix@,
                        whole == self.tree_of_deps(deps, 0, np, v1, (fuel - 1) as nat),
                        out1 + whole.0 == output@ + self.tree_of_deps(
                            deps,
                            i as int,
                            np,
                            views_of(visited@),
                            (fuel - 1) as nat,
                        ).0,
                        whole.1 == self.tree_of_deps(
                            deps,
                            i as int,
                            np,
                            views_of(visited@),
                            (fuel - 1) as nat,
                        ).1,
                        views_of(visited@).no_duplicates(),
                        forall|j: int|
                            0 <= j < visited@.len() ==> self.universe().contains(
                                #[trigger] views_of(visited@)[j],
                            ),
                        visited@.len() >= v1.len(),
                        v1.len() == old(visited)@.len() + 1,
                        fuel + old(visited)@.len() >= self.universe().len() + 1,
                        forall|j: int|
                            0 <= j < deps.len() ==> dep_keys(self.dependencies@).contains(
                                #[trigger] deps[j].key_view(),
                            ),
                    decreases dv.len() - i,
                {
                    let dep = &dv[i];
                    let is_last_dep = i == dv.len() - 1;
                    let dep_key = dep.key();
                    let ghost vi = views_of(visited@);
                    let ghost before = output@;
                    proof {
                        assert(self.universe().contains(dep.key_view())) by {
                            let t = choose|t: int|
                                0 <= t < dep_keys(self.dependencies@).len() && dep_keys(
                                    self.dependencies@,
                                )[t] == dep.key_view();
                            assert(self.universe()[t + 1] == dep.key_view());
                        }
                    }
                    if contains_str(visited, dep_key.as_str()) {
                        output.append(new_prefix.as_str());
                        if is_last_dep {
                            output.append("└── ");
                        } else {
                            output.append("├── ");
                        }
                        output.append(dep.project_name.as_str());
                        output.append(" (");
                        output.append(dep.environment_name.as_str());
                        output.append(") [already shown]\n");
                        proof {
                            assert(output@ == before + shown_line(*dep, np, is_last_dep));
                        }
                    } else {
                        proof {
                            let w = vi.push(dep.key_view());
                            assert(w.no_duplicates()) by {
                                assert forall|a: int, b: int|
                                    0 <= a < w.len() && 0 <= b < w.len() && a != b implies w[a]
                                    != w[b] by {
                                    if a < vi.len() && b < vi.len() {
                                        assert(w[a] == vi[a] && w[b] == vi[b]);
                                    } else if a < vi.len() {
                                        assert(w[a] == vi[a]);
                                    } else {
                                        assert(w[b] == vi[b]);
                                    }
                                }
                            }
                            assert forall|j: int| 0 <= j < w.len() implies self.universe().contains(
                                #[trigger] w[j],
                            ) by {
                                if j < vi.len() {
                                    assert(w[j] == vi[j]);
                                }
                            }
                            lemma_unique_within_len(w, self.universe());
                        }
                        self.format_tree_node(
                            dep,
                            output,
                            new_prefix.as_str(),
                            is_last_dep,
                            visited,
                            Ghost((fuel - 1) as nat),
                        );
                    }
                    proof {
                        assert(dep == deps[i as int]);
                        assert(self.tree_of_deps(deps, i as int, np, vi, (fuel - 1) as nat).0
                            == (output@.subrange(before.len() as int, output@.len() as int))
                            + self.tree_of_deps(
                            deps,
                            i + 1,
                            np,
                            views_of(visited@),
                            (fuel - 1) as nat,
                        ).0) by {
                            assert(output@.subrange(before.len() as int, output@.len() as int)
                                =~= output@.subrange(before.len() as int, output@.len() as int));
                        }
                        assert(output@ =~= before + output@.subrange(
                            before.len() as int,
                            output@.len() as int,
                        ));
                    }
                    i = i + 1;
                }
            },
            None => {},
        }
    }
}

impl DependencyGraph {
    /// Whether any node records dependencies.
    pub fn has_dependencies(&self) -> (r: bool)
        ensures
            r == (self.dependencies@.len() > 0),
    {
        self.dependencies.len() > 0
    }

    /// The number of nodes, the root included.
    pub fn node_count(&self) -> (r: usize)
        ensures
            r == self.nodes@.len(),
    {
        self.nodes.len()
    }

    /// The dependency tree as text: one line per node, `project (environment)`,
    /// drawn with `├──`/`└──` under the node that depends on it; a node met a
    /// second time is marked `[already shown]` and not expanded again.
    pub fn format_tree(&self) -> (r: String)
        ensures
            r@ == self.tree_text(),
    {
        let mut output = String::new();
        let mut visited: Vec<String> = Vec::new();
        let prefix = String::new();
        proof {
            assert(self.universe()[0] == self.root.key_view());
            assert(views_of(visited@) =~= Seq::<Seq<char>>::empty());
        }
        self.format_tree_node(
            &self.root,
            &mut output,
            prefix.as_str(),
            true,
            &mut visited,
            Ghost((self.universe().len() + 1) as nat),
        );
        output
    }
}

/// Whether some node of `order` has the key `k`.
fn order_has_key(order: &Vec<DependencyNode>, k: &str) -> (r: bool)
    ensures
        r == keys_of(order@).contains(k@),
{
    let mut i: usize = 0;
    while i < order.len()
        invariant
            0 <= i <= order.len(),
            forall|j: int| 0 <= j < i ==> keys_of(order@)[j] != k@,
        decreases order.len() - i,
    {
        let nk = order[i].key();
        if crate::text::str_eq(nk.as_str(), k) {
            assert(keys_of(order@)[i as int] == k@);
            return true;
        }
        i = i + 1;
    }
    false
}

} // verus!
