//! The `graph` command: a project environment's dependency graph, or the
//! dependencies of every environment of an infrastructure, drawn as text,
//! as a Mermaid diagram or as a GraphViz DOT file.

use vstd::prelude::*;
use crate::dependency_graph::{keys_of, DependencyGraph, DependencyNode};
use crate::dependency_graph::{environment_at, environment_file_of, project_file_of};
use crate::discovery::{all_found_projects, environment_names, environments_dir_of, infrastructure_at, is_nearest_collection, no_collection_above, CollectionDiscovery};
use crate::environments::{all_infos, info_key, infos_view, scan_environments, EnvironmentInfo, InfoView};
use crate::fs::{fs_has, fs_is_dir, write_ok, written, MemoryFileSystem};
use crate::paths::{join, join_spec};
use crate::resources::{infrastructure_view, EnvironmentResource, ProjectReference};
use crate::text::{lines, lines_spec, str_eq};
use crate::keymap::{find_key, has_key, key_map_view, lemma_key_index, list_of, map_put, put, KeyMap};
use crate::output::{emit, lines_view, LineView, OutputLine};
use crate::text::{concat, concat3, contains_str, copy_strings, decimal, is_sorted, sort_strings, split, split_spec, to_chars, usize_to_string, views_of};

verus! {

broadcast use vstd::string::group_string_axioms;

/// The `graph` command.
pub struct GraphCommand;

/// Whether `c` cannot stand in a node id of Mermaid or DOT.
pub open spec fn is_id_break(c: char) -> bool {
    c == ':' || c == '-' || c == ' ' || c == '.'
}

/// `s` with each character that cannot stand in a node id turned into `_`.
pub open spec fn sanitize_spec(s: Seq<char>) -> Seq<char> {
    s.map_values(|c: char| if is_id_break(c) { '_' } else { c })
}

/// The label of the node of an environment: the project, a `\n` escape,
/// then the environment in brackets.
pub open spec fn node_label(project: Seq<char>, environment: Seq<char>) -> Seq<char> {
    project + LABEL_BREAK@ + environment + ")"@
}

/// The label of the node of the key `k`: a `project:environment` key is
/// shown as `node_label`, any other key as it is.
pub open spec fn key_label(k: Seq<char>) -> Seq<char> {
    let parts = split_spec(k, ':');
    if parts.len() == 2 {
        node_label(parts[0], parts[1])
    } else {
        k
    }
}

/// What separates a project from its environment in a node label.
pub const LABEL_BREAK: &'static str = "\\n(";

/// The first line of a Mermaid diagram.
pub const MERMAID_HEAD: &'static str = "graph TD\n";

/// What comes between a Mermaid node's id and its label.
pub const MERMAID_OPEN: &'static str = "[\"";

/// What ends a Mermaid node line.
pub const MERMAID_CLOSE: &'static str = "\"]\n";

/// The arrow of a Mermaid edge.
pub const MERMAID_ARROW: &'static str = " --> ";

/// What ends a Mermaid edge line.
pub const MERMAID_END: &'static str = "\n";

/// The start of a DOT file.
pub const DOT_HEAD: &'static str = "digraph dependencies {\n    rankdir=LR;\n    node [shape=box, style=rounded];\n\n";

/// What comes between a DOT node's id and its label.
pub const DOT_OPEN: &'static str = " [label=\"";

/// What ends a DOT node line.
pub const DOT_CLOSE: &'static str = "\"];\n";

/// The arrow of a DOT edge.
pub const DOT_ARROW: &'static str = " -> ";

/// What ends a DOT edge line.
pub const DOT_END: &'static str = ";\n";

/// The end of a DOT file.
pub const DOT_FOOT: &'static str = "}\n";

/// The line of a node whose id comes from `raw_id`.
pub open spec fn node_line(raw_id: Seq<char>, label: Seq<char>, open: Seq<char>, close: Seq<char>) -> Seq<char> {
    "    "@ + sanitize_spec(raw_id) + open + label + close
}

/// The lines of the edges from `from` to each of `tos`, in order.
pub open spec fn edge_lines(from: Seq<char>, tos: Seq<Seq<char>>, arrow: Seq<char>, end: Seq<char>) -> Seq<char>
    decreases tos.len(),
{
    if tos.len() == 0 {
        Seq::empty()
    } else {
        edge_lines(from, tos.drop_last(), arrow, end) + "    "@ + sanitize_spec(from) + arrow
            + sanitize_spec(tos.last()) + end
    }
}

/// The lines of the edges of every entry of `m`, entry after entry.
pub open spec fn map_edges(m: KeyMap, arrow: Seq<char>, end: Seq<char>) -> Seq<char>
    decreases m.len(),
{
    if m.len() == 0 {
        Seq::empty()
    } else {
        map_edges(m.drop_last(), arrow, end) + edge_lines(m.last().0, m.last().1, arrow, end)
    }
}

/// The node lines of the nodes of a graph, in order.
pub open spec fn graph_nodes(nodes: Seq<DependencyNode>, open: Seq<char>, close: Seq<char>) -> Seq<char>
    decreases nodes.len(),
{
    if nodes.len() == 0 {
        Seq::empty()
    } else {
        graph_nodes(nodes.drop_last(), open, close) + node_line(
            nodes.last().key_view(),
            node_label(nodes.last().project_name@, nodes.last().environment_name@),
            open,
            close,
        )
    }
}

/// The node lines of the keys `ks`, in order.
pub open spec fn key_nodes(ks: Seq<Seq<char>>, open: Seq<char>, close: Seq<char>) -> Seq<char>
    decreases ks.len(),
{
    if ks.len() == 0 {
        Seq::empty()
    } else {
        key_nodes(ks.drop_last(), open, close) + node_line(ks.last(), key_label(ks.last()), open, close)
    }
}

/// The edges of a graph as a map from keys to the keys they depend on.
pub open spec fn graph_edge_map(entries: Seq<(String, Vec<DependencyNode>)>) -> KeyMap {
    entries.map_values(|e: (String, Vec<DependencyNode>)| (e.0@, keys_of(e.1@)))
}

/// The Mermaid diagram of `g`.
pub open spec fn mermaid_text(g: DependencyGraph) -> Seq<char> {
    MERMAID_HEAD@ + graph_nodes(g.nodes@, MERMAID_OPEN@, MERMAID_CLOSE@) + "\n"@ + map_edges(
        graph_edge_map(g.dependencies@),
        MERMAID_ARROW@,
        MERMAID_END@,
    )
}

/// The DOT file of `g`.
pub open spec fn dot_text(g: DependencyGraph) -> Seq<char> {
    DOT_HEAD@ + graph_nodes(g.nodes@, DOT_OPEN@, DOT_CLOSE@) + "\n"@ + map_edges(
        graph_edge_map(g.dependencies@),
        DOT_ARROW@,
        DOT_END@,
    ) + DOT_FOOT@
}

/// `x` occurs in any text that has it in the middle.
pub proof fn lemma_has_substring_middle(p: Seq<char>, x: Seq<char>, q: Seq<char>)
    ensures
        crate::text::has_substring(p + x + q, x),
{
    let h = p + x + q;
    assert(h.subrange(p.len() as int, (p.len() + x.len()) as int) =~= x);
}

/// The node lines of a graph hold the line of each of its nodes.
proof fn lemma_graph_nodes_split(nodes: Seq<DependencyNode>, i: int, open: Seq<char>, close: Seq<char>) -> (r: (
    Seq<char>,
    Seq<char>,
))
    requires
        0 <= i < nodes.len(),
    ensures
        graph_nodes(nodes, open, close) == r.0 + node_line(
            nodes[i].key_view(),
            node_label(nodes[i].project_name@, nodes[i].environment_name@),
            open,
            close,
        ) + r.1,
    decreases nodes.len(),
{
    let l = node_line(nodes.last().key_view(), node_label(nodes.last().project_name@, nodes.last().environment_name@), open, close);
    if i == nodes.len() - 1 {
        assert(graph_nodes(nodes, open, close) =~= graph_nodes(nodes.drop_last(), open, close) + l + Seq::empty());
        (graph_nodes(nodes.drop_last(), open, close), Seq::empty())
    } else {
        let r = lemma_graph_nodes_split(nodes.drop_last(), i, open, close);
        assert(nodes.drop_last()[i] == nodes[i]);
        let li = node_line(nodes[i].key_view(), node_label(nodes[i].project_name@, nodes[i].environment_name@), open, close);
        assert(graph_nodes(nodes, open, close) =~= r.0 + li + (r.1 + l));
        (r.0, r.1 + l)
    }
}

/// The DOT file of a graph declares each of its nodes, with its id made from
/// its key and a label naming its project and, below it, its environment.
pub proof fn lemma_dot_declares_every_node(g: DependencyGraph, i: int)
    requires
        0 <= i < g.nodes@.len(),
    ensures
        crate::text::has_substring(
            dot_text(g),
            "    "@ + sanitize_spec(g.nodes@[i].key_view()) + " [label=\""@ + g.nodes@[i].project_name@ + "\\n("@
                + g.nodes@[i].environment_name@ + ")\"];\n"@,
        ),
{
    let n = g.nodes@[i];
    let r = lemma_graph_nodes_split(g.nodes@, i, DOT_OPEN@, DOT_CLOSE@);
    let line = node_line(n.key_view(), node_label(n.project_name@, n.environment_name@), DOT_OPEN@, DOT_CLOSE@);
    let want = "    "@ + sanitize_spec(n.key_view()) + " [label=\""@ + n.project_name@ + "\\n("@ + n.environment_name@
        + ")\"];\n"@;
    reveal_strlit(" [label=\"");
    reveal_strlit("\\n(");
    reveal_strlit(")");
    reveal_strlit("\"];\n");
    reveal_strlit(")\"];\n");
    assert(line =~= want);
    let rest = "\n"@ + map_edges(graph_edge_map(g.dependencies@), DOT_ARROW@, DOT_END@) + DOT_FOOT@;
    assert(dot_text(g) =~= (DOT_HEAD@ + r.0) + want + (r.1 + rest));
    lemma_has_substring_middle(DOT_HEAD@ + r.0, want, r.1 + rest);
}

/// The edge lines from `from` hold the line of each target.
proof fn lemma_edge_lines_split(from: Seq<char>, tos: Seq<Seq<char>>, j: int, arrow: Seq<char>, end: Seq<char>) -> (r: (
    Seq<char>,
    Seq<char>,
))
    requires
        0 <= j < tos.len(),
    ensures
        edge_lines(from, tos, arrow, end) == r.0 + ("    "@ + sanitize_spec(from) + arrow + sanitize_spec(tos[j])
            + end) + r.1,
    decreases tos.len(),
{
    let l = "    "@ + sanitize_spec(from) + arrow + sanitize_spec(tos.last()) + end;
    if j == tos.len() - 1 {
        assert(edge_lines(from, tos, arrow, end) =~= edge_lines(from, tos.drop_last(), arrow, end) + l + Seq::empty());
        (edge_lines(from, tos.drop_last(), arrow, end), Seq::empty())
    } else {
        let r = lemma_edge_lines_split(from, tos.drop_last(), j, arrow, end);
        assert(tos.drop_last()[j] == tos[j]);
        let lj = "    "@ + sanitize_spec(from) + arrow + sanitize_spec(tos[j]) + end;
        assert(edge_lines(from, tos, arrow, end) =~= r.0 + lj + (r.1 + l));
        (r.0, r.1 + l)
    }
}

/// The edge lines of a map hold the lines of each of its entries.
proof fn lemma_map_edges_split(m: KeyMap, i: int, arrow: Seq<char>, end: Seq<char>) -> (r: (Seq<char>, Seq<char>))
    requires
        0 <= i < m.len(),
    ensures
        map_edges(m, arrow, end) == r.0 + edge_lines(m[i].0, m[i].1, arrow, end) + r.1,
    decreases m.len(),
{
    let l = edge_lines(m.last().0, m.last().1, arrow, end);
    if i == m.len() - 1 {
        assert(map_edges(m, arrow, end) =~= map_edges(m.drop_last(), arrow, end) + l + Seq::empty());
        (map_edges(m.drop_last(), arrow, end), Seq::empty())
    } else {
        let r = lemma_map_edges_split(m.drop_last(), i, arrow, end);
        assert(m.drop_last()[i] == m[i]);
        assert(map_edges(m, arrow, end) =~= r.0 + edge_lines(m[i].0, m[i].1, arrow, end) + (r.1 + l));
        (r.0, r.1 + l)
    }
}

/// The DOT file of a graph draws an edge from each environment to each
/// environment it depends on.
pub proof fn lemma_dot_draws_every_dependency(g: DependencyGraph, k: Seq<char>, j: int)
    requires
        0 <= j < g.deps(k).len(),
    ensures
        crate::text::has_substring(
            dot_text(g),
            "    "@ + sanitize_spec(k) + " -> "@ + sanitize_spec(g.deps(k)[j].key_view()) + ";\n"@,
        ),
{
    crate::dependency_graph::lemma_deps_of_entry(g.dependencies@, k);
    let i = choose|i: int|
        0 <= i < g.dependencies@.len() && #[trigger] g.dependencies@[i].0@ == k && g.dependencies@[i].1@
            == crate::dependency_graph::deps_of(g.dependencies@, k);
    let m = graph_edge_map(g.dependencies@);
    assert(m[i] == (k, keys_of(g.deps(k))));
    let r1 = lemma_map_edges_split(m, i, DOT_ARROW@, DOT_END@);
    let r2 = lemma_edge_lines_split(k, m[i].1, j, DOT_ARROW@, DOT_END@);
    assert(m[i].1[j] == g.deps(k)[j].key_view());
    let want = "    "@ + sanitize_spec(k) + " -> "@ + sanitize_spec(g.deps(k)[j].key_view()) + ";\n"@;
    let pre = DOT_HEAD@ + graph_nodes(g.nodes@, DOT_OPEN@, DOT_CLOSE@) + "\n"@ + r1.0 + r2.0;
    assert(dot_text(g) =~= pre + want + (r2.1 + r1.1 + DOT_FOOT@));
    lemma_has_substring_middle(pre, want, r2.1 + r1.1 + DOT_FOOT@);
}

/// The Mermaid diagram of the environments `ks` (sorted) with the
/// dependencies `m`.
pub open spec fn mermaid_all_text(ks: Seq<Seq<char>>, m: KeyMap) -> Seq<char> {
    MERMAID_HEAD@ + key_nodes(ks, MERMAID_OPEN@, MERMAID_CLOSE@) + "\n"@ + map_edges(
        m,
        MERMAID_ARROW@,
        MERMAID_END@,
    )
}

/// The DOT file of the environments `ks` (sorted) with the dependencies `m`.
pub open spec fn dot_all_text(ks: Seq<Seq<char>>, m: KeyMap) -> Seq<char> {
    DOT_HEAD@ + key_nodes(ks, DOT_OPEN@, DOT_CLOSE@) + "\n"@ + map_edges(m, DOT_ARROW@, DOT_END@)
        + DOT_FOOT@
}

impl GraphCommand {
    /// `s` with `:`, `-`, space and `.` turned into `_`, so that it can
    /// name a node.
    pub fn sanitize_id(s: &str) -> (r: String)
        ensures
            r@ == sanitize_spec(s@),
    {
        let cs = to_chars(s);
        let mut out: Vec<char> = Vec::new();
        let mut i: usize = 0;
        while i < cs.len()
            invariant
                0 <= i <= cs.len(),
                cs@ == s@,
                out@ == sanitize_spec(s@).take(i as int),
            decreases cs.len() - i,
        {
            let c = cs[i];
            let d = if c == ':' || c == '-' || c == ' ' || c == '.' {
                '_'
            } else {
                c
            };
            out.push(d);
            assert(out@ =~= sanitize_spec(s@).take(i + 1));
            i = i + 1;
        }
        assert(sanitize_spec(s@).take(cs.len() as int) =~= sanitize_spec(s@));
        crate::text::string_from_chars(out.as_slice())
    }

    /// The label of the node of the key `k`.
    pub fn label_of_key(k: &str) -> (r: String)
        ensures
            r@ == key_label(k@),
    {
        let parts = split(k, ':');
        proof {
            assert(parts@.map_values(|p: String| p@).len() == parts@.len());
        }
        if parts.len() == 2 {
            proof {
                assert(parts@.map_values(|p: String| p@)[0] == parts@[0]@);
                assert(parts@.map_values(|p: String| p@)[1] == parts@[1]@);
            }
            let mut r = parts[0].clone();
            r.append(LABEL_BREAK);
            r.append(parts[1].as_str());
            r.append(")");
            r
        } else {
            k.to_owned()
        }
    }

    /// Appends the line of a node whose id comes from `raw_id`.
    fn push_node_line(out: &mut String, raw_id: &str, label: &str, open: &str, close: &str)
        ensures
            final(out)@ == old(out)@ + node_line(raw_id@, label@, open@, close@),
    {
        let id = Self::sanitize_id(raw_id);
        out.append("    ");
        out.append(id.as_str());
        out.append(open);
        out.append(label);
        out.append(close);
    }

    /// Appends the lines of the edges from `from` to each of `tos`.
    fn push_edge_lines(out: &mut String, from: &str, tos: &Vec<String>, arrow: &str, end: &str)
        ensures
            final(out)@ == old(out)@ + edge_lines(from@, crate::text::views_of(tos@), arrow@, end@),
    {
        let ghost start = out@;
        let ghost ts = crate::text::views_of(tos@);
        let from_id = Self::sanitize_id(from);
        let mut i: usize = 0;
        assert(ts.take(0) =~= Seq::<Seq<char>>::empty());
        while i < tos.len()
            invariant
                0 <= i <= tos.len(),
                ts == crate::text::views_of(tos@),
                from_id@ == sanitize_spec(from@),
                out@ == start + edge_lines(from@, ts.take(i as int), arrow@, end@),
            decreases tos.len() - i,
        {
            let to_id = Self::sanitize_id(tos[i].as_str());
            out.append("    ");
            out.append(from_id.as_str());
            out.append(arrow);
            out.append(to_id.as_str());
            out.append(end);
            proof {
                assert(ts.take(i + 1).drop_last() =~= ts.take(i as int));
                assert(ts.take(i + 1).last() == tos@[i as int]@);
                assert(out@ =~= start + edge_lines(from@, ts.take(i + 1), arrow@, end@));
            }
            i = i + 1;
        }
        assert(ts.take(tos.len() as int) =~= ts);
    }

    /// Appends the lines of the edges of every entry of `m`.
    fn push_map_edges(out: &mut String, m: &Vec<(String, Vec<String>)>, arrow: &str, end: &str)
        ensures
            final(out)@ == old(out)@ + map_edges(key_map_view(m@), arrow@, end@),
    {
        let ghost start = out@;
        let ghost mv = key_map_view(m@);
        let mut i: usize = 0;
        assert(mv.take(0) =~= KeyMap::empty());
        while i < m.len()
            invariant
                0 <= i <= m.len(),
                mv == key_map_view(m@),
                out@ == start + map_edges(mv.take(i as int), arrow@, end@),
            decreases m.len() - i,
        {
            let ghost before = out@;
            Self::push_edge_lines(out, m[i].0.as_str(), &m[i].1, arrow, end);
            proof {
                assert(mv.take(i + 1).drop_last() =~= mv.take(i as int));
                assert(mv.take(i + 1).last() == mv[i as int]);
                assert(out@ =~= start + map_edges(mv.take(i + 1), arrow@, end@));
            }
            i = i + 1;
        }
        assert(mv.take(m.len() as int) =~= mv);
    }

    /// The edges of `g` as lists of keys.
    fn edge_map_of(g: &DependencyGraph) -> (r: Vec<(String, Vec<String>)>)
        ensures
            key_map_view(r@) == graph_edge_map(g.dependencies@),
    {
        let mut r: Vec<(String, Vec<String>)> = Vec::new();
        let mut i: usize = 0;
        while i < g.dependencies.len()
            invariant
                0 <= i <= g.dependencies.len(),
                key_map_view(r@) == graph_edge_map(g.dependencies@).take(i as int),
            decreases g.dependencies.len() - i,
        {
            let deps = &g.dependencies[i].1;
            let mut keys: Vec<String> = Vec::new();
            let mut j: usize = 0;
            while j < deps.len()
                invariant
                    0 <= j <= deps.len(),
                    crate::text::views_of(keys@) == keys_of(deps@).take(j as int),
                decreases deps.len() - j,
            {
                let k = deps[j].key();
                let ghost kb = keys@;
                keys.push(k);
                proof {
                    assert(crate::text::views_of(keys@) =~= crate::text::views_of(kb).push(k@));
                    assert(keys_of(deps@).take(j + 1) =~= keys_of(deps@).take(j as int).push(
                        deps@[j as int].key_view(),
                    ));
                }
                j = j + 1;
            }
            assert(keys_of(deps@).take(deps.len() as int) =~= keys_of(deps@));
            let ghost before = r@;
            let name = g.dependencies[i].0.clone();
            let ghost entry = (name, keys);
            r.push((name, keys));
            proof {
                assert(key_map_view(r@) =~= key_map_view(before).push((entry.0@, crate::text::views_of(entry.1@))));
                assert(graph_edge_map(g.dependencies@).take(i + 1) =~= graph_edge_map(g.dependencies@).take(
                    i as int,
                ).push(graph_edge_map(g.dependencies@)[i as int]));
            }
            i = i + 1;
        }
        assert(graph_edge_map(g.dependencies@).take(g.dependencies.len() as int) =~= graph_edge_map(
            g.dependencies@,
        ));
        r
    }

    /// Appends the node lines of the nodes of `g`.
    fn push_graph_nodes(out: &mut String, g: &DependencyGraph, open: &str, close: &str)
        ensures
            final(out)@ == old(out)@ + graph_nodes(g.nodes@, open@, close@),
    {
        let ghost start = out@;
        let mut i: usize = 0;
        assert(g.nodes@.take(0) =~= Seq::<DependencyNode>::empty());
        while i < g.nodes.len()
            invariant
                0 <= i <= g.nodes.len(),
                out@ == start + graph_nodes(g.nodes@.take(i as int), open@, close@),
            decreases g.nodes.len() - i,
        {
            let node = &g.nodes[i];
            let key = node.key();
            let mut label = node.project_name.clone();
            label.append(LABEL_BREAK);
            label.append(node.environment_name.as_str());
            label.append(")");
            Self::push_node_line(out, key.as_str(), label.as_str(), open, close);
            proof {
                assert(g.nodes@.take(i + 1).drop_last() =~= g.nodes@.take(i as int));
                assert(g.nodes@.take(i + 1).last() == g.nodes@[i as int]);
                assert(out@ =~= start + graph_nodes(g.nodes@.take(i + 1), open@, close@));
            }
            i = i + 1;
        }
        assert(g.nodes@.take(g.nodes.len() as int) =~= g.nodes@);
    }

    /// Appends the node lines of the keys `ks`.
    fn push_key_nodes(out: &mut String, ks: &Vec<String>, open: &str, close: &str)
        ensures
            final(out)@ == old(out)@ + key_nodes(crate::text::views_of(ks@), open@, close@),
    {
        let ghost start = out@;
        let ghost kv = crate::text::views_of(ks@);
        let mut i: usize = 0;
        assert(kv.take(0) =~= Seq::<Seq<char>>::empty());
        while i < ks.len()
            invariant
                0 <= i <= ks.len(),
                kv == crate::text::views_of(ks@),
                out@ == start + key_nodes(kv.take(i as int), open@, close@),
            decreases ks.len() - i,
        {
            let label = Self::label_of_key(ks[i].as_str());
            Self::push_node_line(out, ks[i].as_str(), label.as_str(), open, close);
            proof {
                assert(kv.take(i + 1).drop_last() =~= kv.take(i as int));
                assert(kv.take(i + 1).last() == ks@[i as int]@);
                assert(out@ =~= start + key_nodes(kv.take(i + 1), open@, close@));
            }
            i = i + 1;
        }
        assert(kv.take(ks.len() as int) =~= kv);
    }

    /// The Mermaid diagram of `g`: a node per environment, labelled with
    /// its project and environment, then an edge per dependency.
    pub fn generate_mermaid(g: &DependencyGraph) -> (r: String)
        ensures
            r@ == mermaid_text(*g),
    {
        let mut out = String::new();
        out.append(MERMAID_HEAD);
        Self::push_graph_nodes(&mut out, g, MERMAID_OPEN, MERMAID_CLOSE);
        out.append("\n");
        let m = Self::edge_map_of(g);
        Self::push_map_edges(&mut out, &m, MERMAID_ARROW, MERMAID_END);
        out
    }

    /// The GraphViz DOT file of `g`: a node per environment, labelled with
    /// its project and environment, then an edge per dependency.
    pub fn generate_dot(g: &DependencyGraph) -> (r: String)
        ensures
            r@ == dot_text(*g),
    {
        let mut out = String::new();
        out.append(DOT_HEAD);
        Self::push_graph_nodes(&mut out, g, DOT_OPEN, DOT_CLOSE);
        out.append("\n");
        let m = Self::edge_map_of(g);
        Self::push_map_edges(&mut out, &m, DOT_ARROW, DOT_END);
        out.append(DOT_FOOT);
        out
    }

    /// The Mermaid diagram of the environments `projects` (in order) with
    /// the dependencies `dependencies`.
    pub fn generate_mermaid_all_projects(projects: &Vec<String>, dependencies: &Vec<(String, Vec<String>)>) -> (r:
        String)
        ensures
            r@ == mermaid_all_text(crate::text::views_of(projects@), key_map_view(dependencies@)),
    {
        let mut out = String::new();
        out.append(MERMAID_HEAD);
        Self::push_key_nodes(&mut out, projects, MERMAID_OPEN, MERMAID_CLOSE);
        out.append("\n");
        Self::push_map_edges(&mut out, dependencies, MERMAID_ARROW, MERMAID_END);
        out
    }

    /// The DOT file of the environments `projects` (in order) with the
    /// dependencies `dependencies`.
    pub fn generate_dot_all_projects(projects: &Vec<String>, dependencies: &Vec<(String, Vec<String>)>) -> (r:
        String)
        ensures
            r@ == dot_all_text(crate::text::views_of(projects@), key_map_view(dependencies@)),
    {
        let mut out = String::new();
        out.append(DOT_HEAD);
        Self::push_key_nodes(&mut out, projects, DOT_OPEN, DOT_CLOSE);
        out.append("\n");
        Self::push_map_edges(&mut out, dependencies, DOT_ARROW, DOT_END);
        out.append(DOT_FOOT);
        out
    }
}


/// Whether some environment of `infos` has the key `k`.
pub open spec fn has_info_key(infos: Seq<InfoView>, k: Seq<char>) -> bool {
    exists|i: int| 0 <= i < infos.len() && #[trigger] info_key(infos[i]) == k
}

/// For the key of each environment of `infos` that depends on others, the
/// keys it depends on; an environment met later replaces an earlier one with
/// the same key.
pub open spec fn deps_map(infos: Seq<InfoView>) -> KeyMap
    decreases infos.len(),
{
    if infos.len() == 0 {
        Seq::empty()
    } else {
        let m = deps_map(infos.drop_last());
        if infos.last().3.len() > 0 {
            map_put(m, info_key(infos.last()), infos.last().3)
        } else {
            m
        }
    }
}

/// Whether `ks` holds the keys of the environments of `infos`, each once,
/// in ascending order.
pub open spec fn sorted_keys_of(ks: Seq<Seq<char>>, infos: Seq<InfoView>) -> bool {
    &&& is_sorted(ks)
    &&& ks.no_duplicates()
    &&& forall|k: Seq<char>| #[trigger] ks.contains(k) <==> has_info_key(infos, k)
}

/// Marks the last dependency of an environment.
pub const BRANCH_LAST: &'static str = "   └─";

/// Marks a dependency of an environment other than the last.
pub const BRANCH_MID: &'static str = "   ├─";

/// Marks an environment that depends on others.
pub const PROJECT_MARK: &'static str = "├─ ";

/// Marks an environment that depends on none.
pub const STANDALONE_MARK: &'static str = "• ";

/// The line of the dependency `ds[i]`.
pub open spec fn dep_branch(ds: Seq<Seq<char>>, i: int) -> LineView {
    LineView::Info((if i == ds.len() - 1 { BRANCH_LAST@ } else { BRANCH_MID@ }) + "  "@ + ds[i])
}

/// The lines of the dependencies `ds`, in order.
pub open spec fn dep_branches(ds: Seq<Seq<char>>) -> Seq<LineView> {
    Seq::new(ds.len(), |i: int| dep_branch(ds, i))
}

/// The lines of the environments of `ks` that have dependencies in `m`,
/// each with its dependencies and a blank line.
pub open spec fn with_block(ks: Seq<Seq<char>>, m: KeyMap) -> Seq<LineView>
    decreases ks.len(),
{
    if ks.len() == 0 {
        Seq::empty()
    } else {
        with_block(ks.drop_last(), m) + if has_key(m, ks.last()) {
            seq![LineView::Info(PROJECT_MARK@ + ks.last())] + dep_branches(list_of(m, ks.last()))
                + seq![LineView::Blank]
        } else {
            Seq::empty()
        }
    }
}

/// The lines of the environments of `ks` without dependencies in `m`.
pub open spec fn standalone_block(ks: Seq<Seq<char>>, m: KeyMap) -> Seq<LineView>
    decreases ks.len(),
{
    if ks.len() == 0 {
        Seq::empty()
    } else {
        standalone_block(ks.drop_last(), m) + if has_key(m, ks.last()) {
            Seq::empty()
        } else {
            seq![LineView::Info(STANDALONE_MARK@ + ks.last())]
        }
    }
}

/// How many environments of `ks` have dependencies in `m`.
pub open spec fn count_with(ks: Seq<Seq<char>>, m: KeyMap) -> nat
    decreases ks.len(),
{
    if ks.len() == 0 {
        0
    } else {
        count_with(ks.drop_last(), m) + if has_key(m, ks.last()) {
            1nat
        } else {
            0nat
        }
    }
}

/// `count_with` counts at most every key.
pub proof fn lemma_count_with_bound(ks: Seq<Seq<char>>, m: KeyMap)
    ensures
        count_with(ks, m) <= ks.len(),
    decreases ks.len(),
{
    if ks.len() > 0 {
        lemma_count_with_bound(ks.drop_last(), m);
    }
}

/// The text drawing of the environments `ks` (sorted) with the
/// dependencies `m`: those with dependencies, then the others, then the
/// counts.
pub open spec fn ascii_all_lines(ks: Seq<Seq<char>>, m: KeyMap) -> Seq<LineView> {
    let n = count_with(ks, m);
    (if n > 0 {
        seq![LineView::Info("Projects with dependencies:"@), LineView::Blank] + with_block(ks, m)
    } else {
        Seq::empty()
    }) + (if n < ks.len() {
        seq![LineView::Info("Standalone projects (no dependencies):"@), LineView::Blank]
            + standalone_block(ks, m) + seq![LineView::Blank]
    } else {
        Seq::empty()
    }) + seq![
        LineView::Info("Total projects: "@ + decimal(ks.len())),
        LineView::Info("Projects with dependencies: "@ + decimal(n)),
    ]
}

impl GraphCommand {
    /// The keys of the environments of `infos`, each once and in ascending
    /// order, and for each environment that depends on others the keys it
    /// depends on (the last environment with a key wins).
    pub fn collect_all_projects(infos: &Vec<EnvironmentInfo>) -> (r: (Vec<String>, Vec<(String, Vec<String>)>))
        ensures
            sorted_keys_of(views_of(r.0@), infos_view(infos@)),
            key_map_view(r.1@) == deps_map(infos_view(infos@)),
    {
        let ghost iv = infos_view(infos@);
        let mut keys: Vec<String> = Vec::new();
        let mut m: Vec<(String, Vec<String>)> = Vec::new();
        let mut i: usize = 0;
        assert(iv.take(0) =~= Seq::<InfoView>::empty());
        while i < infos.len()
            invariant
                0 <= i <= infos.len(),
                iv == infos_view(infos@),
                views_of(keys@).no_duplicates(),
                forall|k: Seq<char>| #[trigger] views_of(keys@).contains(k) <==> has_info_key(iv.take(i as int), k),
                key_map_view(m@) == deps_map(iv.take(i as int)),
            decreases infos.len() - i,
        {
            let info = &infos[i];
            let key = concat3(info.name.as_str(), ":", info.environment.as_str());
            let ghost kb = views_of(keys@);
            proof {
                assert(iv[i as int] == info@);
                assert(iv.take(i + 1).drop_last() =~= iv.take(i as int));
                assert(iv.take(i + 1).last() == iv[i as int]);
                assert(info_key(iv[i as int]) == key@);
            }
            if !contains_str(&keys, key.as_str()) {
                keys.push(key.clone());
                assert(views_of(keys@) =~= kb.push(key@));
            } else {
                assert(views_of(keys@) == kb);
            }
            proof {
                assert forall|k: Seq<char>| #[trigger] views_of(keys@).contains(k) <==> has_info_key(
                    iv.take(i + 1),
                    k,
                ) by {
                    if has_info_key(iv.take(i + 1), k) {
                        let t = choose|t: int| 0 <= t < iv.take(i + 1).len() && #[trigger] info_key(iv.take(i + 1)[t]) == k;
                        if t < i {
                            assert(iv.take(i as int)[t] == iv.take(i + 1)[t]);
                            assert(has_info_key(iv.take(i as int), k));
                            assert(kb.contains(k));
                            if views_of(keys@) != kb {
                                assert(views_of(keys@)[kb.len() - 1 - 0 + 0] == views_of(keys@)[kb.len() - 1]);
                                let w = choose|w: int| 0 <= w < kb.len() && #[trigger] kb[w] == k;
                                assert(views_of(keys@)[w] == k);
                            }
                        } else {
                            assert(k == key@);
                            if views_of(keys@) != kb {
                                assert(views_of(keys@)[kb.len() as int] == key@);
                            }
                        }
                    }
                    if views_of(keys@).contains(k) {
                        let w = choose|w: int| 0 <= w < views_of(keys@).len() && #[trigger] views_of(keys@)[w] == k;
                        if w < kb.len() {
                            assert(kb[w] == k);
                            assert(kb.contains(k));
                            let t = choose|t: int| 0 <= t < iv.take(i as int).len() && #[trigger] info_key(iv.take(i as int)[t]) == k;
                            assert(iv.take(i + 1)[t] == iv.take(i as int)[t]);
                        } else {
                            assert(k == key@);
                            assert(iv.take(i + 1)[i as int] == iv[i as int]);
                        }
                    }
                }
            }
            if info.dependencies.len() > 0 {
                let copy = copy_strings(&info.dependencies);
                put(&mut m, key, copy);
            }
            i = i + 1;
        }
        assert(iv.take(infos.len() as int) =~= iv);
        let ghost before = views_of(keys@);
        proof {
            before.lemma_multiset_has_no_duplicates();
        }
        sort_strings(&mut keys);
        proof {
            let after = views_of(keys@);
            assert forall|k: Seq<char>| after.to_multiset().contains(k) implies after.to_multiset().count(k) == 1 by {
                vstd::seq_lib::to_multiset_contains(after, k);
                vstd::seq_lib::to_multiset_contains(before, k);
            }
            after.lemma_multiset_has_no_duplicates_conv();
            assert forall|k: Seq<char>| #[trigger] after.contains(k) <==> has_info_key(iv, k) by {
                vstd::seq_lib::to_multiset_contains(after, k);
                vstd::seq_lib::to_multiset_contains(before, k);
            }
        }
        (keys, m)
    }

    /// The text drawing of the environments `projects` (sorted) with the
    /// dependencies `dependencies`.
    pub fn render_ascii_all_projects(projects: &Vec<String>, dependencies: &Vec<(String, Vec<String>)>) -> (r: Vec<
        OutputLine,
    >)
        ensures
            lines_view(r@) == ascii_all_lines(views_of(projects@), key_map_view(dependencies@)),
    {
        let ghost ks = views_of(projects@);
        let ghost m = key_map_view(dependencies@);
        let mut with_lines: Vec<OutputLine> = Vec::new();
        let mut alone_lines: Vec<OutputLine> = Vec::new();
        let mut n: usize = 0;
        let mut i: usize = 0;
        assert(ks.take(0) =~= Seq::<Seq<char>>::empty());
        while i < projects.len()
            invariant
                0 <= i <= projects.len(),
                ks == views_of(projects@),
                m == key_map_view(dependencies@),
                n == count_with(ks.take(i as int), m),
                n <= i,
                lines_view(with_lines@) == with_block(ks.take(i as int), m),
                lines_view(alone_lines@) == standalone_block(ks.take(i as int), m),
            decreases projects.len() - i,
        {
            let p = &projects[i];
            proof {
                assert(ks.take(i + 1).drop_last() =~= ks.take(i as int));
                assert(ks.take(i + 1).last() == p@);
            }
            let ghost w0 = lines_view(with_lines@);
            let ghost a0 = lines_view(alone_lines@);
            match find_key(dependencies, p.as_str()) {
                Some(idx) => {
                    let ds = &dependencies[idx].1;
                    let ghost dv = views_of(ds@);
                    emit(&mut with_lines, OutputLine::Info(concat(PROJECT_MARK, p.as_str())));
                    let mut j: usize = 0;
                    while j < ds.len()
                        invariant
                            0 <= j <= ds.len(),
                            dv == views_of(ds@),
                            lines_view(with_lines@) == w0 + seq![LineView::Info(PROJECT_MARK@ + p@)]
                                + dep_branches(dv).take(j as int),
                        decreases ds.len() - j,
                    {
                        let prefix = if j == ds.len() - 1 {
                            BRANCH_LAST
                        } else {
                            BRANCH_MID
                        };
                        let line = concat3(prefix, "  ", ds[j].as_str());
                        emit(&mut with_lines, OutputLine::Info(line));
                        assert(dep_branches(dv).take(j + 1) =~= dep_branches(dv).take(j as int).push(
                            dep_branch(dv, j as int),
                        ));
                        j = j + 1;
                    }
                    assert(dep_branches(dv).take(ds.len() as int) =~= dep_branches(dv));
                    emit(&mut with_lines, OutputLine::Blank);
                    n = n + 1;
                },
                None => {
                    emit(&mut alone_lines, OutputLine::Info(concat(STANDALONE_MARK, p.as_str())));
                },
            }
            i = i + 1;
        }
        assert(ks.take(projects.len() as int) =~= ks);
        let mut out: Vec<OutputLine> = Vec::new();
        let ghost wl = with_lines@;
        let ghost al = alone_lines@;
        if n > 0 {
            emit(&mut out, OutputLine::Info("Projects with dependencies:".to_owned()));
            emit(&mut out, OutputLine::Blank);
            let ghost b1 = out@;
            out.append(&mut with_lines);
            assert(lines_view(out@) =~= lines_view(b1) + lines_view(wl));
        }
        let ghost o1 = lines_view(out@);
        if n < projects.len() {
            emit(&mut out, OutputLine::Info("Standalone projects (no dependencies):".to_owned()));
            emit(&mut out, OutputLine::Blank);
            let ghost b2 = out@;
            out.append(&mut alone_lines);
            assert(lines_view(out@) =~= lines_view(b2) + lines_view(al));
            emit(&mut out, OutputLine::Blank);
        }
        let ghost o2 = lines_view(out@);
        emit(&mut out, OutputLine::Info(concat("Total projects: ", usize_to_string(projects.len()).as_str())));
        emit(&mut out, OutputLine::Info(concat("Projects with dependencies: ", usize_to_string(n).as_str())));
        proof {
            let w = with_block(ks, m);
            let a = standalone_block(ks, m);
            assert(o1 =~= (if n > 0 { seq![LineView::Info("Projects with dependencies:"@), LineView::Blank] + w } else { Seq::<LineView>::empty() }));
            assert(o2 =~= o1 + (if n < ks.len() { seq![LineView::Info("Standalone projects (no dependencies):"@), LineView::Blank] + a + seq![LineView::Blank] } else { Seq::<LineView>::empty() }));
            assert(lines_view(out@) =~= ascii_all_lines(ks, m));
        }
        out
    }
}


/// The lines that show a diagram on screen.
pub open spec fn shown_diagram(text: Seq<char>, mermaid: bool) -> Seq<LineView> {
    if mermaid {
        seq![
            LineView::Blank,
            LineView::Info("Mermaid Diagram:"@),
            LineView::Info("```mermaid"@),
            LineView::Info(text),
            LineView::Info("```"@),
        ]
    } else {
        seq![LineView::Blank, LineView::Info("GraphViz DOT:"@), LineView::Info(text)]
    }
}

/// The message after a diagram was written to a file.
pub open spec fn written_message(mermaid: bool) -> Seq<char> {
    if mermaid {
        "Mermaid graph written to: "@
    } else {
        "GraphViz DOT file written to: "@
    }
}

/// The error of a diagram that could not be written.
pub open spec fn write_failed_message(mermaid: bool) -> Seq<char> {
    if mermaid {
        "Failed to write Mermaid output"@
    } else {
        "Failed to write DOT output"@
    }
}

/// Whether the diagram `text` was shown (no `file`) or written to `file`,
/// taking the file system from `v0` to `v1`, with the lines `ls` and the
/// outcome `res`.
pub open spec fn diagram_done(
    v0: Seq<(Seq<char>, Option<Seq<char>>)>,
    v1: Seq<(Seq<char>, Option<Seq<char>>)>,
    text: Seq<char>,
    mermaid: bool,
    file: Option<Seq<char>>,
    ls: Seq<LineView>,
    res: Result<(), String>,
) -> bool {
    match file {
        None => v1 == v0 && res is Ok && ls == shown_diagram(text, mermaid),
        Some(f) => {
            &&& (res is Ok <==> write_ok(v0, f))
            &&& res is Ok ==> written(v0, v1, f, text) && ls == seq![
                LineView::Success(written_message(mermaid) + f),
            ]
            &&& res matches Err(e) ==> v1 == v0 && ls.len() == 0 && e@ == write_failed_message(mermaid)
        },
    }
}

/// The format asked for: `ascii` when none is.
pub open spec fn format_name(format: Option<Seq<char>>) -> Seq<char> {
    match format {
        Some(f) => f,
        None => "ascii"@,
    }
}

/// Whether a graph was rendered in `format` (its text drawing `ascii`, its
/// Mermaid diagram `mermaid`, its DOT file `dot`), with the lines `ls` and
/// the outcome `res`, taking the file system from `v0` to `v1`.
pub open spec fn rendered(
    v0: Seq<(Seq<char>, Option<Seq<char>>)>,
    v1: Seq<(Seq<char>, Option<Seq<char>>)>,
    format: Option<Seq<char>>,
    file: Option<Seq<char>>,
    ascii: Seq<LineView>,
    mermaid: Seq<char>,
    dot: Seq<char>,
    ls: Seq<LineView>,
    res: Result<(), String>,
) -> bool {
    let n = format_name(format);
    if n == "ascii"@ {
        v1 == v0 && res is Ok && ls == ascii
    } else if n == "mermaid"@ {
        diagram_done(v0, v1, mermaid, true, file, ls, res)
    } else if n == "dot"@ || n == "graphviz"@ {
        diagram_done(v0, v1, dot, false, file, ls, res)
    } else {
        v1 == v0 && ls.len() == 0 && (res matches Err(e) && e@ == "Unsupported format: "@ + n)
    }
}

/// The text drawing of `g`: its tree, line by line, then the number of its
/// nodes.
pub open spec fn ascii_graph_lines(g: DependencyGraph) -> Seq<LineView> {
    lines_spec(g.tree_text()).map_values(|l: Seq<char>| LineView::Info(l)) + seq![
        LineView::Blank,
        LineView::Info("Total nodes: "@ + decimal(g.nodes@.len())),
    ]
}

/// Whether every environment of the infrastructure at `root` of `v0` was
/// drawn in `format`, after the heading lines.
pub open spec fn all_projects_done(
    v0: Seq<(Seq<char>, Option<Seq<char>>)>,
    v1: Seq<(Seq<char>, Option<Seq<char>>)>,
    root: Seq<char>,
    format: Option<Seq<char>>,
    file: Option<Seq<char>>,
    ls: Seq<LineView>,
    res: Result<(), String>,
) -> bool {
    &&& ls.len() >= 2
    &&& ls.take(2) == seq![LineView::Subsection("All Projects"@), LineView::Blank]
    &&& {
        ||| res is Err && v1 == v0 && ls.len() == 2
        ||| exists|refs: Seq<ProjectReference>|
            #[trigger] all_found_projects(v0, join_spec(root, "projects"@), root, refs) && {
                &&& refs.len() == 0 ==> v1 == v0 && res is Ok && ls.skip(2) == seq![
                    LineView::Dimmed("No projects found in this infrastructure."@),
                ]
                &&& refs.len() > 0 ==> exists|ks: Seq<Seq<char>>|
                    #[trigger] sorted_keys_of(ks, all_infos(v0, root, refs)) && rendered(
                        v0,
                        v1,
                        format,
                        file,
                        ascii_all_lines(ks, deps_map(all_infos(v0, root, refs))),
                        mermaid_all_text(ks, deps_map(all_infos(v0, root, refs))),
                        dot_all_text(ks, deps_map(all_infos(v0, root, refs))),
                        ls.skip(2),
                        res,
                    )
            }
    }
}

/// Whether the graph of the environment in `env_dir` of `v0` was drawn in
/// `format`.
pub open spec fn single_done(
    v0: Seq<(Seq<char>, Option<Seq<char>>)>,
    v1: Seq<(Seq<char>, Option<Seq<char>>)>,
    env_dir: Seq<char>,
    format: Option<Seq<char>>,
    file: Option<Seq<char>>,
    ls: Seq<LineView>,
    res: Result<(), String>,
) -> bool {
    match environment_at(v0, env_dir) {
        None => v1 == v0 && ls.len() == 0 && (res matches Err(e) && e@
            == "Failed to load environment resource"@),
        Some(e) => {
            &&& ls.len() >= 2
            &&& ls.take(2) == seq![
                LineView::Subsection("Project: "@ + e.2 + " ("@ + e.3 + ")"@),
                LineView::Blank,
            ]
            &&& e.4.len() == 0 ==> v1 == v0 && res is Ok && ls.skip(2) == seq![
                LineView::Dimmed("This project has no dependencies."@),
            ]
            &&& e.4.len() > 0 ==> {
                ||| v1 == v0 && ls.len() == 2 && (res matches Err(m) && m@
                    == "Failed to build dependency graph"@)
                ||| exists|g: DependencyGraph|
                    #[trigger] g.built_from(v0) && g.root.project_name@ == e.2
                        && g.root.environment_name@ == e.3 && g.root.environment_path@ == env_dir
                        && rendered(
                        v0,
                        v1,
                        format,
                        file,
                        ascii_graph_lines(g),
                        mermaid_text(g),
                        dot_text(g),
                        ls.skip(2),
                        res,
                    )
            }
        },
    }
}

impl GraphCommand {
    /// Shows the diagram `text` on screen, or writes it to `output_file`.
    fn show_diagram(fs: &mut MemoryFileSystem, text: String, mermaid: bool, output_file: Option<&str>) -> (r: (
        Vec<OutputLine>,
        Result<(), String>,
    ))
        ensures
            diagram_done(old(fs)@, final(fs)@, text@, mermaid, opt_view(output_file), lines_view(r.0@), r.1),
    {
        let mut out: Vec<OutputLine> = Vec::new();
        match output_file {
            Some(file) => {
                match fs.write(file, text.as_str()) {
                    Ok(()) => {
                        let msg = if mermaid {
                            "Mermaid graph written to: "
                        } else {
                            "GraphViz DOT file written to: "
                        };
                        emit(&mut out, OutputLine::Success(concat(msg, file)));
                        assert(msg@ == written_message(mermaid));
                        assert(lines_view(out@) =~= seq![LineView::Success(written_message(mermaid) + file@)]);
                        assert(written(old(fs)@, fs@, file@, text@));
                        (out, Ok(()))
                    },
                    Err(_) => {
                        let msg = if mermaid {
                            "Failed to write Mermaid output"
                        } else {
                            "Failed to write DOT output"
                        };
                        assert(msg@ == write_failed_message(mermaid));
                        (out, Err(msg.to_owned()))
                    },
                }
            },
            None => {
                emit(&mut out, OutputLine::Blank);
                if mermaid {
                    emit(&mut out, OutputLine::Info("Mermaid Diagram:".to_owned()));
                    emit(&mut out, OutputLine::Info("```mermaid".to_owned()));
                    emit(&mut out, OutputLine::Info(text));
                    emit(&mut out, OutputLine::Info("```".to_owned()));
                } else {
                    emit(&mut out, OutputLine::Info("GraphViz DOT:".to_owned()));
                    emit(&mut out, OutputLine::Info(text));
                }
                assert(lines_view(out@) =~= shown_diagram(text@, mermaid));
                (out, Ok(()))
            },
        }
    }

    /// Draws the graph `g` in `format` (`ascii` when none is given:
    /// `ascii`, `mermaid`, `dot` or `graphviz`), on screen or into
    /// `output_file`.
    pub fn render_graph(
        fs: &mut MemoryFileSystem,
        g: &DependencyGraph,
        format: Option<&str>,
        output_file: Option<&str>,
    ) -> (r: (Vec<OutputLine>, Result<(), String>))
        ensures
            rendered(
                old(fs)@,
                final(fs)@,
                opt_view(format),
                opt_view(output_file),
                ascii_graph_lines(*g),
                mermaid_text(*g),
                dot_text(*g),
                lines_view(r.0@),
                r.1,
            ),
    {
        let format_type = match format {
            Some(f) => f,
            None => "ascii",
        };
        if str_eq(format_type, "ascii") {
            let tree = g.format_tree();
            let tl = lines(tree.as_str());
            let mut out: Vec<OutputLine> = Vec::new();
            let mut i: usize = 0;
            let ghost tv = lines_spec(g.tree_text());
            while i < tl.len()
                invariant
                    0 <= i <= tl.len(),
                    views_of(tl@) == tv,
                    tv == lines_spec(g.tree_text()),
                    lines_view(out@) == tv.map_values(|l: Seq<char>| LineView::Info(l)).take(i as int),
                decreases tl.len() - i,
            {
                emit(&mut out, OutputLine::Info(tl[i].clone()));
                assert(tv.map_values(|l: Seq<char>| LineView::Info(l)).take(i + 1) =~= tv.map_values(
                    |l: Seq<char>| LineView::Info(l),
                ).take(i as int).push(LineView::Info(tv[i as int])));
                i = i + 1;
            }
            assert(tv.map_values(|l: Seq<char>| LineView::Info(l)).take(tl.len() as int) =~= tv.map_values(
                |l: Seq<char>| LineView::Info(l),
            ));
            emit(&mut out, OutputLine::Blank);
            emit(&mut out, OutputLine::Info(concat("Total nodes: ", usize_to_string(g.node_count()).as_str())));
            assert(lines_view(out@) =~= ascii_graph_lines(*g));
            (out, Ok(()))
        } else if str_eq(format_type, "mermaid") {
            let text = Self::generate_mermaid(g);
            Self::show_diagram(fs, text, true, output_file)
        } else if str_eq(format_type, "dot") || str_eq(format_type, "graphviz") {
            let text = Self::generate_dot(g);
            Self::show_diagram(fs, text, false, output_file)
        } else {
            (Vec::new(), Err(concat("Unsupported format: ", format_type)))
        }
    }

    /// Draws the environments `projects` (sorted) with the dependencies
    /// `dependencies` in `format`, on screen or into `output_file`.
    pub fn render_all_projects_graph(
        fs: &mut MemoryFileSystem,
        projects: &Vec<String>,
        dependencies: &Vec<(String, Vec<String>)>,
        format: Option<&str>,
        output_file: Option<&str>,
    ) -> (r: (Vec<OutputLine>, Result<(), String>))
        ensures
            rendered(
                old(fs)@,
                final(fs)@,
                opt_view(format),
                opt_view(output_file),
                ascii_all_lines(views_of(projects@), key_map_view(dependencies@)),
                mermaid_all_text(views_of(projects@), key_map_view(dependencies@)),
                dot_all_text(views_of(projects@), key_map_view(dependencies@)),
                lines_view(r.0@),
                r.1,
            ),
    {
        let format_type = match format {
            Some(f) => f,
            None => "ascii",
        };
        if str_eq(format_type, "ascii") {
            (Self::render_ascii_all_projects(projects, dependencies), Ok(()))
        } else if str_eq(format_type, "mermaid") {
            let text = Self::generate_mermaid_all_projects(projects, dependencies);
            Self::show_diagram(fs, text, true, output_file)
        } else if str_eq(format_type, "dot") || str_eq(format_type, "graphviz") {
            let text = Self::generate_dot_all_projects(projects, dependencies);
            Self::show_diagram(fs, text, false, output_file)
        } else {
            (Vec::new(), Err(concat("Unsupported format: ", format_type)))
        }
    }
}

/// The plain value of an optional text.
pub open spec fn opt_view(o: Option<&str>) -> Option<Seq<char>> {
    match o {
        Some(s) => Some(s@),
        None => None,
    }
}


/// Whether `envs` are the environments of the project in `project_dir` of
/// `v`, in ascending order.
pub open spec fn environments_found(v: Seq<(Seq<char>, Option<Seq<char>>)>, project_dir: Seq<char>, envs: Seq<Seq<char>>) -> bool {
    &&& is_sorted(envs)
    &&& fs_has(v, environments_dir_of(project_dir)) ==> envs.to_multiset() == environment_names(
        v,
        project_dir,
    ).to_multiset()
    &&& !fs_has(v, environments_dir_of(project_dir)) ==> envs.len() == 0
}

/// The environment to draw among `envs`: the only one, or else the one
/// chosen, when it is one of them.
pub open spec fn env_choice(envs: Seq<Seq<char>>, selected: Option<Seq<char>>) -> Option<Seq<char>> {
    if envs.len() == 1 {
        Some(envs[0])
    } else {
        match selected {
            Some(s) => if envs.len() > 1 && envs.contains(s) {
                Some(s)
            } else {
                None
            },
            None => None,
        }
    }
}

/// Whether an environment of the project in `project_dir` of `v0` was
/// chosen (by `selected` when there are several) and its graph drawn.
pub open spec fn selection_done(
    v0: Seq<(Seq<char>, Option<Seq<char>>)>,
    v1: Seq<(Seq<char>, Option<Seq<char>>)>,
    project_dir: Seq<char>,
    selected: Option<Seq<char>>,
    format: Option<Seq<char>>,
    file: Option<Seq<char>>,
    ls: Seq<LineView>,
    res: Result<(), String>,
) -> bool {
    if fs_has(v0, environments_dir_of(project_dir)) && !fs_is_dir(v0, environments_dir_of(project_dir)) {
        v1 == v0 && ls.len() == 0 && res is Err
    } else {
        exists|envs: Seq<Seq<char>>|
            #[trigger] environments_found(v0, project_dir, envs) && match env_choice(envs, selected) {
                None => v1 == v0 && ls.len() == 0 && (res matches Err(e) && e@ == if envs.len() == 0 {
                    "No environments found in this project"@
                } else {
                    "Failed to select environment"@
                }),
                Some(c) => single_done(
                    v0,
                    v1,
                    join_spec(join_spec(project_dir, "environments"@), c),
                    format,
                    file,
                    ls,
                    res,
                ),
            }
    }
}

/// The hint shown outside a project.
pub open spec fn not_in_project_message() -> Seq<char> {
    "Not in a project context. Use --all to graph all projects, or navigate to a project directory."@
}

/// The error when there is no infrastructure.
pub open spec fn no_infrastructure_message() -> Seq<char> {
    "Infrastructure is required. Run 'pmp init' first."@
}

/// Whether the `graph` command run in `current_dir` of `v0` (on `path`
/// when given) showed the lines `ls`, ended with `res` and left `v1`:
/// every environment when `show_all`, else the environment or project
/// that `path` is, else every environment after a hint.
pub open spec fn graph_done(
    v0: Seq<(Seq<char>, Option<Seq<char>>)>,
    v1: Seq<(Seq<char>, Option<Seq<char>>)>,
    current_dir: Seq<char>,
    path: Option<Seq<char>>,
    format: Option<Seq<char>>,
    file: Option<Seq<char>>,
    show_all: bool,
    selected: Option<Seq<char>>,
    ls: Seq<LineView>,
    res: Result<(), String>,
) -> bool {
    &&& ls.len() >= 1
    &&& ls[0] == LineView::Section("Dependency Graph"@)
    &&& if no_collection_above(v0, current_dir) {
        v1 == v0 && ls.len() == 1 && (res matches Err(e) && e@ == no_infrastructure_message())
    } else {
        exists|root: Seq<char>|
            #[trigger] is_nearest_collection(v0, current_dir, root) && (infrastructure_at(v0, root) matches Some(
                iv,
            ) && ls.len() >= 3 && ls[1] == LineView::KeyValue("Infrastructure"@, iv.0) && ls[2]
                == LineView::Blank && {
                let cur = match path {
                    Some(p) => p,
                    None => current_dir,
                };
                let rest = ls.skip(3);
                if show_all {
                    all_projects_done(v0, v1, root, format, file, rest, res)
                } else if fs_has(v0, environment_file_of(cur)) {
                    single_done(v0, v1, cur, format, file, rest, res)
                } else if fs_has(v0, project_file_of(cur)) {
                    selection_done(v0, v1, cur, selected, format, file, rest, res)
                } else {
                    rest.len() >= 2 && rest.take(2) == seq![
                        LineView::Dimmed(not_in_project_message()),
                        LineView::Blank,
                    ] && all_projects_done(v0, v1, root, format, file, rest.skip(2), res)
                }
            })
    }
}

impl GraphCommand {
    /// Draws the dependency graph of the environment in `env_path`.
    pub fn graph_single_project(
        fs: &mut MemoryFileSystem,
        env_path: &str,
        format: Option<&str>,
        output_file: Option<&str>,
    ) -> (r: (Vec<OutputLine>, Result<(), String>))
        ensures
            single_done(
                old(fs)@,
                final(fs)@,
                env_path@,
                opt_view(format),
                opt_view(output_file),
                lines_view(r.0@),
                r.1,
            ),
    {
        let env_file = join(env_path, ".pmp.environment.yaml");
        let resource = match EnvironmentResource::from_file(&*fs, env_file.as_str()) {
            Ok(r) => r,
            Err(_) => {
                proof {
                    reveal_strlit("Failed to load environment resource");
                }
                return (Vec::new(), Err("Failed to load environment resource".to_owned()));
            },
        };
        assert(environment_at(fs@, env_path@) == Some(resource@));
        let mut out: Vec<OutputLine> = Vec::new();
        let mut heading = "Project: ".to_owned();
        heading.append(resource.metadata.name.as_str());
        heading.append(" (");
        heading.append(resource.metadata.environment_name.as_str());
        heading.append(")");
        let ghost hv = heading@;
        assert(lines_view(out@) =~= Seq::<LineView>::empty());
        emit(&mut out, OutputLine::Subsection(heading));
        emit(&mut out, OutputLine::Blank);
        let ghost head = lines_view(out@);
        assert(head =~= seq![LineView::Subsection(hv), LineView::Blank]);
        assert(crate::resources::deps_view(resource.spec.dependencies@).len() == resource.spec.dependencies@.len());
        if resource.spec.dependencies.len() == 0 {
            emit(&mut out, OutputLine::Dimmed("This project has no dependencies.".to_owned()));
            assert(lines_view(out@).skip(2) =~= seq![LineView::Dimmed("This project has no dependencies."@)]);
            assert(lines_view(out@).take(2) =~= head);
            return (out, Ok(()));
        }
        assert(lines_view(out@).take(2) =~= head);
        let graph = match DependencyGraph::build(
            &*fs,
            env_path,
            resource.metadata.name.as_str(),
            resource.metadata.environment_name.as_str(),
        ) {
            Ok(g) => g,
            Err(_) => {
                return (out, Err("Failed to build dependency graph".to_owned()));
            },
        };
        let ghost v0 = fs@;
        let (mut ls, res) = Self::render_graph(fs, &graph, format, output_file);
        let ghost lv = lines_view(ls@);
        out.append(&mut ls);
        proof {
            assert(lines_view(out@) =~= head + lv);
            assert(lines_view(out@).take(2) =~= head);
            assert(lines_view(out@).skip(2) =~= lv);
            assert(graph.built_from(v0));
        }
        (out, res)
    }

    /// Draws the dependencies of every environment of every project of the
    /// infrastructure at `infrastructure_root`. Problems with single
    /// project files go to `warnings`.
    pub fn graph_all_projects(
        fs: &mut MemoryFileSystem,
        warnings: &mut Vec<String>,
        infrastructure_root: &str,
        format: Option<&str>,
        output_file: Option<&str>,
    ) -> (r: (Vec<OutputLine>, Result<(), String>))
        ensures
            all_projects_done(
                old(fs)@,
                final(fs)@,
                infrastructure_root@,
                opt_view(format),
                opt_view(output_file),
                lines_view(r.0@),
                r.1,
            ),
    {
        let mut out: Vec<OutputLine> = Vec::new();
        assert(lines_view(out@) =~= Seq::<LineView>::empty());
        emit(&mut out, OutputLine::Subsection("All Projects".to_owned()));
        emit(&mut out, OutputLine::Blank);
        let ghost head = lines_view(out@);
        assert(head =~= seq![LineView::Subsection("All Projects"@), LineView::Blank]);
        let ghost v0 = fs@;
        let projects = match CollectionDiscovery::discover_projects(&*fs, warnings, infrastructure_root) {
            Ok(p) => p,
            Err(e) => {
                assert(lines_view(out@).take(2) =~= head);
                return (out, Err(e));
            },
        };
        if projects.len() == 0 {
            emit(&mut out, OutputLine::Dimmed("No projects found in this infrastructure.".to_owned()));
            proof {
                assert(lines_view(out@).take(2) =~= head);
                assert(lines_view(out@).skip(2) =~= seq![LineView::Dimmed("No projects found in this infrastructure."@)]);
                assert(all_found_projects(v0, join_spec(infrastructure_root@, "projects"@), infrastructure_root@, projects@));
            }
            return (out, Ok(()));
        }
        let infos = scan_environments(&*fs, infrastructure_root, projects.as_slice());
        let (keys, deps) = Self::collect_all_projects(&infos);
        let (mut ls, res) = Self::render_all_projects_graph(fs, &keys, &deps, format, output_file);
        let ghost lv = lines_view(ls@);
        out.append(&mut ls);
        proof {
            assert(lines_view(out@) =~= head + lv);
            assert(lines_view(out@).take(2) =~= head);
            assert(lines_view(out@).skip(2) =~= lv);
            assert(all_found_projects(v0, join_spec(infrastructure_root@, "projects"@), infrastructure_root@, projects@));
            assert(sorted_keys_of(views_of(keys@), all_infos(v0, infrastructure_root@, projects@)));
        }
        (out, res)
    }

    /// Draws the graph of an environment of the project in `project_path`:
    /// the only one, or else `selected`, which must be one of them.
    pub fn graph_project_with_env_selection(
        fs: &mut MemoryFileSystem,
        project_path: &str,
        selected: Option<&str>,
        format: Option<&str>,
        output_file: Option<&str>,
    ) -> (r: (Vec<OutputLine>, Result<(), String>))
        ensures
            selection_done(
                old(fs)@,
                final(fs)@,
                project_path@,
                opt_view(selected),
                opt_view(format),
                opt_view(output_file),
                lines_view(r.0@),
                r.1,
            ),
    {
        let envs = match CollectionDiscovery::discover_environments(&*fs, project_path) {
            Ok(e) => e,
            Err(e) => {
                return (Vec::new(), Err(e));
            },
        };
        let ghost ev = views_of(envs@);
        assert(environments_found(fs@, project_path@, ev));
        if envs.len() == 0 {
            proof {
                reveal_strlit("No environments found in this project");
            }
            return (Vec::new(), Err("No environments found in this project".to_owned()));
        }
        let chosen = if envs.len() == 1 {
            envs[0].clone()
        } else {
            match selected {
                Some(s) => {
                    if contains_str(&envs, s) {
                        s.to_owned()
                    } else {
                        return (Vec::new(), Err("Failed to select environment".to_owned()));
                    }
                },
                None => {
                    return (Vec::new(), Err("Failed to select environment".to_owned()));
                },
            }
        };
        assert(env_choice(ev, opt_view(selected)) == Some(chosen@));
        let environments_dir = join(project_path, "environments");
        let env_path = join(environments_dir.as_str(), chosen.as_str());
        Self::graph_single_project(fs, env_path.as_str(), format, output_file)
    }

    /// The `graph` command run in `current_dir`: draws every environment
    /// of the infrastructure when `show_all`; else, for `path` (or
    /// `current_dir`), the graph of the environment it is, or of an
    /// environment of the project it is (`selected` picks one when there
    /// are several); else every environment, after a hint. `format` is
    /// `ascii` (the default), `mermaid`, `dot` or `graphviz`; diagrams go to
    /// `output_file` when one is given. Problems with single project files go
    /// to `warnings`.
    pub fn execute(
        fs: &mut MemoryFileSystem,
        warnings: &mut Vec<String>,
        current_dir: &str,
        path: Option<&str>,
        format: Option<&str>,
        output_file: Option<&str>,
        show_all: bool,
        selected: Option<&str>,
    ) -> (r: (Vec<OutputLine>, Result<(), String>))
        ensures
            graph_done(
                old(fs)@,
                final(fs)@,
                current_dir@,
                opt_view(path),
                opt_view(format),
                opt_view(output_file),
                show_all,
                opt_view(selected),
                lines_view(r.0@),
                r.1,
            ),
    {
        let mut out: Vec<OutputLine> = Vec::new();
        assert(lines_view(out@) =~= Seq::<LineView>::empty());
        emit(&mut out, OutputLine::Section("Dependency Graph".to_owned()));
        assert(lines_view(out@) =~= seq![LineView::Section("Dependency Graph"@)]);
        let ghost v0 = fs@;
        let found = match CollectionDiscovery::find_collection_in_path(&*fs, current_dir) {
            Ok(f) => f,
            Err(e) => {
                return (out, Err(e));
            },
        };
        let (infrastructure, root) = match found {
            Some(x) => x,
            None => {
                proof {
                    reveal_strlit("Infrastructure is required. Run 'pmp init' first.");
                }
                return (out, Err("Infrastructure is required. Run 'pmp init' first.".to_owned()));
            },
        };
        proof {
            crate::discovery::lemma_nearest_excludes_none(v0, current_dir@, root@);
        }
        let name = infrastructure.metadata.name.clone();
        let ghost nm = name@;
        assert(nm == infrastructure_view(infrastructure).0);
        emit(&mut out, OutputLine::KeyValue("Infrastructure".to_owned(), name));
        emit(&mut out, OutputLine::Blank);
        let ghost head = lines_view(out@);
        assert(head =~= seq![
            LineView::Section("Dependency Graph"@),
            LineView::KeyValue("Infrastructure"@, nm),
            LineView::Blank,
        ]);
        assert(infrastructure_at(v0, root@) == Some(infrastructure_view(infrastructure)));
        let cur = match path {
            Some(p) => p,
            None => current_dir,
        };
        let (mut ls, res) = if show_all {
            Self::graph_all_projects(fs, warnings, root.as_str(), format, output_file)
        } else if fs.path_exists(join(cur, ".pmp.environment.yaml").as_str()) {
            Self::graph_single_project(fs, cur, format, output_file)
        } else if fs.path_exists(join(cur, ".pmp.project.yaml").as_str()) {
            Self::graph_project_with_env_selection(fs, cur, selected, format, output_file)
        } else {
            let mut pre: Vec<OutputLine> = Vec::new();
            emit(&mut pre, OutputLine::Dimmed(
                "Not in a project context. Use --all to graph all projects, or navigate to a project directory.".to_owned(),
            ));
            emit(&mut pre, OutputLine::Blank);
            let ghost pv = lines_view(pre@);
            let (mut ls2, res2) = Self::graph_all_projects(fs, warnings, root.as_str(), format, output_file);
            let ghost l2 = lines_view(ls2@);
            pre.append(&mut ls2);
            proof {
                reveal_strlit("Not in a project context. Use --all to graph all projects, or navigate to a project directory.");
                assert(lines_view(pre@) =~= pv + l2);
                assert(lines_view(pre@).take(2) =~= pv);
                assert(lines_view(pre@).skip(2) =~= l2);
            }
            (pre, res2)
        };
        let ghost lv = lines_view(ls@);
        out.append(&mut ls);
        proof {
            assert(lines_view(out@) =~= head + lv);
            assert(lines_view(out@).skip(3) =~= lv);
            assert(lines_view(out@)[0] == head[0]);
            assert(lines_view(out@)[1] == head[1]);
            assert(lines_view(out@)[2] == head[2]);
            assert(is_nearest_collection(v0, current_dir@, root@));
            let cv = match opt_view(path) {
                Some(p) => p,
                None => current_dir@,
            };
            assert(cv == cur@);
            if show_all {
                assert(all_projects_done(v0, fs@, root@, opt_view(format), opt_view(output_file), lv, res));
            } else if fs_has(v0, environment_file_of(cv)) {
                assert(single_done(v0, fs@, cv, opt_view(format), opt_view(output_file), lv, res));
            } else if fs_has(v0, project_file_of(cv)) {
                assert(selection_done(v0, fs@, cv, opt_view(selected), opt_view(format), opt_view(output_file), lv, res));
            } else {
                assert(lv.take(2) == seq![LineView::Dimmed(not_in_project_message()), LineView::Blank]);
                assert(all_projects_done(v0, fs@, root@, opt_view(format), opt_view(output_file), lv.skip(2), res));
            }
        }
        (out, res)
    }
}

} // verus!
