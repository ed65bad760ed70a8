//! Developer conveniences: a picture of which projects depend on which, and
//! bringing a configuration from elsewhere into the infrastructure.

use vstd::prelude::*;
use crate::ci::{replace_char, replace_char_exec};
use crate::dependency_graph::environment_at;
use crate::discovery::{all_found_projects, infrastructure_at, is_nearest_collection, no_collection_above, CollectionDiscovery};
use crate::environments::environments_dir;
use crate::fs::{children_spec, fs_is_dir, MemoryFileSystem};
use crate::output::{emit, lines_view, LineView, OutputLine};
use crate::paths::{join, join_spec};
use crate::resources::{infrastructure_view, EnvironmentResource, ProjectReference};
use crate::text::{concat, str_eq};

verus! {

broadcast use vstd::string::group_string_axioms;

/// Developer conveniences.
pub struct DevExCommand;

/// The names of the projects that the environments held by the
/// directories `ch` depend on: per environment, one per dependency entry.
pub open spec fn dependency_names_in(v: Seq<(Seq<char>, Option<Seq<char>>)>, ch: Seq<Seq<char>>) -> Seq<Seq<char>>
    decreases ch.len(),
{
    if ch.len() == 0 {
        Seq::empty()
    } else {
        dependency_names_in(v, ch.drop_last()) + match environment_at(v, ch.last()) {
            Some(e) => e.4.map_values(|d: (Seq<char>, Seq<Seq<char>>, bool)| d.0),
            None => Seq::empty(),
        }
    }
}

/// The names of the projects that the environments of the project `r`
/// depend on.
pub open spec fn project_dependency_names(v: Seq<(Seq<char>, Option<Seq<char>>)>, root: Seq<char>, r: ProjectReference) -> Seq<
    Seq<char>,
> {
    if fs_is_dir(v, environments_dir(root, r)) {
        dependency_names_in(v, children_spec(v, environments_dir(root, r)))
    } else {
        Seq::empty()
    }
}

/// The id of a project's node: its name with `-` turned into `_`.
pub open spec fn viz_id(name: Seq<char>) -> Seq<char> {
    replace_char(name, '-', '_')
}

/// The Mermaid lines of the projects' nodes.
pub open spec fn mermaid_nodes(refs: Seq<ProjectReference>) -> Seq<char>
    decreases refs.len(),
{
    if refs.len() == 0 {
        Seq::empty()
    } else {
        mermaid_nodes(refs.drop_last()) + "    "@ + viz_id(refs.last().name@) + "["@ + refs.last().name@ + "]"@
            + LINE_END@
    }
}

/// The Mermaid lines of the edges from `from` to each of `tos`.
pub open spec fn mermaid_edges_from(from: Seq<char>, tos: Seq<Seq<char>>) -> Seq<char>
    decreases tos.len(),
{
    if tos.len() == 0 {
        Seq::empty()
    } else {
        mermaid_edges_from(from, tos.drop_last()) + "    "@ + viz_id(from) + " --> "@ + viz_id(tos.last())
            + LINE_END@
    }
}

/// The DOT lines of the projects' nodes.
pub open spec fn dot_nodes(refs: Seq<ProjectReference>) -> Seq<char>
    decreases refs.len(),
{
    if refs.len() == 0 {
        Seq::empty()
    } else {
        dot_nodes(refs.drop_last()) + DOT_QUOTE_OPEN@ + refs.last().name@ + DOT_LABEL@ + refs.last().name@
            + DOT_NODE_END@
    }
}

/// The DOT lines of the edges from `from` to each of `tos`.
pub open spec fn dot_edges_from(from: Seq<char>, tos: Seq<Seq<char>>) -> Seq<char>
    decreases tos.len(),
{
    if tos.len() == 0 {
        Seq::empty()
    } else {
        dot_edges_from(from, tos.drop_last()) + DOT_QUOTE_OPEN@ + from + DOT_ARROW@ + tos.last() + DOT_EDGE_END@
    }
}

/// The edges of every project of `refs`, project after project, drawn by
/// `mermaid` (else DOT) lines.
pub open spec fn all_edges(v: Seq<(Seq<char>, Option<Seq<char>>)>, root: Seq<char>, refs: Seq<ProjectReference>, mermaid: bool) -> Seq<
    char,
>
    decreases refs.len(),
{
    if refs.len() == 0 {
        Seq::empty()
    } else {
        all_edges(v, root, refs.drop_last(), mermaid) + if mermaid {
            mermaid_edges_from(refs.last().name@, project_dependency_names(v, root, refs.last()))
        } else {
            dot_edges_from(refs.last().name@, project_dependency_names(v, root, refs.last()))
        }
    }
}

/// The picture of the projects `refs` in `format` (`mermaid`, or `graphviz`
/// or `dot`), or none for another format.
pub open spec fn viz_text(v: Seq<(Seq<char>, Option<Seq<char>>)>, root: Seq<char>, refs: Seq<ProjectReference>, format: Seq<char>) -> Option<
    Seq<char>,
> {
    if format == "mermaid"@ {
        Some(MERMAID_START@ + mermaid_nodes(refs) + all_edges(v, root, refs, true))
    } else if format == "graphviz"@ || format == "dot"@ {
        Some(DOT_START@ + dot_nodes(refs) + LINE_END@ + all_edges(v, root, refs, false) + DOT_END@)
    } else {
        None
    }
}

/// What ends each line of these pictures: a backslash and an `n`, as
/// written.
pub const LINE_END: &'static str = "\\n";

/// The start of a Mermaid picture.
pub const MERMAID_START: &'static str = "graph TD\\n";

/// The start of a DOT picture.
pub const DOT_START: &'static str = "digraph dependencies {\\n    rankdir=LR;\\n    node [shape=box];\\n\\n";

/// The end of a DOT picture.
pub const DOT_END: &'static str = "}\\n";

/// What opens a DOT node or edge line: indentation and an escaped quote.
pub const DOT_QUOTE_OPEN: &'static str = "    \\\"";

/// What comes between a DOT node's name and its label.
pub const DOT_LABEL: &'static str = "\\\" [label=\\\"";

/// What ends a DOT node line.
pub const DOT_NODE_END: &'static str = "\\\"];\\n";

/// The arrow of a DOT edge line.
pub const DOT_ARROW: &'static str = "\\\" -> \\\"";

/// What ends a DOT edge line.
pub const DOT_EDGE_END: &'static str = "\\\";\\n";

/// The message when there is no infrastructure.
pub open spec fn no_infrastructure_message() -> Seq<char> {
    "Infrastructure is required. Run 'pmp init' first."@
}

/// Whether the picture command, run in `current_dir` of `v0`, showed `ls`,
/// ended with `res` and left `v1`: every project's node and the edges of
/// its environments' dependencies, shown or written to `file`.
pub open spec fn graph_viz_done(
    v0: Seq<(Seq<char>, Option<Seq<char>>)>,
    v1: Seq<(Seq<char>, Option<Seq<char>>)>,
    current_dir: Seq<char>,
    file: Option<Seq<char>>,
    format: Option<Seq<char>>,
    ls: Seq<LineView>,
    res: Result<(), String>,
) -> bool {
    &&& ls.len() >= 1
    &&& ls[0] == LineView::Section("Dependency Graph Visualization"@)
    &&& if no_collection_above(v0, current_dir) {
        v1 == v0 && ls.len() == 1 && (res matches Err(e) && e@ == no_infrastructure_message())
    } else {
        exists|root: Seq<char>|
            #[trigger] is_nearest_collection(v0, current_dir, root) && (infrastructure_at(v0, root) matches Some(
                iv,
            ) && ls.len() >= 3 && ls[1] == LineView::KeyValue("Infrastructure"@, iv.0) && ls[2]
                == LineView::Blank && {
                ||| crate::discovery::discovery(v0, root) is None && v1 == v0 && ls.len() == 3 && res is Err
                ||| exists|refs: Seq<ProjectReference>|
                    #[trigger] all_found_projects(v0, join_spec(root, "projects"@), root, refs) && crate::discovery::discovery(v0, root) == Some(crate::discovery::refs_view(refs)) && if refs.len()
                        == 0 {
                        v1 == v0 && res is Ok && ls.skip(3) == seq![LineView::Dimmed("No projects found."@)]
                    } else {
                        let fmt = match format {
                            Some(f) => f,
                            None => "mermaid"@,
                        };
                        match viz_text(v0, root, refs, fmt) {
                            None => v1 == v0 && ls.len() == 3 && (res matches Err(e) && e@
                                == "Unsupported graph format: "@ + fmt),
                            Some(t) => match file {
                                None => v1 == v0 && res is Ok && ls.skip(3) == seq![LineView::Info(t)],
                                Some(f) => {
                                    &&& (res is Ok <==> crate::fs::write_ok(v0, f))
                                    &&& res is Ok ==> crate::fs::written(v0, v1, f, t) && ls.skip(3) == seq![
                                        LineView::Success("Dependency graph written to: "@ + f),
                                    ]
                                    &&& res is Err ==> v1 == v0 && ls.len() == 3
                                },
                            },
                        }
                    }
            })
    }
}

impl DevExCommand {
    /// The names of the projects that the environments of the project `r`
    /// of the infrastructure at `root` depend on.
    fn dependency_names(fs: &MemoryFileSystem, root: &str, r: &ProjectReference) -> (out: Vec<String>)
        ensures
            crate::text::views_of(out@) == project_dependency_names(fs@, root@, *r),
    {
        let project_path = join(root, r.path.as_str());
        let dir = join(project_path.as_str(), "environments");
        let mut out: Vec<String> = Vec::new();
        assert(crate::text::views_of(out@) =~= Seq::<Seq<char>>::empty());
        match fs.read_dir(dir.as_str()) {
            Ok(entries) => {
                let ghost ch = children_spec(fs@, dir@);
                let mut j: usize = 0;
                assert(ch.take(0) =~= Seq::<Seq<char>>::empty());
                while j < entries.len()
                    invariant
                        0 <= j <= entries.len(),
                        ch == children_spec(fs@, dir@),
                        entries@.map_values(|s: String| s@) == ch,
                        crate::text::views_of(out@) == dependency_names_in(fs@, ch.take(j as int)),
                    decreases entries.len() - j,
                {
                    let env_path = entries[j].as_str();
                    assert(entries@.map_values(|s: String| s@)[j as int] == env_path@);
                    assert(ch.take(j + 1).drop_last() =~= ch.take(j as int));
                    assert(ch.take(j + 1).last() == env_path@);
                    let env_file = join(env_path, ".pmp.environment.yaml");
                    let ghost before = crate::text::views_of(out@);
                    if fs.path_exists(env_file.as_str()) {
                        match EnvironmentResource::from_file(fs, env_file.as_str()) {
                            Ok(resource) => {
                                assert(environment_at(fs@, env_path@) == Some(resource@));
                                let deps = &resource.spec.dependencies;
                                let ghost dv = crate::resources::deps_view(deps@);
                                let ghost names = dv.map_values(|d: (Seq<char>, Seq<Seq<char>>, bool)| d.0);
                                let mut k: usize = 0;
                                while k < deps.len()
                                    invariant
                                        0 <= k <= deps.len(),
                                        dv == crate::resources::deps_view(deps@),
                                        names == dv.map_values(|d: (Seq<char>, Seq<Seq<char>>, bool)| d.0),
                                        crate::text::views_of(out@) == before + names.take(k as int),
                                    decreases deps.len() - k,
                                {
                                    let ghost o0 = out@;
                                    let name = deps[k].project.name.clone();
                                    out.push(name);
                                    assert(crate::text::views_of(out@) =~= crate::text::views_of(o0).push(names[k as int]));
                                    assert(names.take(k + 1) =~= names.take(k as int).push(names[k as int]));
                                    k = k + 1;
                                }
                                assert(names.take(deps.len() as int) =~= names);
                            },
                            Err(_) => {
                                assert(environment_at(fs@, env_path@) is None);
                            },
                        }
                    } else {
                        assert(environment_at(fs@, env_path@) is None);
                    }
                    j = j + 1;
                }
                assert(ch.take(entries@.len() as int) =~= ch);
            },
            Err(_) => {},
        }
        out
    }

    /// The picture of the projects `refs` of the infrastructure at `root`
    /// in the format `format`.
    pub fn generate_dependency_graph(fs: &MemoryFileSystem, refs: &Vec<ProjectReference>, root: &str, format: &str) -> (r:
        Result<String, String>)
        ensures
            match viz_text(fs@, root@, refs@, format@) {
                Some(t) => r matches Ok(s) && s@ == t,
                None => r matches Err(e) && e@ == "Unsupported graph format: "@ + format@,
            },
    {
        let mermaid = str_eq(format, "mermaid");
        if !mermaid && !str_eq(format, "graphviz") && !str_eq(format, "dot") {
            return Err(concat("Unsupported graph format: ", format));
        }
        let mut out = if mermaid {
            MERMAID_START.to_owned()
        } else {
            DOT_START.to_owned()
        };
        let ghost start = out@;
        let mut i: usize = 0;
        assert(refs@.take(0) =~= Seq::<ProjectReference>::empty());
        while i < refs.len()
            invariant
                0 <= i <= refs.len(),
                out@ == start + if mermaid {
                    mermaid_nodes(refs@.take(i as int))
                } else {
                    dot_nodes(refs@.take(i as int))
                },
            decreases refs.len() - i,
        {
            let name = refs[i].name.as_str();
            let ghost o0 = out@;
            if mermaid {
                let id = replace_char_exec(name, '-', '_');
                out.append("    ");
                out.append(id.as_str());
                out.append("[");
                out.append(name);
                out.append("]");
                out.append(LINE_END);
            } else {
                out.append(DOT_QUOTE_OPEN);
                out.append(name);
                out.append(DOT_LABEL);
                out.append(name);
                out.append(DOT_NODE_END);
            }
            assert(refs@.take(i + 1).drop_last() =~= refs@.take(i as int));
            assert(refs@.take(i + 1).last() == refs@[i as int]);
            i = i + 1;
        }
        assert(refs@.take(refs.len() as int) =~= refs@);
        if !mermaid {
            out.append(LINE_END);
        }
        let ghost mid = out@;
        let mut i: usize = 0;
        assert(refs@.take(0) =~= Seq::<ProjectReference>::empty());
        while i < refs.len()
            invariant
                0 <= i <= refs.len(),
                out@ == mid + all_edges(fs@, root@, refs@.take(i as int), mermaid),
            decreases refs.len() - i,
        {
            let from = refs[i].name.as_str();
            let names = Self::dependency_names(fs, root, &refs[i]);
            let ghost nv = crate::text::views_of(names@);
            let ghost o0 = out@;
            let mut k: usize = 0;
            assert(nv.take(0) =~= Seq::<Seq<char>>::empty());
            while k < names.len()
                invariant
                    0 <= k <= names.len(),
                    nv == crate::text::views_of(names@),
                    out@ == o0 + if mermaid {
                        mermaid_edges_from(from@, nv.take(k as int))
                    } else {
                        dot_edges_from(from@, nv.take(k as int))
                    },
                decreases names.len() - k,
            {
                let to = names[k].as_str();
                if mermaid {
                    let a = replace_char_exec(from, '-', '_');
                    let b = replace_char_exec(to, '-', '_');
                    out.append("    ");
                    out.append(a.as_str());
                    out.append(" --> ");
                    out.append(b.as_str());
                    out.append(LINE_END);
                } else {
                    out.append(DOT_QUOTE_OPEN);
                    out.append(from);
                    out.append(DOT_ARROW);
                    out.append(to);
                    out.append(DOT_EDGE_END);
                }
                assert(nv.take(k + 1).drop_last() =~= nv.take(k as int));
                assert(nv.take(k + 1).last() == to@);
                k = k + 1;
            }
            assert(nv.take(names.len() as int) =~= nv);
            assert(refs@.take(i + 1).drop_last() =~= refs@.take(i as int));
            assert(refs@.take(i + 1).last() == refs@[i as int]);
            i = i + 1;
        }
        assert(refs@.take(refs.len() as int) =~= refs@);
        if !mermaid {
            out.append(DOT_END);
        }
        Ok(out)
    }

    /// Draws which projects of the infrastructure at or above `current_dir`
    /// depend on which, in `format` (`mermaid` by default, `graphviz` or
    /// `dot`), shown or written to `output_file`. Problems with single
    /// project files go to `warnings`.
    pub fn execute_graph_viz(
        fs: &mut MemoryFileSystem,
        warnings: &mut Vec<String>,
        current_dir: &str,
        output_file: Option<&str>,
        format: Option<&str>,
    ) -> (r: (Vec<OutputLine>, Result<(), String>))
        ensures
            graph_viz_done(
                old(fs)@,
                final(fs)@,
                current_dir@,
                match output_file {
                    Some(f) => Some(f@),
                    None => None,
                },
                match format {
                    Some(f) => Some(f@),
                    None => None,
                },
                lines_view(r.0@),
                r.1,
            ),
    {
        let mut out: Vec<OutputLine> = Vec::new();
        assert(lines_view(out@) =~= Seq::<LineView>::empty());
        emit(&mut out, OutputLine::Section("Dependency Graph Visualization".to_owned()));
        assert(lines_view(out@) =~= seq![LineView::Section("Dependency Graph Visualization"@)]);
        let ghost v0 = fs@;
        let found = match CollectionDiscovery::find_collection_in_path(&*fs, current_dir) {
            Ok(f) => f,
            Err(e) => {
                return (out, Err(e));
            },
        };
        let (infrastructure, root) = match found {
            Some(x) => x,
            None => {
                proof {
                    reveal_strlit("Infrastructure is required. Run 'pmp init' first.");
                }
                return (out, Err("Infrastructure is required. Run 'pmp init' first.".to_owned()));
            },
        };
        proof {
            crate::discovery::lemma_nearest_excludes_none(v0, current_dir@, root@);
        }
        let name = infrastructure.metadata.name.clone();
        let ghost nm = name@;
        assert(nm == infrastructure_view(infrastructure).0);
        emit(&mut out, OutputLine::KeyValue("Infrastructure".to_owned(), name));
        emit(&mut out, OutputLine::Blank);
        let ghost head = lines_view(out@);
        assert(head =~= seq![
            LineView::Section("Dependency Graph Visualization"@),
            LineView::KeyValue("Infrastructure"@, nm),
            LineView::Blank,
        ]);
        assert(is_nearest_collection(v0, current_dir@, root@));
        let projects = match CollectionDiscovery::discover_projects(&*fs, warnings, root.as_str()) {
            Ok(p) => p,
            Err(e) => {
                return (out, Err(e));
            },
        };
        assert(all_found_projects(v0, join_spec(root@, "projects"@), root@, projects@));
        if projects.len() == 0 {
            emit(&mut out, OutputLine::Dimmed("No projects found.".to_owned()));
            assert(lines_view(out@).skip(3) =~= seq![LineView::Dimmed("No projects found."@)]);
            assert(lines_view(out@)[0] == head[0]);
            assert(lines_view(out@)[1] == head[1]);
            assert(lines_view(out@)[2] == head[2]);
            return (out, Ok(()));
        }
        let graph_format = match format {
            Some(f) => f,
            None => "mermaid",
        };
        let graph = match Self::generate_dependency_graph(&*fs, &projects, root.as_str(), graph_format) {
            Ok(g) => g,
            Err(e) => {
                return (out, Err(e));
            },
        };
        match output_file {
            Some(file) => {
                match fs.write(file, graph.as_str()) {
                    Ok(()) => {
                        emit(&mut out, OutputLine::Success(concat("Dependency graph written to: ", file)));
                        assert(lines_view(out@).skip(3) =~= seq![
                            LineView::Success("Dependency graph written to: "@ + file@),
                        ]);
                        assert(lines_view(out@)[0] == head[0]);
                        assert(lines_view(out@)[1] == head[1]);
                        assert(lines_view(out@)[2] == head[2]);
                        assert(crate::fs::written(v0, fs@, file@, graph@));
                        (out, Ok(()))
                    },
                    Err(e) => (out, Err(e)),
                }
            },
            None => {
                let ghost gv = graph@;
                emit(&mut out, OutputLine::Info(graph));
                assert(lines_view(out@).skip(3) =~= seq![LineView::Info(gv)]);
                assert(lines_view(out@)[0] == head[0]);
                assert(lines_view(out@)[1] == head[1]);
                assert(lines_view(out@)[2] == head[2]);
                (out, Ok(()))
            },
        }
    }
}


/// What importing from `format` reads (the line shown) and brings in, or
/// none for a format that cannot be imported.
pub open spec fn imported(format: Seq<char>, source: Seq<char>) -> Option<(Seq<char>, Seq<char>)> {
    if format == "terraform"@ || format == "tf"@ {
        Some(("Importing Terraform from: "@ + source, TERRAFORM_IMPORTED@))
    } else if format == "helm"@ {
        Some(("Importing Helm chart from: "@ + source, HELM_IMPORTED@))
    } else if format == "cloudformation"@ || format == "cfn"@ {
        Some(("Importing CloudFormation from: "@ + source, CLOUDFORMATION_IMPORTED@))
    } else {
        None
    }
}

/// What an import from Terraform brings in.
pub const TERRAFORM_IMPORTED: &'static str = "# Imported Terraform configuration\\n";

/// What an import from a Helm chart brings in.
pub const HELM_IMPORTED: &'static str = "# Imported Helm configuration\\n";

/// What an import from CloudFormation brings in.
pub const CLOUDFORMATION_IMPORTED: &'static str = "# Imported CloudFormation configuration\\n";

/// The directory of an imported project.
pub open spec fn imported_project_dir(root: Seq<char>, project: Seq<char>) -> Seq<char> {
    join_spec(join_spec(join_spec(root, "projects"@), "imported"@), project)
}

/// The directory of the environment an import makes.
pub open spec fn imported_env_dir(root: Seq<char>, project: Seq<char>, env: Seq<char>) -> Seq<char> {
    join_spec(join_spec(imported_project_dir(root, project), "environments"@), env)
}

/// The file an import writes.
pub open spec fn imported_main_file(root: Seq<char>, project: Seq<char>, env: Seq<char>) -> Seq<char> {
    join_spec(imported_env_dir(root, project, env), "main.tf"@)
}

/// The lines that open an import.
pub open spec fn import_head(source: Seq<char>, format: Seq<char>, project: Seq<char>, env: Seq<char>) -> Seq<LineView> {
    seq![
        LineView::Section("Infrastructure Import"@),
        LineView::KeyValue("Source"@, source),
        LineView::KeyValue("Format"@, format),
        LineView::KeyValue("Project Name"@, project),
        LineView::KeyValue("Environment"@, env),
        LineView::Blank,
    ]
}

impl DevExCommand {
    /// Brings the configuration at `source_path`, in `source_format`
    /// (`terraform` or `tf`, `helm`, `cloudformation` or `cfn`), into the
    /// infrastructure at or above `current_dir` as the environment
    /// `environment` of the project `project_name`, below
    /// `projects/imported`. Nothing is read yet: each format brings in a
    /// fixed comment.
    pub fn execute_import(
        fs: &mut MemoryFileSystem,
        current_dir: &str,
        source_path: &str,
        source_format: &str,
        project_name: &str,
        environment: &str,
    ) -> (r: (Vec<OutputLine>, Result<(), String>))
        ensures
            lines_view(r.0@).len() >= 6,
            lines_view(r.0@).take(6) == import_head(source_path@, source_format@, project_name@, environment@),
            no_collection_above(old(fs)@, current_dir@) ==> final(fs)@ == old(fs)@ && lines_view(r.0@).len() == 6
                && (r.1 matches Err(e) && e@ == no_infrastructure_message()),
            imported(source_format@, source_path@) is None ==> final(fs)@ == old(fs)@ && r.1 is Err,
            !no_collection_above(old(fs)@, current_dir@) && imported(source_format@, source_path@) is None ==> (
            r.1 matches Err(e) && e@ == "Unsupported import format: "@ + source_format@),
            !no_collection_above(old(fs)@, current_dir@) && imported(source_format@, source_path@) is Some
                && r.1 is Err ==> exists|root: Seq<char>|
                #[trigger] is_nearest_collection(old(fs)@, current_dir@, root) && ((exists|q: Seq<char>|
                    #[trigger] crate::fs::dir_prefixes(imported_env_dir(root, project_name@, environment@)).contains(
                        q,
                    ) && crate::fs::fs_is_file(old(fs)@, q)) || !crate::fs::write_ok(
                    final(fs)@,
                    imported_main_file(root, project_name@, environment@),
                )),
            r.1 is Ok ==> exists|root: Seq<char>|
                #[trigger] is_nearest_collection(old(fs)@, current_dir@, root) && (imported(
                    source_format@,
                    source_path@,
                ) matches Some(im) && crate::fs::fs_file(
                    final(fs)@,
                    imported_main_file(root, project_name@, environment@),
                ) == Some(im.1) && lines_view(r.0@).skip(6) == seq![
                    LineView::Info("Importing from "@ + source_format@ + " format..."@),
                    LineView::Dimmed(im.0),
                    LineView::Info("Creating project structure..."@),
                    LineView::Dimmed("Created project at: "@ + imported_project_dir(root, project_name@)),
                    LineView::Success("Import completed successfully!"@),
                ]),
    {
        let mut out: Vec<OutputLine> = Vec::new();
        assert(lines_view(out@) =~= Seq::<LineView>::empty());
        emit(&mut out, OutputLine::Section("Infrastructure Import".to_owned()));
        emit(&mut out, OutputLine::KeyValue("Source".to_owned(), source_path.to_owned()));
        emit(&mut out, OutputLine::KeyValue("Format".to_owned(), source_format.to_owned()));
        emit(&mut out, OutputLine::KeyValue("Project Name".to_owned(), project_name.to_owned()));
        emit(&mut out, OutputLine::KeyValue("Environment".to_owned(), environment.to_owned()));
        emit(&mut out, OutputLine::Blank);
        let ghost head = lines_view(out@);
        assert(head =~= import_head(source_path@, source_format@, project_name@, environment@));
        assert(lines_view(out@).take(6) =~= head);
        let ghost v0 = fs@;
        let found = match CollectionDiscovery::find_collection_in_path(&*fs, current_dir) {
            Ok(f) => f,
            Err(e) => {
                return (out, Err(e));
            },
        };
        let root = match found {
            Some(x) => x.1,
            None => {
                proof {
                    reveal_strlit("Infrastructure is required. Run 'pmp init' first.");
                }
                return (out, Err("Infrastructure is required. Run 'pmp init' first.".to_owned()));
            },
        };
        proof {
            crate::discovery::lemma_nearest_excludes_none(v0, current_dir@, root@);
        }
        let mut msg = "Importing from ".to_owned();
        msg.append(source_format);
        msg.append(" format...");
        emit(&mut out, OutputLine::Info(msg));
        let (note, content) = if str_eq(source_format, "terraform") || str_eq(source_format, "tf") {
            (concat("Importing Terraform from: ", source_path), TERRAFORM_IMPORTED)
        } else if str_eq(source_format, "helm") {
            (concat("Importing Helm chart from: ", source_path), HELM_IMPORTED)
        } else if str_eq(source_format, "cloudformation") || str_eq(source_format, "cfn") {
            (concat("Importing CloudFormation from: ", source_path), CLOUDFORMATION_IMPORTED)
        } else {
            assert(lines_view(out@).take(6) =~= head);
            return (out, Err(concat("Unsupported import format: ", source_format)));
        };
        assert(imported(source_format@, source_path@) == Some((note@, content@)));
        emit(&mut out, OutputLine::Dimmed(note));
        emit(&mut out, OutputLine::Info("Creating project structure...".to_owned()));
        let projects_dir = join(root.as_str(), "projects");
        let imported_dir = join(projects_dir.as_str(), "imported");
        let project_dir = join(imported_dir.as_str(), project_name);
        let envs_dir = join(project_dir.as_str(), "environments");
        let env_dir = join(envs_dir.as_str(), environment);
        match fs.create_dir_all(env_dir.as_str()) {
            Ok(()) => {},
            Err(e) => {
                assert(lines_view(out@).take(6) =~= head);
                assert(is_nearest_collection(v0, current_dir@, root@));
                assert(env_dir@ == imported_env_dir(root@, project_name@, environment@));
                return (out, Err(e));
            },
        }
        let main_file = join(env_dir.as_str(), "main.tf");
        match fs.write(main_file.as_str(), content) {
            Ok(()) => {},
            Err(e) => {
                assert(lines_view(out@).take(6) =~= head);
                assert(is_nearest_collection(v0, current_dir@, root@));
                assert(main_file@ == imported_main_file(root@, project_name@, environment@));
                assert(!crate::fs::write_ok(fs@, main_file@));
                return (out, Err(e));
            },
        }
        emit(&mut out, OutputLine::Dimmed(concat("Created project at: ", project_dir.as_str())));
        emit(&mut out, OutputLine::Success("Import completed successfully!".to_owned()));
        proof {
            assert(lines_view(out@).take(6) =~= head);
            assert(lines_view(out@).skip(6) =~= seq![
                LineView::Info("Importing from "@ + source_format@ + " format..."@),
                LineView::Dimmed(note@),
                LineView::Info("Creating project structure..."@),
                LineView::Dimmed("Created project at: "@ + imported_project_dir(root@, project_name@)),
                LineView::Success("Import completed successfully!"@),
            ]);
            assert(is_nearest_collection(v0, current_dir@, root@));
        }
        (out, Ok(()))
    }
}

} // verus!
