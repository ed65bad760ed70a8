//! What runs before a command is executed on an environment and the
//! environments it depends on: the dependency tree shown to the user, and the
//! question whether to go on.

use vstd::prelude::*;
use crate::dependency_graph::{environment_at, DependencyGraph};
use crate::fs::MemoryFileSystem;
use crate::output::{emit, lines_view, LineView, OutputLine};
use crate::paths::join;
use crate::resources::EnvironmentResource;
use crate::text::{concat, decimal, lines, lines_spec, usize_to_string, views_of};

verus! {

broadcast use vstd::string::group_string_axioms;

/// Runs commands on environments together with their dependencies.
pub struct ExecutionHelper;

/// A dependency graph shown to the user, waiting for the answer to
/// `question`.
pub struct PendingExecution {
    pub graph: DependencyGraph,
    pub question: String,
}

/// The lines shown while the dependencies are looked at.
pub open spec fn analyzing_lines() -> Seq<LineView> {
    seq![
        LineView::Blank,
        LineView::Subsection("Dependencies"@),
        LineView::Dimmed("Analyzing project dependencies..."@),
    ]
}

/// The lines that show the environments of `g` that will be executed.
pub open spec fn preview_lines(g: DependencyGraph) -> Seq<LineView> {
    seq![
        LineView::Blank,
        LineView::Info("This project has dependencies. The following projects will be executed in order:"@),
        LineView::Blank,
    ] + lines_spec(g.tree_text()).map_values(|l: Seq<char>| LineView::Info(l)) + seq![
        LineView::Blank,
        LineView::Info("Total projects to execute: "@ + decimal(g.nodes@.len())),
        LineView::Blank,
    ]
}

/// The question asked before running `command` on the `n` environments of
/// a graph.
pub open spec fn proceed_question(command: Seq<char>, n: nat) -> Seq<char> {
    "Proceed with "@ + command + " on all "@ + decimal(n) + " projects?"@
}

/// Whether looking at the dependencies of the environment in `env_dir` of
/// `v` (the environment `env` of the project `project`), before running
/// `command`, showed `ls` and ended with `res`: nothing to ask when it has
/// no dependencies, else its graph and the question.
pub open spec fn dependency_check_done(
    v: Seq<(Seq<char>, Option<Seq<char>>)>,
    env_dir: Seq<char>,
    project: Seq<char>,
    env: Seq<char>,
    command: Seq<char>,
    ls: Seq<LineView>,
    res: Result<Option<PendingExecution>, String>,
) -> bool {
    match environment_at(v, env_dir) {
        None => ls.len() == 0 && (res matches Err(e) && e@ == "Failed to load environment resource"@),
        Some(e) => if e.4.len() == 0 {
            ls.len() == 0 && res matches Ok(None)
        } else {
            &&& ls.len() >= 3
            &&& ls.take(3) == analyzing_lines()
            &&& {
                ||| ls.len() == 3 && (res matches Err(m) && m@ == "Failed to build dependency graph"@)
                ||| res matches Ok(Some(p)) && {
                    &&& p.graph.built_from(v)
                    &&& p.graph.root.project_name@ == project
                    &&& p.graph.root.environment_name@ == env
                    &&& p.graph.root.environment_path@ == env_dir
                    &&& ls.skip(3) == preview_lines(p.graph)
                    &&& p.question@ == proceed_question(command, p.graph.nodes@.len())
                }
            }
        },
    }
}

impl ExecutionHelper {
    /// Looks at the dependencies of the environment `env_name` of the
    /// project `project_name`, in `env_path`, before running `command_name`
    /// on it: when it has some, shows the environments that would be
    /// executed in order and returns its graph with the question to ask.
    pub fn check_and_display_dependencies(
        fs: &MemoryFileSystem,
        env_path: &str,
        project_name: &str,
        env_name: &str,
        command_name: &str,
    ) -> (r: (Vec<OutputLine>, Result<Option<PendingExecution>, String>))
        ensures
            dependency_check_done(
                fs@,
                env_path@,
                project_name@,
                env_name@,
                command_name@,
                lines_view(r.0@),
                r.1,
            ),
    {
        let mut out: Vec<OutputLine> = Vec::new();
        assert(lines_view(out@) =~= Seq::<LineView>::empty());
        let env_file = join(env_path, ".pmp.environment.yaml");
        let resource = match EnvironmentResource::from_file(fs, env_file.as_str()) {
            Ok(r) => r,
            Err(_) => {
                return (out, Err("Failed to load environment resource".to_owned()));
            },
        };
        assert(environment_at(fs@, env_path@) == Some(resource@));
        assert(crate::resources::deps_view(resource.spec.dependencies@).len()
            == resource.spec.dependencies@.len());
        if resource.spec.dependencies.len() == 0 {
            return (out, Ok(None));
        }
        emit(&mut out, OutputLine::Blank);
        emit(&mut out, OutputLine::Subsection("Dependencies".to_owned()));
        emit(&mut out, OutputLine::Dimmed("Analyzing project dependencies...".to_owned()));
        let ghost head = lines_view(out@);
        assert(head =~= analyzing_lines());
        assert(lines_view(out@).take(3) =~= head);
        let graph = match DependencyGraph::build(fs, env_path, project_name, env_name) {
            Ok(g) => g,
            Err(_) => {
                return (out, Err("Failed to build dependency graph".to_owned()));
            },
        };
        emit(&mut out, OutputLine::Blank);
        emit(
            &mut out,
            OutputLine::Info(
                "This project has dependencies. The following projects will be executed in order:".to_owned(),
            ),
        );
        emit(&mut out, OutputLine::Blank);
        let ghost mid = lines_view(out@);
        let tree = graph.format_tree();
        let tl = lines(tree.as_str());
        let ghost tv = lines_spec(graph.tree_text());
        let mut i: usize = 0;
        while i < tl.len()
            invariant
                0 <= i <= tl.len(),
                views_of(tl@) == tv,
                lines_view(out@) == mid + tv.map_values(|l: Seq<char>| LineView::Info(l)).take(i as int),
            decreases tl.len() - i,
        {
            emit(&mut out, OutputLine::Info(tl[i].clone()));
            assert(tv.map_values(|l: Seq<char>| LineView::Info(l)).take(i + 1) =~= tv.map_values(
                |l: Seq<char>| LineView::Info(l),
            ).take(i as int).push(LineView::Info(tv[i as int])));
            i = i + 1;
        }
        assert(tv.map_values(|l: Seq<char>| LineView::Info(l)).take(tl.len() as int) =~= tv.map_values(
            |l: Seq<char>| LineView::Info(l),
        ));
        let n = graph.node_count();
        emit(&mut out, OutputLine::Blank);
        emit(&mut out, OutputLine::Info(concat("Total projects to execute: ", usize_to_string(n).as_str())));
        emit(&mut out, OutputLine::Blank);
        let mut question = "Proceed with ".to_owned();
        question.append(command_name);
        question.append(" on all ");
        question.append(usize_to_string(n).as_str());
        question.append(" projects?");
        proof {
            assert(lines_view(out@).take(3) =~= head);
            assert(lines_view(out@).skip(3) =~= preview_lines(graph));
        }
        (out, Ok(Some(PendingExecution { graph, question })))
    }

    /// What follows the answer to the question of `pending`: its graph when
    /// the user agreed, else nothing and a notice.
    pub fn confirm_execution(pending: PendingExecution, confirmed: bool) -> (r: (Vec<OutputLine>, Option<
        DependencyGraph,
    >))
        ensures
            confirmed ==> r.0@.len() == 0 && r.1 == Some(pending.graph),
            !confirmed ==> lines_view(r.0@) == seq![
                LineView::Blank,
                LineView::Info("Operation cancelled by user"@),
            ] && r.1 is None,
    {
        let mut out: Vec<OutputLine> = Vec::new();
        if confirmed {
            (out, Some(pending.graph))
        } else {
            assert(lines_view(out@) =~= Seq::<LineView>::empty());
            emit(&mut out, OutputLine::Blank);
            emit(&mut out, OutputLine::Info("Operation cancelled by user".to_owned()));
            assert(lines_view(out@) =~= seq![LineView::Blank, LineView::Info("Operation cancelled by user"@)]);
            (out, None)
        }
    }
}

} // verus!
