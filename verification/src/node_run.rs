//! Running a command (preview, apply, destroy) on environments. The hooks
//! and the executor run outside; what runs when, what is shown and when a
//! run stops are decided here, step by step: each step takes what came of
//! the last action and says what to do next.

use vstd::prelude::*;
use crate::dependency_graph::{DependencyGraph, DependencyNode};
use crate::discovery::{no_collection_above, CollectionDiscovery};
use crate::execution::ExecutionHelper;
use crate::fs::MemoryFileSystem;
use crate::output::{emit, lines_view, LineView, OutputLine};
use crate::text::{concat, concat3, decimal, str_eq, u64_to_string, usize_to_string};

verus! {

broadcast use vstd::string::group_string_axioms;

/// The command run on an environment.
#[derive(PartialEq, Eq, Structural, Clone, Copy)]
pub enum NodeCommand {
    Preview,
    Apply,
    Destroy,
}

/// The executors an environment can name.
#[derive(PartialEq, Eq, Structural, Clone, Copy)]
pub enum ExecutorKind {
    /// OpenTofu runs the environment's configuration.
    OpenTofu,
    /// Nothing runs: the environment only stands for a dependency.
    NoExecutor,
}

/// How far a run on one environment has come.
#[derive(PartialEq, Eq, Structural, Clone, Copy)]
pub enum NodeStage {
    /// Waiting for the hooks that come before the command.
    PreHooks,
    /// Waiting for the executor to be initialised.
    Init,
    /// Waiting for the executor's command.
    Command,
    /// Waiting for the hooks that come after the command.
    PostHooks,
    /// Over.
    Finished,
}

/// The command that runs OpenTofu's apply on a project directory.
pub struct ApplyCommand;

/// A run of a command on one environment.
pub struct NodeRun {
    pub command: NodeCommand,
    pub project: String,
    pub environment: String,
    /// The name of the executor.
    pub executor: String,
    pub stage: NodeStage,
}

/// What the caller does next for a run on one environment.
pub enum NodeAction {
    /// Run the hooks of this phase (such as `pre-apply`) in the
    /// environment's directory, where there are any.
    RunHooks(String),
    /// Initialise the executor in the environment's directory.
    Init,
    /// Run this command of the executor (`plan`, `apply` or `destroy`).
    Run(String),
    /// The run is over, with this outcome.
    Done(Result<(), String>),
}

/// What came of the last action of a run on one environment.
pub enum NodeEvent {
    /// The hooks ran, or failed.
    HooksRan(Result<(), String>),
    /// The executor was initialised: whether it succeeded, what it wrote
    /// (where that is text) and its exit code.
    Initialized { success: bool, stdout: Option<String>, stderr: Option<String>, code: Option<i32> },
    /// The executor's command ran, or failed.
    Ran(Result<(), String>),
}

/// A run of a command on the environments of a graph, one after the other.
pub struct GraphRun {
    /// The environments, in the order they run.
    pub order: Vec<DependencyNode>,
    /// The name of the command, as shown.
    pub command_name: String,
    /// The environment being run.
    pub current: usize,
}

/// What the caller does next for a run on a graph.
pub enum GraphAction {
    /// Run the command on the environment at this place of the order.
    RunNode(usize),
    /// The run is over, with this outcome.
    Done(Result<(), String>),
}

/// The name of a command in the names of its hooks.
pub open spec fn phase_of(c: NodeCommand) -> Seq<char> {
    match c {
        NodeCommand::Preview => "preview"@,
        NodeCommand::Apply => "apply"@,
        NodeCommand::Destroy => "destroy"@,
    }
}

/// The executor's command that a command runs.
pub open spec fn verb_of(c: NodeCommand) -> Seq<char> {
    match c {
        NodeCommand::Preview => "plan"@,
        NodeCommand::Apply => "apply"@,
        NodeCommand::Destroy => "destroy"@,
    }
}

/// The name of a command at the start of a sentence.
pub open spec fn title_of(c: NodeCommand) -> Seq<char> {
    match c {
        NodeCommand::Preview => "Preview"@,
        NodeCommand::Apply => "Apply"@,
        NodeCommand::Destroy => "Destroy"@,
    }
}

/// An environment as shown: its project and, in brackets, its name.
pub open spec fn node_label(project: Seq<char>, env: Seq<char>) -> Seq<char> {
    project + " ("@ + env + ")"@
}

/// The text of an integer.
pub open spec fn int_text(c: int) -> Seq<char> {
    if c < 0 {
        "-"@ + decimal((-c) as nat)
    } else {
        decimal(c as nat)
    }
}

/// An exit code as `{:?}` shows it.
pub open spec fn code_text(code: Option<i32>) -> Seq<char> {
    match code {
        Some(c) => "Some("@ + int_text(c as int) + ")"@,
        None => "None"@,
    }
}

/// The error lines for what a failed initialisation wrote.
pub open spec fn written_lines(text: Option<String>) -> Seq<LineView> {
    match text {
        Some(t) => if t@.len() > 0 {
            seq![LineView::Error(t@)]
        } else {
            Seq::empty()
        },
        None => Seq::empty(),
    }
}

/// Whether `stage` waits for an event like `e`.
pub open spec fn awaits(stage: NodeStage, e: NodeEvent) -> bool {
    match stage {
        NodeStage::PreHooks => e is HooksRan,
        NodeStage::PostHooks => e is HooksRan,
        NodeStage::Init => e is Initialized,
        NodeStage::Command => e is Ran,
        NodeStage::Finished => false,
    }
}

/// Whether `after`, `ls` and `a` are the next step of the run `before` on
/// the event `e`: the hooks before the command, then the executor's
/// initialisation, its command and the hooks after it; the first failure
/// ends the run with its error.
pub open spec fn node_step(before: NodeRun, e: NodeEvent, after: NodeRun, ls: Seq<LineView>, a: NodeAction) -> bool {
    &&& after.command == before.command
    &&& after.project@ == before.project@
    &&& after.environment@ == before.environment@
    &&& after.executor@ == before.executor@
    &&& match (before.stage, e) {
        (NodeStage::PreHooks, NodeEvent::HooksRan(Ok(()))) => after.stage == NodeStage::Init && ls == seq![
            LineView::Dimmed("Initializing "@ + before.executor@ + "..."@),
        ] && a is Init,
        (NodeStage::Init, NodeEvent::Initialized { success: true, .. }) => after.stage == NodeStage::Command
            && ls == seq![
            LineView::Success("Initialization completed"@),
            LineView::Dimmed("Executing "@ + before.executor@ + " "@ + verb_of(before.command) + "..."@),
        ] && (a matches NodeAction::Run(v) && v@ == verb_of(before.command)),
        (NodeStage::Init, NodeEvent::Initialized { success: false, stdout, stderr, code }) => after.stage
            == NodeStage::Finished && ls == written_lines(stdout) + written_lines(stderr) && (a matches NodeAction::Done(
            Err(m),
        ) && m@ == "Initialization failed with exit code: "@ + code_text(code)),
        (NodeStage::Command, NodeEvent::Ran(Ok(()))) => after.stage == NodeStage::PostHooks && ls.len() == 0
            && (a matches NodeAction::RunHooks(p) && p@ == "post-"@ + phase_of(before.command)),
        (NodeStage::PostHooks, NodeEvent::HooksRan(Ok(()))) => after.stage == NodeStage::Finished && ls == seq![
            LineView::Success(
                title_of(before.command) + " completed for "@ + node_label(before.project@, before.environment@),
            ),
        ] && a == NodeAction::Done(Ok(())),
        (_, NodeEvent::HooksRan(Err(m))) => after.stage == NodeStage::Finished && ls.len() == 0 && (a matches NodeAction::Done(
            Err(x),
        ) && x@ == m@),
        (_, NodeEvent::Ran(Err(m))) => after.stage == NodeStage::Finished && ls.len() == 0 && (a matches NodeAction::Done(
            Err(x),
        ) && x@ == m@),
        _ => false,
    }
}

/// Whether `run`, `ls` and `a` start the command `c` on the environment
/// `node` with the executor named `executor`, where `no_infrastructure`
/// tells whether no infrastructure lies at or above the current directory:
/// an environment without executor is skipped; without an infrastructure
/// nothing runs; else the hooks before the command come first.
pub open spec fn node_started(
    c: NodeCommand,
    node: DependencyNode,
    executor: Seq<char>,
    no_infrastructure: bool,
    run: NodeRun,
    ls: Seq<LineView>,
    a: NodeAction,
) -> bool {
    &&& run.command == c
    &&& run.project@ == node.project_name@
    &&& run.environment@ == node.environment_name@
    &&& run.executor@ == executor
    &&& if executor == "none"@ {
        run.stage == NodeStage::Finished && ls == seq![
            LineView::Dimmed(
                "Skipping "@ + node_label(node.project_name@, node.environment_name@) + " - dependency-only project"@,
            ),
        ] && a == NodeAction::Done(Ok(()))
    } else if no_infrastructure {
        run.stage == NodeStage::Finished && ls.len() == 0 && (a matches NodeAction::Done(Err(m)) && m@
            == "Infrastructure is required to run commands"@)
    } else {
        run.stage == NodeStage::PreHooks && ls.len() == 0 && (a matches NodeAction::RunHooks(p) && p@ == "pre-"@
            + phase_of(c))
    }
}

/// The lines that start the step at place `i` of `order`.
pub open spec fn step_lines(order: Seq<DependencyNode>, i: int) -> Seq<LineView> {
    seq![
        LineView::Blank,
        LineView::Subsection(
            "Step "@ + decimal((i + 1) as nat) + "/"@ + decimal(order.len()) + ": "@ + node_label(
                order[i].project_name@,
                order[i].environment_name@,
            ),
        ),
    ]
}

/// The name of `c` in the names of its hooks.
fn phase_str(c: NodeCommand) -> (r: &'static str)
    ensures
        r@ == phase_of(c),
{
    match c {
        NodeCommand::Preview => "preview",
        NodeCommand::Apply => "apply",
        NodeCommand::Destroy => "destroy",
    }
}

/// The executor's command that `c` runs.
fn verb_str(c: NodeCommand) -> (r: &'static str)
    ensures
        r@ == verb_of(c),
{
    match c {
        NodeCommand::Preview => "plan",
        NodeCommand::Apply => "apply",
        NodeCommand::Destroy => "destroy",
    }
}

/// The name of `c` at the start of a sentence.
fn title_str(c: NodeCommand) -> (r: &'static str)
    ensures
        r@ == title_of(c),
{
    match c {
        NodeCommand::Preview => "Preview",
        NodeCommand::Apply => "Apply",
        NodeCommand::Destroy => "Destroy",
    }
}

/// `project (env)`.
fn label_string(project: &str, env: &str) -> (r: String)
    ensures
        r@ == node_label(project@, env@),
{
    let a = concat3(project, " (", env);
    concat(a.as_str(), ")")
}

/// The text of `c`.
fn i32_to_string(c: i32) -> (r: String)
    ensures
        r@ == int_text(c as int),
{
    if c < 0 {
        let m: i64 = c as i64;
        let n: u64 = (0 - m) as u64;
        concat("-", u64_to_string(n).as_str())
    } else {
        u64_to_string(c as u64)
    }
}

/// `code` as `{:?}` shows it.
fn code_to_string(code: Option<i32>) -> (r: String)
    ensures
        r@ == code_text(code),
{
    match code {
        Some(c) => concat3("Some(", i32_to_string(c).as_str(), ")"),
        None => "None".to_owned(),
    }
}

/// Shows what a failed initialisation wrote, where it wrote anything.
fn push_written(out: &mut Vec<OutputLine>, text: Option<String>)
    ensures
        lines_view(final(out)@) == lines_view(old(out)@) + written_lines(text),
{
    let ghost before = lines_view(out@);
    let ghost tv = text;
    match text {
        Some(t) => {
            if !t.as_str().is_empty() {
                emit(out, OutputLine::Error(t));
            }
        },
        None => {},
    }
    assert(lines_view(out@) =~= before + written_lines(tv));
}

impl ExecutorKind {
    /// The executor's name.
    pub fn name(&self) -> (r: String)
        ensures
            r@ == match self {
                ExecutorKind::OpenTofu => "opentofu"@,
                ExecutorKind::NoExecutor => "none"@,
            },
    {
        match self {
            ExecutorKind::OpenTofu => "opentofu".to_owned(),
            ExecutorKind::NoExecutor => "none".to_owned(),
        }
    }
}

impl NodeRun {
    /// Whether the run waits for an event like `e`.
    pub fn accepts(&self, e: &NodeEvent) -> (r: bool)
        ensures
            r == awaits(self.stage, *e),
    {
        match (self.stage, e) {
            (NodeStage::PreHooks, NodeEvent::HooksRan(_)) => true,
            (NodeStage::PostHooks, NodeEvent::HooksRan(_)) => true,
            (NodeStage::Init, NodeEvent::Initialized { .. }) => true,
            (NodeStage::Command, NodeEvent::Ran(_)) => true,
            _ => false,
        }
    }

    /// The next step of the run on the event `e`: the lines shown and what
    /// to do next.
    pub fn step(&mut self, e: NodeEvent) -> (r: (Vec<OutputLine>, NodeAction))
        requires
            awaits(old(self).stage, e),
        ensures
            node_step(*old(self), e, *final(self), lines_view(r.0@), r.1),
    {
        let mut out: Vec<OutputLine> = Vec::new();
        let ghost ev = e;
        match e {
            NodeEvent::HooksRan(Err(m)) => {
                self.stage = NodeStage::Finished;
                assert(lines_view(out@) =~= Seq::<LineView>::empty());
                (out, NodeAction::Done(Err(m)))
            },
            NodeEvent::Ran(Err(m)) => {
                self.stage = NodeStage::Finished;
                assert(lines_view(out@) =~= Seq::<LineView>::empty());
                (out, NodeAction::Done(Err(m)))
            },
            NodeEvent::HooksRan(Ok(())) => {
                if self.stage == NodeStage::PreHooks {
                    self.stage = NodeStage::Init;
                    emit(&mut out, OutputLine::Dimmed(concat3("Initializing ", self.executor.as_str(), "...")));
                    assert(lines_view(out@) =~= seq![
                        LineView::Dimmed("Initializing "@ + self.executor@ + "..."@),
                    ]);
                    (out, NodeAction::Init)
                } else {
                    self.stage = NodeStage::Finished;
                    let label = label_string(self.project.as_str(), self.environment.as_str());
                    emit(
                        &mut out,
                        OutputLine::Success(concat3(title_str(self.command), " completed for ", label.as_str())),
                    );
                    assert(lines_view(out@) =~= seq![
                        LineView::Success(
                            title_of(self.command) + " completed for "@ + node_label(self.project@, self.environment@),
                        ),
                    ]);
                    (out, NodeAction::Done(Ok(())))
                }
            },
            NodeEvent::Initialized { success, stdout, stderr, code } => {
                if success {
                    self.stage = NodeStage::Command;
                    let verb = verb_str(self.command);
                    emit(&mut out, OutputLine::Success("Initialization completed".to_owned()));
                    let a = concat3("Executing ", self.executor.as_str(), " ");
                    emit(&mut out, OutputLine::Dimmed(concat3(a.as_str(), verb, "...")));
                    assert(lines_view(out@) =~= seq![
                        LineView::Success("Initialization completed"@),
                        LineView::Dimmed("Executing "@ + self.executor@ + " "@ + verb_of(self.command) + "..."@),
                    ]);
                    (out, NodeAction::Run(verb.to_owned()))
                } else {
                    self.stage = NodeStage::Finished;
                    assert(lines_view(out@) =~= Seq::<LineView>::empty());
                    push_written(&mut out, stdout);
                    push_written(&mut out, stderr);
                    let m = concat("Initialization failed with exit code: ", code_to_string(code).as_str());
                    (out, NodeAction::Done(Err(m)))
                }
            },
            NodeEvent::Ran(Ok(())) => {
                self.stage = NodeStage::PostHooks;
                let phase = concat("post-", phase_str(self.command));
                assert(lines_view(out@) =~= Seq::<LineView>::empty());
                (out, NodeAction::RunHooks(phase))
            },
        }
    }
}

impl GraphRun {
    /// Whether the run has an environment at its current place.
    pub fn running(&self) -> (r: bool)
        ensures
            r == (self.current < self.order@.len()),
    {
        self.current < self.order.len()
    }

    /// The next step of the run once the environment at the current place
    /// finished with `res`: the first failure ends the run; else the next
    /// environment starts, or the run is over.
    pub fn node_finished(&mut self, res: Result<(), String>) -> (r: (Vec<OutputLine>, GraphAction))
        requires
            old(self).current < old(self).order@.len(),
        ensures
            final(self).order@ == old(self).order@,
            final(self).command_name@ == old(self).command_name@,
            match res {
                Err(m) => r.0@.len() == 0 && (r.1 matches GraphAction::Done(Err(x)) && x@ == m@)
                    && final(self).current == old(self).current,
                Ok(()) => if old(self).current + 1 < old(self).order@.len() {
                    final(self).current == old(self).current + 1 && lines_view(r.0@) == step_lines(
                        old(self).order@,
                        old(self).current + 1,
                    ) && r.1 == GraphAction::RunNode((old(self).current + 1) as usize)
                } else {
                    r.0@.len() == 0 && r.1 == GraphAction::Done(Ok(())) && final(self).current == old(
                        self,
                    ).order@.len()
                },
            },
    {
        let mut out: Vec<OutputLine> = Vec::new();
        let n = self.order.len();
        match res {
            Err(m) => (out, GraphAction::Done(Err(m))),
            Ok(()) => {
                self.current = self.current + 1;
                if self.current < self.order.len() {
                    push_step(&mut out, &self.order, self.current);
                    (out, GraphAction::RunNode(self.current))
                } else {
                    (out, GraphAction::Done(Ok(())))
                }
            },
        }
    }
}

/// Shows the start of the step at place `i` of `order`.
fn push_step(out: &mut Vec<OutputLine>, order: &Vec<DependencyNode>, i: usize)
    requires
        i < order@.len(),
    ensures
        lines_view(final(out)@) == lines_view(old(out)@) + step_lines(order@, i as int),
{
    let ghost before = lines_view(out@);
    let n = order.len();
    emit(out, OutputLine::Blank);
    let node = &order[i];
    let a = concat3("Step ", usize_to_string(i + 1).as_str(), "/");
    let b = concat3(a.as_str(), usize_to_string(n).as_str(), ": ");
    let label = label_string(node.project_name.as_str(), node.environment_name.as_str());
    emit(out, OutputLine::Subsection(concat(b.as_str(), label.as_str())));
    assert(lines_view(out@) =~= before + step_lines(order@, i as int));
}

impl ExecutionHelper {
    /// The executor named `name`: OpenTofu, or none for an environment that
    /// only stands for a dependency; any other name is refused.
    pub fn get_executor(name: &str) -> (r: Result<ExecutorKind, String>)
        ensures
            name@ == "opentofu"@ ==> r == Ok::<ExecutorKind, String>(ExecutorKind::OpenTofu),
            name@ == "none"@ ==> r == Ok::<ExecutorKind, String>(ExecutorKind::NoExecutor),
            name@ != "opentofu"@ && name@ != "none"@ ==> (r matches Err(m) && m@ == "Unknown executor: "@ + name@),
    {
        proof {
            reveal_strlit("opentofu");
            reveal_strlit("none");
            assert("none"@[0] != "opentofu"@[0]);
        }
        if str_eq(name, "opentofu") {
            Ok(ExecutorKind::OpenTofu)
        } else if str_eq(name, "none") {
            Ok(ExecutorKind::NoExecutor)
        } else {
            Err(concat("Unknown executor: ", name))
        }
    }

    /// Starts the command `c` on the environment `node` with the executor
    /// named `executor`, from the directory `current_dir`.
    fn start_on_node(
        c: NodeCommand,
        fs: &MemoryFileSystem,
        current_dir: &str,
        node: &DependencyNode,
        executor: &str,
    ) -> (r: (NodeRun, Vec<OutputLine>, NodeAction))
        ensures
            node_started(c, *node, executor@, no_collection_above(fs@, current_dir@), r.0, lines_view(r.1@), r.2),
    {
        let mut out: Vec<OutputLine> = Vec::new();
        let mut run = NodeRun {
            command: c,
            project: node.project_name.clone(),
            environment: node.environment_name.clone(),
            executor: executor.to_owned(),
            stage: NodeStage::Finished,
        };
        if str_eq(executor, "none") {
            let label = label_string(node.project_name.as_str(), node.environment_name.as_str());
            emit(&mut out, OutputLine::Dimmed(concat3("Skipping ", label.as_str(), " - dependency-only project")));
            assert(lines_view(out@) =~= seq![
                LineView::Dimmed(
                    "Skipping "@ + node_label(node.project_name@, node.environment_name@) + " - dependency-only project"@,
                ),
            ]);
            return (run, out, NodeAction::Done(Ok(())));
        }
        assert(lines_view(out@) =~= Seq::<LineView>::empty());
        let found = match CollectionDiscovery::find_collection_in_path(fs, current_dir) {
            Ok(f) => f,
            Err(e) => {
                return (run, out, NodeAction::Done(Err(e)));
            },
        };
        match found {
            None => (run, out, NodeAction::Done(Err("Infrastructure is required to run commands".to_owned()))),
            Some(_) => {
                run.stage = NodeStage::PreHooks;
                (run, out, NodeAction::RunHooks(concat("pre-", phase_str(c))))
            },
        }
    }

    /// Starts a preview of the environment `node` with the executor named
    /// `executor`; `NodeRun::step` takes it on.
    pub fn execute_preview_on_node(fs: &MemoryFileSystem, current_dir: &str, node: &DependencyNode, executor: &str) -> (r: (
        NodeRun,
        Vec<OutputLine>,
        NodeAction,
    ))
        ensures
            node_started(
                NodeCommand::Preview,
                *node,
                executor@,
                no_collection_above(fs@, current_dir@),
                r.0,
                lines_view(r.1@),
                r.2,
            ),
    {
        Self::start_on_node(NodeCommand::Preview, fs, current_dir, node, executor)
    }

    /// Starts an apply of the environment `node` with the executor named
    /// `executor`; `NodeRun::step` takes it on.
    pub fn execute_apply_on_node(fs: &MemoryFileSystem, current_dir: &str, node: &DependencyNode, executor: &str) -> (r: (
        NodeRun,
        Vec<OutputLine>,
        NodeAction,
    ))
        ensures
            node_started(
                NodeCommand::Apply,
                *node,
                executor@,
                no_collection_above(fs@, current_dir@),
                r.0,
                lines_view(r.1@),
                r.2,
            ),
    {
        Self::start_on_node(NodeCommand::Apply, fs, current_dir, node, executor)
    }

    /// Starts a destroy of the environment `node` with the executor named
    /// `executor`; `NodeRun::step` takes it on.
    pub fn execute_destroy_on_node(fs: &MemoryFileSystem, current_dir: &str, node: &DependencyNode, executor: &str) -> (r: (
        NodeRun,
        Vec<OutputLine>,
        NodeAction,
    ))
        ensures
            node_started(
                NodeCommand::Destroy,
                *node,
                executor@,
                no_collection_above(fs@, current_dir@),
                r.0,
                lines_view(r.1@),
                r.2,
            ),
    {
        Self::start_on_node(NodeCommand::Destroy, fs, current_dir, node, executor)
    }

    /// Starts running the command `command_name` on every environment of
    /// `graph`, in execution order: the heading, and the first environment
    /// to run; a graph with a cycle runs nothing. `GraphRun::node_finished`
    /// takes it on.
    pub fn execute_on_graph(graph: &DependencyGraph, command_name: &str) -> (r: (GraphRun, Vec<OutputLine>, GraphAction))
        ensures
            r.0.command_name@ == command_name@,
            r.0.current == 0,
            match r.2 {
                GraphAction::Done(Err(e)) => r.1@.len() == 0 && exists|k: Seq<char>|
                    graph.on_cycle(k) && graph.reachable(graph.root.key_view(), k) && e@
                        == DependencyGraph::cycle_message(k),
                _ => {
                    &&& graph.is_execution_order(r.0.order@)
                    &&& lines_view(r.1@) == seq![
                        LineView::Blank,
                        LineView::Section(
                            "Executing "@ + command_name@ + " on "@ + decimal(r.0.order@.len()) + " projects"@,
                        ),
                    ] + if r.0.order@.len() > 0 {
                        step_lines(r.0.order@, 0)
                    } else {
                        Seq::empty()
                    }
                    &&& r.2 == if r.0.order@.len() > 0 {
                        GraphAction::RunNode(0)
                    } else {
                        GraphAction::Done(Ok(()))
                    }
                },
            },
    {
        let mut out: Vec<OutputLine> = Vec::new();
        match graph.execution_order() {
            Err(e) => {
                let run = GraphRun { order: Vec::new(), command_name: command_name.to_owned(), current: 0 };
                (run, out, GraphAction::Done(Err(e)))
            },
            Ok(order) => {
                emit(&mut out, OutputLine::Blank);
                let a = concat3("Executing ", command_name, " on ");
                let b = concat3(a.as_str(), usize_to_string(order.len()).as_str(), " projects");
                emit(&mut out, OutputLine::Section(b));
                let ghost head = lines_view(out@);
                let n = order.len();
                if n > 0 {
                    push_step(&mut out, &order, 0);
                    let run = GraphRun { order, command_name: command_name.to_owned(), current: 0 };
                    (run, out, GraphAction::RunNode(0))
                } else {
                    assert(lines_view(out@) =~= head + Seq::<LineView>::empty());
                    let run = GraphRun { order, command_name: command_name.to_owned(), current: 0 };
                    (run, out, GraphAction::Done(Ok(())))
                }
            },
        }
    }
}

impl ApplyCommand {
    /// The executor named `name`: only OpenTofu runs an apply.
    pub fn get_executor(name: &str) -> (r: Result<ExecutorKind, String>)
        ensures
            name@ == "opentofu"@ ==> r == Ok::<ExecutorKind, String>(ExecutorKind::OpenTofu),
            name@ != "opentofu"@ ==> (r matches Err(m) && m@ == "Unknown IaC executor: "@ + name@),
    {
        if str_eq(name, "opentofu") {
            Ok(ExecutorKind::OpenTofu)
        } else {
            Err(concat("Unknown IaC executor: ", name))
        }
    }
}

/// A run on one environment gets to the executor's command only from a
/// successful initialisation, and to the hooks after it only once the
/// command ran; every failure ends the run.
pub proof fn lemma_node_steps_in_order(before: NodeRun, e: NodeEvent, after: NodeRun, ls: Seq<LineView>, a: NodeAction)
    requires
        node_step(before, e, after, ls, a),
    ensures
        a is Run ==> before.stage == NodeStage::Init && (e matches NodeEvent::Initialized { success, .. } && success),
        a is RunHooks ==> before.stage == NodeStage::Command && (e matches NodeEvent::Ran(r) && r is Ok),
        a is Init ==> before.stage == NodeStage::PreHooks,
        (e matches NodeEvent::HooksRan(Err(_))) || (e matches NodeEvent::Ran(Err(_))) ==> after.stage
            == NodeStage::Finished && (a matches NodeAction::Done(r) && r is Err),
        after.stage == NodeStage::Finished <==> a is Done,
{
}

} // verus!
