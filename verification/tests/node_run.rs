use pmp::dependency_graph::{DependencyGraph, DependencyNode};
use pmp::env_command::EnvCommand;
use pmp::execution::ExecutionHelper;
use pmp::fs::MemoryFileSystem;
use pmp::node_run::{ApplyCommand, ExecutorKind, GraphAction, NodeAction, NodeEvent, NodeStage};
use pmp::output::OutputLine;

fn show(l: &OutputLine) -> String {
    match l {
        OutputLine::Section(s) => format!("section:{}", s),
        OutputLine::Subsection(s) => format!("subsection:{}", s),
        OutputLine::Dimmed(s) => format!("dimmed:{}", s),
        OutputLine::Success(s) => format!("success:{}", s),
        OutputLine::Error(s) => format!("error:{}", s),
        OutputLine::Info(s) => format!("info:{}", s),
        OutputLine::Blank => "blank".to_string(),
        _ => "other".to_string(),
    }
}

fn shown(ls: &[OutputLine]) -> Vec<String> {
    ls.iter().map(show).collect()
}

fn action(a: &NodeAction) -> String {
    match a {
        NodeAction::RunHooks(p) => format!("hooks:{}", p),
        NodeAction::Init => "init".to_string(),
        NodeAction::Run(v) => format!("run:{}", v),
        NodeAction::Done(Ok(())) => "done".to_string(),
        NodeAction::Done(Err(e)) => format!("failed:{}", e),
    }
}

fn infrastructure() -> MemoryFileSystem {
    let mut fs = MemoryFileSystem::new();
    fs.create_dir_all("/infra/projects").unwrap();
    fs.write(
        "/infra/.pmp.infrastructure.yaml",
        "apiVersion: pmp.io/v1\nkind: Infrastructure\nmetadata:\n  name: demo\n",
    )
    .unwrap();
    fs
}

fn node() -> DependencyNode {
    DependencyNode::new("api".to_string(), "dev".to_string(), "/infra/projects/api/environments/dev".to_string())
}

#[test]
fn executors_are_known_by_name() {
    assert!(matches!(ExecutionHelper::get_executor("opentofu"), Ok(ExecutorKind::OpenTofu)));
    assert!(matches!(ExecutionHelper::get_executor("none"), Ok(ExecutorKind::NoExecutor)));
    assert_eq!(ExecutionHelper::get_executor("pulumi").err().unwrap(), "Unknown executor: pulumi");
    assert!(matches!(EnvCommand::get_executor("terraform"), Ok(ExecutorKind::OpenTofu)));
    assert_eq!(EnvCommand::get_executor("none").err().unwrap(), "Unknown executor: none");
    assert!(matches!(ApplyCommand::get_executor("opentofu"), Ok(ExecutorKind::OpenTofu)));
    assert_eq!(ApplyCommand::get_executor("terraform").err().unwrap(), "Unknown IaC executor: terraform");
    assert_eq!(ExecutorKind::NoExecutor.name(), "none");
}

#[test]
fn environments_without_executor_are_skipped() {
    let fs = infrastructure();
    let (run, lines, a) = ExecutionHelper::execute_apply_on_node(&fs, "/infra", &node(), "none");
    assert!(run.stage == NodeStage::Finished);
    assert_eq!(shown(&lines), vec!["dimmed:Skipping api (dev) - dependency-only project"]);
    assert_eq!(action(&a), "done");
}

#[test]
fn runs_need_an_infrastructure() {
    let (_, lines, a) = ExecutionHelper::execute_preview_on_node(&MemoryFileSystem::new(), "/", &node(), "opentofu");
    assert!(lines.is_empty());
    assert_eq!(action(&a), "failed:Infrastructure is required to run commands");
}

#[test]
fn a_successful_apply_runs_every_step_in_order() {
    let fs = infrastructure();
    let (mut run, lines, a) = ExecutionHelper::execute_apply_on_node(&fs, "/infra", &node(), "opentofu");
    assert!(lines.is_empty());
    assert_eq!(action(&a), "hooks:pre-apply");
    let (lines, a) = run.step(NodeEvent::HooksRan(Ok(())));
    assert_eq!(shown(&lines), vec!["dimmed:Initializing opentofu..."]);
    assert_eq!(action(&a), "init");
    let (lines, a) = run.step(NodeEvent::Initialized { success: true, stdout: None, stderr: None, code: Some(0) });
    assert_eq!(shown(&lines), vec!["success:Initialization completed", "dimmed:Executing opentofu apply..."]);
    assert_eq!(action(&a), "run:apply");
    let (lines, a) = run.step(NodeEvent::Ran(Ok(())));
    assert!(lines.is_empty());
    assert_eq!(action(&a), "hooks:post-apply");
    let (lines, a) = run.step(NodeEvent::HooksRan(Ok(())));
    assert_eq!(shown(&lines), vec!["success:Apply completed for api (dev)"]);
    assert_eq!(action(&a), "done");
    assert!(!run.accepts(&NodeEvent::HooksRan(Ok(()))));
}

#[test]
fn a_failed_initialisation_ends_the_run() {
    let fs = infrastructure();
    let (mut run, _, _) = ExecutionHelper::execute_destroy_on_node(&fs, "/infra", &node(), "opentofu");
    run.step(NodeEvent::HooksRan(Ok(())));
    let (lines, a) = run.step(NodeEvent::Initialized {
        success: false,
        stdout: Some(String::new()),
        stderr: Some("provider missing".to_string()),
        code: Some(-2),
    });
    assert_eq!(shown(&lines), vec!["error:provider missing"]);
    assert_eq!(action(&a), "failed:Initialization failed with exit code: Some(-2)");
    let (mut run, _, _) = ExecutionHelper::execute_preview_on_node(&fs, "/infra", &node(), "opentofu");
    run.step(NodeEvent::HooksRan(Ok(())));
    let (_, a) = run.step(NodeEvent::Initialized { success: false, stdout: None, stderr: None, code: None });
    assert_eq!(action(&a), "failed:Initialization failed with exit code: None");
}

#[test]
fn failing_hooks_end_the_run() {
    let fs = infrastructure();
    let (mut run, _, _) = ExecutionHelper::execute_preview_on_node(&fs, "/infra", &node(), "opentofu");
    let (lines, a) = run.step(NodeEvent::HooksRan(Err("hook exited with 1".to_string())));
    assert!(lines.is_empty());
    assert_eq!(action(&a), "failed:hook exited with 1");
    assert!(run.stage == NodeStage::Finished);
}

fn env_yaml(name: &str, deps: &[&str]) -> String {
    let mut s = format!(
        "apiVersion: pmp.io/v1\nkind: TestResource\nmetadata:\n  name: {}\n  environment_name: dev\nspec:\n",
        name
    );
    if deps.is_empty() {
        s.push_str("  dependencies: []\n");
    } else {
        s.push_str("  dependencies:\n");
        for dep in deps {
            s.push_str(&format!("    - project:\n        name: {}\n        environments:\n          - dev\n", dep));
        }
    }
    s
}

fn add_project(fs: &mut MemoryFileSystem, name: &str, deps: &[&str]) {
    let project_path = format!("/projects/test_resource/{}", name);
    let env_path = format!("{}/environments/dev", project_path);
    fs.create_dir_all(&env_path).unwrap();
    fs.write(
        &format!("{}/.pmp.project.yaml", project_path),
        &format!("apiVersion: pmp.io/v1\nkind: Project\nmetadata:\n  name: {}\n", name),
    )
    .unwrap();
    fs.write(&format!("{}/.pmp.environment.yaml", env_path), &env_yaml(name, deps)).unwrap();
}

#[test]
fn a_graph_runs_its_environments_in_order_and_stops_at_a_failure() {
    let mut fs = MemoryFileSystem::new();
    add_project(&mut fs, "db", &[]);
    add_project(&mut fs, "api", &["db"]);
    let graph =
        DependencyGraph::build(&fs, "/projects/test_resource/api/environments/dev", "api", "dev").unwrap();
    let (mut run, lines, a) = ExecutionHelper::execute_on_graph(&graph, "apply");
    assert_eq!(
        shown(&lines),
        vec!["blank", "section:Executing apply on 2 projects", "blank", "subsection:Step 1/2: db (dev)"]
    );
    assert!(matches!(a, GraphAction::RunNode(0)));
    let (lines, a) = run.node_finished(Ok(()));
    assert_eq!(shown(&lines), vec!["blank", "subsection:Step 2/2: api (dev)"]);
    assert!(matches!(a, GraphAction::RunNode(1)));
    let (lines, a) = run.node_finished(Ok(()));
    assert!(lines.is_empty());
    assert!(matches!(a, GraphAction::Done(Ok(()))));

    let (mut run, _, _) = ExecutionHelper::execute_on_graph(&graph, "destroy");
    let (lines, a) = run.node_finished(Err("apply failed".to_string()));
    assert!(lines.is_empty());
    assert!(matches!(a, GraphAction::Done(Err(ref e)) if e == "apply failed"));
}
