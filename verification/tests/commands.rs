use pmp::drift::{ChangeType, DriftChange, DriftCommand, DriftReport};
use pmp::execution::ExecutionHelper;
use pmp::find::FindCommand;
use pmp::fs::MemoryFileSystem;
use pmp::lock::{LockCommand, LockTarget, ProjectLock};
use pmp::manager::CollectionManager;
use pmp::output::OutputLine;
use pmp::resources::EnvironmentResource;

fn show(l: &OutputLine) -> String {
    match l {
        OutputLine::Section(s) => format!("section:{}", s),
        OutputLine::Subsection(s) => format!("subsection:{}", s),
        OutputLine::KeyValue(k, v) => format!("kv:{}={}", k, v),
        OutputLine::KeyValueHighlight(k, v) => format!("kvh:{}={}", k, v),
        OutputLine::Info(s) => format!("info:{}", s),
        OutputLine::Dimmed(s) => format!("dimmed:{}", s),
        OutputLine::Success(s) => format!("success:{}", s),
        OutputLine::Warning(s) => format!("warning:{}", s),
        OutputLine::Error(s) => format!("error:{}", s),
        OutputLine::Blank => "blank".to_string(),
    }
}

fn shown(ls: &[OutputLine]) -> Vec<String> {
    ls.iter().map(show).collect()
}

fn env_yaml(name: &str, env: &str, kind: &str, deps: &[(&str, &str)]) -> String {
    let mut s = format!(
        "apiVersion: pmp.io/v1\nkind: {}\nmetadata:\n  name: {}\n  environment_name: {}\nspec:\n",
        kind, name, env
    );
    if deps.is_empty() {
        s.push_str("  dependencies: []\n");
    } else {
        s.push_str("  dependencies:\n");
        for (dep, e) in deps {
            s.push_str(&format!("    - project:\n        name: {}\n        environments:\n          - {}\n", dep, e));
        }
    }
    s
}

fn root_infrastructure() -> MemoryFileSystem {
    let mut fs = MemoryFileSystem::new();
    fs.create_dir_all("/projects").unwrap();
    fs.write(
        "/.pmp.infrastructure.yaml",
        "apiVersion: pmp.io/v1\nkind: Infrastructure\nmetadata:\n  name: demo\n",
    )
    .unwrap();
    fs
}

fn infrastructure() -> MemoryFileSystem {
    let mut fs = MemoryFileSystem::new();
    fs.create_dir_all("/infra/projects").unwrap();
    fs.write(
        "/infra/.pmp.infrastructure.yaml",
        "apiVersion: pmp.io/v1\nkind: Infrastructure\nmetadata:\n  name: demo\n",
    )
    .unwrap();
    fs
}

fn add_env(fs: &mut MemoryFileSystem, project: &str, env: &str, kind: &str, deps: &[(&str, &str)]) {
    add_env_at(fs, "/infra", project, env, kind, deps);
}

fn add_env_at(fs: &mut MemoryFileSystem, root: &str, project: &str, env: &str, kind: &str, deps: &[(&str, &str)]) {
    let dir = format!("{}/projects/{}", root.trim_end_matches('/'), project);
    fs.create_dir_all(&format!("{}/environments/{}", dir, env)).unwrap();
    fs.write(
        &format!("{}/.pmp.project.yaml", dir),
        &format!("apiVersion: pmp.io/v1\nkind: Project\nmetadata:\n  name: {}\n", project),
    )
    .unwrap();
    fs.write(
        &format!("{}/environments/{}/.pmp.environment.yaml", dir, env),
        &env_yaml(project, env, kind, deps),
    )
    .unwrap();
}

fn lock(by: &str, reason: Option<&str>) -> ProjectLock {
    ProjectLock {
        project: "api".to_string(),
        environment: "dev".to_string(),
        locked_by: by.to_string(),
        locked_at: "2024-01-01T00:00:00Z".to_string(),
        lock_id: "id-1".to_string(),
        reason: reason.map(|r| r.to_string()),
        expires_at: None,
    }
}

#[test]
fn find_searches_by_name_then_kind_then_all() {
    let mut fs = infrastructure();
    add_env(&mut fs, "my-api", "dev", "KubernetesWorkload", &[]);
    add_env(&mut fs, "postgres", "dev", "PostgresDatabase", &[]);
    let mut warnings = Vec::new();
    let manager = CollectionManager::load(&fs, &mut warnings, "/infra").unwrap();

    let by_name = FindCommand::execute(&manager, Some("API"), Some("PostgresDatabase"));
    assert_eq!(by_name.len(), 1);
    assert_eq!(by_name[0].name, "my-api");

    let by_kind = FindCommand::execute(&manager, None, Some("postgresdatabase"));
    assert_eq!(by_kind.len(), 1);
    assert_eq!(by_kind[0].name, "postgres");

    let all = FindCommand::execute(&manager, None, None);
    assert_eq!(all.len(), 2);

    let options = FindCommand::project_options(&all);
    assert!(options.contains(&"my-api (KubernetesWorkload)".to_string()));
    assert_eq!(FindCommand::position_of(&options, "postgres (PostgresDatabase)").is_some(), true);
    assert_eq!(FindCommand::position_of(&options, "nothing"), None);
}

#[test]
fn find_reports_results() {
    let mut fs = infrastructure();
    add_env(&mut fs, "my-api", "dev", "KubernetesWorkload", &[]);
    let mut warnings = Vec::new();
    let manager = CollectionManager::load(&fs, &mut warnings, "/infra").unwrap();
    assert_eq!(shown(&FindCommand::results_header(&manager, 0)), vec!["info:No projects found."]);
    assert_eq!(
        shown(&FindCommand::results_header(&manager, 2)),
        vec!["info:Found 2 project(s) in collection 'demo':", "blank"]
    );
    let all = FindCommand::execute(&manager, None, None);
    let details = shown(&FindCommand::project_details(&manager, all[0]));
    assert_eq!(details[1], "info:Project Details:");
    assert_eq!(details[2], "info:  Name: my-api");
    assert_eq!(details[3], "info:  Kind: KubernetesWorkload");
    assert_eq!(details[5], format!("info:  Full path: /infra/{}", all[0].path));
}

#[test]
fn lock_file_names() {
    assert_eq!(LockCommand::lock_file("/infra", "api", "dev"), "/infra/.pmp/locks/api-dev.lock");
    assert!(LockCommand::is_lock_file("/infra/.pmp/locks/api-dev.lock"));
    assert!(!LockCommand::is_lock_file("/infra/.pmp/locks/readme.txt"));
    assert_eq!(LockCommand::reason_from_input(""), None);
    assert_eq!(LockCommand::reason_from_input("deploy"), Some("deploy".to_string()));
}

#[test]
fn acquire_refuses_a_held_lock() {
    let target = LockTarget { root: "/infra".to_string(), project: "api".to_string(), environment: "dev".to_string() };
    let held = lock("alice", Some("release"));
    let (lines, new_lock) = LockCommand::acquire(Some(&held), &target, "bob", None);
    assert!(new_lock.is_none());
    assert_eq!(
        shown(&lines),
        vec![
            "warning:Project is already locked",
            "dimmed:Locked by: alice",
            "dimmed:Locked at: 2024-01-01T00:00:00Z",
            "dimmed:Reason: release",
        ]
    );
}

#[test]
fn acquire_takes_a_free_lock() {
    let target = LockTarget { root: "/infra".to_string(), project: "api".to_string(), environment: "dev".to_string() };
    let (lines, new_lock) = LockCommand::acquire(None, &target, "bob", Some("maintenance"));
    let l = new_lock.unwrap();
    assert_eq!(l.project, "api");
    assert_eq!(l.environment, "dev");
    assert_eq!(l.locked_by, "bob");
    assert_eq!(l.lock_id.len(), 36);
    assert_eq!(l.reason, Some("maintenance".to_string()));
    assert_eq!(shown(&lines)[0], "success:Lock acquired");
    assert_eq!(shown(&lines)[1], format!("dimmed:Lock ID: {}", l.lock_id));
    assert_eq!(shown(&lines)[2], "dimmed:Reason: maintenance");
}

#[test]
fn only_the_owner_or_force_releases() {
    let held = lock("alice", None);
    let (before, remove, after) = LockCommand::release(Some(&held), "alice", false);
    assert!(remove);
    assert!(before.is_empty());
    assert_eq!(shown(&after), vec!["success:Lock released"]);

    let (before, remove, after) = LockCommand::release(Some(&held), "bob", false);
    assert!(!remove);
    assert!(after.is_empty());
    assert_eq!(shown(&before)[0], "warning:Lock is owned by another user");

    let (before, remove, _after) = LockCommand::release(Some(&held), "bob", true);
    assert!(remove);
    assert_eq!(shown(&before), vec!["warning:Forcing lock release (this action is logged)"]);

    let (before, remove, _after) = LockCommand::release(None, "bob", true);
    assert!(!remove);
    assert_eq!(shown(&before), vec!["info:Project is not locked"]);
}

#[test]
fn lock_status_lines() {
    let held = lock("alice", None);
    assert_eq!(
        shown(&LockCommand::status_lines(Some(&held))),
        vec![
            "subsection:Lock Details",
            "kv:Locked by=alice",
            "kv:Locked at=2024-01-01T00:00:00Z",
            "kv:Lock ID=id-1",
        ]
    );
    assert_eq!(shown(&LockCommand::status_lines(None)), vec!["info:Project is not locked"]);
    let all = shown(&LockCommand::all_locks_lines(&vec![held]));
    assert_eq!(all[0], "subsection:Active Locks");
    assert_eq!(all[2], "dimmed:api/dev");
    assert_eq!(all.last().unwrap(), "success:1 active locks");
    assert_eq!(shown(&LockCommand::all_locks_lines(&vec![])), vec!["info:No active locks"]);
}

#[test]
fn locate_environment_for_a_lock() {
    let mut fs = infrastructure();
    add_env(&mut fs, "api", "dev", "KubernetesWorkload", &[]);
    let (lines, res) = LockCommand::locate_environment(
        &fs,
        "/infra/projects/api/environments/dev",
        None,
        "Acquire Project Lock",
        "Not in an environment directory. Please specify a path.",
    );
    let t = res.unwrap().unwrap();
    assert_eq!(t.root, "/infra");
    assert_eq!(t.project, "api");
    assert_eq!(t.environment, "dev");
    assert_eq!(shown(&lines), vec!["section:Acquire Project Lock", "blank", "kv:Project=api", "kv:Environment=dev", "blank"]);

    let (lines, res) = LockCommand::locate_environment(&fs, "/infra", None, "Lock Status", "Not here.");
    assert!(res.unwrap().is_none());
    assert_eq!(shown(&lines)[2], "warning:Not here.");
}

#[test]
fn plan_output_is_read_into_changes() {
    let stdout = "\
# aws_instance.web will be updated in-place
  ~ resource \"aws_instance\" \"web\" {
      ~ instance_type = \"t2.micro\" -> \"t2.large\"
      + monitoring    = true
      - ebs_optimized = false
    }
";
    let changes = DriftCommand::parse_plan_output(stdout, Some(2));
    assert_eq!(changes.len(), 3);
    assert!(changes[0].change_type == ChangeType::Modified);
    assert_eq!(changes[0].resource_address, "aws_instance.web");
    assert_eq!(changes[0].attribute, "instance_type");
    assert_eq!(changes[0].expected, "t2.micro");
    assert_eq!(changes[0].actual, "t2.large");
    assert!(changes[1].change_type == ChangeType::Added);
    assert_eq!(changes[1].expected, "(not set)");
    assert_eq!(changes[1].actual, "true");
    assert!(changes[2].change_type == ChangeType::Removed);
    assert_eq!(changes[2].expected, "false");
    assert_eq!(changes[2].actual, "(removed)");
}

#[test]
fn plan_output_without_readable_changes() {
    let none = DriftCommand::parse_plan_output("No changes.\n", Some(0));
    assert!(none.is_empty());
    let summary = DriftCommand::parse_plan_output("something changed\n", Some(2));
    assert_eq!(summary.len(), 1);
    assert_eq!(summary[0].resource_address, "(multiple resources)");
    assert_eq!(summary[0].actual, "actual state differs");
}

#[test]
fn drift_report_text() {
    let report = DriftReport {
        project: "api".to_string(),
        environment: "dev".to_string(),
        timestamp: "T".to_string(),
        has_drift: true,
        changes: vec![DriftChange {
            resource_address: "aws_s3_bucket.b".to_string(),
            change_type: ChangeType::Modified,
            attribute: "acl".to_string(),
            expected: "private".to_string(),
            actual: "public".to_string(),
        }],
    };
    assert_eq!(
        DriftCommand::report_text(&report),
        "Drift Report: api (dev)\nTimestamp: T\nHas Drift: true\nChanges: 1\n\n[Modified] aws_s3_bucket.b [acl]:\n  Expected: private\n  Actual:   public\n\n"
    );
    assert_eq!(
        shown(&DriftCommand::display_drift_changes(&report.changes)),
        vec!["dimmed:[~] aws_s3_bucket.b [acl]:", "dimmed:  Expected: private", "dimmed:  Actual:   public", "blank"]
    );
    let (lines, go_on) = DriftCommand::reconcile_preview(&report);
    assert!(go_on);
    assert_eq!(shown(&lines)[0], "info:Detected 1 change(s) in infrastructure");
    assert_eq!(shown(&lines)[2], "dimmed:~ aws_s3_bucket.b [acl]: private → public");
}

#[test]
fn drift_summary_of_all_projects() {
    let none = DriftCommand::all_projects_lines(&vec![], None);
    assert_eq!(shown(&none), vec!["success:No drift detected across all projects."]);
    let some = DriftCommand::all_projects_lines(&vec![("api:dev".to_string(), 2), ("db:prod".to_string(), 1)], None);
    assert_eq!(
        shown(&some),
        vec![
            "error:Drift detected in 2 project(s) with 3 total change(s)",
            "blank",
            "info:• api:dev (2 changes)",
            "info:• db:prod (1 changes)",
        ]
    );
    let json = DriftCommand::all_projects_lines(&vec![("api:dev".to_string(), 2)], Some("json"));
    assert_eq!(json.len(), 2);
}

#[test]
fn drift_report_of_an_environment() {
    let mut fs = infrastructure();
    add_env(&mut fs, "api", "dev", "KubernetesWorkload", &[]);
    let resource = EnvironmentResource::from_file(&fs, "/infra/projects/api/environments/dev/.pmp.environment.yaml").unwrap();
    let report = DriftCommand::generate_drift_report(&resource, "No changes.\n", Some(0));
    assert!(!report.has_drift);
    assert_eq!(report.project, "api");
    let lines = shown(&DriftCommand::single_environment_lines(&resource, &report, None));
    assert_eq!(lines[0], "subsection:Project: api (dev)");
    assert_eq!(lines.last().unwrap(), "success:No drift detected. Infrastructure matches configuration.");
}

#[test]
fn dependencies_are_shown_before_execution() {
    let mut fs = root_infrastructure();
    add_env_at(&mut fs, "/", "web", "dev", "KubernetesWorkload", &[("api", "dev")]);
    add_env_at(&mut fs, "/", "api", "dev", "KubernetesWorkload", &[]);
    let (lines, res) =
        ExecutionHelper::check_and_display_dependencies(&fs, "/projects/web/environments/dev", "web", "dev", "apply");
    let pending = res.unwrap().unwrap();
    assert_eq!(pending.question, "Proceed with apply on all 2 projects?");
    let s = shown(&lines);
    assert_eq!(s[1], "subsection:Dependencies");
    assert_eq!(s[4], "info:This project has dependencies. The following projects will be executed in order:");
    assert!(s.contains(&"info:Total projects to execute: 2".to_string()));
    let (after, graph) = ExecutionHelper::confirm_execution(pending, false);
    assert!(graph.is_none());
    assert_eq!(shown(&after), vec!["blank", "info:Operation cancelled by user"]);

    let (lines, res) =
        ExecutionHelper::check_and_display_dependencies(&fs, "/projects/api/environments/dev", "api", "dev", "apply");
    assert!(lines.is_empty());
    assert!(res.unwrap().is_none());
}
