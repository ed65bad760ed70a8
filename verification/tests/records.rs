use pmp::audit::{AuditCommand, AuditLogEntry, AuditStatus, ChangesSummary};
use pmp::backup::{is_config_file, megabytes, Backup, BackupCommand, BackupMetadata, BackupType};
use pmp::disaster_recovery::{DisasterRecoveryCommand, TestStatus};
use pmp::fs::MemoryFileSystem;
use pmp::output::OutputLine;
use pmp::resources::EnvironmentResource;
use pmp::stamps::current_user;

fn show(l: &OutputLine) -> String {
    match l {
        OutputLine::Section(s) => format!("section:{}", s),
        OutputLine::Subsection(s) => format!("subsection:{}", s),
        OutputLine::KeyValue(k, v) => format!("kv:{}={}", k, v),
        OutputLine::KeyValueHighlight(k, v) => format!("kvh:{}={}", k, v),
        OutputLine::Info(s) => format!("info:{}", s),
        OutputLine::Dimmed(s) => format!("dimmed:{}", s),
        OutputLine::Success(s) => format!("success:{}", s),
        OutputLine::Warning(s) => format!("warning:{}", s),
        OutputLine::Error(s) => format!("error:{}", s),
        OutputLine::Blank => "blank".to_string(),
    }
}

fn shown(ls: &[OutputLine]) -> Vec<String> {
    ls.iter().map(show).collect()
}

fn resource() -> EnvironmentResource {
    let mut fs = MemoryFileSystem::new();
    fs.create_dir_all("/p/api/environments/dev").unwrap();
    fs.write(
        "/p/api/environments/dev/.pmp.environment.yaml",
        "apiVersion: pmp.io/v1\nkind: KubernetesWorkload\nmetadata:\n  name: api\n  environment_name: dev\nspec:\n  dependencies: []\n",
    )
    .unwrap();
    EnvironmentResource::from_file(&fs, "/p/api/environments/dev/.pmp.environment.yaml").unwrap()
}

fn backup(id: &str, project: &str, env: &str, created_at: &str) -> Backup {
    Backup {
        id: id.to_string(),
        project: project.to_string(),
        environment: env.to_string(),
        created_at: created_at.to_string(),
        created_by: "alice".to_string(),
        backup_type: BackupType::Full,
        size_bytes: 5 * 1024 * 1024,
        description: None,
        metadata: BackupMetadata {
            resource_count: 12,
            state_version: None,
            terraform_version: None,
            checksum: "c".to_string(),
        },
    }
}

fn entry(id: &str, action: &str) -> AuditLogEntry {
    AuditLogEntry {
        id: id.to_string(),
        timestamp: "2024-01-01T00:00:00Z".to_string(),
        project: "api".to_string(),
        environment: "dev".to_string(),
        action: action.to_string(),
        user: "alice".to_string(),
        changes: ChangesSummary { resources_added: 1, resources_modified: 2, resources_deleted: 0, total_changes: 3 },
        status: AuditStatus::Success,
    }
}

#[test]
fn megabytes_prints_like_two_decimal_floats() {
    for bytes in [0u64, 1, 131072, 393216, 655360, 1048576, 5242880, 1572864, 123456789, 10485759, 5767168] {
        let expected = format!("{:.2}", bytes as f64 / 1024.0 / 1024.0);
        assert_eq!(megabytes(bytes), expected, "bytes = {}", bytes);
    }
    assert_eq!(megabytes(5242880), "5.00");
}

#[test]
fn backup_type_names_and_choices() {
    assert_eq!(BackupType::Full.name(), "Full");
    assert!(matches!(BackupType::from_option(Some("state")), Some(BackupType::State)));
    assert!(matches!(BackupType::from_option(Some("configuration")), Some(BackupType::Configuration)));
    assert!(BackupType::from_option(Some("weekly")).is_none());
    assert!(BackupType::from_option(None).is_none());
    assert!(matches!(BackupType::from_selection("full"), BackupType::Full));
    assert!(matches!(BackupType::from_selection("other"), BackupType::Configuration));
}

#[test]
fn configuration_files_by_extension() {
    assert!(is_config_file("/env/main.tf"));
    assert!(is_config_file("/env/values.yaml"));
    assert!(is_config_file("/env/values.yml"));
    assert!(!is_config_file("/env/terraform.tfstate"));
    assert!(!is_config_file("/env/.yaml"));
    assert!(!is_config_file("/env/README"));
}

#[test]
fn new_backups_carry_fresh_ids_and_the_user() {
    let r = resource();
    let b = BackupCommand::create_backup(&r, BackupType::State, Some("before upgrade".to_string()), Some("  ops@example.com\n"));
    assert!(b.id.starts_with("backup-"));
    assert_eq!(b.id.len(), 43);
    assert_eq!(b.project, "api");
    assert_eq!(b.environment, "dev");
    assert_eq!(b.created_by, "ops@example.com");
    assert_eq!(b.size_bytes, 5242880);
    let other = BackupCommand::create_backup(&r, BackupType::State, None, None);
    assert_ne!(b.id, other.id);
}

#[test]
fn backups_are_listed_newest_first() {
    let backups = vec![
        backup("b1", "api", "dev", "2024-01-01T00:00:00Z"),
        backup("b2", "db", "dev", "2024-03-01T00:00:00Z"),
        backup("b3", "api", "dev", "2024-02-01T00:00:00Z"),
    ];
    let lines = shown(&BackupCommand::execute_list(backups, Some("api"), None));
    assert_eq!(lines[0], "subsection:Available Backups");
    assert_eq!(lines[2], "dimmed:[b3] Full");
    assert_eq!(lines[5], "dimmed:  Size: 5.00 MB, 12 resources");
    assert_eq!(lines[7], "dimmed:[b1] Full");
    assert_eq!(lines.last().unwrap(), "success:2 backups found");
    let none = shown(&BackupCommand::execute_list(vec![], None, None));
    assert_eq!(none, vec!["info:No backups found"]);
}

#[test]
fn deleting_a_backup_needs_force_or_confirmation() {
    let b = backup("b1", "api", "dev", "2024-01-01T00:00:00Z");
    let (lines, go) = BackupCommand::execute_delete(&b, false, false);
    assert!(!go);
    assert_eq!(show(lines.last().unwrap()), "info:Deletion cancelled");
    let (lines, go) = BackupCommand::execute_delete(&b, true, false);
    assert!(go);
    assert_eq!(lines.len(), 5);
    assert_eq!(BackupCommand::metadata_file("/infra", "b1"), "/infra/.pmp/backups/b1.json");
}

#[test]
fn recovery_plans_have_eight_steps() {
    let r = resource();
    let plan = DisasterRecoveryCommand::generate_recovery_plan(&r, 60, 15, Some("dr@example.com"));
    assert!(plan.id.starts_with("dr-plan-"));
    assert_eq!(plan.steps.len(), 8);
    assert_eq!(plan.created_by, "dr@example.com");
    let total: u32 = plan.steps.iter().map(|s| s.estimated_duration_minutes).sum();
    assert_eq!(total, 150);
    assert_eq!(plan.steps[0].title, "Assess Disaster Impact");
    assert_eq!(plan.steps[7].title, "Document and Review");
}

#[test]
fn recovery_tests_pass_unless_dry() {
    let r = resource();
    let plan = DisasterRecoveryCommand::generate_recovery_plan(&r, 60, 15, None);
    let real = DisasterRecoveryCommand::run_recovery_test(&plan, false);
    assert!(matches!(real.status, TestStatus::Passed));
    assert_eq!(real.plan_id, plan.id);
    assert!(real.id.starts_with("dr-test-"));
    let dry = DisasterRecoveryCommand::run_recovery_test(&plan, true);
    assert!(matches!(dry.status, TestStatus::PartialSuccess));
    assert_eq!(dry.results[2].duration_seconds, 30 * 60);
    let (lines, _test) = DisasterRecoveryCommand::execute_test(&plan, true);
    let lines = shown(&lines);
    assert_eq!(lines[0], "dimmed:Starting DR test...");
    assert!(lines.contains(&"warning:2 steps failed".to_string()));
}

#[test]
fn audit_log_filters_and_limits() {
    let logs = vec![entry("1", "apply"), entry("2", "destroy"), entry("3", "apply"), entry("4", "apply")];
    let lines = shown(&AuditCommand::log_report(&logs, Some("apply"), Some(2)));
    assert_eq!(lines[0], "subsection:Recent Deployments");
    assert!(lines.contains(&"dimmed:... and 1 more entries (use --limit to see more)".to_string()));
    assert_eq!(lines.last().unwrap(), "success:Showing 2 audit entries");
    let none = shown(&AuditCommand::log_report(&logs, Some("import"), None));
    assert_eq!(none, vec!["info:No audit logs found"]);
}

#[test]
fn state_diff_report_counts_changes() {
    let r = resource();
    let diff = AuditCommand::generate_state_diff(&r, "v1", "v2");
    assert_eq!(diff.from_state, "v1");
    assert_eq!(diff.to_state, "v2");
    let lines = shown(&AuditCommand::diff_report(&diff));
    assert!(lines.contains(&"kv:Resources Added=+1".to_string()));
    assert!(lines.contains(&"kv:Resources Modified=~1".to_string()));
    assert!(lines.contains(&"kv:Resources Deleted=-1".to_string()));
    assert_eq!(lines.last().unwrap(), "success:Diff analysis complete");
}

#[test]
fn the_acting_user() {
    assert_eq!(current_user(Some(" dev@example.com \n")), "dev@example.com");
    let fallback = current_user(Some("   "));
    assert_eq!(fallback, current_user(None));
}
