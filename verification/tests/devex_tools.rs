use pmp::devex::DevExCommand;
use pmp::fs::MemoryFileSystem;
use pmp::output::OutputLine;
use pmp::resources::EnvironmentResource;
use pmp::devex_tools::ShellCommand;

fn show(l: &OutputLine) -> String {
    match l {
        OutputLine::Subsection(s) => format!("subsection:{}", s),
        OutputLine::KeyValue(k, v) => format!("kv:{}={}", k, v),
        OutputLine::Info(s) => format!("info:{}", s),
        OutputLine::Dimmed(s) => format!("dimmed:{}", s),
        OutputLine::Blank => "blank".to_string(),
        _ => "other".to_string(),
    }
}

fn infrastructure() -> MemoryFileSystem {
    let mut fs = MemoryFileSystem::new();
    fs.create_dir_all("/infra/projects/api/environments/dev").unwrap();
    fs.write("/infra/.pmp.infrastructure.yaml", "apiVersion: pmp.io/v1\nkind: Infrastructure\nmetadata:\n  name: demo\n").unwrap();
    fs.write("/infra/projects/api/.pmp.project.yaml", "apiVersion: pmp.io/v1\nkind: Project\nmetadata:\n  name: api\n").unwrap();
    fs.write(
        "/infra/projects/api/environments/dev/.pmp.environment.yaml",
        "apiVersion: pmp.io/v1\nkind: Workload\nmetadata:\n  name: api\n  environment_name: dev\nspec:\n  dependencies: []\n",
    )
    .unwrap();
    fs
}

#[test]
fn export_writes_a_placeholder_for_each_supported_format() {
    let fs = infrastructure();
    let resource = EnvironmentResource::from_file(&fs, "/infra/projects/api/environments/dev/.pmp.environment.yaml").unwrap();
    let (line, text) = DevExCommand::export_to_format(&resource, "cfn").unwrap();
    assert_eq!(show(&line), "dimmed:Exporting to CloudFormation format...");
    assert_eq!(text, "# CloudFormation Template: api\\n# Environment: dev\\n# TODO: Implement CloudFormation export\\n");
    assert_eq!(DevExCommand::export_to_format(&resource, "cdk").err().unwrap(), "Unsupported export format: cdk");
}

#[test]
fn shell_lines_name_commands() {
    assert!(matches!(DevExCommand::shell_command("   "), ShellCommand::Nothing));
    assert!(matches!(DevExCommand::shell_command(" quit "), ShellCommand::Exit));
    assert!(matches!(DevExCommand::shell_command("ls"), ShellCommand::List));
    assert!(matches!(DevExCommand::shell_command("cd  /tmp "), ShellCommand::Cd(p) if p == "/tmp"));
    assert!(matches!(DevExCommand::shell_command("show api"), ShellCommand::Show(p) if p == "api"));
    assert!(matches!(DevExCommand::shell_command("inspect ./dev"), ShellCommand::Inspect(p) if p == "./dev"));
    assert!(matches!(DevExCommand::shell_command("cd"), ShellCommand::Unknown(u) if u == "cd"));
    assert_eq!(DevExCommand::show_shell_help().len(), 9);
}

#[test]
fn shell_lists_and_shows_projects() {
    let fs = infrastructure();
    let mut warnings = Vec::new();
    let ls = DevExCommand::shell_list_projects(&fs, &mut warnings, "/infra").unwrap();
    assert_eq!(ls.iter().map(show).collect::<Vec<_>>()[2], "info:• api (Workload) - projects/api");
    let ls = DevExCommand::shell_show_project(&fs, &mut warnings, "/infra", "api").unwrap();
    assert_eq!(
        ls.iter().map(show).collect::<Vec<_>>(),
        vec![
            "subsection:api",
            "blank",
            "kv:Name=api",
            "kv:Kind=Workload",
            "kv:Path=projects/api",
            "blank",
            "dimmed:Environments:",
            "dimmed:  • dev",
        ]
    );
    assert_eq!(DevExCommand::shell_show_project(&fs, &mut warnings, "/infra", "web").err().unwrap(), "Project not found");
}
