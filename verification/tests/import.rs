use pmp::import::{
    BulkImportArgs, ImportCommand, ImportSubcommand, ProjectAnalysis, ProjectImportArgs, ProjectImporter,
    ProviderInfo, StateImportArgs,
};
use pmp::output::OutputLine;

fn show(l: &OutputLine) -> String {
    match l {
        OutputLine::Info(s) => format!("info:{}", s),
        OutputLine::Success(s) => format!("success:{}", s),
        OutputLine::Dimmed(s) => format!("dimmed:{}", s),
        OutputLine::Error(s) => format!("error:{}", s),
        OutputLine::Blank => "blank".to_string(),
        _ => "other".to_string(),
    }
}

fn shown(ls: &[OutputLine]) -> Vec<String> {
    ls.iter().map(show).collect()
}

fn args(path: &str, name: Option<&str>, dry_run: bool, yes: bool) -> ProjectImportArgs {
    ProjectImportArgs {
        source_path: path.to_string(),
        name: name.map(|n| n.to_string()),
        environment: None,
        template_pack: None,
        template_name: None,
        file_strategy: "copy".to_string(),
        import_state: true,
        dry_run,
        yes,
    }
}

fn analysis() -> ProjectAnalysis {
    ProjectAnalysis {
        terraform_files: vec!["main.tf".to_string(), "vars.tf".to_string()],
        has_state: true,
        resources: Some(vec![
            "aws_instance".to_string(),
            "aws_s3_bucket".to_string(),
            "aws_instance".to_string(),
        ]),
        providers: vec![
            ProviderInfo { name: "aws".to_string(), version: Some("5.0".to_string()) },
            ProviderInfo { name: "random".to_string(), version: None },
        ],
    }
}

#[test]
fn analysis_counts_resources_by_type() {
    assert_eq!(
        shown(&ProjectImporter::display_analysis(&analysis())),
        vec![
            "info:   ✓ Found 2 .tf files",
            "info:   ✓ Found terraform.tfstate",
            "info:   ✓ Detected 3 resources across 2 providers",
            "info:\n📊 Analysis Summary:",
            "info:   Providers: aws (5.0), random (unknown)",
            "info:   Resources:",
            "info:     - aws_instance (2)",
            "info:     - aws_s3_bucket (1)",
        ]
    );
}

#[test]
fn analysis_without_state_shows_the_files_only() {
    let a = ProjectAnalysis { terraform_files: vec![], has_state: false, resources: None, providers: vec![] };
    assert_eq!(shown(&ProjectImporter::display_analysis(&a)), vec!["info:   ✓ Found 0 .tf files"]);
}

#[test]
fn project_name_defaults_to_the_directory_name() {
    let importer = ProjectImporter { args: args("/src/legacy-network/", None, false, true) };
    let config = importer.get_project_config();
    assert_eq!(config.name, "legacy-network");
    assert_eq!(config.environment, "production");
    let importer = ProjectImporter { args: args("/src/x", Some("net"), false, true) };
    assert_eq!(importer.get_project_config().name, "net");
    let importer = ProjectImporter { args: args("/src/..", None, false, true) };
    assert_eq!(importer.get_project_config().name, "imported-project");
    assert_eq!(ProjectImporter::source_file_name("./a/./b/."), Some("b".to_string()));
    assert_eq!(ProjectImporter::source_file_name("/"), None);
}

#[test]
fn dry_runs_never_go_ahead_and_yes_always_does() {
    assert_eq!(ProjectImporter { args: args("/s", None, true, true) }.confirm_import(), Some(false));
    assert_eq!(ProjectImporter { args: args("/s", None, false, true) }.confirm_import(), Some(true));
    assert_eq!(ProjectImporter { args: args("/s", None, false, false) }.confirm_import(), None);
}

#[test]
fn import_of_a_missing_directory_is_refused() {
    let (lines, res) = ImportCommand::import_project(args("/nowhere", None, false, true), false, &analysis());
    assert_eq!(shown(&lines), vec!["info:🔍 Analyzing Terraform project..."]);
    assert_eq!(res.err().unwrap(), "Source path does not exist: /nowhere");
}

#[test]
fn import_shows_the_preview_and_the_next_steps() {
    let (lines, res) = ImportCommand::import_project(args("/src/app", None, false, true), true, &analysis());
    let plan = res.ok().unwrap();
    assert_eq!(plan.decision, Some(true));
    let lines = shown(&lines);
    assert_eq!(lines[0], "info:🔍 Analyzing Terraform project...");
    assert_eq!(
        lines[9..].to_vec(),
        vec![
            "info:\n📝 Preview:",
            "info:   Will create:",
            "info:   ✓ collection/projects/app/.pmp.project.yaml",
            "info:   ✓ collection/projects/app/environments/production/.pmp.environment.yaml",
            "info:   ✓ collection/projects/app/environments/production/*.tf (terraform files)",
            "info:   ✓ collection/projects/app/environments/production/terraform.tfstate",
            "info:   ✓ collection/projects/app/environments/production/_common.tf",
        ]
    );
    let done = ImportCommand::finish_import(args("/src/app", None, false, true), &plan, false);
    assert_eq!(
        shown(&done),
        vec![
            "info:Importing project...",
            "success:✅ Import completed successfully!",
            "info:\n   Next steps:",
            "info:   1. Review generated files in: collection/projects/app",
            "info:   2. Run 'pmp preview' to verify state",
            "info:   3. Run 'pmp apply' to manage with PMP",
            "info:\n   ⚠️  Note: Original files remain at /src/app",
        ]
    );
}

#[test]
fn import_can_be_cancelled() {
    let (_, res) = ImportCommand::import_project(args("/src/app", None, false, false), true, &analysis());
    let plan = res.ok().unwrap();
    assert_eq!(plan.decision, None);
    let done = ImportCommand::finish_import(args("/src/app", None, false, false), &plan, false);
    assert_eq!(shown(&done), vec!["info:Import cancelled"]);
}

#[test]
fn other_imports_are_not_available() {
    let state = ImportCommand {
        subcommand: ImportSubcommand::State(StateImportArgs {
            state_path: "s.tfstate".to_string(),
            name: "x".to_string(),
            environment: None,
            source_dir: None,
            dry_run: false,
        }),
    };
    assert_eq!(state.execute(true, &analysis()).1.err().unwrap(), "State import not yet implemented");
    let bulk = ImportCommand {
        subcommand: ImportSubcommand::Bulk(BulkImportArgs { config_path: "c.yaml".to_string(), dry_run: true, parallel: 1 }),
    };
    assert_eq!(bulk.execute(true, &analysis()).1.err().unwrap(), "Bulk import not yet implemented");
}
