use pmp::ci_detect_changes::CiDetectChangesCommand;

#[test]
fn test_extract_projects_from_valid_paths() {
    let paths = vec![
        "projects/my-api/environments/dev/main.tf".to_string(),
        "projects/my-api/environments/dev/variables.tf".to_string(),
        "projects/postgres-db/environments/production/main.tf".to_string(),
    ];

    let result = CiDetectChangesCommand::extract_projects_from_paths(&paths, None).unwrap();

    assert_eq!(result.len(), 2);
    assert!(result.contains(&("my-api".to_string(), "dev".to_string())));
    assert!(result.contains(&("postgres-db".to_string(), "production".to_string())));
}

#[test]
fn test_extract_projects_with_environment_filter() {
    let paths = vec![
        "projects/my-api/environments/dev/main.tf".to_string(),
        "projects/my-api/environments/production/main.tf".to_string(),
    ];

    let result =
        CiDetectChangesCommand::extract_projects_from_paths(&paths, Some("dev")).unwrap();

    assert_eq!(result.len(), 1);
    assert!(result.contains(&("my-api".to_string(), "dev".to_string())));
}

#[test]
fn test_extract_projects_ignores_non_project_paths() {
    let paths = vec![
        ".pmp.infrastructure.yaml".to_string(),
        "README.md".to_string(),
        "docs/guide.md".to_string(),
        "projects/my-api/environments/dev/main.tf".to_string(),
    ];

    let result = CiDetectChangesCommand::extract_projects_from_paths(&paths, None).unwrap();

    assert_eq!(result.len(), 1);
    assert!(result.contains(&("my-api".to_string(), "dev".to_string())));
}

#[test]
fn test_extract_projects_from_empty_paths() {
    let paths: Vec<String> = vec![];
    let result = CiDetectChangesCommand::extract_projects_from_paths(&paths, None).unwrap();
    assert!(result.is_empty());
}

#[test]
fn extract_keeps_first_occurrence_order() {
    let paths = vec![
        "projects/b/environments/prod/x.tf".to_string(),
        "projects/a/environments/dev/y.tf".to_string(),
        "projects/b/environments/prod/z.tf".to_string(),
        "projects/b/environments".to_string(),
    ];
    let result = CiDetectChangesCommand::extract_projects_from_paths(&paths, None).unwrap();
    assert_eq!(
        result,
        vec![
            ("b".to_string(), "prod".to_string()),
            ("a".to_string(), "dev".to_string()),
        ]
    );
}

#[test]
fn infrastructure_change_detected_at_top_and_below() {
    assert!(CiDetectChangesCommand::has_infrastructure_changes(
        "README.md\n.pmp.infrastructure.yaml\n"
    ));
    assert!(CiDetectChangesCommand::has_infrastructure_changes(
        "sub/dir/.pmp.infrastructure.yaml\r\n"
    ));
    assert!(CiDetectChangesCommand::has_infrastructure_changes(
        "  .pmp.infrastructure.yaml  "
    ));
    assert!(!CiDetectChangesCommand::has_infrastructure_changes(
        "projects/a/.pmp.infrastructure.yaml.bak\nx.pmp.infrastructure.yaml\n"
    ));
    assert!(!CiDetectChangesCommand::has_infrastructure_changes(""));
}

fn dependent_env_yaml(name: &str, deps: &str) -> String {
    format!(
        "apiVersion: pmp.io/v1\nkind: TestResource\nmetadata:\n  name: {}\n  environment_name: dev\nspec:\n  resource:\n    apiVersion: pmp.io/v1\n    kind: TestResource\n  executor:\n    name: opentofu\n  inputs: {{}}\n{}",
        name, deps
    )
}

#[test]
fn test_include_dependents_builds_from_each_environment() {
    let mut fs = pmp::fs::MemoryFileSystem::new();
    let pa = "/projects/a/environments/dev";
    let pb = "/projects/b/environments/dev";
    fs.create_dir_all(pa).unwrap();
    fs.create_dir_all(pb).unwrap();
    fs.write("/projects/a/.pmp.project.yaml", "apiVersion: pmp.io/v1\nkind: Project\nmetadata:\n  name: a\n")
        .unwrap();
    fs.write("/projects/b/.pmp.project.yaml", "apiVersion: pmp.io/v1\nkind: Project\nmetadata:\n  name: b\n")
        .unwrap();
    fs.write(&format!("{}/.pmp.environment.yaml", pa), &dependent_env_yaml("a", "  dependencies: []\n"))
        .unwrap();
    fs.write(
        &format!("{}/.pmp.environment.yaml", pb),
        &dependent_env_yaml("b", "  dependencies:\n    - project:\n        name: a\n        environments:\n          - dev\n"),
    )
    .unwrap();
    let changed = vec![("a".to_string(), "dev".to_string())];
    let envs = vec![
        (("a".to_string(), "dev".to_string()), pa.to_string()),
        (("b".to_string(), "dev".to_string()), pb.to_string()),
    ];
    let v = CiDetectChangesCommand::include_dependents(&fs, &changed, &envs, "/").unwrap();
    assert_eq!(v.len(), 2);
    assert_eq!(v[0].name, "a");
    assert_eq!(v[0].path, pa);
    assert_eq!(v[1].name, "b");
    assert_eq!(v[1].path, pb);
}
