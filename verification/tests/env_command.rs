use pmp::env_command::EnvCommand;
use pmp::fs::MemoryFileSystem;
use pmp::json::JsonValue;
use pmp::output::OutputLine;

fn s(x: &str) -> JsonValue {
    JsonValue::Str(x.to_string())
}

fn n(x: &str) -> JsonValue {
    JsonValue::Number(x.to_string())
}

fn inputs(entries: Vec<(&str, JsonValue)>) -> Vec<(String, JsonValue)> {
    entries.into_iter().map(|(k, v)| (k.to_string(), v)).collect()
}

fn clone_value(v: &JsonValue) -> JsonValue {
    match v {
        JsonValue::Null => JsonValue::Null,
        JsonValue::Bool(b) => JsonValue::Bool(*b),
        JsonValue::Number(t) => JsonValue::Number(t.clone()),
        JsonValue::Str(t) => JsonValue::Str(t.clone()),
        JsonValue::Array(a) => JsonValue::Array(a.iter().map(clone_value).collect()),
        JsonValue::Object(o) => JsonValue::Object(o.iter().map(|(k, v)| (k.clone(), clone_value(v))).collect()),
    }
}

#[test]
fn test_value_to_string_string() {
    let value = s("hello");
    assert_eq!(EnvCommand::value_to_string(&value), "hello");
}

#[test]
fn test_value_to_string_number() {
    let value = n("42");
    assert_eq!(EnvCommand::value_to_string(&value), "42");
}

#[test]
fn test_value_to_string_float() {
    let value = n("3.14");
    assert_eq!(EnvCommand::value_to_string(&value), "3.14");
}

#[test]
fn test_value_to_string_bool_true() {
    let value = JsonValue::Bool(true);
    assert_eq!(EnvCommand::value_to_string(&value), "true");
}

#[test]
fn test_value_to_string_bool_false() {
    let value = JsonValue::Bool(false);
    assert_eq!(EnvCommand::value_to_string(&value), "false");
}

#[test]
fn test_value_to_string_array() {
    let value = JsonValue::Array(vec![n("1"), n("2"), n("3")]);
    assert_eq!(EnvCommand::value_to_string(&value), "[1,2,3]");
}

#[test]
fn test_value_to_string_object() {
    let value = JsonValue::Object(vec![("key".to_string(), s("value"))]);
    assert_eq!(EnvCommand::value_to_string(&value), "{\"key\":\"value\"}");
}

#[test]
fn test_compare_inputs_identical() {
    let source = inputs(vec![("key1", s("value1")), ("key2", n("42"))]);
    let target: Vec<(String, JsonValue)> = source.iter().map(|(k, v)| (k.clone(), clone_value(v))).collect();
    let diff = EnvCommand::compare_inputs(&source, &target);

    assert!(diff.only_in_source.is_empty());
    assert!(diff.only_in_target.is_empty());
    assert!(diff.different_values.is_empty());
}

#[test]
fn test_compare_inputs_only_in_source() {
    let source = inputs(vec![("key1", s("value1")), ("key2", s("value2"))]);
    let target = inputs(vec![("key1", s("value1"))]);

    let diff = EnvCommand::compare_inputs(&source, &target);

    assert_eq!(diff.only_in_source, vec!["key2".to_string()]);
    assert!(diff.only_in_target.is_empty());
    assert!(diff.different_values.is_empty());
}

#[test]
fn test_compare_inputs_only_in_target() {
    let source = inputs(vec![("key1", s("value1"))]);
    let target = inputs(vec![("key1", s("value1")), ("key2", s("value2"))]);

    let diff = EnvCommand::compare_inputs(&source, &target);

    assert!(diff.only_in_source.is_empty());
    assert_eq!(diff.only_in_target, vec!["key2".to_string()]);
    assert!(diff.different_values.is_empty());
}

#[test]
fn test_compare_inputs_different_values() {
    let source = inputs(vec![("key1", s("value1")), ("replicas", n("2"))]);
    let target = inputs(vec![("key1", s("value1")), ("replicas", n("5"))]);

    let diff = EnvCommand::compare_inputs(&source, &target);

    assert!(diff.only_in_source.is_empty());
    assert!(diff.only_in_target.is_empty());
    assert_eq!(diff.different_values.len(), 1);
    assert_eq!(diff.different_values[0].0, "replicas");
    assert_eq!(diff.different_values[0].1, "2");
    assert_eq!(diff.different_values[0].2, "5");
}

#[test]
fn test_compare_inputs_complex_diff() {
    let source = inputs(vec![
        ("common", s("same")),
        ("only_source", s("a")),
        ("different", s("source_val")),
    ]);
    let target = inputs(vec![
        ("common", s("same")),
        ("only_target", s("b")),
        ("different", s("target_val")),
    ]);

    let diff = EnvCommand::compare_inputs(&source, &target);

    assert_eq!(diff.only_in_source, vec!["only_source".to_string()]);
    assert_eq!(diff.only_in_target, vec!["only_target".to_string()]);
    assert_eq!(diff.different_values.len(), 1);
    assert_eq!(diff.different_values[0].0, "different");
}

#[test]
fn test_compare_inputs_empty_source() {
    let source: Vec<(String, JsonValue)> = Vec::new();
    let target = inputs(vec![("key1", s("value1"))]);

    let diff = EnvCommand::compare_inputs(&source, &target);

    assert!(diff.only_in_source.is_empty());
    assert_eq!(diff.only_in_target, vec!["key1".to_string()]);
    assert!(diff.different_values.is_empty());
}

#[test]
fn test_compare_inputs_empty_target() {
    let source = inputs(vec![("key1", s("value1"))]);
    let target: Vec<(String, JsonValue)> = Vec::new();

    let diff = EnvCommand::compare_inputs(&source, &target);

    assert_eq!(diff.only_in_source, vec!["key1".to_string()]);
    assert!(diff.only_in_target.is_empty());
    assert!(diff.different_values.is_empty());
}

#[test]
fn test_compare_inputs_both_empty() {
    let source: Vec<(String, JsonValue)> = Vec::new();
    let target: Vec<(String, JsonValue)> = Vec::new();

    let diff = EnvCommand::compare_inputs(&source, &target);

    assert!(diff.only_in_source.is_empty());
    assert!(diff.only_in_target.is_empty());
    assert!(diff.different_values.is_empty());
}

#[test]
fn compare_inputs_reads_numbers_as_numbers() {
    // The same number written two ways is one value to serde_json.
    let source = inputs(vec![("replicas", n("5"))]);
    let target = inputs(vec![("replicas", n("5"))]);
    let diff = EnvCommand::compare_inputs(&source, &target);
    assert!(diff.different_values.is_empty());

    let target = inputs(vec![("replicas", s("5"))]);
    let diff = EnvCommand::compare_inputs(&source, &target);
    assert_eq!(diff.different_values.len(), 1);
    assert_eq!(diff.different_values[0].1, "5");
    assert_eq!(diff.different_values[0].2, "5");
}

#[test]
fn compare_inputs_shows_nested_values_as_json() {
    let source = inputs(vec![("tags", JsonValue::Array(vec![s("a")]))]);
    let target = inputs(vec![("tags", JsonValue::Array(vec![s("a"), s("b")]))]);
    let diff = EnvCommand::compare_inputs(&source, &target);
    assert_eq!(diff.different_values.len(), 1);
    assert_eq!(diff.different_values[0].1, "[\"a\"]");
    assert_eq!(diff.different_values[0].2, "[\"a\",\"b\"]");
}

fn show(l: &OutputLine) -> String {
    match l {
        OutputLine::Section(s) => format!("section:{}", s),
        OutputLine::Subsection(s) => format!("subsection:{}", s),
        OutputLine::KeyValue(k, v) => format!("kv:{}={}", k, v),
        OutputLine::KeyValueHighlight(k, v) => format!("kvh:{}={}", k, v),
        OutputLine::Info(s) => format!("info:{}", s),
        OutputLine::Dimmed(s) => format!("dimmed:{}", s),
        OutputLine::Success(s) => format!("success:{}", s),
        OutputLine::Warning(s) => format!("warning:{}", s),
        OutputLine::Error(s) => format!("error:{}", s),
        OutputLine::Blank => "blank".to_string(),
    }
}

fn infrastructure_with(envs: &[(&str, &str, &str)]) -> MemoryFileSystem {
    let mut fs = MemoryFileSystem::new();
    fs.create_dir_all("/infra/projects").unwrap();
    fs.write(
        "/infra/.pmp.infrastructure.yaml",
        "apiVersion: pmp.io/v1\nkind: Infrastructure\nmetadata:\n  name: demo\n",
    )
    .unwrap();
    for (project, env, inputs) in envs {
        let dir = format!("/infra/projects/{}", project);
        fs.create_dir_all(&format!("{}/environments/{}", dir, env)).unwrap();
        fs.write(
            &format!("{}/.pmp.project.yaml", dir),
            &format!("apiVersion: pmp.io/v1\nkind: Project\nmetadata:\n  name: {}\n", project),
        )
        .unwrap();
        fs.write(
            &format!("{}/environments/{}/.pmp.environment.yaml", dir, env),
            &format!(
                "apiVersion: pmp.io/v1\nkind: KubernetesWorkload\nmetadata:\n  name: {}\n  environment_name: {}\nspec:\n  dependencies: []\n{}",
                project, env, inputs
            ),
        )
        .unwrap();
    }
    fs
}

const HEADER: [&str; 5] = [
    "section:Environment Comparison",
    "kv:Infrastructure=demo",
    "kv:Source Environment=dev",
    "kv:Target Environment=prod",
    "blank",
];

#[test]
fn execute_diff_needs_an_infrastructure() {
    let mut warnings = Vec::new();
    let (lines, res) = EnvCommand::execute_diff(&MemoryFileSystem::new(), &mut warnings, "/", "dev", "prod");
    assert_eq!(lines.iter().map(show).collect::<Vec<_>>(), vec!["section:Environment Comparison"]);
    assert_eq!(res.unwrap_err(), "Infrastructure is required. Run 'pmp init' first.");
}

#[test]
fn execute_diff_shows_the_differences_of_each_project() {
    let fs = infrastructure_with(&[
        ("api", "dev", "  inputs:\n    replicas: 1\n    debug: true\n    region: eu\n"),
        ("api", "prod", "  inputs:\n    replicas: 3\n    region: eu\n    tier: gold\n"),
        ("db", "dev", "  inputs:\n    size: small\n"),
        ("db", "prod", "  inputs:\n    size: small\n"),
        ("web", "dev", ""),
    ]);
    let mut warnings = Vec::new();
    let (lines, res) = EnvCommand::execute_diff(&fs, &mut warnings, "/infra", "dev", "prod");
    assert!(res.is_ok());
    let mut expected: Vec<String> = HEADER.iter().map(|s| s.to_string()).collect();
    expected.extend(
        [
            "subsection:Project: api",
            "dimmed:  Only in dev: debug",
            "dimmed:  Only in prod: tier",
            "dimmed:  replicas: 1 → 3",
            "blank",
            "info:Compared 2 project(s) - differences found",
        ]
        .iter()
        .map(|s| s.to_string()),
    );
    assert_eq!(lines.iter().map(show).collect::<Vec<_>>(), expected);
}

#[test]
fn execute_diff_reports_when_nothing_differs() {
    let fs = infrastructure_with(&[
        ("db", "dev", "  inputs:\n    size: small\n"),
        ("db", "prod", "  inputs:\n    size: small\n"),
    ]);
    let mut warnings = Vec::new();
    let (lines, res) = EnvCommand::execute_diff(&fs, &mut warnings, "/infra", "dev", "prod");
    assert!(res.is_ok());
    assert_eq!(
        lines.iter().map(show).collect::<Vec<_>>()[5..].to_vec(),
        vec!["success:No differences found between environments"]
    );
}

#[test]
fn execute_diff_without_projects() {
    let fs = infrastructure_with(&[]);
    let mut warnings = Vec::new();
    let (lines, res) = EnvCommand::execute_diff(&fs, &mut warnings, "/infra", "dev", "prod");
    assert!(res.is_ok());
    assert_eq!(lines.iter().map(show).collect::<Vec<_>>()[5..].to_vec(), vec!["dimmed:No projects found."]);
}

#[test]
fn execute_diff_stops_at_unreadable_inputs() {
    let fs = infrastructure_with(&[
        ("api", "dev", "  inputs: [1, 2]\n"),
        ("api", "prod", "  inputs:\n    replicas: 3\n"),
    ]);
    let mut warnings = Vec::new();
    let (lines, res) = EnvCommand::execute_diff(&fs, &mut warnings, "/infra", "dev", "prod");
    assert!(res.is_err());
    assert_eq!(lines.len(), 5);
}

#[test]
fn environment_inputs_reads_the_inputs_mapping() {
    let fs = infrastructure_with(&[("api", "dev", "  inputs:\n    replicas: 2\n    name: web\n")]);
    let m = EnvCommand::environment_inputs(&fs, "/infra/projects/api/environments/dev/.pmp.environment.yaml").unwrap();
    assert_eq!(m.len(), 2);
    assert_eq!(m[0].0, "replicas");
    assert!(matches!(&m[0].1, JsonValue::Number(t) if t == "2"));
    assert_eq!(m[1].0, "name");
    assert!(matches!(&m[1].1, JsonValue::Str(t) if t == "web"));
}

#[test]
fn execute_sync_lists_the_inputs_every_environment_shares() {
    let fs = infrastructure_with(&[
        ("api", "dev", "  inputs:\n    replicas: 1\n    region: eu\n    tier: gold\n"),
        ("api", "prod", "  inputs:\n    replicas: 3\n    region: eu\n    tier: gold\n"),
        ("api", "qa", "  inputs:\n    region: eu\n    tier: silver\n"),
        ("db", "dev", "  inputs:\n    size: small\n"),
        ("web", "dev", "  inputs:\n    a: 1\n"),
        ("web", "prod", "  inputs:\n    a: 2\n"),
    ]);
    let mut warnings = Vec::new();
    let (lines, res) = EnvCommand::execute_sync(&fs, &mut warnings, "/infra", None);
    assert!(res.is_ok());
    assert_eq!(
        lines.iter().map(show).collect::<Vec<_>>(),
        vec![
            "section:Environment Synchronization",
            "kv:Infrastructure=demo",
            "blank",
            "subsection:Project: api",
            "dimmed:  Common inputs across 3 environments: region",
            "blank",
            "success:Analyzed 1 project(s) for common settings",
        ]
    );
}

#[test]
fn execute_sync_filters_projects_by_name() {
    let fs = infrastructure_with(&[("api", "dev", ""), ("db", "dev", "")]);
    let mut warnings = Vec::new();
    let (lines, res) = EnvCommand::execute_sync(&fs, &mut warnings, "/infra", Some("CACHE"));
    assert!(res.is_ok());
    assert_eq!(lines.iter().map(show).collect::<Vec<_>>()[3..].to_vec(), vec!["dimmed:No matching projects found."]);
    let (lines, _) = EnvCommand::execute_sync(&fs, &mut warnings, "/infra", Some("AP"));
    assert_eq!(lines.iter().map(show).collect::<Vec<_>>()[3..].to_vec(), vec!["blank", "success:Analyzed 0 project(s) for common settings"]);
}

#[test]
fn execute_promote_carries_inputs_over_and_keeps_a_backup() {
    let mut fs = infrastructure_with(&[
        ("api", "dev", "  inputs:\n    replicas: 1\n    image: api-v2\n"),
        ("api", "prod", "  inputs:\n    replicas: 3\n"),
        ("db", "dev", "  inputs:\n    size: small\n"),
    ]);
    let before = fs.read_to_string("/infra/projects/api/environments/prod/.pmp.environment.yaml").unwrap();
    let mut warnings = Vec::new();
    let (lines, res) = EnvCommand::execute_promote(&mut fs, &mut warnings, "/infra", "dev", "prod", None, true);
    assert!(res.is_ok());
    assert_eq!(
        lines.iter().map(show).collect::<Vec<_>>(),
        vec![
            "section:Environment Promotion",
            "kv:Infrastructure=demo",
            "kv:Source Environment=dev",
            "kv:Target Environment=prod",
            "blank",
            "info:Found 2 project(s) to promote",
            "blank",
            "success:Promoted api (backup: /infra/projects/api/environments/prod/.pmp.environment.yaml.backup)",
            "dimmed:Skipping db - target environment not found",
            "blank",
            "success:Promoted 1 project(s) from dev to prod",
        ]
    );
    let backup = fs.read_to_string("/infra/projects/api/environments/prod/.pmp.environment.yaml.backup").unwrap();
    assert_eq!(backup, before);
    let after = fs.read_to_string("/infra/projects/api/environments/prod/.pmp.environment.yaml").unwrap();
    assert!(after.contains("image: api-v2"));
    assert!(after.contains("replicas: 1"));
    assert!(after.contains("environment_name: prod"));
}

#[test]
fn execute_promote_can_be_cancelled() {
    let mut fs = infrastructure_with(&[("api", "dev", ""), ("api", "prod", "")]);
    let before = fs.read_to_string("/infra/projects/api/environments/prod/.pmp.environment.yaml").unwrap();
    let mut warnings = Vec::new();
    let (lines, res) = EnvCommand::execute_promote(&mut fs, &mut warnings, "/infra", "dev", "prod", None, false);
    assert!(res.is_ok());
    assert_eq!(lines.iter().map(show).collect::<Vec<_>>().last().unwrap(), "dimmed:Promotion cancelled.");
    let after = fs.read_to_string("/infra/projects/api/environments/prod/.pmp.environment.yaml").unwrap();
    assert_eq!(after, before);
    assert_eq!(
        EnvCommand::promote_question("dev", "prod"),
        "Promote dev → prod? This will overwrite target configurations."
    );
}

#[test]
fn execute_variables_groups_inputs_by_environment_and_name() {
    let fs = infrastructure_with(&[
        ("api", "dev", "  inputs:\n    replicas: 1\n    region: eu\n"),
        ("api", "prod", "  inputs:\n    replicas: 3\n"),
        ("db", "dev", "  inputs:\n    region: us\n    tags: [a, b]\n"),
    ]);
    let mut warnings = Vec::new();
    let (lines, res) = EnvCommand::execute_variables(&fs, &mut warnings, "/infra", None, None);
    assert!(res.is_ok());
    assert_eq!(
        lines.iter().map(show).collect::<Vec<_>>(),
        vec![
            "section:Environment Variables",
            "kv:Infrastructure=demo",
            "blank",
            "subsection:Environment: dev",
            "dimmed:  replicas",
            "dimmed:    api = 1",
            "dimmed:  region",
            "dimmed:    api = eu",
            "dimmed:    db = us",
            "dimmed:  tags",
            "dimmed:    db = [\"a\",\"b\"]",
            "blank",
            "subsection:Environment: prod",
            "dimmed:  replicas",
            "dimmed:    api = 3",
            "blank",
        ]
    );
}

#[test]
fn execute_variables_of_one_environment() {
    let fs = infrastructure_with(&[
        ("api", "dev", "  inputs:\n    replicas: 1\n"),
        ("api", "prod", "  inputs:\n    replicas: 3\n"),
    ]);
    let mut warnings = Vec::new();
    let (lines, res) = EnvCommand::execute_variables(&fs, &mut warnings, "/infra", Some("prod"), Some("API"));
    assert!(res.is_ok());
    assert_eq!(
        lines.iter().map(show).collect::<Vec<_>>(),
        vec![
            "section:Environment Variables",
            "kv:Infrastructure=demo",
            "kv:Environment=prod",
            "blank",
            "subsection:Environment: prod",
            "dimmed:  replicas",
            "dimmed:    api = 3",
            "blank",
        ]
    );
}
