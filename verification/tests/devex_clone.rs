use pmp::clone::CloneCommand;
use pmp::devex::DevExCommand;
use pmp::fs::MemoryFileSystem;
use pmp::output::OutputLine;
use pmp::text::replace_str;

fn show(l: &OutputLine) -> String {
    match l {
        OutputLine::Section(s) => format!("section:{}", s),
        OutputLine::Subsection(s) => format!("subsection:{}", s),
        OutputLine::KeyValue(k, v) => format!("kv:{}={}", k, v),
        OutputLine::KeyValueHighlight(k, v) => format!("kvh:{}={}", k, v),
        OutputLine::Info(s) => format!("info:{}", s),
        OutputLine::Dimmed(s) => format!("dimmed:{}", s),
        OutputLine::Success(s) => format!("success:{}", s),
        OutputLine::Warning(s) => format!("warning:{}", s),
        OutputLine::Error(s) => format!("error:{}", s),
        OutputLine::Blank => "blank".to_string(),
    }
}

fn shown(ls: &[OutputLine]) -> Vec<String> {
    ls.iter().map(show).collect()
}

fn env_yaml(name: &str, env: &str, deps: &[&str]) -> String {
    let mut s = format!(
        "apiVersion: pmp.io/v1\nkind: KubernetesWorkload\nmetadata:\n  name: {}\n  environment_name: {}\nspec:\n",
        name, env
    );
    if deps.is_empty() {
        s.push_str("  dependencies: []\n");
    } else {
        s.push_str("  dependencies:\n");
        for dep in deps {
            s.push_str(&format!("    - project:\n        name: {}\n        environments:\n          - dev\n", dep));
        }
    }
    s
}

fn infrastructure() -> MemoryFileSystem {
    let mut fs = MemoryFileSystem::new();
    fs.create_dir_all("/infra/projects").unwrap();
    fs.write(
        "/infra/.pmp.infrastructure.yaml",
        "apiVersion: pmp.io/v1\nkind: Infrastructure\nmetadata:\n  name: demo\n",
    )
    .unwrap();
    fs
}

fn add_env(fs: &mut MemoryFileSystem, project: &str, env: &str, deps: &[&str]) {
    let dir = format!("/infra/projects/{}", project);
    fs.create_dir_all(&format!("{}/environments/{}", dir, env)).unwrap();
    fs.write(
        &format!("{}/.pmp.project.yaml", dir),
        &format!("apiVersion: pmp.io/v1\nkind: Project\nmetadata:\n  name: {}\n", project),
    )
    .unwrap();
    fs.write(&format!("{}/environments/{}/.pmp.environment.yaml", dir, env), &env_yaml(project, env, deps)).unwrap();
}

#[test]
fn replace_str_follows_std() {
    for (s, from, to) in [
        ("name: api\nother: name: api", "name: api", "name: web"),
        ("aaaa", "aa", "b"),
        ("abc", "x", "y"),
        ("", "a", "b"),
        ("ababab", "aba", "X"),
    ] {
        assert_eq!(replace_str(s, from, to), s.replace(from, to));
    }
}

#[test]
fn graph_viz_in_mermaid_and_dot() {
    let mut fs = infrastructure();
    add_env(&mut fs, "my-web", "dev", &["my-api"]);
    add_env(&mut fs, "my-api", "dev", &[]);
    let mut warnings = Vec::new();
    let (lines, res) = DevExCommand::execute_graph_viz(&mut fs, &mut warnings, "/infra", None, None);
    assert!(res.is_ok());
    let s = shown(&lines);
    assert_eq!(s[0], "section:Dependency Graph Visualization");
    assert_eq!(s[1], "kv:Infrastructure=demo");
    let text = s[3].strip_prefix("info:").unwrap().to_string();
    assert!(text.starts_with("graph TD\\n"));
    assert!(text.contains("    my_web[my-web]\\n"));
    assert!(text.contains("    my_api[my-api]\\n"));
    assert!(text.contains("    my_web --> my_api\\n"));

    let (_lines, res) = DevExCommand::execute_graph_viz(&mut fs, &mut warnings, "/infra", Some("/infra/deps.dot"), Some("dot"));
    assert!(res.is_ok());
    let dot = fs.read_to_string("/infra/deps.dot").unwrap();
    assert!(dot.starts_with("digraph dependencies {\\n"));
    assert!(dot.contains("    \\\"my-web\\\" -> \\\"my-api\\\";\\n"));
    assert!(dot.ends_with("}\\n"));

    let (_lines, res) = DevExCommand::execute_graph_viz(&mut fs, &mut warnings, "/infra", None, Some("png"));
    assert_eq!(res.unwrap_err(), "Unsupported graph format: png");
}

#[test]
fn import_writes_a_project() {
    let mut fs = infrastructure();
    let (lines, res) = DevExCommand::execute_import(&mut fs, "/infra", "/src/tf", "tf", "legacy", "prod");
    assert!(res.is_ok());
    assert_eq!(
        fs.read_to_string("/infra/projects/imported/legacy/environments/prod/main.tf").unwrap(),
        "# Imported Terraform configuration\\n"
    );
    let s = shown(&lines);
    assert_eq!(s[0], "section:Infrastructure Import");
    assert_eq!(s[7], "dimmed:Importing Terraform from: /src/tf");
    assert_eq!(s.last().unwrap(), "success:Import completed successfully!");
    let (_l, res) = DevExCommand::execute_import(&mut fs, "/infra", "/src", "pulumi", "x", "dev");
    assert_eq!(res.unwrap_err(), "Unsupported import format: pulumi");
}

#[test]
fn clone_copies_the_chosen_environment() {
    let mut fs = infrastructure();
    add_env(&mut fs, "api", "dev", &[]);
    add_env(&mut fs, "api", "prod", &[]);
    fs.write("/infra/projects/api/environments/dev/main.tf", "resource \"x\" \"y\" {}\n").unwrap();
    let mut warnings = Vec::new();
    let (lines, res) = CloneCommand::execute(
        &mut fs,
        &mut warnings,
        "/infra",
        Some("API"),
        "api-copy",
        Some("dev"),
        None,
        &vec![],
        true,
    );
    assert!(res.is_ok(), "{:?}", res);
    assert_eq!(
        fs.read_to_string("/infra/projects/api-copy/.pmp.project.yaml").unwrap(),
        "apiVersion: pmp.io/v1\nkind: Project\nmetadata:\n  name: api-copy\n"
    );
    assert_eq!(
        fs.read_to_string("/infra/projects/api-copy/environments/dev/main.tf").unwrap(),
        "resource \"x\" \"y\" {}\n"
    );
    let env = fs.read_to_string("/infra/projects/api-copy/environments/dev/.pmp.environment.yaml").unwrap();
    assert!(env.contains("name: api-copy"));
    assert!(env.contains("environment_name: dev"));
    assert!(!fs.path_exists("/infra/projects/api-copy/environments/prod"));
    let s = shown(&lines);
    assert!(s.contains(&"success:Project cloned successfully!".to_string()));
    assert!(s.contains(&"kv:Environments=dev".to_string()));
}

#[test]
fn clone_refusals() {
    let mut fs = infrastructure();
    add_env(&mut fs, "api", "dev", &[]);
    let mut warnings = Vec::new();
    let (_l, res) = CloneCommand::execute(&mut fs, &mut warnings, "/infra", Some("nope"), "x", None, None, &vec![], true);
    assert_eq!(res.unwrap_err(), "Project 'nope' not found");
    let (_l, res) = CloneCommand::execute(&mut fs, &mut warnings, "/infra", Some("api"), "x", Some("prod"), None, &vec![], true);
    assert_eq!(res.unwrap_err(), "Environment 'prod' not found in source project. Available: dev");
    let (_l, res) = CloneCommand::execute(&mut fs, &mut warnings, "/infra", Some("api"), "x", None, None, &vec![], true);
    assert_eq!(res.unwrap_err(), "No environments selected");
    let (_l, res) = CloneCommand::execute(&mut fs, &mut warnings, "/infra", Some("api"), "api", Some("dev"), None, &vec![], true);
    assert_eq!(res.unwrap_err(), "Project 'api' already exists");
    let (lines, res) =
        CloneCommand::execute(&mut fs, &mut warnings, "/infra", None, "x", None, Some("api (KubernetesWorkload)"), &vec!["dev".to_string()], false);
    assert!(res.is_ok());
    assert_eq!(show(lines.last().unwrap()), "dimmed:Clone cancelled.");
    assert!(!fs.path_exists("/infra/projects/x"));
}
