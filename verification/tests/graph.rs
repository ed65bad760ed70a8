use pmp::dependency_graph::DependencyGraph;
use pmp::environments::EnvironmentInfo;
use pmp::fs::MemoryFileSystem;
use pmp::graph::GraphCommand;
use pmp::output::OutputLine;

fn show(l: &OutputLine) -> String {
    match l {
        OutputLine::Section(s) => format!("section:{}", s),
        OutputLine::Subsection(s) => format!("subsection:{}", s),
        OutputLine::KeyValue(k, v) => format!("kv:{}={}", k, v),
        OutputLine::KeyValueHighlight(k, v) => format!("kvh:{}={}", k, v),
        OutputLine::Info(s) => format!("info:{}", s),
        OutputLine::Dimmed(s) => format!("dimmed:{}", s),
        OutputLine::Success(s) => format!("success:{}", s),
        OutputLine::Warning(s) => format!("warning:{}", s),
        OutputLine::Error(s) => format!("error:{}", s),
        OutputLine::Blank => "blank".to_string(),
    }
}

fn shown(ls: &[OutputLine]) -> Vec<String> {
    ls.iter().map(show).collect()
}

fn env_yaml(name: &str, env: &str, deps: &[(&str, &str)]) -> String {
    let mut s = format!(
        "apiVersion: pmp.io/v1\nkind: TestResource\nmetadata:\n  name: {}\n  environment_name: {}\nspec:\n",
        name, env
    );
    if deps.is_empty() {
        s.push_str("  dependencies: []\n");
    } else {
        s.push_str("  dependencies:\n");
        for (dep, e) in deps {
            s.push_str(&format!("    - project:\n        name: {}\n        environments:\n          - {}\n", dep, e));
        }
    }
    s
}

fn root_infrastructure() -> MemoryFileSystem {
    let mut fs = MemoryFileSystem::new();
    fs.create_dir_all("/projects").unwrap();
    fs.write(
        "/.pmp.infrastructure.yaml",
        "apiVersion: pmp.io/v1\nkind: Infrastructure\nmetadata:\n  name: demo\n",
    )
    .unwrap();
    fs
}

fn infrastructure() -> MemoryFileSystem {
    let mut fs = MemoryFileSystem::new();
    fs.create_dir_all("/infra/projects").unwrap();
    fs.write(
        "/infra/.pmp.infrastructure.yaml",
        "apiVersion: pmp.io/v1\nkind: Infrastructure\nmetadata:\n  name: demo\n",
    )
    .unwrap();
    fs
}

fn add_env(fs: &mut MemoryFileSystem, project: &str, env: &str, deps: &[(&str, &str)]) {
    add_env_at(fs, "/infra", project, env, deps);
}

fn add_env_at(fs: &mut MemoryFileSystem, root: &str, project: &str, env: &str, deps: &[(&str, &str)]) {
    let dir = format!("{}/projects/{}", root.trim_end_matches('/'), project);
    fs.create_dir_all(&format!("{}/environments/{}", dir, env)).unwrap();
    fs.write(
        &format!("{}/.pmp.project.yaml", dir),
        &format!("apiVersion: pmp.io/v1\nkind: Project\nmetadata:\n  name: {}\n", project),
    )
    .unwrap();
    fs.write(&format!("{}/environments/{}/.pmp.environment.yaml", dir, env), &env_yaml(project, env, deps)).unwrap();
}

fn info(name: &str, env: &str, deps: &[&str]) -> EnvironmentInfo {
    EnvironmentInfo {
        name: name.to_string(),
        environment: env.to_string(),
        path: format!("/p/{}/{}", name, env),
        dependencies: deps.iter().map(|d| d.to_string()).collect(),
    }
}

#[test]
fn sanitize_id_replaces_separators() {
    assert_eq!(GraphCommand::sanitize_id("my-api:prod.v1 x"), "my_api_prod_v1_x");
    assert_eq!(GraphCommand::sanitize_id("plain"), "plain");
}

#[test]
fn key_labels_split_project_and_environment() {
    assert_eq!(GraphCommand::label_of_key("api:dev"), "api\\n(dev)");
    assert_eq!(GraphCommand::label_of_key("standalone"), "standalone");
    assert_eq!(GraphCommand::label_of_key("a:b:c"), "a:b:c");
}

#[test]
fn collect_sorts_keys_and_keeps_last_dependencies() {
    let infos = vec![
        info("web", "dev", &["db:dev"]),
        info("db", "dev", &[]),
        info("web", "dev", &["cache:dev"]),
        info("api", "prod", &["db:prod", "cache:prod"]),
    ];
    let (keys, deps) = GraphCommand::collect_all_projects(&infos);
    assert_eq!(keys, vec!["api:prod".to_string(), "db:dev".to_string(), "web:dev".to_string()]);
    assert_eq!(deps.len(), 2);
    assert_eq!(deps[0].0, "web:dev");
    assert_eq!(deps[0].1, vec!["cache:dev".to_string()]);
    assert_eq!(deps[1].0, "api:prod");
    assert_eq!(deps[1].1, vec!["db:prod".to_string(), "cache:prod".to_string()]);
}

#[test]
fn ascii_drawing_of_all_projects() {
    let keys = vec!["api:dev".to_string(), "db:dev".to_string(), "web:dev".to_string()];
    let deps = vec![("web:dev".to_string(), vec!["api:dev".to_string(), "db:dev".to_string()])];
    let lines = GraphCommand::render_ascii_all_projects(&keys, &deps);
    assert_eq!(
        shown(&lines),
        vec![
            "info:Projects with dependencies:",
            "blank",
            "info:├─ web:dev",
            "info:   ├─  api:dev",
            "info:   └─  db:dev",
            "blank",
            "info:Standalone projects (no dependencies):",
            "blank",
            "info:• api:dev",
            "info:• db:dev",
            "blank",
            "info:Total projects: 3",
            "info:Projects with dependencies: 1",
        ]
    );
}

#[test]
fn mermaid_and_dot_of_all_projects() {
    let keys = vec!["api:dev".to_string(), "web:dev".to_string()];
    let deps = vec![("web:dev".to_string(), vec!["api:dev".to_string()])];
    assert_eq!(
        GraphCommand::generate_mermaid_all_projects(&keys, &deps),
        "graph TD\n    api_dev[\"api\\n(dev)\"]\n    web_dev[\"web\\n(dev)\"]\n\n    web_dev --> api_dev\n"
    );
    assert_eq!(
        GraphCommand::generate_dot_all_projects(&keys, &deps),
        "digraph dependencies {\n    rankdir=LR;\n    node [shape=box, style=rounded];\n\n    api_dev [label=\"api\\n(dev)\"];\n    web_dev [label=\"web\\n(dev)\"];\n\n    web_dev -> api_dev;\n}\n"
    );
}

#[test]
fn mermaid_of_a_built_graph() {
    let mut fs = root_infrastructure();
    add_env_at(&mut fs, "/", "web", "dev", &[("api", "dev")]);
    add_env_at(&mut fs, "/", "api", "dev", &[]);
    let graph = DependencyGraph::build(&fs, "/projects/web/environments/dev", "web", "dev").unwrap();
    let text = GraphCommand::generate_mermaid(&graph);
    assert_eq!(
        text,
        "graph TD\n    web_dev[\"web\\n(dev)\"]\n    api_dev[\"api\\n(dev)\"]\n\n    web_dev --> api_dev\n"
    );
    let dot = GraphCommand::generate_dot(&graph);
    assert!(dot.contains("    web_dev -> api_dev;\n"));
    assert!(dot.ends_with("}\n"));
}

#[test]
fn execute_draws_every_project_outside_a_project() {
    let mut fs = infrastructure();
    add_env(&mut fs, "web", "dev", &[("api", "dev")]);
    add_env(&mut fs, "api", "dev", &[]);
    let mut warnings = Vec::new();
    let (lines, res) = GraphCommand::execute(&mut fs, &mut warnings, "/infra", None, None, None, false, None);
    assert!(res.is_ok());
    let s = shown(&lines);
    assert_eq!(s[0], "section:Dependency Graph");
    assert_eq!(s[1], "kv:Infrastructure=demo");
    assert_eq!(s[3], "dimmed:Not in a project context. Use --all to graph all projects, or navigate to a project directory.");
    assert_eq!(s[5], "subsection:All Projects");
    assert!(s.contains(&"info:├─ web:dev".to_string()));
    assert!(s.contains(&"info:   └─  api:dev".to_string()));
    assert_eq!(s.last().unwrap(), "info:Projects with dependencies: 1");
}

#[test]
fn execute_in_an_environment_draws_its_tree() {
    let mut fs = root_infrastructure();
    add_env_at(&mut fs, "/", "web", "dev", &[("api", "dev")]);
    add_env_at(&mut fs, "/", "api", "dev", &[]);
    let mut warnings = Vec::new();
    let (lines, res) = GraphCommand::execute(
        &mut fs,
        &mut warnings,
        "/projects/web/environments/dev",
        None,
        None,
        None,
        false,
        None,
    );
    assert!(res.is_ok());
    let s = shown(&lines);
    assert_eq!(s[3], "subsection:Project: web (dev)");
    assert_eq!(s.last().unwrap(), "info:Total nodes: 2");
}

#[test]
fn execute_writes_a_mermaid_file() {
    let mut fs = infrastructure();
    add_env(&mut fs, "web", "dev", &[("api", "dev")]);
    add_env(&mut fs, "api", "dev", &[]);
    let mut warnings = Vec::new();
    let (lines, res) = GraphCommand::execute(
        &mut fs,
        &mut warnings,
        "/infra",
        None,
        Some("mermaid"),
        Some("/infra/graph.md"),
        true,
        None,
    );
    assert!(res.is_ok());
    assert_eq!(show(lines.last().unwrap()), "success:Mermaid graph written to: /infra/graph.md");
    let written = fs.read_to_string("/infra/graph.md").unwrap();
    assert!(written.starts_with("graph TD\n"));
    assert!(written.contains("web_dev --> api_dev"));
}

#[test]
fn execute_refuses_an_unknown_format() {
    let mut fs = infrastructure();
    add_env(&mut fs, "api", "dev", &[]);
    let mut warnings = Vec::new();
    let (_lines, res) = GraphCommand::execute(&mut fs, &mut warnings, "/infra", None, Some("svg"), None, true, None);
    assert_eq!(res.unwrap_err(), "Unsupported format: svg");
}

#[test]
fn execute_without_infrastructure_fails() {
    let mut fs = MemoryFileSystem::new();
    fs.create_dir_all("/elsewhere").unwrap();
    let mut warnings = Vec::new();
    let (lines, res) = GraphCommand::execute(&mut fs, &mut warnings, "/elsewhere", None, None, None, false, None);
    assert_eq!(lines.len(), 1);
    assert_eq!(res.unwrap_err(), "Infrastructure is required. Run 'pmp init' first.");
}

#[test]
fn project_with_several_environments_needs_a_choice() {
    let mut fs = infrastructure();
    add_env(&mut fs, "api", "dev", &[]);
    add_env(&mut fs, "api", "prod", &[]);
    let (_l, res) = GraphCommand::graph_project_with_env_selection(&mut fs, "/infra/projects/api", None, None, None);
    assert_eq!(res.unwrap_err(), "Failed to select environment");
    let (lines, res) =
        GraphCommand::graph_project_with_env_selection(&mut fs, "/infra/projects/api", Some("prod"), None, None);
    assert!(res.is_ok());
    assert_eq!(show(&lines[0]), "subsection:Project: api (prod)");
    assert_eq!(show(&lines[2]), "dimmed:This project has no dependencies.");
}
