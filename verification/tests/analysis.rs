use pmp::ci::{CiCommand, PipelineType};
use pmp::deps::DepsCommand;
use pmp::environments::{scan_environments, EnvironmentInfo};
use pmp::fs::MemoryFileSystem;
use pmp::manager::CollectionManager;
use pmp::output::OutputLine;
use pmp::text::{lines, sort_strings, split, trim};

fn show(l: &OutputLine) -> String {
    match l {
        OutputLine::Section(s) => format!("section:{}", s),
        OutputLine::Subsection(s) => format!("subsection:{}", s),
        OutputLine::KeyValue(k, v) => format!("kv:{}={}", k, v),
        OutputLine::KeyValueHighlight(k, v) => format!("kvh:{}={}", k, v),
        OutputLine::Info(s) => format!("info:{}", s),
        OutputLine::Dimmed(s) => format!("dimmed:{}", s),
        OutputLine::Success(s) => format!("success:{}", s),
        OutputLine::Warning(s) => format!("warning:{}", s),
        OutputLine::Error(s) => format!("error:{}", s),
        OutputLine::Blank => "blank".to_string(),
    }
}

fn env_yaml(name: &str, env: &str, deps: &[(&str, &str)]) -> String {
    let mut s = format!(
        "apiVersion: pmp.io/v1\nkind: KubernetesWorkload\nmetadata:\n  name: {}\n  environment_name: {}\nspec:\n",
        name, env
    );
    if deps.is_empty() {
        s.push_str("  dependencies: []\n");
    } else {
        s.push_str("  dependencies:\n");
        for (dep, e) in deps {
            s.push_str(&format!("    - project:\n        name: {}\n        environments:\n          - {}\n", dep, e));
        }
    }
    s
}

fn infrastructure() -> MemoryFileSystem {
    let mut fs = MemoryFileSystem::new();
    fs.create_dir_all("/infra/projects").unwrap();
    fs.write(
        "/infra/.pmp.infrastructure.yaml",
        "apiVersion: pmp.io/v1\nkind: Infrastructure\nmetadata:\n  name: demo\n",
    )
    .unwrap();
    fs
}

fn add_env(fs: &mut MemoryFileSystem, project: &str, env: &str, deps: &[(&str, &str)]) {
    let dir = format!("/infra/projects/{}", project);
    fs.create_dir_all(&format!("{}/environments/{}", dir, env)).unwrap();
    fs.write(
        &format!("{}/.pmp.project.yaml", dir),
        &format!("apiVersion: pmp.io/v1\nkind: Project\nmetadata:\n  name: {}\n", project),
    )
    .unwrap();
    fs.write(&format!("{}/environments/{}/.pmp.environment.yaml", dir, env), &env_yaml(project, env, deps)).unwrap();
}

fn info(name: &str, env: &str, deps: &[&str]) -> EnvironmentInfo {
    EnvironmentInfo {
        name: name.to_string(),
        environment: env.to_string(),
        path: format!("projects/{}/environments/{}", name, env),
        dependencies: deps.iter().map(|d| d.to_string()).collect(),
    }
}

fn map(entries: &[(&str, &[&str])]) -> Vec<(String, Vec<String>)> {
    entries.iter().map(|(k, v)| (k.to_string(), v.iter().map(|x| x.to_string()).collect())).collect()
}

#[test]
fn impact_follows_reverse_dependencies_transitively() {
    let reverse = map(&[("db:dev", &["api:dev"]), ("api:dev", &["web:dev", "worker:dev"]), ("web:dev", &[])]);
    let mut impacted = DepsCommand::find_impacted_projects("db:dev", &reverse);
    impacted.sort();
    assert_eq!(impacted, vec!["api:dev".to_string(), "web:dev".to_string(), "worker:dev".to_string()]);
    assert!(DepsCommand::find_impacted_projects("web:dev", &reverse).is_empty());
}

#[test]
fn cycles_are_detected() {
    let deps = map(&[("a:dev", &["b:dev"]), ("b:dev", &["a:dev"]), ("c:dev", &["a:dev"])]);
    let cycles = DepsCommand::detect_circular_dependencies(&deps);
    assert!(!cycles.is_empty());
    for c in &cycles {
        assert!(c.contains(&"a:dev".to_string()));
        assert!(c.contains(&"b:dev".to_string()));
    }
    let acyclic = map(&[("a:dev", &["b:dev"])]);
    assert!(DepsCommand::detect_circular_dependencies(&acyclic).is_empty());
}

#[test]
fn analysis_of_collected_dependencies() {
    let infos = vec![info("web", "dev", &["api:dev"]), info("api", "dev", &["db:dev"]), info("db", "dev", &[])];
    let data = DepsCommand::collect_dependencies(&infos);
    assert_eq!(data.projects.len(), 3);
    let a = DepsCommand::analyze_dependencies(&data);
    assert_eq!(a.total_projects, 3);
    assert_eq!(a.projects_with_dependencies, 2);
    assert_eq!(a.standalone_projects, vec!["db:dev".to_string()]);
    assert_eq!(a.orphaned_projects, vec!["web:dev".to_string()]);
    assert!(a.circular_dependencies.is_empty());
    assert!(a.missing_dependencies.is_empty());
}

#[test]
fn analyze_reads_the_infrastructure() {
    let mut fs = infrastructure();
    add_env(&mut fs, "web", "dev", &[("api", "dev")]);
    add_env(&mut fs, "api", "dev", &[("cache", "dev")]);
    let mut warnings = Vec::new();
    let (lines, res) = DepsCommand::execute_analyze(&fs, &mut warnings, "/infra");
    assert!(res.is_ok());
    let s: Vec<String> = lines.iter().map(show).collect();
    assert_eq!(s[0], "kv:Infrastructure=demo");
    assert!(s.iter().any(|l| l.contains("cache:dev")));

    let empty = MemoryFileSystem::new();
    let (lines, res) = DepsCommand::execute_analyze(&empty, &mut warnings, "/");
    assert!(lines.is_empty());
    assert_eq!(res.unwrap_err(), "Infrastructure is required. Run 'pmp init' first.");
}

#[test]
fn pipeline_types_by_name() {
    assert!(matches!(PipelineType::from_str("GitHub"), Ok(PipelineType::GitHubActions)));
    assert!(matches!(PipelineType::from_str("gitlab-ci"), Ok(PipelineType::GitLabCI)));
    assert!(matches!(PipelineType::from_str("JENKINS"), Ok(PipelineType::Jenkins)));
    assert_eq!(PipelineType::from_str("travis").err().unwrap(), "Unsupported pipeline type: travis");
    assert_eq!(PipelineType::Jenkins.name(), "Jenkins");
}

#[test]
fn environments_are_grouped_by_dependency_level() {
    let infos = vec![info("web", "dev", &["api:dev"]), info("api", "dev", &["db:dev"]), info("db", "dev", &[])];
    let groups = CiCommand::group_by_dependency_level(&infos);
    assert_eq!(groups, vec![vec![2], vec![1], vec![0]]);
    let filtered = CiCommand::build_project_infos(
        vec![info("web", "dev", &[]), info("web", "prod", &[])],
        Some("prod"),
    );
    assert_eq!(filtered.len(), 1);
    assert_eq!(filtered[0].environment, "prod");
}

#[test]
fn static_pipelines_name_every_stage() {
    let infos = vec![info("web", "dev", &["api:dev"]), info("api", "dev", &[])];
    let groups = CiCommand::group_by_dependency_level(&infos);
    let gh = CiCommand::generate_github_actions_static(&infos, &groups);
    assert!(gh.contains("stage_0:"));
    assert!(gh.contains("stage_1:"));
    assert!(gh.contains("name: \"api\""));
    let gl = CiCommand::generate_gitlab_ci_static(&infos, &groups);
    assert!(gl.contains("stages:"));
    let jk = CiCommand::generate_jenkins_static(&infos, &groups);
    assert!(jk.contains("pipeline"));
    assert!(CiCommand::generate_github_actions_dynamic().contains("detect-changes"));
}

#[test]
fn manager_loads_projects() {
    let mut fs = infrastructure();
    add_env(&mut fs, "web", "dev", &[]);
    add_env(&mut fs, "api", "dev", &[]);
    let mut warnings = Vec::new();
    let manager = CollectionManager::load(&fs, &mut warnings, "/infra/projects").unwrap();
    assert_eq!(manager.get_root_path(), "/infra");
    assert_eq!(manager.get_metadata().name, "demo");
    assert_eq!(manager.get_all_projects().len(), 2);
    assert_eq!(manager.find_by_name("WE").len(), 1);
    assert_eq!(manager.find_by_kind("kubernetesworkload").len(), 2);
    let infos = scan_environments(&fs, "/infra", manager.get_all_projects());
    assert_eq!(infos.len(), 2);
    let missing = CollectionManager::load(&MemoryFileSystem::new(), &mut warnings, "/");
    assert_eq!(missing.err().unwrap(), "No Infrastructure found in current directory or parent directories");
}

#[test]
fn text_helpers_follow_std() {
    for s in ["a\nb", "a\r\nb\n", "", "\n", "x\r", "one\n\ntwo"] {
        let expected: Vec<String> = s.lines().map(|l| l.to_string()).collect();
        assert_eq!(lines(s), expected, "lines of {:?}", s);
    }
    for s in ["  a b ", "\t\n", "x", " \u{3000}y\u{2029}"] {
        assert_eq!(trim(s), s.trim());
    }
    for s in ["a,b,,c", "", ",", "abc"] {
        let expected: Vec<String> = s.split(',').map(|p| p.to_string()).collect();
        assert_eq!(split(s, ','), expected);
    }
    let mut v = vec!["b".to_string(), "a".to_string(), "B".to_string(), "é".to_string(), "ab".to_string()];
    let mut w = v.clone();
    sort_strings(&mut v);
    w.sort();
    assert_eq!(v, w);
}

#[test]
fn dependency_levels_keep_a_dependent_out_of_its_dependencys_stage() {
    let infos = vec![info("b", "dev", &[]), info("a", "dev", &["b:dev"])];
    let groups = CiCommand::group_by_dependency_level(&infos);
    assert_eq!(groups, vec![vec![0], vec![1]]);
}
