use pmp::dependency_graph::{DependencyGraph, DependencyNode};
use pmp::fs::MemoryFileSystem;

fn env_yaml(name: &str, env: &str, deps: &[(&str, &[&str])]) -> String {
    let mut s = format!(
        "\napiVersion: pmp.io/v1\nkind: TestResource\nmetadata:\n  name: {}\n  environment_name: {}\nspec:\n  resource:\n    apiVersion: pmp.io/v1\n    kind: TestResource\n  executor:\n    name: opentofu\n  inputs: {{}}\n",
        name, env
    );
    if deps.is_empty() {
        s.push_str("  dependencies: []\n");
    } else {
        s.push_str("  dependencies:\n");
        for (dep, envs) in deps {
            s.push_str(&format!("    - project:\n        name: {}\n        environments:\n", dep));
            for e in envs.iter() {
                s.push_str(&format!("          - {}\n", e));
            }
        }
    }
    s
}

fn project_yaml(name: &str) -> String {
    format!("\napiVersion: pmp.io/v1\nkind: Project\nmetadata:\n  name: {}\n", name)
}

fn add_project(fs: &mut MemoryFileSystem, name: &str, env_yaml_text: &str) {
    let project_path = format!("/projects/test_resource/{}", name);
    let env_path = format!("{}/environments/dev", project_path);
    fs.create_dir_all(&env_path).unwrap();
    fs.write(&format!("{}/.pmp.project.yaml", project_path), &project_yaml(name)).unwrap();
    fs.write(&format!("{}/.pmp.environment.yaml", env_path), env_yaml_text).unwrap();
}

#[test]
fn test_dependency_node_key() {
    let node = DependencyNode::new(
        "test-project".to_string(),
        "dev".to_string(),
        "/path/to/env".to_string(),
    );
    assert_eq!(node.key(), "test-project:dev");
}

#[test]
fn test_dependency_node_equality() {
    let node1 = DependencyNode::new(
        "test-project".to_string(),
        "dev".to_string(),
        "/path/to/env".to_string(),
    );
    let node2 = DependencyNode::new(
        "test-project".to_string(),
        "dev".to_string(),
        "/path/to/env".to_string(),
    );
    let node3 = DependencyNode::new(
        "other-project".to_string(),
        "dev".to_string(),
        "/path/to/env".to_string(),
    );
    assert_eq!(node1, node2);
    assert_ne!(node1, node3);
}

#[test]
fn test_empty_dependency_graph() {
    let mut fs = MemoryFileSystem::new();
    let env_path = "/projects/test_resource/test-project/environments/dev";
    fs.create_dir_all(env_path).unwrap();
    fs.write(
        &format!("{}/.pmp.environment.yaml", env_path),
        &env_yaml("test-project", "dev", &[]),
    )
    .unwrap();

    let graph = DependencyGraph::build(&fs, env_path, "test-project", "dev").unwrap();

    assert_eq!(graph.node_count(), 1);
    assert!(!graph.has_dependencies());
    assert_eq!(graph.root.project_name, "test-project");
    assert_eq!(graph.root.environment_name, "dev");
}

#[test]
fn test_simple_dependency_chain() {
    let mut fs = MemoryFileSystem::new();
    fs.create_dir_all("/projects").unwrap();
    add_project(&mut fs, "project-a", &env_yaml("project-a", "dev", &[("project-b", &["dev"])]));
    add_project(&mut fs, "project-b", &env_yaml("project-b", "dev", &[]));

    let project_a_env_path = "/projects/test_resource/project-a/environments/dev";
    let graph = DependencyGraph::build(&fs, project_a_env_path, "project-a", "dev").unwrap();

    assert_eq!(graph.node_count(), 2);
    assert!(graph.has_dependencies());
    assert_eq!(graph.root.project_name, "project-a");

    let order = graph.execution_order().unwrap();
    assert_eq!(order.len(), 2);
    assert_eq!(order[0].project_name, "project-b");
    assert_eq!(order[1].project_name, "project-a");
}

#[test]
fn test_multi_level_dependency_chain() {
    let mut fs = MemoryFileSystem::new();
    fs.create_dir_all("/projects").unwrap();
    add_project(&mut fs, "project-a", &env_yaml("project-a", "dev", &[("project-b", &["dev"])]));
    add_project(&mut fs, "project-b", &env_yaml("project-b", "dev", &[("project-c", &["dev"])]));
    add_project(&mut fs, "project-c", &env_yaml("project-c", "dev", &[]));

    let project_a_env_path = "/projects/test_resource/project-a/environments/dev";
    let graph = DependencyGraph::build(&fs, project_a_env_path, "project-a", "dev").unwrap();

    assert_eq!(graph.node_count(), 3);

    let order = graph.execution_order().unwrap();
    assert_eq!(order.len(), 3);
    assert_eq!(order[0].project_name, "project-c");
    assert_eq!(order[1].project_name, "project-b");
    assert_eq!(order[2].project_name, "project-a");
}

#[test]
fn test_multiple_dependencies_same_level() {
    let mut fs = MemoryFileSystem::new();
    fs.create_dir_all("/projects").unwrap();
    add_project(
        &mut fs,
        "project-a",
        &env_yaml("project-a", "dev", &[("project-b", &["dev"]), ("project-c", &["dev"])]),
    );
    add_project(&mut fs, "project-b", &env_yaml("project-b", "dev", &[]));
    add_project(&mut fs, "project-c", &env_yaml("project-c", "dev", &[]));

    let project_a_env_path = "/projects/test_resource/project-a/environments/dev";
    let graph = DependencyGraph::build(&fs, project_a_env_path, "project-a", "dev").unwrap();

    assert_eq!(graph.node_count(), 3);

    let order = graph.execution_order().unwrap();
    assert_eq!(order.len(), 3);
    assert!(order.iter().position(|n| n.project_name == "project-b").unwrap() < 2);
    assert!(order.iter().position(|n| n.project_name == "project-c").unwrap() < 2);
    assert_eq!(order[2].project_name, "project-a");
}

#[test]
fn test_circular_dependency_detection() {
    let mut fs = MemoryFileSystem::new();
    fs.create_dir_all("/projects").unwrap();
    add_project(&mut fs, "project-a", &env_yaml("project-a", "dev", &[("project-b", &["dev"])]));
    add_project(&mut fs, "project-b", &env_yaml("project-b", "dev", &[("project-a", &["dev"])]));

    let project_a_env_path = "/projects/test_resource/project-a/environments/dev";
    let graph = DependencyGraph::build(&fs, project_a_env_path, "project-a", "dev").unwrap();

    assert_eq!(graph.node_count(), 2);

    let result = graph.execution_order();
    assert!(result.is_err());
    assert!(result.unwrap_err().to_string().contains("Circular dependency"));
}

#[test]
fn test_multiple_environments() {
    let mut fs = MemoryFileSystem::new();
    fs.create_dir_all("/projects").unwrap();
    add_project(
        &mut fs,
        "project-a",
        &env_yaml("project-a", "dev", &[("project-b", &["dev", "staging"])]),
    );
    let project_b_path = "/projects/test_resource/project-b";
    fs.create_dir_all(&format!("{}/environments/dev", project_b_path)).unwrap();
    fs.create_dir_all(&format!("{}/environments/staging", project_b_path)).unwrap();
    fs.write(&format!("{}/.pmp.project.yaml", project_b_path), &project_yaml("project-b"))
        .unwrap();
    fs.write(
        &format!("{}/environments/dev/.pmp.environment.yaml", project_b_path),
        &env_yaml("project-b", "dev", &[]),
    )
    .unwrap();
    fs.write(
        &format!("{}/environments/staging/.pmp.environment.yaml", project_b_path),
        &env_yaml("project-b", "staging", &[]),
    )
    .unwrap();

    let project_a_env_path = "/projects/test_resource/project-a/environments/dev";
    let graph = DependencyGraph::build(&fs, project_a_env_path, "project-a", "dev").unwrap();

    assert_eq!(graph.node_count(), 3);

    let order = graph.execution_order().unwrap();
    assert_eq!(order.len(), 3);

    let project_a_pos = order.iter().position(|n| n.project_name == "project-a").unwrap();
    let project_b_dev_pos = order
        .iter()
        .position(|n| n.project_name == "project-b" && n.environment_name == "dev")
        .unwrap();
    let project_b_staging_pos = order
        .iter()
        .position(|n| n.project_name == "project-b" && n.environment_name == "staging")
        .unwrap();

    assert!(project_b_dev_pos < project_a_pos);
    assert!(project_b_staging_pos < project_a_pos);
}

#[test]
fn test_dependency_tree_formatting() {
    let mut fs = MemoryFileSystem::new();
    fs.create_dir_all("/projects").unwrap();
    add_project(&mut fs, "project-a", &env_yaml("project-a", "dev", &[("project-b", &["dev"])]));
    add_project(&mut fs, "project-b", &env_yaml("project-b", "dev", &[]));

    let project_a_env_path = "/projects/test_resource/project-a/environments/dev";
    let graph = DependencyGraph::build(&fs, project_a_env_path, "project-a", "dev").unwrap();

    let tree = graph.format_tree();

    assert!(tree.contains("project-a (dev)"));
    assert!(tree.contains("project-b (dev)"));
    assert!(tree.contains("└──") || tree.contains("├──"));
}

#[test]
fn test_missing_dependency_project() {
    let mut fs = MemoryFileSystem::new();
    let project_a_path = "/projects/test_resource/project-a";
    let project_a_env_path = format!("{}/environments/dev", project_a_path);
    fs.create_dir_all(&project_a_env_path).unwrap();
    fs.write(&format!("{}/.pmp.project.yaml", project_a_path), &project_yaml("project-a"))
        .unwrap();
    fs.write(
        &format!("{}/.pmp.environment.yaml", project_a_env_path),
        &env_yaml("project-a", "dev", &[("project-b", &["dev"])]),
    )
    .unwrap();

    let result = DependencyGraph::build(&fs, &project_a_env_path, "project-a", "dev");

    assert!(result.is_err());
    assert!(result.unwrap_err().to_string().contains("project-b"));
}

#[test]
fn test_missing_dependency_environment() {
    let mut fs = MemoryFileSystem::new();
    let project_a_path = "/projects/test_resource/project-a";
    let project_a_env_path = format!("{}/environments/dev", project_a_path);
    fs.create_dir_all(&project_a_env_path).unwrap();
    fs.write(&format!("{}/.pmp.project.yaml", project_a_path), &project_yaml("project-a"))
        .unwrap();
    fs.write(
        &format!("{}/.pmp.environment.yaml", project_a_env_path),
        &env_yaml("project-a", "dev", &[("project-b", &["staging"])]),
    )
    .unwrap();

    let project_b_path = "/projects/test_resource/project-b";
    let project_b_env_path = format!("{}/environments/dev", project_b_path);
    fs.create_dir_all(&project_b_env_path).unwrap();
    fs.write(&format!("{}/.pmp.project.yaml", project_b_path), &project_yaml("project-b"))
        .unwrap();
    fs.write(
        &format!("{}/.pmp.environment.yaml", project_b_env_path),
        &env_yaml("project-b", "dev", &[]),
    )
    .unwrap();

    let result = DependencyGraph::build(&fs, &project_a_env_path, "project-a", "dev");

    assert!(result.is_err());
    assert!(result.unwrap_err().to_string().contains("staging"));
}
