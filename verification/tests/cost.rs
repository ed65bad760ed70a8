use pmp::cost::{CostCommand, CostConfig, CostProvider, CostThresholds, WorkLocation};
use pmp::fs::MemoryFileSystem;

#[test]
fn test_create_provider_default() {
    let provider = CostCommand::create_provider(None).unwrap();
    assert_eq!(provider.get_name(), "infracost");
}

#[test]
fn test_create_provider_with_config() {
    let config = CostConfig {
        provider: "infracost".to_string(),
        api_key_env: Some("MY_API_KEY".to_string()),
        thresholds: None,
        ci: None,
    };

    let provider = CostCommand::create_provider(Some(&config)).unwrap();
    assert_eq!(provider.get_name(), "infracost");
}

#[test]
fn test_create_provider_unsupported() {
    let config = CostConfig {
        provider: "unknown_provider".to_string(),
        api_key_env: None,
        thresholds: None,
        ci: None,
    };

    let result = CostCommand::create_provider(Some(&config));
    assert!(result.is_err());
}

#[test]
fn create_provider_keeps_api_key_variable_and_names_refused_provider() {
    let config = CostConfig {
        provider: "infracost".to_string(),
        api_key_env: Some("INFRACOST_KEY".to_string()),
        thresholds: Some(CostThresholds { warn: Some(10000), block: None }),
        ci: None,
    };
    match CostCommand::create_provider(Some(&config)).unwrap() {
        CostProvider::Infracost { api_key_env } => {
            assert_eq!(api_key_env, Some("INFRACOST_KEY".to_string()))
        }
    }
    match CostCommand::create_provider(None).unwrap() {
        CostProvider::Infracost { api_key_env } => assert_eq!(api_key_env, None),
    }
    let other = CostConfig {
        provider: "vantage".to_string(),
        api_key_env: None,
        thresholds: None,
        ci: None,
    };
    match CostCommand::create_provider(Some(&other)) {
        Err(e) => assert_eq!(e, "Unsupported cost provider: vantage"),
        Ok(_) => panic!("vantage is not a supported provider"),
    }
}

#[test]
fn detect_location_finds_environment_then_project() {
    let mut fs = MemoryFileSystem::new();
    fs.create_dir_all("/infra/projects/api/environments/dev").unwrap();
    fs.write(
        "/infra/projects/api/.pmp.project.yaml",
        "apiVersion: pmp.io/v1\nkind: Project\nmetadata:\n  name: api\n",
    )
    .unwrap();
    fs.write(
        "/infra/projects/api/environments/dev/.pmp.environment.yaml",
        "apiVersion: pmp.io/v1\nkind: Service\nmetadata:\n  name: api\n  environment_name: dev\nspec:\n  dependencies: []\n",
    )
    .unwrap();
    match CostCommand::detect_location(&fs, "/infra/projects/api/environments/dev").unwrap() {
        WorkLocation::Environment(p, n, e) => {
            assert_eq!(p, "/infra/projects/api/environments/dev");
            assert_eq!(n, "api");
            assert_eq!(e, "dev");
        }
        _ => panic!("expected an environment directory"),
    }
    match CostCommand::detect_location(&fs, "/infra/projects/api").unwrap() {
        WorkLocation::Project(p, n) => {
            assert_eq!(p, "/infra/projects/api");
            assert_eq!(n, "api");
        }
        _ => panic!("expected a project directory"),
    }
    assert!(matches!(
        CostCommand::detect_location(&fs, "/infra").unwrap(),
        WorkLocation::Elsewhere
    ));
}
