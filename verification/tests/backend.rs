use pmp::infrastructure::InfrastructureCommand;
use pmp::json::JsonValue;

fn backend_entries(c: &pmp::backend::ExecutorCollectionConfig) -> Vec<(String, String)> {
    assert_eq!(c.config.len(), 1);
    assert_eq!(c.config[0].0, "backend");
    match &c.config[0].1 {
        JsonValue::Object(o) => o
            .iter()
            .map(|(k, v)| {
                let t = match v {
                    JsonValue::Str(s) => s.clone(),
                    JsonValue::Bool(b) => b.to_string(),
                    _ => panic!("unexpected value"),
                };
                (k.clone(), t)
            })
            .collect(),
        _ => panic!("backend is not an object"),
    }
}

#[test]
fn backend_types_are_offered_in_order() {
    let t = InfrastructureCommand::backend_types();
    assert_eq!(t, vec!["s3", "azurerm", "gcs", "kubernetes", "pg", "consul", "http", "local"]);
}

#[test]
fn s3_backend_without_lock_table() {
    let answers = vec!["b".to_string(), "terraform.tfstate".to_string(), "us-east-1".to_string(), String::new()];
    let c = InfrastructureCommand::collect_executor_config("s3", &answers, true);
    assert_eq!(c.name, "opentofu");
    let e = backend_entries(&c);
    assert_eq!(
        e,
        vec![
            ("type".to_string(), "s3".to_string()),
            ("bucket".to_string(), "b".to_string()),
            ("key".to_string(), "terraform.tfstate".to_string()),
            ("region".to_string(), "us-east-1".to_string()),
            ("encrypt".to_string(), "true".to_string()),
        ]
    );
}

#[test]
fn http_backend_keeps_only_given_lock_addresses() {
    let answers = vec!["https://state".to_string(), "https://lock".to_string(), String::new()];
    let c = InfrastructureCommand::collect_executor_config("http", &answers, false);
    let e = backend_entries(&c);
    assert_eq!(
        e,
        vec![
            ("type".to_string(), "http".to_string()),
            ("address".to_string(), "https://state".to_string()),
            ("lock_address".to_string(), "https://lock".to_string()),
        ]
    );
}

#[test]
fn local_backend_path() {
    let c = InfrastructureCommand::collect_executor_config("local", &vec!["terraform.tfstate".to_string()], true);
    assert_eq!(
        backend_entries(&c),
        vec![("type".to_string(), "local".to_string()), ("path".to_string(), "terraform.tfstate".to_string())]
    );
}
