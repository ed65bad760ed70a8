use pmp::create::CreateCommand;
use pmp::infrastructure::{InfrastructureCommand, InitCommand};
use pmp::json::JsonValue;

fn text(v: &JsonValue) -> String {
    match v {
        JsonValue::Null => "null".to_string(),
        JsonValue::Bool(b) => format!("{}", b),
        JsonValue::Number(n) => format!("#{}", n),
        JsonValue::Str(s) => format!("'{}'", s),
        JsonValue::Array(a) => format!("[{}]", a.iter().map(text).collect::<Vec<_>>().join(",")),
        JsonValue::Object(o) => format!(
            "{{{}}}",
            o.iter().map(|(k, v)| format!("{}:{}", k, text(v))).collect::<Vec<_>>().join(",")
        ),
    }
}

fn entries(v: &[(String, JsonValue)]) -> Vec<String> {
    let mut out: Vec<String> = v.iter().map(|(k, v)| format!("{}={}", k, text(v))).collect();
    out.sort();
    out
}

fn labels(pairs: &[(&str, &str)]) -> Vec<(String, String)> {
    pairs.iter().map(|(k, v)| (k.to_string(), v.to_string())).collect()
}

#[test]
fn capitalize_first_upper_cases_only_the_first_character() {
    assert_eq!(InfrastructureCommand::capitalize_first("production"), "Production");
    assert_eq!(InfrastructureCommand::capitalize_first("dev env"), "Dev env");
    assert_eq!(InfrastructureCommand::capitalize_first(""), "");
    assert_eq!(InitCommand::capitalize_first("staging"), "Staging");
    assert_eq!(InitCommand::capitalize_first("ßeta"), "SSeta");
}

#[test]
fn slugify_makes_lower_case_underscored_identifiers() {
    assert_eq!(InfrastructureCommand::slugify("My Web-App!"), "my_web_app");
    assert_eq!(InfrastructureCommand::slugify("  Data   Stores "), "data_stores");
    assert_eq!(InfrastructureCommand::slugify("already_a_slug"), "already_a_slug");
    assert_eq!(InfrastructureCommand::slugify("---"), "");
    assert_eq!(InfrastructureCommand::slugify(""), "");
}

#[test]
fn labels_match_needs_every_selector_label() {
    let project = labels(&[("team", "platform"), ("tier", "backend")]);
    assert!(CreateCommand::labels_match(&project, &labels(&[])));
    assert!(CreateCommand::labels_match(&project, &labels(&[("team", "platform")])));
    assert!(CreateCommand::labels_match(&project, &labels(&[("tier", "backend"), ("team", "platform")])));
    assert!(!CreateCommand::labels_match(&project, &labels(&[("team", "data")])));
    assert!(!CreateCommand::labels_match(&project, &labels(&[("region", "eu")])));
    assert!(!CreateCommand::labels_match(&labels(&[]), &labels(&[("team", "platform")])));
}

#[test]
fn parse_inputs_reads_json_objects() {
    let r = CreateCommand::parse_inputs("{\"replicas\": 3, \"name\": \"api\", \"debug\": true}").unwrap();
    assert_eq!(entries(&r), vec!["debug=true", "name='api'", "replicas=#3"]);
}

#[test]
fn parse_inputs_reads_yaml_objects() {
    let r = CreateCommand::parse_inputs("replicas: 2\nimage: nginx\n").unwrap();
    assert_eq!(entries(&r), vec!["image='nginx'", "replicas=#2"]);
}

#[test]
fn parse_inputs_refuses_values_that_are_no_object() {
    assert_eq!(
        CreateCommand::parse_inputs("42").err().unwrap(),
        "Inputs must be a JSON/YAML object, not a primitive value"
    );
    assert_eq!(
        CreateCommand::parse_inputs("- a\n- b\n").err().unwrap(),
        "Inputs must be a JSON/YAML object, not a primitive value"
    );
}

#[test]
fn parse_inputs_refuses_text_that_is_neither() {
    assert_eq!(
        CreateCommand::parse_inputs("{unclosed: [").err().unwrap(),
        "Failed to parse inputs as JSON or YAML"
    );
}

#[test]
fn interpolation_variables_offer_both_spellings_of_the_project_name() {
    let vars = CreateCommand::get_interpolation_variables(Vec::new(), "my-app_name", Some("dev"));
    assert_eq!(
        entries(&vars),
        vec![
            "_environment_name='dev'",
            "_project_name_hyphens='my-app-name'",
            "_project_name_underscores='my_app_name'",
        ]
    );
    let vars = CreateCommand::get_interpolation_variables(Vec::new(), "svc", None);
    assert_eq!(
        entries(&vars),
        vec!["_project_name_hyphens='svc'", "_project_name_underscores='svc'"]
    );
}

#[test]
fn interpolation_variables_let_inputs_take_precedence() {
    let inputs = vec![
        ("region".to_string(), JsonValue::Str("eu".to_string())),
        ("_environment_name".to_string(), JsonValue::Str("override".to_string())),
    ];
    let vars = CreateCommand::get_interpolation_variables(inputs, "my-app", Some("dev"));
    assert_eq!(
        entries(&vars),
        vec![
            "_environment_name='override'",
            "_project_name_hyphens='my-app'",
            "_project_name_underscores='my_app'",
            "region='eu'",
        ]
    );
}
