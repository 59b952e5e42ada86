use incurs::config::{
    command_defaults, config_entries, extract_command_section, join_path, resolve_config_path,
    resolve_path,
};
use incurs::value::{get, Number, Value};

fn from_json(value: &serde_json::Value) -> Value {
    match value {
        serde_json::Value::Null => Value::Null,
        serde_json::Value::Bool(b) => Value::Bool(*b),
        serde_json::Value::Number(n) => {
            if let Some(u) = n.as_u64() {
                Value::Number(Number::PosInt(u))
            } else if let Some(i) = n.as_i64() {
                Value::Number(Number::NegInt(i))
            } else {
                Value::Number(Number::Float { bits: n.as_f64().unwrap().to_bits() })
            }
        }
        serde_json::Value::String(s) => Value::String(s.clone()),
        serde_json::Value::Array(items) => Value::Array(items.iter().map(from_json).collect()),
        serde_json::Value::Object(map) => {
            Value::Object(map.iter().map(|(k, v)| (k.clone(), from_json(v))).collect())
        }
    }
}

fn to_json(value: &Value) -> serde_json::Value {
    match value {
        Value::Null => serde_json::Value::Null,
        Value::Bool(b) => serde_json::Value::from(*b),
        Value::Number(Number::PosInt(u)) => serde_json::Value::from(*u),
        Value::Number(Number::NegInt(i)) => serde_json::Value::from(*i),
        Value::Number(Number::Float { bits }) => serde_json::Value::from(f64::from_bits(*bits)),
        Value::String(s) => serde_json::Value::from(s.as_str()),
        Value::Array(items) => serde_json::Value::Array(items.iter().map(to_json).collect()),
        Value::Object(entries) => serde_json::Value::Object(
            entries.iter().map(|(k, v)| (k.clone(), to_json(v))).collect(),
        ),
    }
}

fn json(text: &str) -> serde_json::Value {
    serde_json::from_str(text).unwrap()
}

fn value(text: &str) -> Value {
    from_json(&json(text))
}

#[test]
fn test_resolve_path_absolute() {
    assert_eq!(resolve_path("/etc/config.json", None, None), "/etc/config.json");
}

#[test]
fn test_resolve_path_tilde() {
    let resolved = resolve_path("~/config.json", Some("/home/alice"), Some("/work"));
    assert!(!resolved.starts_with("~"));
    assert!(resolved.ends_with("config.json"));
    assert_eq!(resolved, "/home/alice/config.json");
}

#[test]
fn test_extract_command_section_root() {
    let config = value(r#"{ "options": { "verbose": true } }"#);

    let result = extract_command_section(&config, "my-cli", "my-cli").unwrap();
    let opts = result.unwrap();
    assert_eq!(get(&opts, "verbose"), Some(&Value::Bool(true)));
}

#[test]
fn test_extract_command_section_nested() {
    let config = value(
        r#"{
            "commands": {
                "deploy": {
                    "options": {
                        "environment": "staging"
                    }
                }
            }
        }"#,
    );

    let result = extract_command_section(&config, "my-cli", "deploy").unwrap();
    let opts = result.unwrap();
    assert_eq!(
        get(&opts, "environment"),
        Some(&Value::String("staging".to_string()))
    );
}

#[test]
fn test_extract_command_section_missing() {
    let config = value(r#"{ "commands": {} }"#);

    let result = extract_command_section(&config, "my-cli", "nonexistent").unwrap();
    assert!(result.is_none());
}

#[test]
fn test_extract_command_section_empty_options() {
    let config = value(r#"{ "commands": { "test": { "options": {} } } }"#);

    let result = extract_command_section(&config, "my-cli", "test").unwrap();
    assert!(result.is_none());
}

#[test]
fn paths_from_home_are_below_home() {
    let at = |path: &str| resolve_path(path, Some("/home/alice"), Some("/work"));
    assert_eq!(at("~"), "/home/alice/");
    assert_eq!(at("~/"), "/home/alice/");
    assert_eq!(at("~/a/b.json"), "/home/alice/a/b.json");
    assert_eq!(at("~//a.json"), "/home/alice/a.json");
    assert_eq!(at("~bob/a.json"), "/work/~bob/a.json");
    assert_eq!(resolve_path("~", Some("/"), None), "/");
    assert_eq!(resolve_path("~/a.json", None, Some("/work")), "/work/~/a.json");
}

#[test]
fn relative_paths_are_taken_from_the_working_directory() {
    assert_eq!(resolve_path("a.json", Some("/home/alice"), Some("/work")), "/work/a.json");
    assert_eq!(resolve_path("a.json", None, None), "a.json");
    assert_eq!(resolve_path("", None, Some("/work")), "/work/");
    assert_eq!(join_path("/work/", "a.json"), "/work/a.json");
    assert_eq!(join_path("/work", "/etc"), "/etc");
}

#[test]
fn the_first_config_file_that_exists_is_taken() {
    let files = vec!["a.json".to_string(), "b.json".to_string(), "c.json".to_string()];
    let found = vec![false, true, true];
    assert_eq!(
        resolve_config_path(None, &files, &found, None, Some("/w")),
        Some("/w/b.json".to_string())
    );
    assert_eq!(
        resolve_config_path(None, &files, &vec![false, false, false], None, Some("/w")),
        None
    );
    assert_eq!(
        resolve_config_path(Some("/x.json"), &files, &vec![], None, None),
        Some("/x.json".to_string())
    );
}

#[test]
fn a_config_file_must_hold_an_object() {
    assert_eq!(config_entries(value(r#"{"a": 1}"#), "f").unwrap().len(), 1);
    assert!(config_entries(value("[1]"), "f").is_err());
}

#[test]
fn sections_of_the_wrong_shape_are_refused() {
    assert!(extract_command_section(&value(r#"{"commands": 1}"#), "my-cli", "deploy").is_err());
    assert!(extract_command_section(&value(r#"{"options": 1}"#), "my-cli", "my-cli").is_err());
    assert!(
        extract_command_section(&value(r#"{"commands": {"deploy": 1}}"#), "my-cli", "deploy")
            .is_err()
    );
}

