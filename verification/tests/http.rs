use incurs::cli::builder::Cli;
use incurs::cli::tree::CommandEntry;
use incurs::command::execute::InternalResult;
use incurs::command::CommandDef;
use incurs::http::{
    answer_result, build_app_state, chunk_line, done_line, flatten_commands, group_route,
    merge_input, plan_request, HttpAnswer, RequestPlan,
};
use incurs::schema::{FieldMeta, FieldType};
use incurs::value::{get, Number, Value};

fn from_json(value: &serde_json::Value) -> Value {
    match value {
        serde_json::Value::Null => Value::Null,
        serde_json::Value::Bool(b) => Value::Bool(*b),
        serde_json::Value::Number(n) => {
            if let Some(u) = n.as_u64() {
                Value::Number(Number::PosInt(u))
            } else if let Some(i) = n.as_i64() {
                Value::Number(Number::NegInt(i))
            } else {
                Value::Number(Number::Float { bits: n.as_f64().unwrap().to_bits() })
            }
        }
        serde_json::Value::String(s) => Value::String(s.clone()),
        serde_json::Value::Array(items) => Value::Array(items.iter().map(from_json).collect()),
        serde_json::Value::Object(map) => {
            Value::Object(map.iter().map(|(k, v)| (k.clone(), from_json(v))).collect())
        }
    }
}

fn to_json(value: &Value) -> serde_json::Value {
    match value {
        Value::Null => serde_json::Value::Null,
        Value::Bool(b) => serde_json::Value::from(*b),
        Value::Number(Number::PosInt(u)) => serde_json::Value::from(*u),
        Value::Number(Number::NegInt(i)) => serde_json::Value::from(*i),
        Value::Number(Number::Float { bits }) => serde_json::Value::from(f64::from_bits(*bits)),
        Value::String(s) => serde_json::Value::from(s.as_str()),
        Value::Array(items) => serde_json::Value::Array(items.iter().map(to_json).collect()),
        Value::Object(entries) => serde_json::Value::Object(
            entries.iter().map(|(k, v)| (k.clone(), to_json(v))).collect(),
        ),
    }
}

fn json(text: &str) -> serde_json::Value {
    serde_json::from_str(text).unwrap()
}

fn value(text: &str) -> Value {
    from_json(&json(text))
}

fn command(name: &str) -> CommandDef {
    CommandDef::build(name.to_string(), 0).done()
}

fn entries() -> Vec<(String, CommandEntry)> {
    vec![
        ("hello".to_string(), CommandEntry::Leaf(command("hello"))),
        (
            "users".to_string(),
            CommandEntry::Group {
                description: Some("User commands".to_string()),
                commands: vec![
                    ("get".to_string(), CommandEntry::Leaf(command("get"))),
                    ("list".to_string(), CommandEntry::Leaf(command("list"))),
                ],
                middleware: vec![9],
                output_policy: None,
            },
        ),
    ]
}

fn app() -> Cli {
    let mut cli = Cli::create("test-app".to_string())
        .version("1.0.0".to_string())
        .use_middleware(1);
    cli.commands = entries();
    cli
}

#[test]
fn test_flatten_commands() {
    let all = entries();
    let (commands, _groups) = flatten_commands(&all);

    assert!(commands.iter().any(|(k, _)| k == "hello"));
    assert!(commands.iter().any(|(k, _)| k == "users/list"));
    assert!(commands.iter().any(|(k, _)| k == "users/get"));
    assert!(!commands.iter().any(|(k, _)| k == "users"));
}

#[test]
fn groups_without_a_name_add_nothing_to_routes() {
    let unnamed = |commands: Vec<(String, CommandEntry)>, middleware: Vec<usize>| {
        let group = CommandEntry::Group {
            description: None,
            commands,
            middleware,
            output_policy: None,
        };
        ("".to_string(), group)
    };
    let x = ("x".to_string(), CommandEntry::Leaf(command("x")));
    let named = (
        "g".to_string(),
        CommandEntry::Group {
            description: None,
            commands: vec![unnamed(
                vec![("y".to_string(), CommandEntry::Leaf(command("y")))],
                vec![4],
            )],
            middleware: vec![3],
            output_policy: None,
        },
    );
    let all = vec![unnamed(vec![named, x], vec![2])];
    let (commands, groups) = flatten_commands(&all);

    let routes: Vec<&str> = commands.iter().map(|(k, _)| k.as_str()).collect();
    assert_eq!(routes, vec!["g//y", "x"]);
    let layers: Vec<(&str, &[usize])> =
        groups.iter().map(|(k, m)| (k.as_str(), m.as_slice())).collect();
    let want: Vec<(&str, &[usize])> = vec![("", &[2]), ("g", &[3]), ("g/", &[4])];
    assert_eq!(layers, want);
}

#[test]
fn the_state_holds_the_fields_of_the_command_line() {
    let field = FieldMeta {
        name: "home".to_string(),
        cli_name: "home".to_string(),
        description: None,
        field_type: FieldType::String,
        required: false,
        default: None,
        alias: None,
        deprecated: false,
        env_name: None,
    };
    let cli = app().vars_fields(vec![field]);
    let state = build_app_state(&cli);
    assert_eq!(state.vars_fields.len(), 1);
    assert_eq!(state.vars_fields[0].name, "home");
    assert!(state.env_fields.is_empty());
}

#[test]
fn unknown_routes_are_not_found() {
    let cli = app();
    let state = build_app_state(&cli);
    match plan_request(&state, "nonexistent", &vec![], &vec![], 3) {
        RequestPlan::Refuse(reply) => {
            assert_eq!(reply.status, 404);
            let body = to_json(&reply.body);
            assert_eq!(body["ok"], false);
            assert_eq!(body["error"]["code"], "COMMAND_NOT_FOUND");
            assert_eq!(body["meta"]["duration"], "3ms");
        }
        _ => panic!("Expected refusal"),
    }
}

#[test]
fn routes_of_groups_lead_to_their_commands() {
    let cli = app();
    let state = build_app_state(&cli);
    let query = vec![("limit".to_string(), "5".to_string())];
    match plan_request(&state, "users/list", &query, &vec![], 0) {
        RequestPlan::Run { command, path, input_options, middlewares } => {
            assert_eq!(command.name, "list");
            assert_eq!(path, "users list");
            assert_eq!(get(&input_options, "limit"), Some(&Value::String("5".to_string())));
            assert_eq!(middlewares, vec![1, 9]);
        }
        _ => panic!("Expected a run"),
    }
    assert_eq!(group_route("users", "list"), "users/list");
}

#[test]
fn the_body_wins_over_the_query() {
    let query = vec![("a".to_string(), "1".to_string()), ("b".to_string(), "2".to_string())];
    let body = vec![("a".to_string(), Value::Bool(true))];
    let merged = merge_input(&query, &body);
    assert_eq!(get(&merged, "a"), Some(&Value::Bool(true)));
    assert_eq!(get(&merged, "b"), Some(&Value::String("2".to_string())));
}

#[test]
fn successes_are_answered_with_their_data() {
    let result = InternalResult::Success { data: value(r#"{"x": 1}"#), cta: None, exit_code: None };
    match answer_result("echo", 12, result, None) {
        HttpAnswer::Json(reply) => {
            assert_eq!(reply.status, 200);
            let body = to_json(&reply.body);
            assert_eq!(body["ok"], true);
            assert_eq!(body["data"]["x"], 1);
            assert_eq!(body["meta"]["command"], "echo");
            assert_eq!(body["meta"]["duration"], "12ms");
        }
        _ => panic!("Expected JSON"),
    }
}

#[test]
fn failures_are_answered_by_their_code() {
    let failure = |code: &str| InternalResult::Error {
        code: code.to_string(),
        message: "m".to_string(),
        retryable: None,
        field_errors: None,
        cta: None,
        exit_code: None,
    };
    match answer_result("echo", 1, failure("VALIDATION_ERROR"), None) {
        HttpAnswer::Json(reply) => {
            assert_eq!(reply.status, 400);
            assert_eq!(to_json(&reply.body)["error"]["code"], "VALIDATION_ERROR");
        }
        _ => panic!("Expected JSON"),
    }
    match answer_result("echo", 1, failure("OTHER"), None) {
        HttpAnswer::Json(reply) => assert_eq!(reply.status, 500),
        _ => panic!("Expected JSON"),
    }
    assert!(matches!(
        answer_result("echo", 1, InternalResult::Stream, None),
        HttpAnswer::Lines
    ));
}

#[test]
fn streams_are_answered_line_by_line() {
    let first = to_json(&chunk_line(value("1")));
    assert_eq!(first["type"], "chunk");
    assert_eq!(first["data"], 1);
    let last = to_json(&done_line("stream"));
    assert_eq!(last["type"], "done");
    assert_eq!(last["ok"], true);
}
