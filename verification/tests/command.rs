use incurs::command::execute::{settle, typed_answer, typed_input_error, CommandResult, InternalResult};
use incurs::command::input::{
    parse_args_from_argv, parse_env_fields, parse_env_value, parse_option_value, split_flat_params,
    validate_parsed_input, variable_name,
};
use incurs::output::CtaBlock;
use incurs::schema::{FieldMeta, FieldType};
use incurs::value::{get, Number, Value};

fn field(name: &str, field_type: FieldType) -> FieldMeta {
    FieldMeta {
        name: name.to_string(),
        cli_name: name.to_string(),
        description: None,
        field_type,
        required: false,
        default: None,
        alias: None,
        deprecated: false,
        env_name: None,
    }
}

fn bits(text: &str) -> Option<u64> {
    text.parse::<f64>().ok().map(f64::to_bits)
}

fn option_value(text: &str) -> Value {
    parse_option_value(text, bits(text))
}

fn entry<'a>(object: &'a Value, key: &str) -> &'a Value {
    get(object.as_object().unwrap(), key).unwrap()
}

#[test]
fn test_parse_option_value() {
    assert_eq!(option_value("42"), Value::Number(Number::PosInt(42)));
    assert_eq!(
        option_value("3.14"),
        Value::Number(Number::Float { bits: "3.14".parse::<f64>().unwrap().to_bits() })
    );
    assert_eq!(option_value("true"), Value::Bool(true));
    assert_eq!(option_value("false"), Value::Bool(false));
    assert_eq!(option_value("hello"), Value::String("hello".to_string()));
}

#[test]
fn test_split_flat_params() {
    let params = vec![
        ("name".to_string(), Value::String("alice".to_string())),
        ("verbose".to_string(), Value::Bool(true)),
    ];

    let mut name = field("name", FieldType::String);
    name.required = true;
    let args_fields = vec![name];
    let options_fields = vec![field("verbose", FieldType::Boolean)];

    let (args, opts) = split_flat_params(&params, &args_fields, &options_fields);

    assert_eq!(entry(&args, "name"), &Value::String("alice".to_string()));
    assert_eq!(entry(&opts, "verbose"), &Value::Bool(true));
}

#[test]
fn test_parse_env_fields() {
    let mut key = field("api_key", FieldType::String);
    key.cli_name = "api-key".to_string();
    key.description = Some("API key".to_string());
    key.required = true;
    key.env_name = Some("API_KEY".to_string());
    let fields = vec![key];

    let env_source = vec![("API_KEY".to_string(), "secret123".to_string())];

    let result = parse_env_fields(&fields, &env_source, &vec![bits("secret123")]);
    assert_eq!(entry(&result, "api_key"), &Value::String("secret123".to_string()));
}

#[test]
fn negative_and_large_integers_keep_their_kind() {
    assert_eq!(option_value("-7"), Value::Number(Number::NegInt(-7)));
    assert_eq!(
        option_value("9223372036854775807"),
        Value::Number(Number::PosInt(9223372036854775807))
    );
    assert_eq!(
        option_value("9223372036854775808"),
        Value::Number(Number::Float { bits: 9223372036854775808f64.to_bits() })
    );
}

#[test]
fn a_number_that_json_cannot_write_is_null() {
    assert_eq!(option_value("inf"), Value::Null);
    assert_eq!(option_value("NaN"), Value::Null);
}

#[test]
fn words_fill_the_fields_in_order() {
    let fields = vec![field("a", FieldType::String), field("b", FieldType::Number)];
    let words = vec!["x".to_string(), "2".to_string(), "rest".to_string()];
    let floats = words.iter().map(|w| bits(w)).collect();
    let args = parse_args_from_argv(&words, &fields, &floats);
    assert_eq!(entry(&args, "a"), &Value::String("x".to_string()));
    assert_eq!(entry(&args, "b"), &Value::Number(Number::PosInt(2)));
    assert_eq!(args.as_object().unwrap().len(), 2);
}

#[test]
fn split_params_are_kept_under_their_field_names() {
    let params = vec![
        ("dry-run".to_string(), Value::Bool(true)),
        ("userName".to_string(), Value::Null),
    ];
    let fields = vec![field("dry_run", FieldType::Boolean)];
    let (args, opts) = split_flat_params(&params, &fields, &vec![]);
    assert_eq!(entry(&args, "dry_run"), &Value::Bool(true));
    assert_eq!(opts.as_object().unwrap().len(), 1);
}

#[test]
fn environment_values_follow_their_field_type() {
    assert_eq!(parse_env_value("yes", &FieldType::Boolean, None), Value::Bool(true));
    assert_eq!(parse_env_value("no", &FieldType::Boolean, None), Value::Bool(false));
    assert_eq!(
        parse_env_value("1.5", &FieldType::Number, bits("1.5")),
        Value::Number(Number::Float { bits: 1.5f64.to_bits() })
    );
    assert_eq!(
        parse_env_value("x", &FieldType::Number, bits("x")),
        Value::String("x".to_string())
    );
    assert_eq!(variable_name(&field("token", FieldType::String)), "token");
}

#[test]
fn input_without_failures_is_accepted() {
    let accepted = validate_parsed_input(
        vec![("a".to_string(), Value::Null)],
        vec![],
        vec![],
        vec![],
    );
    let (args, options) = accepted.unwrap();
    assert_eq!(args.as_object().unwrap().len(), 1);
    assert_eq!(options, Value::Object(vec![]));
}

#[test]
fn a_failed_command_is_retryable_only_if_it_says_so() {
    let failed = CommandResult::Error {
        code: "X".to_string(),
        message: "m".to_string(),
        retryable: true,
        exit_code: Some(3),
        cta: None,
    };
    match settle(failed) {
        InternalResult::Error { code, message, retryable, exit_code, .. } => {
            assert_eq!(code, "X");
            assert_eq!(message, "m");
            assert_eq!(retryable, Some(true));
            assert_eq!(exit_code, Some(3));
        }
        _ => panic!("not an error"),
    }
}

#[test]
fn typed_input_that_does_not_fit_is_a_validation_error() {
    match typed_input_error("args", "bad") {
        CommandResult::Error { code, message, exit_code, .. } => {
            assert_eq!(code, "VALIDATION_ERROR");
            assert_eq!(message, "Failed to parse typed args: bad");
            assert_eq!(exit_code, Some(1));
        }
        _ => panic!("not an error"),
    }
}

#[test]
fn typed_output_that_cannot_be_written_is_a_serialization_error() {
    let answer = typed_answer(incurs::command::TypedResult::Success {
        data: Err("no".to_string()),
        cta: None,
        exit_code: None,
    });
    assert!(matches!(answer, CommandResult::Error { code, .. } if code == "SERIALIZATION_ERROR"));
}

#[test]
fn exit_codes_of_successes_reach_the_result() {
    let answer = typed_answer(incurs::command::TypedResult::ok_with_exit_code(
        Ok(Value::Null),
        75,
    ));
    assert!(matches!(
        settle(answer),
        InternalResult::Success { exit_code: Some(75), cta: None, .. }
    ));
    let plain = typed_answer(incurs::command::TypedResult::ok(Ok(Value::Null)));
    assert!(matches!(settle(plain), InternalResult::Success { exit_code: None, .. }));
}

#[test]
fn follow_up_commands_reach_the_result() {
    let block = CtaBlock { commands: vec![], description: Some("Next".to_string()) };
    let answer = typed_answer(incurs::command::TypedResult::ok_with_cta(
        Ok(Value::Bool(true)),
        block,
    ));
    assert!(matches!(
        settle(answer),
        InternalResult::Success { cta: Some(b), data: Value::Bool(true), exit_code: None }
            if b.description.as_deref() == Some("Next")
    ));
}
