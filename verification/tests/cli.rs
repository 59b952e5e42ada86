use incurs::cli::builder::{
    are_globals_allowed, fits_globals, tree_fits_globals, BannerMode, Cli, ConfigOptions,
    FetchGatewayOptions,
};
use incurs::cli::collect::{
    build_llms_manifest, collect_all_command_info, collect_help_commands, mcp_doctor_result,
};
use incurs::cli::completing::completion_output;
use incurs::cli::cta::{
    command_under_name, format_cta_block, format_human_cta, format_human_error, merge_cta,
};
use incurs::cli::flags::{extract_builtin_flags, BuiltinFlags};
use incurs::cli::generated::insert_generated_command;
use incurs::cli::pages::Piece;
use incurs::cli::report::{
    line_of, list_skills, refusal_text, refuse, report_failure, report_gateway,
    report_registration, report_sync, RegisterResult, SkillStatus, SyncResult,
};
use incurs::cli::results::{
    compute_skills_cta, duration_text, filter_data, report_error, report_success, Presentation,
    StreamEnd, StreamOutput, StreamingOptions,
};
use incurs::cli::run::{decide, read_flags, Step};
use incurs::cli::suggest::{levenshtein, suggest};
use incurs::cli::tokens::{
    apply_token_ops, token_window, truncate_tokens, truncated_text, write_with_token_ops,
};
use incurs::cli::tree::{resolve_command, CommandEntry, ResolvedCommand};
use incurs::cli::walk::collect_leaves;
use incurs::cli::warnings::deprecation_warnings;
use incurs::command::CommandDef;
use incurs::fetch::{request_path, FetchOutput};
use incurs::mcp::filter::McpToolFilter;
use incurs::output::{CtaBlock, CtaEntry, Format, OutputPolicy};
use incurs::schema::{FieldMeta, FieldType};
use incurs::value::{Number, Value};

fn from_json(value: &serde_json::Value) -> Value {
    match value {
        serde_json::Value::Null => Value::Null,
        serde_json::Value::Bool(b) => Value::Bool(*b),
        serde_json::Value::Number(n) => {
            if let Some(u) = n.as_u64() {
                Value::Number(Number::PosInt(u))
            } else if let Some(i) = n.as_i64() {
                Value::Number(Number::NegInt(i))
            } else {
                Value::Number(Number::Float { bits: n.as_f64().unwrap().to_bits() })
            }
        }
        serde_json::Value::String(s) => Value::String(s.clone()),
        serde_json::Value::Array(items) => Value::Array(items.iter().map(from_json).collect()),
        serde_json::Value::Object(map) => {
            Value::Object(map.iter().map(|(k, v)| (k.clone(), from_json(v))).collect())
        }
    }
}

fn to_json(value: &Value) -> serde_json::Value {
    match value {
        Value::Null => serde_json::Value::Null,
        Value::Bool(b) => serde_json::Value::from(*b),
        Value::Number(Number::PosInt(u)) => serde_json::Value::from(*u),
        Value::Number(Number::NegInt(i)) => serde_json::Value::from(*i),
        Value::Number(Number::Float { bits }) => serde_json::Value::from(f64::from_bits(*bits)),
        Value::String(s) => serde_json::Value::from(s.as_str()),
        Value::Array(items) => serde_json::Value::Array(items.iter().map(to_json).collect()),
        Value::Object(entries) => serde_json::Value::Object(
            entries.iter().map(|(k, v)| (k.clone(), to_json(v))).collect(),
        ),
    }
}

fn json(text: &str) -> serde_json::Value {
    serde_json::from_str(text).unwrap()
}

fn value(text: &str) -> Value {
    from_json(&json(text))
}

fn words(list: &[&str]) -> Vec<String> {
    list.iter().map(|w| w.to_string()).collect()
}

fn make_leaf_command(name: &str, description: Option<&str>) -> CommandDef {
    CommandDef {
        name: name.to_string(),
        description: description.map(|value| value.to_string()),
        args_fields: vec![],
        options_fields: vec![],
        env_fields: vec![],
        aliases: vec![],
        command_aliases: vec![],
        examples: vec![],
        hint: None,
        format: None,
        output_policy: None,
        handler: 0,
        mcp: None,
        middleware: vec![],
        output_schema: None,
    }
}

fn leaf(name: &str, description: &str) -> (String, CommandEntry) {
    (
        name.to_string(),
        CommandEntry::Leaf(make_leaf_command(name, Some(description))),
    )
}

fn group(
    name: &str,
    description: &str,
    commands: Vec<(String, CommandEntry)>,
) -> (String, CommandEntry) {
    (
        name.to_string(),
        CommandEntry::Group {
            description: Some(description.to_string()),
            commands,
            middleware: vec![],
            output_policy: None,
        },
    )
}

fn gateway(
    name: &str,
    description: Option<&str>,
    base_path: Option<&str>,
) -> (String, CommandEntry) {
    (
        name.to_string(),
        CommandEntry::FetchGateway {
            description: description.map(|d| d.to_string()),
            base_path: base_path.map(|p| p.to_string()),
            output_policy: None,
            handler: 7,
        },
    )
}

fn make_test_cli() -> Cli {
    Cli::create("test".to_string())
        .description("Test CLI".to_string())
        .command(
            "ping".to_string(),
            make_leaf_command("ping", Some("Ping the server")),
        )
}

fn field(name: &str, field_type: FieldType) -> FieldMeta {
    FieldMeta {
        name: name.to_string(),
        cli_name: name.to_string(),
        description: None,
        field_type,
        required: false,
        default: None,
        alias: None,
        deprecated: false,
        env_name: None,
    }
}

fn global_fields() -> Vec<FieldMeta> {
    let mut profile = field("profile", FieldType::String);
    profile.description = Some("Profile to use".to_string());
    profile.default = Some(Value::String("default".to_string()));
    profile.alias = Some('p');
    let mut trace = field("trace", FieldType::Boolean);
    trace.description = Some("Enable tracing".to_string());
    trace.default = Some(Value::Bool(false));
    vec![profile, trace]
}

fn flags(list: &[&str]) -> BuiltinFlags {
    extract_builtin_flags(&words(list), None).unwrap()
}

fn step<'a>(cli: &'a Cli, list: &[&str], human: bool) -> Step<'a> {
    decide(cli, &flags(list), &words(list), human, None, None)
}

#[test]
fn test_extract_builtin_flags_basic() {
    let argv: Vec<String> = vec![
        "--full-output".to_string(),
        "--json".to_string(),
        "list".to_string(),
    ];
    let result = extract_builtin_flags(&argv, None).unwrap();
    assert!(result.verbose);
    assert_eq!(result.format, Format::Json);
    assert!(result.format_explicit);
    assert_eq!(result.rest, vec!["list"]);
}

#[test]
fn test_extract_builtin_flags_help() {
    let argv: Vec<String> = vec!["--help".to_string()];
    let result = extract_builtin_flags(&argv, None).unwrap();
    assert!(result.help);
    assert!(result.rest.is_empty());
}

#[test]
fn test_extract_builtin_flags_format() {
    let argv: Vec<String> = vec!["--format".to_string(), "yaml".to_string()];
    let result = extract_builtin_flags(&argv, None).unwrap();
    assert_eq!(result.format, Format::Yaml);
    assert!(result.format_explicit);
}

#[test]
fn test_extract_builtin_flags_config() {
    let argv: Vec<String> = vec![
        "--config".to_string(),
        "myconfig.json".to_string(),
        "deploy".to_string(),
    ];
    let result = extract_builtin_flags(&argv, Some("config")).unwrap();
    assert_eq!(result.config_path, Some("myconfig.json".to_string()));
    assert_eq!(result.rest, vec!["deploy"]);
}

#[test]
fn test_extract_builtin_flags_config_schema() {
    let argv: Vec<String> = vec!["--config-schema".to_string()];
    let result = extract_builtin_flags(&argv, Some("config")).unwrap();
    assert!(result.config_schema);
}

#[test]
fn test_resolve_command_leaf() {
    let commands = vec![leaf("list", "List items")];

    let tokens = vec!["list".to_string(), "--verbose".to_string()];
    match resolve_command(&commands, &tokens) {
        ResolvedCommand::Leaf {
            command,
            path,
            rest,
            ..
        } => {
            assert_eq!(path, "list");
            assert_eq!(rest, vec!["--verbose"]);
            assert_eq!(command.name, "list");
        }
        _ => panic!("Expected Leaf"),
    }
}

#[test]
fn test_resolve_command_group() {
    let commands = vec![group("users", "User commands", vec![leaf("get", "Get a user")])];

    let tokens = vec!["users".to_string(), "get".to_string(), "alice".to_string()];
    match resolve_command(&commands, &tokens) {
        ResolvedCommand::Leaf {
            command,
            path,
            rest,
            ..
        } => {
            assert_eq!(path, "users get");
            assert_eq!(rest, vec!["alice"]);
            assert_eq!(command.name, "get");
        }
        _ => panic!("Expected Leaf"),
    }
}

#[test]
fn test_resolve_command_not_found() {
    let commands = vec![];
    let tokens = vec!["nonexistent".to_string()];
    match resolve_command(&commands, &tokens) {
        ResolvedCommand::Error { error, path } => {
            assert_eq!(error, "nonexistent");
            assert!(path.is_empty());
        }
        _ => panic!("Expected Error"),
    }
}

#[test]
fn test_collect_help_commands() {
    let commands = vec![
        group("build", "Build commands", vec![]),
        leaf("deploy", "Deploy the app"),
    ];

    let summaries = collect_help_commands(&commands);
    assert_eq!(summaries.len(), 2);
    assert_eq!(summaries[0].name, "build");
    assert_eq!(summaries[1].name, "deploy");
}

#[test]
fn test_globals_reject_builtin_flag_conflicts() {
    let mut fields = global_fields();
    assert!(are_globals_allowed(&fields));
    fields[0].name = "format".to_string();
    fields[0].cli_name = "format".to_string();
    assert!(!are_globals_allowed(&fields));
}

#[test]
fn test_command_options_reject_global_conflicts() {
    let mut command = make_leaf_command("ping", None);
    assert!(fits_globals(&command, &global_fields(), &vec![]));
    command.options_fields = vec![global_fields().remove(0)];
    assert!(!fits_globals(&command, &global_fields(), &vec![]));
}

#[test]
fn test_format_human_error() {
    assert_eq!(
        format_human_error("UNKNOWN", "Something went wrong"),
        "Error: Something went wrong"
    );
    assert_eq!(
        format_human_error("AUTH_FAILED", "Not logged in"),
        "Error (AUTH_FAILED): Not logged in"
    );
}

#[test]
fn test_completion_output_includes_builtins_at_root() {
    let output = completion_output(
        "test",
        &vec![],
        &make_test_cli().commands,
        None,
        &vec![],
        &vec![],
        &words(&["--", "test", ""]),
        Some("bash"),
        Some("1"),
    )
    .unwrap();

    assert!(output.contains("completions"));
    assert!(output.contains("mcp"));
    assert!(output.contains("skills"));
}

#[test]
fn test_completion_output_includes_builtin_subcommands() {
    let output = completion_output(
        "test",
        &vec![],
        &make_test_cli().commands,
        None,
        &vec![],
        &vec![],
        &words(&["--", "test", "skills", ""]),
        Some("bash"),
        Some("2"),
    )
    .unwrap();

    assert!(output.contains("add"));
}

#[test]
fn test_fetch_gateway_builder() {
    let cli = Cli::create("test-cli".to_string()).fetch_gateway(
        "api".to_string(),
        7,
        FetchGatewayOptions {
            description: Some("API gateway".to_string()),
            base_path: Some("/v1".to_string()),
            output_policy: None,
        },
    );

    let entry = cli.commands.iter().find(|(name, _)| name == "api");
    match &entry.unwrap().1 {
        CommandEntry::FetchGateway {
            description,
            base_path,
            ..
        } => {
            assert_eq!(description.as_deref(), Some("API gateway"));
            assert_eq!(base_path.as_deref(), Some("/v1"));
        }
        _ => panic!("Expected FetchGateway"),
    }
}

#[test]
fn test_resolve_command_fetch_gateway() {
    let commands = vec![gateway("api", Some("API gateway"), Some("/v1"))];

    let tokens = words(&["api", "users", "123", "--limit", "10"]);
    match resolve_command(&commands, &tokens) {
        ResolvedCommand::Gateway {
            path,
            rest,
            base_path,
            ..
        } => {
            assert_eq!(path, "api");
            assert_eq!(rest, vec!["users", "123", "--limit", "10"]);
            assert_eq!(base_path.as_deref(), Some("/v1"));
        }
        _ => panic!("Expected Gateway"),
    }
}

#[test]
fn test_resolve_command_fetch_gateway_no_args() {
    let commands = vec![gateway("api", None, None)];

    let tokens = vec!["api".to_string()];
    match resolve_command(&commands, &tokens) {
        ResolvedCommand::Gateway {
            path,
            rest,
            base_path,
            ..
        } => {
            assert_eq!(path, "api");
            assert!(rest.is_empty());
            assert!(base_path.is_none());
        }
        _ => panic!("Expected Gateway"),
    }
}

#[test]
fn test_collect_help_commands_includes_fetch_gateway() {
    let commands = vec![
        gateway("api", Some("API gateway"), None),
        leaf("deploy", "Deploy the app"),
    ];

    let summaries = collect_help_commands(&commands);
    assert_eq!(summaries.len(), 2);
    assert_eq!(summaries[0].name, "api");
    assert_eq!(summaries[0].description.as_deref(), Some("API gateway"));
    assert_eq!(summaries[1].name, "deploy");
}

#[test]
fn test_resolve_gateway_in_group() {
    let commands = vec![group(
        "service",
        "Service commands",
        vec![gateway("fetch", Some("Fetch endpoint"), Some("/api"))],
    )];

    let tokens = words(&["service", "fetch", "users"]);
    match resolve_command(&commands, &tokens) {
        ResolvedCommand::Gateway {
            path,
            rest,
            base_path,
            ..
        } => {
            assert_eq!(path, "service fetch");
            assert_eq!(rest, vec!["users"]);
            assert_eq!(base_path.as_deref(), Some("/api"));
        }
        _ => panic!("Expected Gateway"),
    }
}

// Flags

#[test]
fn flags_may_stand_anywhere_and_the_rest_keeps_its_order() {
    let found = flags(&["a", "--json", "b", "--token-limit", "10", "c", "--token-offset", "3"]);
    assert_eq!(found.rest, vec!["a", "b", "c"]);
    assert_eq!(found.token_limit, Some(10));
    assert_eq!(found.token_offset, Some(3));
    let again = extract_builtin_flags(&found.rest, None).unwrap();
    assert_eq!(again.rest, vec!["a", "b", "c"]);
}

#[test]
fn flags_without_a_usable_value_are_refused() {
    assert!(extract_builtin_flags(&words(&["--token-limit", "x"]), None).is_err());
    assert!(extract_builtin_flags(&words(&["--config"]), Some("config")).is_err());
}

#[test]
fn the_config_flag_exists_only_where_it_is_named() {
    let found = extract_builtin_flags(&words(&["--config", "f"]), None).unwrap();
    assert_eq!(found.config_path, None);
    assert_eq!(found.rest, vec!["--config", "f"]);
    let off = extract_builtin_flags(&words(&["--no-config"]), Some("config")).unwrap();
    assert!(off.config_disabled);
    let on = extract_builtin_flags(&words(&["--config=f"]), Some("config")).unwrap();
    assert_eq!(on.config_path, Some("f".to_string()));
    assert!(extract_builtin_flags(&words(&["--config="]), Some("config")).is_err());
}

#[test]
fn a_config_flag_hides_no_other_builtin_flag() {
    let count = extract_builtin_flags(&words(&["--token-count", "list"]), Some("config")).unwrap();
    assert!(count.token_count);
    assert_eq!(count.rest, vec!["list"]);
    let all = extract_builtin_flags(
        &words(&[
            "--config", "f", "--filter-output", "a.b", "--token-limit", "5", "list",
            "--token-offset", "2",
        ]),
        Some("config"),
    )
    .unwrap();
    assert_eq!(all.config_path, Some("f".to_string()));
    assert_eq!(all.filter_output, Some("a.b".to_string()));
    assert_eq!(all.token_limit, Some(5));
    assert_eq!(all.token_offset, Some(2));
    assert_eq!(all.rest, vec!["list"]);
    let missing = extract_builtin_flags(&words(&["--token-limit"]), Some("config"));
    assert_eq!(missing.unwrap_err(), "Missing value for flag: --token-limit");
}

// Suggestions

#[test]
fn distances_count_single_edits() {
    assert_eq!(levenshtein("kitten", "sitting"), 3);
    assert_eq!(levenshtein("sitting", "kitten"), 3);
    assert_eq!(levenshtein("", "abc"), 3);
    assert_eq!(levenshtein("same", "same"), 0);
}

#[test]
fn suggestions_ignore_case() {
    let candidates = words(&["Deploy", "status"]);
    assert_eq!(suggest("DEPLOI", &candidates), Some("Deploy".to_string()));
    assert_eq!(suggest("zzzzzzzzzz", &candidates), None);
}

#[test]
fn a_prefix_is_suggested_before_a_part() {
    let candidates = words(&["redeploy", "deployment"]);
    assert_eq!(suggest("deploy", &candidates), Some("deployment".to_string()));
}

// Token windows

#[test]
fn windows_tile_the_output() {
    assert_eq!(token_window(10, Some(0), Some(4)), Some((0, 4)));
    assert_eq!(token_window(10, Some(4), Some(4)), Some((4, 8)));
    assert_eq!(token_window(10, Some(8), Some(4)), Some((8, 10)));
    assert_eq!(token_window(10, None, Some(10)), None);
    assert_eq!(token_window(10, None, None), None);
}

#[test]
fn tokens_are_counted() {
    let mut builtin = flags(&["--token-count"]);
    assert_eq!(apply_token_ops("hello world", &builtin), Some("2".to_string()));
    builtin.token_count = false;
    assert_eq!(apply_token_ops("hello world", &builtin), None);
    assert_eq!(write_with_token_ops("hello world", &builtin), "hello world");
}

#[test]
fn output_is_cut_at_the_token_limit() {
    let builtin = flags(&["--token-limit", "1"]);
    assert_eq!(
        truncate_tokens("hello world", &builtin),
        Some((
            "hello\n[truncated: showing tokens 0\u{2013}1 of 2]".to_string(),
            Some(1)
        ))
    );
    let rest = flags(&["--token-offset", "1"]);
    assert_eq!(
        truncate_tokens("hello world", &rest),
        Some((
            " world\n[truncated: showing tokens 1\u{2013}2 of 2]".to_string(),
            None
        ))
    );
    assert_eq!(
        truncated_text("x", 1, 2, 3),
        "x\n[truncated: showing tokens 1\u{2013}2 of 3]"
    );
}

// Calls to action

#[test]
fn suggested_commands_begin_with_the_name() {
    assert_eq!(command_under_name("app", "list"), "app list");
    assert_eq!(command_under_name("app", "app list"), "app list");
    assert_eq!(command_under_name("app", "app"), "app");
}

#[test]
fn suggested_commands_are_aligned_for_humans() {
    let block = CtaBlock {
        commands: vec![
            CtaEntry::Simple("list".to_string()),
            CtaEntry::Detailed {
                command: "show".to_string(),
                description: Some("Show one".to_string()),
            },
        ],
        description: None,
    };
    let shown = format_cta_block("app", Some(&block)).unwrap();
    assert_eq!(shown.commands[0].command, "app list");
    assert_eq!(shown.commands[1].command, "app show");
    let text = format_human_cta(&shown);
    assert!(text.contains("app list"));
    assert!(text.contains("app show  # Show one"));
    assert!(format_cta_block("app", None).is_none());
    let both = merge_cta(format_cta_block("app", Some(&block)), Some(&shown)).unwrap();
    assert_eq!(both.commands.len(), 4);
}

// The command tree

#[test]
fn aliases_lead_to_their_command() {
    let mut command = make_leaf_command("remove", None);
    command.command_aliases = words(&["rm"]);
    let commands = vec![("remove".to_string(), CommandEntry::Leaf(command))];
    match resolve_command(&commands, &words(&["rm", "x"])) {
        ResolvedCommand::Leaf { command, path, rest, .. } => {
            assert_eq!(command.name, "remove");
            assert_eq!(path, "remove");
            assert_eq!(rest, vec!["x"]);
        }
        _ => panic!("Expected Leaf"),
    }
}

#[test]
fn groups_collect_middleware_and_policy() {
    let inner = vec![leaf("get", "Get")];
    let commands = vec![(
        "users".to_string(),
        CommandEntry::Group {
            description: None,
            commands: inner,
            middleware: vec![3, 4],
            output_policy: Some(OutputPolicy::AgentOnly),
        },
    )];
    match resolve_command(&commands, &words(&["users", "get"])) {
        ResolvedCommand::Leaf { collected_middleware, output_policy, .. } => {
            assert_eq!(collected_middleware, vec![3, 4]);
            assert_eq!(output_policy, Some(OutputPolicy::AgentOnly));
        }
        _ => panic!("Expected Leaf"),
    }
    assert!(matches!(
        resolve_command(&commands, &words(&["users"])),
        ResolvedCommand::Help { .. }
    ));
}

#[test]
fn every_listed_command_is_resolved() {
    let commands = vec![
        group("a", "A", vec![leaf("x", "X"), leaf("y", "Y")]),
        leaf("b", "B"),
    ];
    let leaves = collect_leaves(&commands, &vec![]);
    assert_eq!(leaves.len(), 3);
    for found in &leaves {
        match resolve_command(&commands, &found.path) {
            ResolvedCommand::Leaf { command, .. } => assert_eq!(command.name, found.command.name),
            _ => panic!("Expected Leaf"),
        }
    }
}

#[test]
fn generated_commands_are_found_again() {
    let mut commands = vec![leaf("b", "B")];
    insert_generated_command(&mut commands, "a sub deep", make_leaf_command("deep", None));
    match resolve_command(&commands, &words(&["a", "sub", "deep", "--x"])) {
        ResolvedCommand::Leaf { command, path, rest, .. } => {
            assert_eq!(command.name, "deep");
            assert_eq!(path, "a sub deep");
            assert_eq!(rest, vec!["--x"]);
        }
        _ => panic!("Expected Leaf"),
    }
}

#[test]
fn registered_commands_replace_those_of_the_same_name() {
    let cli = make_test_cli().command("ping".to_string(), make_leaf_command("pong", None));
    assert_eq!(cli.commands.len(), 1);
    match resolve_command(&cli.commands, &words(&["ping"])) {
        ResolvedCommand::Leaf { command, .. } => assert_eq!(command.name, "pong"),
        _ => panic!("Expected Leaf"),
    }
}

#[test]
fn deprecated_options_are_warned_of() {
    let mut old = field("region", FieldType::String);
    old.deprecated = true;
    let fields = vec![old, field("zone", FieldType::String)];
    let aliases = vec![("region".to_string(), 'r')];
    let found = deprecation_warnings(&words(&["--zone", "1", "-r", "2"]), &fields, &aliases);
    assert_eq!(found.len(), 1);
    assert!(found[0].contains("region"));
    assert!(deprecation_warnings(&words(&["--zone", "1"]), &fields, &aliases).is_empty());
}

// What a run does

#[test]
fn help_shows_a_page_and_runs_nothing() {
    let cli = make_test_cli();
    match step(&cli, &["ping", "--help"], true) {
        Step::Done { pieces, code } => {
            assert_eq!(code, None);
            assert!(matches!(&pieces[0], Piece::CommandHelp { name, .. } if name == "test ping"));
        }
        _ => panic!("Expected Done"),
    }
}

#[test]
fn builtin_pages_name_their_command() {
    let cli = make_test_cli();
    match step(&cli, &["completions", "--help"], true) {
        Step::Done { pieces, .. } => match &pieces[0] {
            Piece::CommandHelp { name, page } => {
                assert_eq!(name, "test completions");
                assert_eq!(
                    page.description.as_deref(),
                    Some("Generate shell completion script")
                );
            }
            _ => panic!("Expected CommandHelp"),
        },
        _ => panic!("Expected Done"),
    }
    match step(&cli, &["skills"], true) {
        Step::Done { pieces, .. } => match &pieces[0] {
            Piece::RootHelp { name, page } => {
                assert_eq!(name, "test skills");
                assert!(page.commands.iter().any(|c| c.name == "add"));
            }
            _ => panic!("Expected RootHelp"),
        },
        _ => panic!("Expected Done"),
    }
    match step(&cli, &["mcp", "doctor", "--help"], true) {
        Step::Done { pieces, .. } => match &pieces[0] {
            Piece::CommandHelp { name, page } => {
                assert_eq!(name, "test mcp doctor");
                assert_eq!(
                    page.description.as_deref(),
                    Some("Validate MCP server startup and tool listing")
                );
            }
            _ => panic!("Expected CommandHelp"),
        },
        _ => panic!("Expected Done"),
    }
}

#[test]
fn completion_scripts_are_written_for_a_shell() {
    let cli = make_test_cli();
    match step(&cli, &["completions", "bash"], false) {
        Step::Done { pieces, code } => {
            assert_eq!(code, None);
            assert!(matches!(&pieces[0], Piece::Text(t) if t.contains("COMPLETE=\"bash\"")));
        }
        _ => panic!("Expected Done"),
    }
}

#[test]
fn the_doctor_lists_tools_without_calling_them() {
    let cli = make_test_cli();
    let expected = json(
        r#"{
            "ok": true,
            "toolCount": 1,
            "tools": [{ "name": "ping", "description": "Ping the server" }],
            "warnings": [],
            "errors": []
        }"#,
    );
    let result = mcp_doctor_result(&cli.commands, &McpToolFilter::default());
    assert_eq!(to_json(&result), expected);
    match step(&cli, &["mcp", "doctor", "--json"], false) {
        Step::Done { pieces, code } => {
            assert_eq!(code, None);
            assert!(matches!(
                &pieces[0],
                Piece::Data { value, format: Format::Json } if to_json(value) == expected
            ));
        }
        _ => panic!("Expected Done"),
    }
}

#[test]
fn the_banner_is_shown_in_its_mode_only() {
    let cli = make_test_cli().banner(BannerMode::Human);
    match step(&cli, &[], true) {
        Step::Done { pieces, .. } => assert!(matches!(&pieces[0], Piece::Banner)),
        _ => panic!("Expected Done"),
    }
    match step(&cli, &[], false) {
        Step::Done { pieces, .. } => {
            assert!(!pieces.iter().any(|p| matches!(p, Piece::Banner)))
        }
        _ => panic!("Expected Done"),
    }
}

#[test]
fn commands_run_with_root_then_group_then_own_middleware() {
    let mut own = make_leaf_command("get", None);
    own.middleware = vec![5];
    let cli = Cli::create("app".to_string()).use_middleware(1);
    let mut cli = cli;
    cli.commands = vec![(
        "users".to_string(),
        CommandEntry::Group {
            description: None,
            commands: vec![("get".to_string(), CommandEntry::Leaf(own))],
            middleware: vec![3],
            output_policy: None,
        },
    )];
    match step(&cli, &["users", "get", "--json", "alice"], false) {
        Step::Run { path, rest, middleware, format, render, .. } => {
            assert_eq!(path, "users get");
            assert_eq!(rest, vec!["alice"]);
            assert_eq!(middleware, vec![1, 3, 5]);
            assert_eq!(format, Format::Json);
            assert!(render);
        }
        _ => panic!("Expected Run"),
    }
}

#[test]
fn gateways_get_the_words_behind_them() {
    let mut cli = Cli::create("test-cli".to_string());
    cli.commands = vec![gateway("api", None, Some("/v2"))];
    match step(&cli, &["api", "items"], false) {
        Step::Fetch { handler, rest, base_path, .. } => {
            assert_eq!(handler, 7);
            assert_eq!(rest, vec!["items"]);
            assert_eq!(request_path(&base_path, "/items"), "/v2/items");
        }
        _ => panic!("Expected Fetch"),
    }
    assert_eq!(request_path(&None, "/users/123"), "/users/123");
}

#[test]
fn failed_requests_of_a_gateway_end_with_code_one() {
    let output = FetchOutput {
        ok: false,
        status: 500,
        data: value(r#"{ "message": "Internal Server Error" }"#),
    };
    let (pieces, code) = report_gateway(&output, "api", false, true, Format::Json);
    assert_eq!(code, Some(1));
    match &pieces[0] {
        Piece::Data { value, .. } | Piece::Counted { value, .. } | Piece::Line(value) => {
            assert_eq!(to_json(value)["ok"], false);
            assert_eq!(to_json(value)["status"], 500);
        }
        _ => panic!("Expected data"),
    }
}

#[test]
fn config_schemas_are_asked_for_by_flag() {
    let cli = make_test_cli().config(ConfigOptions {
        flag: "config".to_string(),
        files: words(&["test.config.json"]),
    });
    assert!(matches!(step(&cli, &["--config-schema"], false), Step::ConfigSchema));
    assert!(matches!(step(&cli, &["ping", "--schema"], false), Step::Schema { .. }));
    assert!(matches!(step(&cli, &["--mcp"], false), Step::ServeMcp { .. }));
    assert!(matches!(step(&cli, &["--llms", "--json"], false), Step::Manifest { full: false, .. }));
    assert!(matches!(step(&cli, &["--llms-full", "--json"], false), Step::Manifest { full: true, .. }));
}

#[test]
fn unknown_commands_are_refused_with_a_suggestion() {
    let cli = make_test_cli();
    match step(&cli, &["pingg"], true) {
        Step::Done { pieces, code } => {
            assert_eq!(code, Some(1));
            assert!(pieces.iter().any(|p| matches!(p, Piece::Text(t) if t.contains("ping"))));
        }
        _ => panic!("Expected Done"),
    }
}

// What is reported

#[test]
fn successes_show_their_data() {
    let (pieces, code) = report_success(
        "app",
        &flags(&["--json"]),
        Presentation { human: false, render: true, format: Format::Json },
        value(r#"{"a": 1}"#),
        "",
        None,
        &None,
        &None,
        "list",
        5,
    );
    assert!(matches!(
        &pieces[0],
        Piece::Counted { value, format: Format::Json } if to_json(value) == json(r#"{"a": 1}"#)
    ));
    assert_eq!(code, None);
}

#[test]
fn successes_pass_on_the_code_of_a_wrapped_process() {
    let (pieces, code) = report_success(
        "app",
        &flags(&["--full-output"]),
        Presentation { human: false, render: true, format: Format::Json },
        value("7"),
        "7",
        Some(75),
        &None,
        &None,
        "wrap",
        5,
    );
    assert_eq!(code, Some(75));
    let Piece::Data { value, .. } = &pieces[0] else {
        panic!("no envelope");
    };
    assert_eq!(to_json(value)["ok"], true);
}

#[test]
fn errors_end_with_their_code() {
    let view = Presentation { human: true, render: true, format: Format::Toon };
    let (pieces, code) = report_error(
        "app", &flags(&[]), view, "AUTH", "No", None, Some(3), &None, &None, "list", 5,
    );
    assert_eq!(code, 3);
    assert!(pieces.iter().any(|p| matches!(p, Piece::Text(t) if t.contains("Error (AUTH): No"))));
}

#[test]
fn filters_select_from_the_result() {
    let filtered = filter_data(value(r#"{"a": 1, "b": 2}"#), &flags(&["--filter-output", "a"]));
    assert_eq!(filtered, Some(value("1")));
}

#[test]
fn durations_are_written_in_milliseconds() {
    assert_eq!(duration_text(12), "12ms");
}

#[test]
fn streams_write_one_line_per_chunk_or_one_array() {
    let mut options = StreamingOptions {
        format: Format::Jsonl,
        format_explicit: true,
        human: false,
        render_output: true,
        verbose: false,
    };
    let mut stream = StreamOutput::start();
    let first = stream.chunk(&options, value("1"));
    assert!(matches!(&first[0], Piece::Line(v) if to_json(v)["type"] == "chunk"));
    let (last, code) = stream.end("app", &options, &StreamEnd::Success { cta: None }, "p", 3);
    assert_eq!(code, None);
    assert!(matches!(&last[0], Piece::Line(v) if to_json(v)["type"] == "done"));

    options.format = Format::Json;
    let mut buffered = StreamOutput::start();
    assert!(buffered.chunk(&options, value("1")).is_empty());
    assert!(buffered.chunk(&options, value("2")).is_empty());
    let (all, _) = buffered.end("app", &options, &StreamEnd::Success { cta: None }, "p", 3);
    assert!(matches!(
        &all[0],
        Piece::Data { value, .. } if to_json(value) == json("[1, 2]")
    ));
}

#[test]
fn installed_skills_are_marked() {
    let skills = vec![
        SkillStatus { name: "a".to_string(), description: None, installed: true },
        SkillStatus { name: "bb".to_string(), description: Some("B".to_string()), installed: false },
    ];
    let text = list_skills(&skills);
    assert!(text.contains("a"));
    assert!(text.contains("bb"));
    let done = report_sync(
        &flags(&[]),
        &SyncResult { skills: words(&["a"]), paths: words(&["/p"]), agents: vec![] },
    );
    assert!(!done.is_empty());
    let registered = report_registration(
        "app",
        &flags(&[]),
        &RegisterResult { command: "app --mcp".to_string(), agents: words(&["Cursor"]) },
    );
    assert!(!registered.is_empty());
    assert!(refusal_text(true, "X", "no").contains("no"));
}

#[test]
fn a_wrong_command_line_ends_with_a_failure() {
    let cli = make_test_cli();
    match read_flags(&cli, &words(&["--format"]), true) {
        Err((pieces, code)) => {
            assert_eq!(code, Some(1));
            assert_eq!(pieces.len(), 1);
            match &pieces[0] {
                Piece::Text(text) => {
                    assert_eq!(line_of(text), "Error: Missing value for flag: --format\n");
                }
                _ => panic!("Expected text"),
            }
        }
        Ok(_) => panic!("Expected a refusal"),
    }
    match read_flags(&cli, &words(&["--format"]), false) {
        Err((pieces, code)) => {
            assert_eq!(code, Some(1));
            match &pieces[0] {
                Piece::Text(text) => assert_eq!(
                    text,
                    "{\"ok\":false,\"error\":{\"code\":\"UNKNOWN\",\"message\":\"Missing value for flag: --format\"}}"
                ),
                _ => panic!("Expected text"),
            }
        }
        Ok(_) => panic!("Expected a refusal"),
    }
    match read_flags(&cli, &words(&["--full-output", "deploy"]), true) {
        Ok(builtin) => {
            assert!(builtin.verbose);
            assert_eq!(builtin.rest, words(&["deploy"]));
        }
        Err(_) => panic!("Expected flags"),
    }
    let (pieces, code) = refuse(true, "VALIDATION_ERROR", "bad");
    assert_eq!(code, Some(1));
    assert!(matches!(&pieces[0], Piece::Text(text) if text == &refusal_text(true, "VALIDATION_ERROR", "bad")));
    let (pieces, code) = report_failure("MCP_ADD_FAILED", "bad");
    assert_eq!(code, Some(1));
    assert!(matches!(&pieces[0], Piece::Text(text) if text == &refusal_text(true, "MCP_ADD_FAILED", "bad")));
}

#[test]
fn a_way_round_is_no_shorter() {
    let all = ["kitten", "sitting", "sit", "", "mitten"];
    for a in all {
        for b in all {
            for c in all {
                assert!(levenshtein(a, c) <= levenshtein(a, b) + levenshtein(b, c));
            }
        }
    }
    assert_eq!(levenshtein("kitten", "mitten"), 1);
    assert_eq!(levenshtein("mitten", "sitting"), 3);
}

#[test]
fn stale_skills_are_pointed_out() {
    assert!(compute_skills_cta("app", Some("h1"), true, "h1").is_none());
    assert!(compute_skills_cta("app", Some("h1"), true, "h2").is_some());
}

#[test]
fn indexes_list_every_command() {
    let mut cli = make_test_cli();
    cli.commands.push(group("users", "Users", vec![leaf("get", "Get")]));
    let manifest = to_json(&build_llms_manifest(&cli.commands, &vec![], None, false));
    let names: Vec<&str> = manifest["commands"]
        .as_array()
        .unwrap()
        .iter()
        .map(|c| c["name"].as_str().unwrap())
        .collect();
    assert_eq!(names, vec!["ping", "users get"]);
    assert_eq!(collect_all_command_info(None, &cli.commands).len(), 2);
}

#[test]
fn remote_commands_are_mounted_as_one_group() {
    let cli = Cli::create("app".to_string()).remote_mcp(
        "far".to_string(),
        vec![
            ("ping".to_string(), make_leaf_command("ping", None)),
            ("pong".to_string(), make_leaf_command("pong", None)),
        ],
        Some("Far away".to_string()),
    );
    assert_eq!(cli.commands.len(), 1);
    assert_eq!(cli.commands[0].0, "far");
    let CommandEntry::Group { description, commands, middleware, output_policy } =
        &cli.commands[0].1
    else {
        panic!("no group");
    };
    assert_eq!(description.as_deref(), Some("Far away"));
    assert!(middleware.is_empty());
    assert!(output_policy.is_none());
    let names: Vec<&str> = commands.iter().map(|c| c.0.as_str()).collect();
    assert_eq!(names, vec!["ping", "pong"]);
    assert!(matches!(&commands[1].1, CommandEntry::Leaf(def) if def.name == "pong"));
}

#[test]
fn generated_commands_are_mounted_under_their_paths() {
    let cli = Cli::create("app".to_string()).openapi_group(
        "api".to_string(),
        vec![
            ("users list".to_string(), make_leaf_command("x", Some("List users"))),
            ("ping".to_string(), make_leaf_command("y", None)),
            ("users get".to_string(), make_leaf_command("z", None)),
            ("  ".to_string(), make_leaf_command("lost", None)),
        ],
        None,
    );
    let paths: Vec<(String, String)> = collect_leaves(&cli.commands, &vec![])
        .iter()
        .map(|leaf| (leaf.path.join(" "), leaf.command.name.clone()))
        .collect();
    assert_eq!(
        paths,
        vec![
            ("api ping".to_string(), "ping".to_string()),
            ("api users get".to_string(), "get".to_string()),
            ("api users list".to_string(), "list".to_string()),
        ]
    );
}

#[test]
fn conflicts_with_global_options_are_found_below_groups() {
    let mut command = make_leaf_command("deep", None);
    command.options_fields = vec![global_fields().remove(0)];
    let clash = vec![group(
        "outer",
        "Outer",
        vec![("deep".to_string(), CommandEntry::Leaf(command))],
    )];
    assert!(!tree_fits_globals(&clash, &global_fields(), &vec![]));
    let plain = vec![group("outer", "Outer", vec![leaf("deep", "Deep")])];
    assert!(tree_fits_globals(&plain, &global_fields(), &vec![]));
}
