use incurs::command::execute::CommandResult;
use incurs::command::McpAnnotations;
use incurs::mcp::calls::{discovery_result, plan_call, CallPlan, Discovery};
use incurs::mcp::filter::{matches_tool_filter, McpDiscovery, McpToolFilter};
use incurs::mcp::pointer::follow_pointer;
use incurs::mcp::protocol::{
    choose_lifecycle, find_legacy, info_version, is_known_version, is_modern, negotiate, Lifecycle,
};
use incurs::mcp::remote::{
    details_arguments, is_progressive, make_call, next_search, project_remote_commands,
    project_tool, read_names, remote_field, remote_header_map, remote_result, search_arguments,
    success_value, McpRemoteOptions, RemoteAnswer, RemoteTool,
};
use incurs::mcp::results::{
    outcome_value, tool_call_result, tool_result_success, Content, Projection, ToolCallOutcome,
    ToolFailure, ToolReply,
};
use incurs::mcp::server::{
    filter_tools, find_tool, progressive_tools, reads_only, serve_tools, tool_definition,
    McpResultContent, ResolvedTool, SchemaProjection, ToolDefinition,
};
use incurs::mcp::tools::{
    build_tool_schema, collect_tools, field_type_to_json_type, CommandEntry,
};
use incurs::output::{CtaBlock, CtaEntry, FieldErrorOutput};
use incurs::schema::{to_kebab, FieldMeta, FieldType};
use incurs::value::{get, Number, Value};

fn from_json(value: &serde_json::Value) -> Value {
    match value {
        serde_json::Value::Null => Value::Null,
        serde_json::Value::Bool(b) => Value::Bool(*b),
        serde_json::Value::Number(n) => {
            if let Some(u) = n.as_u64() {
                Value::Number(Number::PosInt(u))
            } else if let Some(i) = n.as_i64() {
                Value::Number(Number::NegInt(i))
            } else {
                Value::Number(Number::Float { bits: n.as_f64().unwrap().to_bits() })
            }
        }
        serde_json::Value::String(s) => Value::String(s.clone()),
        serde_json::Value::Array(items) => Value::Array(items.iter().map(from_json).collect()),
        serde_json::Value::Object(map) => {
            Value::Object(map.iter().map(|(k, v)| (k.clone(), from_json(v))).collect())
        }
    }
}

fn to_json(value: &Value) -> serde_json::Value {
    match value {
        Value::Null => serde_json::Value::Null,
        Value::Bool(b) => serde_json::Value::from(*b),
        Value::Number(Number::PosInt(u)) => serde_json::Value::from(*u),
        Value::Number(Number::NegInt(i)) => serde_json::Value::from(*i),
        Value::Number(Number::Float { bits }) => serde_json::Value::from(f64::from_bits(*bits)),
        Value::String(s) => serde_json::Value::from(s.as_str()),
        Value::Array(items) => serde_json::Value::Array(items.iter().map(to_json).collect()),
        Value::Object(entries) => serde_json::Value::Object(
            entries.iter().map(|(k, v)| (k.clone(), to_json(v))).collect(),
        ),
    }
}

fn json(text: &str) -> serde_json::Value {
    serde_json::from_str(text).unwrap()
}

fn value(text: &str) -> Value {
    from_json(&json(text))
}

fn words(list: &[&str]) -> Vec<String> {
    list.iter().map(|w| w.to_string()).collect()
}

fn entries(text: &str) -> Vec<(String, Value)> {
    match value(text) {
        Value::Object(all) => all,
        other => panic!("{:?}", other),
    }
}

fn make_field(name: &str, ft: FieldType, required: bool) -> FieldMeta {
    FieldMeta {
        name: name.to_string(),
        cli_name: to_kebab(name),
        description: Some("A field".to_string()),
        field_type: ft,
        required,
        default: None,
        alias: None,
        deprecated: false,
        env_name: None,
    }
}

fn make_leaf(desc: &str) -> CommandEntry {
    CommandEntry {
        is_group: false,
        description: Some(desc.to_string()),
        commands: vec![],
        args_fields: vec![],
        options_fields: vec![],
        output_schema: None,
    }
}

fn make_group(desc: &str, commands: Vec<(String, CommandEntry)>) -> CommandEntry {
    CommandEntry {
        is_group: true,
        description: Some(desc.to_string()),
        commands,
        args_fields: vec![],
        options_fields: vec![],
        output_schema: None,
    }
}

#[test]
fn test_tool_result_success_presents_declared_image_content() {
    let data = value(
        r#"{
            "preview": {
                "data": "aW1hZ2U=",
                "mimeType": "image/png"
            },
            "artifactUrl": "https://example.test/artifacts/ui.png"
        }"#,
    );
    let presentation = vec![McpResultContent::Image {
        data_pointer: "/preview/data".to_string(),
        mime_type_pointer: "/preview/mimeType".to_string(),
    }];

    let result = tool_result_success(
        "visualize",
        &data,
        &to_json(&data).to_string(),
        &None,
        Some(Projection { content: Ok(data.copy()), meta: None }),
        &presentation,
    );

    assert!(matches!(&result.content[0], Content::Text(_)));
    match &result.content[1] {
        Content::Image { data, mime_type } => {
            assert_eq!(data, "aW1hZ2U=");
            assert_eq!(mime_type, "image/png");
        }
        _ => panic!("Expected an image"),
    }
}

#[test]
fn test_collect_tools_flat() {
    let commands = vec![
        ("deploy".to_string(), make_leaf("Deploy app")),
        ("status".to_string(), make_leaf("Show status")),
    ];

    let tools = collect_tools(&commands, &vec![]);
    assert_eq!(tools.len(), 2);
    assert_eq!(tools[0].name, "deploy");
    assert_eq!(tools[1].name, "status");
}

#[test]
fn test_collect_tools_nested() {
    let sub = vec![
        ("app".to_string(), make_leaf("Deploy app")),
        ("config".to_string(), make_leaf("Deploy config")),
    ];

    let commands = vec![
        ("deploy".to_string(), make_group("Deploy group", sub)),
        ("status".to_string(), make_leaf("Show status")),
    ];

    let tools = collect_tools(&commands, &vec![]);
    assert_eq!(tools.len(), 3);
    assert_eq!(tools[0].name, "deploy_app");
    assert_eq!(tools[1].name, "deploy_config");
    assert_eq!(tools[2].name, "status");
}

#[test]
fn test_collect_tools_sorted() {
    let commands = vec![
        ("zebra".to_string(), make_leaf("Z")),
        ("alpha".to_string(), make_leaf("A")),
    ];

    let tools = collect_tools(&commands, &vec![]);
    assert_eq!(tools[0].name, "alpha");
    assert_eq!(tools[1].name, "zebra");
}

#[test]
fn test_build_tool_schema_basic() {
    let args = vec![make_field("target", FieldType::String, true)];
    let opts = vec![make_field("verbose", FieldType::Boolean, false)];

    let schema = to_json(&build_tool_schema(&args, &opts));
    let obj = schema.as_object().unwrap();
    assert_eq!(obj["type"], "object");

    let props = obj["properties"].as_object().unwrap();
    assert!(props.contains_key("target"));
    assert!(props.contains_key("verbose"));

    let required = obj["required"].as_array().unwrap();
    assert_eq!(required.len(), 1);
    assert_eq!(required[0], "target");
}

#[test]
fn test_build_tool_schema_no_required() {
    let schema = to_json(&build_tool_schema(
        &vec![],
        &vec![make_field("verbose", FieldType::Boolean, false)],
    ));
    let obj = schema.as_object().unwrap();
    assert!(!obj.contains_key("required"));
}

#[test]
fn test_field_type_to_json_type() {
    assert_eq!(field_type_to_json_type(&FieldType::String), "string");
    assert_eq!(field_type_to_json_type(&FieldType::Number), "number");
    assert_eq!(field_type_to_json_type(&FieldType::Boolean), "boolean");
    assert_eq!(
        field_type_to_json_type(&FieldType::Array(Box::new(FieldType::String))),
        "array"
    );
    assert_eq!(
        field_type_to_json_type(&FieldType::Enum(vec!["a".to_string()])),
        "string"
    );
    assert_eq!(field_type_to_json_type(&FieldType::Count), "number");
}

#[test]
fn remote_header_map_converts_valid_pairs() {
    let headers = vec![
        ("x-temper-machine".to_string(), "mac-1".to_string()),
        ("x-trace".to_string(), "abc123".to_string()),
    ];
    let map = remote_header_map(&headers).expect("valid headers convert");
    assert_eq!(map.len(), 2);
    assert_eq!(
        map.iter()
            .find(|(name, _)| name == http::HeaderName::from_static("x-temper-machine").as_str())
            .map(|(_, value)| value.as_str()),
        Some("mac-1"),
    );
}

#[test]
fn every_header_has_its_last_value() {
    let map = remote_header_map(&vec![
        ("X-Trace".to_string(), "one".to_string()),
        ("accept".to_string(), "text/plain".to_string()),
        ("x-trace".to_string(), "two".to_string()),
    ])
    .unwrap();
    let want = vec![
        ("accept".to_string(), "text/plain".to_string()),
        ("x-trace".to_string(), "two".to_string()),
    ];
    assert_eq!(map, want);
}

#[test]
fn remote_header_map_names_the_offending_header() {
    // A rejected header would otherwise be indistinguishable from an auth
    // failure at the far end, so the error has to say which one.
    let error = remote_header_map(&vec![("bad name".to_string(), "v".to_string())])
        .expect_err("a space is not valid in a header name");
    assert!(error.message.contains("bad name"), "got: {}", error.message);

    let error = remote_header_map(&vec![("x-ok".to_string(), "bad\nvalue".to_string())])
        .expect_err("a newline is not valid in a header value");
    assert!(error.message.contains("x-ok"), "got: {}", error.message);
}

#[test]
fn bearer_options_carry_only_a_token() {
    let options = McpRemoteOptions::bearer("secret-token".to_string());
    assert_eq!(options.auth_token.as_deref(), Some("secret-token"));
    assert!(options.headers.is_empty());
}

// Failures

fn failure(cta: Option<CtaBlock>) -> ToolCallOutcome {
    ToolCallOutcome::Error(ToolFailure {
        code: "INPUT_INVALID".to_string(),
        message: "repair this field".to_string(),
        retryable: Some(false),
        exit_code: Some(75),
        field_errors: Some(vec![FieldErrorOutput {
            path: "count".to_string(),
            expected: "number".to_string(),
            received: "string".to_string(),
            message: "count must be numeric".to_string(),
        }]),
        cta,
    })
}

fn expected() -> serde_json::Value {
    json(
        r#"{
            "code": "INPUT_INVALID", "message": "repair this field",
            "retryable": false, "exit_code": 75,
            "field_errors": [{
                "path": "count", "expected": "number", "received": "string",
                "message": "count must be numeric"
            }]
        }"#,
    )
}

fn called(outcome: &ToolCallOutcome, structured: bool) -> ToolReply {
    let shown = outcome_value(outcome);
    let text = to_json(&shown).to_string();
    let projection = if structured {
        Some(Projection { content: Ok(shown), meta: None })
    } else {
        None
    };
    tool_call_result("fixture", outcome, &text, projection, &vec![])
}

fn text_body(reply: &ToolReply) -> serde_json::Value {
    match &reply.content[0] {
        Content::Text(text) => json(text),
        _ => panic!("missing text"),
    }
}

#[test]
fn structured_failure_preserves_all_fields_and_error_flag() {
    let wire = called(&failure(None), true);
    assert!(wire.is_error);
    assert_eq!(to_json(wire.structured_content.as_ref().unwrap()), expected());
    assert_eq!(text_body(&wire), expected());
}

#[test]
fn text_only_failure_is_still_machine_readable() {
    let wire = called(&failure(None), false);
    assert!(wire.is_error);
    assert!(wire.structured_content.is_none());
    assert_eq!(text_body(&wire), expected());
}

#[test]
fn follow_up_guidance_does_not_corrupt_the_error_json() {
    let cta = CtaBlock {
        description: Some("Try again:".to_string()),
        commands: vec![CtaEntry::Simple("retry".to_string())],
    };
    let wire = called(&failure(Some(cta)), true);
    assert!(wire.is_error);
    assert_eq!(text_body(&wire), expected());
    assert_eq!(to_json(wire.structured_content.as_ref().unwrap()), expected());
    assert!(matches!(
        &wire.content[1],
        Content::Text(text) if text == "Try again:\n  fixture retry"
    ));
    let meta = to_json(&Value::Object(wire.meta.unwrap()));
    assert_eq!(meta["cta"]["commands"][0]["command"], "fixture retry");
}

#[test]
fn absent_error_details_stay_absent() {
    let outcome = ToolCallOutcome::Error(ToolFailure {
        code: "NOT_FOUND".to_string(),
        message: String::new(),
        retryable: None,
        field_errors: None,
        cta: None,
        exit_code: None,
    });
    let wire = called(&outcome, true);
    let expected = json(r#"{"code": "NOT_FOUND", "message": "Command failed"}"#);
    assert!(wire.is_error);
    assert_eq!(to_json(wire.structured_content.as_ref().unwrap()), expected);
    assert_eq!(text_body(&wire), expected);
}

#[test]
fn successful_output_keeps_its_original_shape() {
    let outcome = ToolCallOutcome::Success {
        data: value(r#"{"answer": 42}"#),
        cta: None,
    };
    let wire = called(&outcome, true);
    assert!(!wire.is_error);
    assert_eq!(
        to_json(wire.structured_content.as_ref().unwrap()),
        json(r#"{"answer": 42}"#)
    );
    assert_eq!(text_body(&wire), json(r#"{"answer": 42}"#));
}

// Filters

#[test]
fn excludes_win_over_includes() {
    let filter = McpToolFilter {
        discovery: McpDiscovery::Direct,
        included: words(&["user_*", "ping"]),
        excluded: words(&["*_delete"]),
    };
    assert!(matches_tool_filter("user_get", &filter));
    assert!(matches_tool_filter("ping", &filter));
    assert!(!matches_tool_filter("pings", &filter));
    assert!(!matches_tool_filter("user_delete", &filter));
    assert!(matches_tool_filter("anything", &McpToolFilter::default()));
}

// Pointers

#[test]
fn pointers_lead_into_values() {
    let data = value(r#"{"a": [10, {"b/c": 1, "m~n": 2}], "": 3}"#);
    assert_eq!(follow_pointer(&data, ""), Some(&data));
    assert_eq!(follow_pointer(&data, "/a/0"), Some(&value("10")));
    assert_eq!(follow_pointer(&data, "/a/1/b~1c"), Some(&value("1")));
    assert_eq!(follow_pointer(&data, "/a/1/m~0n"), Some(&value("2")));
    assert_eq!(follow_pointer(&data, "/"), Some(&value("3")));
    assert_eq!(follow_pointer(&data, "a"), None);
    assert_eq!(follow_pointer(&data, "/a/00"), None);
    assert_eq!(follow_pointer(&data, "/a/2"), None);
}

// Served tools

fn tool(name: &str, read_only: Option<bool>) -> ResolvedTool {
    ResolvedTool {
        name: name.to_string(),
        description: format!("About {}", name),
        input_schema: entries(r#"{"type": "object"}"#),
        output_schema: None,
        output_meta: None,
        annotations: read_only.map(|hint| McpAnnotations {
            title: None,
            read_only_hint: Some(hint),
            destructive_hint: None,
            idempotent_hint: None,
            open_world_hint: None,
        }),
        instructions: None,
        result_content: vec![],
    }
}

#[test]
fn tools_are_listed_directly_or_behind_discovery() {
    let direct = McpToolFilter {
        discovery: McpDiscovery::Direct,
        included: vec![],
        excluded: words(&["b"]),
    };
    let served = serve_tools(vec![tool("a", None), tool("b", None)], &direct).unwrap();
    assert_eq!(served.tools.len(), 1);
    assert_eq!(served.list.len(), 1);
    assert_eq!(served.list[0].name, "a");
    let progressive = serve_tools(vec![tool("a", None)], &McpToolFilter::default()).unwrap();
    let names: Vec<&str> = progressive.list.iter().map(|t| t.name.as_str()).collect();
    let own: Vec<String> = progressive_tools().into_iter().map(|t| t.name).collect();
    assert_eq!(names, own);
    assert_eq!(filter_tools(vec![tool("b", None)], &direct).len(), 0);
    assert_eq!(find_tool(&progressive.tools, "a"), Some(0));
    assert_eq!(find_tool(&progressive.tools, "z"), None);
    assert!(reads_only(&tool("a", Some(true))));
    assert!(!reads_only(&tool("a", Some(false))));
}

#[test]
fn tools_of_one_name_are_refused() {
    let twice = serve_tools(
        vec![tool("a", None), tool("a", None)],
        &McpToolFilter::default(),
    );
    assert!(twice.is_err());
}

#[test]
fn searches_give_pages_of_tools() {
    let tools = vec![tool("a", Some(true)), tool("b", None)];
    match discovery_result("search_tools", &entries(r#"{"offset": 1, "limit": 1}"#), &tools) {
        Ok(Discovery::Structured(found)) => {
            let found = to_json(&found);
            assert!(found.to_string().contains("About b"));
            assert!(!found.to_string().contains("About a"));
        }
        other => panic!("{}", other.is_ok()),
    }
}

#[test]
fn tools_are_called_by_the_wrapper_of_their_kind() {
    let tools = vec![tool("read", Some(true)), tool("write", Some(false))];
    let call = entries(r#"{"name": "read", "arguments": {"x": 1}}"#);
    match plan_call(McpDiscovery::Direct, "write", &entries(r#"{"x": 1}"#), &tools) {
        Ok(CallPlan::Call { tool, arguments }) => {
            assert_eq!(tool, 1);
            assert_eq!(get(&arguments, "x"), Some(&value("1")));
        }
        _ => panic!("Expected a call"),
    }
    assert!(plan_call(McpDiscovery::Direct, "nope", &vec![], &tools).is_err());
    let wrappers: Vec<String> = progressive_tools().into_iter().map(|t| t.name).collect();
    let mut calls = 0;
    for wrapper in &wrappers {
        if let Ok(CallPlan::Call { tool, arguments }) =
            plan_call(McpDiscovery::Progressive, wrapper, &call, &tools)
        {
            assert_eq!(tool, 0);
            assert_eq!(get(&arguments, "x"), Some(&value("1")));
            calls += 1;
        }
    }
    assert_eq!(calls, 1);
}

// Protocol versions

#[test]
fn agreed_versions_are_among_those_served() {
    let versions = words(&["2025-06-18", "2025-03-26"]);
    assert_eq!(negotiate(&versions, "2025-03-26"), Some("2025-03-26".to_string()));
    assert!(versions.contains(&negotiate(&versions, "1999-01-01").unwrap()));
    assert!(versions.contains(&info_version(&versions)));
    assert_eq!(find_legacy(&vec![]), None);
    assert!(is_known_version("2025-06-18"));
    assert!(!is_known_version("1999-01-01"));
    assert!(!is_modern("2024-11-05"));
    assert!(matches!(choose_lifecycle(&words(&["2025-06-18"])), Lifecycle::Initialize));
}

// Remote tools

fn remote(name: &str) -> RemoteTool {
    RemoteTool {
        name: name.to_string(),
        description: Some(format!("About {}", name)),
        input_schema: entries(
            r#"{
                "properties": {
                    "count": {"type": "integer"},
                    "mode": {"enum": ["a", "b"]},
                    "name": {"type": "string", "description": "Who"}
                },
                "required": ["name"]
            }"#,
        ),
        output_schema: None,
        read_only_hint: Some(true),
    }
}

#[test]
fn remote_tools_become_commands() {
    let projected = project_tool(&remote("greet"), false, 4);
    assert_eq!(projected.def.name, "greet");
    assert_eq!(projected.def.handler, 4);
    assert_eq!(projected.tool, "greet");
    assert_eq!(projected.wrapper, None);
    let name = projected.def.options_fields.iter().find(|f| f.name == "name").unwrap();
    assert!(name.required);
    assert_eq!(name.description.as_deref(), Some("Who"));
    let found = project_tool(&remote("greet"), true, 4);
    assert!(found.wrapper.is_some());
    let projected = project_remote_commands(&vec![remote("b"), remote("a"), remote("b")], false);
    let names: Vec<&str> = projected.iter().map(|(name, _)| name.as_str()).collect();
    assert_eq!(names, vec!["a", "b"]);
    assert_eq!(projected[1].1.def.handler, 2);
    assert!(!is_progressive(&vec![remote("a")]));
    let field = remote_field("userCount", &value(r#"{"type": "integer"}"#), false);
    assert!(matches!(field.field_type, FieldType::Number));
    let field = remote_field("mode", &value(r#"{"enum": ["a", "b"]}"#), false);
    assert!(matches!(field.field_type, FieldType::String));
}

#[test]
fn wrapped_calls_carry_the_direct_call() {
    let args = value(r#"{"name": "x"}"#);
    let options = value(r#"{"count": 2}"#);
    let (direct, arguments) = make_call("greet", &None, &args, &options);
    assert_eq!(direct, "greet");
    assert_eq!(get(&arguments, "name"), Some(&value(r#""x""#)));
    assert_eq!(get(&arguments, "count"), Some(&value("2")));
    let (wrapper, wrapped) = make_call("greet", &Some("call_read".to_string()), &args, &options);
    assert_eq!(wrapper, "call_read");
    assert_eq!(get(&wrapped, "name"), Some(&value(r#""greet""#)));
    assert_eq!(get(&wrapped, "arguments"), Some(&Value::Object(arguments)));
}

#[test]
fn searches_go_on_until_the_last_page() {
    let page = value(r#"{"tools": [{"name": "a"}, {"name": "b"}], "nextOffset": 2}"#);
    assert_eq!(read_names(&page), words(&["a", "b"]));
    assert_eq!(next_search(0, &page), Ok(Some(2)));
    assert!(next_search(2, &page).is_err());
    assert_eq!(next_search(0, &value(r#"{"tools": []}"#)), Ok(None));
    assert_eq!(get(&search_arguments(7), "offset"), Some(&value("7")));
    assert_eq!(get(&details_arguments("a"), "name"), Some(&value(r#""a""#)));
}

#[test]
fn remote_answers_become_results() {
    assert!(matches!(
        remote_result(RemoteAnswer::Success(value("1"))),
        CommandResult::Success { .. }
    ));
    assert!(matches!(
        remote_result(RemoteAnswer::Failure(Some("no".to_string()))),
        CommandResult::Error { message, .. } if message == "no"
    ));
    assert!(matches!(
        remote_result(RemoteAnswer::Broken("gone".to_string())),
        CommandResult::Error { message, .. } if message.contains("gone")
    ));
    assert_eq!(success_value(Some(value("1")), Some(value("2"))), value("1"));
    assert_eq!(success_value(None, Some(value("2"))), value("2"));
}

fn definition(input_schema: &str) -> ToolDefinition {
    ToolDefinition {
        name: "deploy_app".to_string(),
        description: "Deploy".to_string(),
        input_schema: value(input_schema),
        output_schema: Some(value(r#"{"type": "string"}"#)),
        annotations: None,
        instructions: Some("Ask first".to_string()),
        result_content: vec![],
    }
}

#[test]
fn definitions_are_resolved_with_their_projection() {
    let resolved = tool_definition(
        definition(r#"{"type": "object"}"#),
        Some(SchemaProjection {
            schema: value(r#"{"type": "object", "wrapped": true}"#),
            meta: Some(entries(r#"{"shape": "wrapped"}"#)),
        }),
    );
    assert_eq!(resolved.name, "deploy_app");
    assert_eq!(resolved.instructions.as_deref(), Some("Ask first"));
    assert_eq!(
        to_json(&Value::Object(resolved.input_schema)),
        json(r#"{"type": "object"}"#)
    );
    assert_eq!(
        to_json(&Value::Object(resolved.output_schema.unwrap())),
        json(r#"{"type": "object", "wrapped": true}"#)
    );
    assert_eq!(
        to_json(&Value::Object(resolved.output_meta.unwrap())),
        json(r#"{"shape": "wrapped"}"#)
    );

    let odd = tool_definition(
        definition("true"),
        Some(SchemaProjection { schema: value("true"), meta: None }),
    );
    assert!(odd.input_schema.is_empty());
    assert!(odd.output_schema.is_none());
    assert!(odd.output_meta.is_none());
    assert!(tool_definition(definition("{}"), None).output_schema.is_none());
}
