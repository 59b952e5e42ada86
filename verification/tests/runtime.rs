use incurs::address::{is_loopback, join_url, parse_url, same_origin, UrlParts};
use incurs::agent_plugin::loader::servers::{
    AgentPluginHttpMcpServer, AgentPluginMcpServer, AgentPluginStdioMcpServer,
};
use incurs::agent_plugin_runtime::{
    connect_agent_plugin, expand, prepare_stdio, resolve_environment, tool_names, works_in_data,
    AgentPluginRuntimeError, Connection,
};
use incurs::agent_plugin_sse::{
    await_endpoint, check_content_type, endpoint_headers, message_of, resolve_endpoint,
    EndpointStep, LegacySseError, StreamEvent,
};
use incurs::command::CommandDef;
use incurs::headers::{client_safe_headers, configured_headers, HeaderFault};

fn pairs(list: &[(&str, &str)]) -> Vec<(String, String)> {
    list.iter()
        .map(|(k, v)| (k.to_string(), v.to_string()))
        .collect()
}

fn at<'a>(table: &'a [(String, String)], key: &str) -> &'a str {
    &table.iter().find(|(k, _)| k == key).unwrap().1
}

fn url(text: &str) -> UrlParts {
    parse_url(text).unwrap()
}

fn stdio(cwd: &str) -> AgentPluginStdioMcpServer {
    AgentPluginStdioMcpServer {
        command: "demo".to_string(),
        resolved_command: None,
        args: vec!["${PLUGIN_DATA}/input".to_string()],
        resolved_args: vec!["/data/input".to_string()],
        env: pairs(&[("MODE", "plugin")]),
        resolved_env: pairs(&[("MODE", "plugin")]),
        cwd: Some("${PLUGIN_DATA}/work".to_string()),
        resolved_cwd: cwd.to_string(),
    }
}

#[test]
fn placeholder_expansion_is_global_and_non_recursive() {
    let root = "/plugins/${PLUGIN_DATA}/demo";
    let data = "/data/demo";

    assert_eq!(
        expand("${PLUGIN_ROOT}/a:${PLUGIN_DATA}/b:${OTHER}", root, data),
        "/plugins/${PLUGIN_DATA}/demo/a:/data/demo/b:${OTHER}"
    );
}

#[test]
fn configured_environment_overlays_base_before_reserved_values() {
    let base = pairs(&[("MODE", "base"), ("PLUGIN_ROOT", "wrong")]);
    let configured = pairs(&[
        ("MODE", "plugin"),
        ("CONFIG", "${PLUGIN_ROOT}/config:${UNKNOWN}"),
    ]);

    let environment = resolve_environment(&base, &configured, "/plugin", "/data", false);

    assert_eq!(at(&environment, "MODE"), "plugin");
    assert_eq!(at(&environment, "CONFIG"), "/plugin/config:${UNKNOWN}");
    assert_eq!(at(&environment, "PLUGIN_ROOT"), "/plugin");
    assert_eq!(at(&environment, "PLUGIN_DATA"), "/data");
}

#[test]
fn configured_headers_convert_without_changing_names_or_values() {
    let headers = configured_headers(&pairs(&[
        ("X-Agent-Plugin", "demo"),
        ("Authorization", "visible value"),
    ]))
    .unwrap();

    assert_eq!(headers["x-agent-plugin"], "demo");
    assert_eq!(headers["authorization"], "visible value");
}

#[test]
fn configured_headers_follow_only_same_origin_endpoint_events() {
    let configured = url("https://example.com/mcp/sse");

    assert!(same_origin(
        &configured,
        &url("https://example.com/mcp/messages")
    ));
    assert!(!same_origin(
        &configured,
        &url("https://other.example/mcp/messages")
    ));
    assert!(!same_origin(
        &configured,
        &url("http://example.com/mcp/messages")
    ));
}

#[test]
fn endpoint_events_resolve_relative_urls_and_reject_unsafe_urls() {
    let configured = url("http://localhost:3000/mcp/sse");

    assert_eq!(
        resolve_endpoint(&configured, "../messages").unwrap().text,
        "http://localhost:3000/messages"
    );
    assert!(resolve_endpoint(&configured, "file:///tmp/messages").is_err());
    assert!(resolve_endpoint(&configured, "http://example.com/messages").is_err());
    assert!(resolve_endpoint(&configured, "https://user@example.com/messages").is_err());
    assert!(resolve_endpoint(&configured, "https://example.com/messages#secret").is_err());
}

#[test]
fn configured_headers_cannot_override_client_protocol_headers() {
    let headers = http::HeaderMap::from_iter([
        (
            http::header::ACCEPT,
            http::HeaderValue::from_static("text/plain"),
        ),
        (
            http::header::CONTENT_TYPE,
            http::HeaderValue::from_static("text/plain"),
        ),
        (
            http::HeaderName::from_static("x-plugin"),
            http::HeaderValue::from_static("visible"),
        ),
    ]);

    let headers = client_safe_headers(headers);

    assert!(!headers.contains_key(http::header::ACCEPT));
    assert!(!headers.contains_key(http::header::CONTENT_TYPE));
    assert_eq!(headers["x-plugin"], "visible");
}

// Starting servers

#[test]
fn a_server_starts_with_its_own_values_in_its_directory() {
    let server = stdio("/data/work");
    assert!(works_in_data(&server, "/data"));
    let launch = prepare_stdio(
        "/plugin",
        "/data",
        &server,
        &pairs(&[("MODE", "base")]),
        Some(("/data", "/data/work")),
        false,
    )
    .unwrap();
    assert_eq!(launch.executable, "demo");
    assert_eq!(launch.args, server.resolved_args);
    assert_eq!(launch.cwd, "/data/work");
    assert_eq!(at(&launch.environment, "MODE"), "plugin");
    assert_eq!(at(&launch.environment, "PLUGIN_ROOT"), "/plugin");
    assert_eq!(at(&launch.environment, "PLUGIN_DATA"), "/data");
}

#[test]
fn a_working_directory_that_leads_out_of_the_data_is_refused() {
    let server = stdio("/data/work");
    let refused = prepare_stdio(
        "/plugin",
        "/data",
        &server,
        &vec![],
        Some(("/data", "/elsewhere")),
        false,
    );
    assert!(refused.is_err());
}

#[test]
fn text_without_placeholders_is_kept() {
    assert_eq!(expand("plain $ {PLUGIN_ROOT}", "/r", "/d"), "plain $ {PLUGIN_ROOT}");
    assert_eq!(expand("${PLUGIN_ROOT", "/r", "/d"), "${PLUGIN_ROOT");
}

#[test]
fn a_refused_server_leaves_the_others_connected() {
    let servers = vec![
        ("bad".to_string(), AgentPluginMcpServer::Stdio(stdio("/data"))),
        (
            "good".to_string(),
            AgentPluginMcpServer::StreamableHttp(AgentPluginHttpMcpServer {
                url: "https://example.com/mcp".to_string(),
                headers: vec![],
            }),
        ),
    ];
    let tool = CommandDef::build("echo".to_string(), 0).done();
    let connected = connect_agent_plugin(
        "demo".to_string(),
        &servers,
        vec![
            Connection::Refused("no such program".to_string()),
            Connection::Connected(vec![("echo".to_string(), tool)]),
        ],
    )
    .unwrap();
    assert_eq!(connected.servers.len(), 2);
    assert_eq!(connected.servers[0].error, Some("no such program".to_string()));
    assert_eq!(connected.servers[0].tool_count, 0);
    assert_eq!(connected.servers[1].error, None);
    assert_eq!(connected.servers[1].tool_count, 1);
    assert_eq!(connected.cli.commands.len(), 1);
    assert_eq!(connected.cli.commands[0].0, "good");
    assert!(AgentPluginRuntimeError::Io("x".to_string()).message().contains("x"));
    assert!(AgentPluginRuntimeError::Catalog("y".to_string()).message().contains("y"));
}

fn remote(name: &str) -> (String, AgentPluginMcpServer) {
    let server = AgentPluginHttpMcpServer {
        url: "https://example.com/mcp".to_string(),
        headers: vec![],
    };
    (name.to_string(), AgentPluginMcpServer::StreamableHttp(server))
}

fn with_tools(names: &[&str]) -> Connection {
    let tool = |name: &&str| (name.to_string(), CommandDef::build(name.to_string(), 0).done());
    Connection::Connected(names.iter().map(tool).collect())
}

#[test]
fn a_refused_server_between_others_changes_nothing_for_them() {
    let refused = Connection::Refused("down".to_string());
    let all = connect_agent_plugin(
        "demo".to_string(),
        &vec![remote("a"), remote("b"), remote("c")],
        vec![with_tools(&["x"]), refused, with_tools(&["y", "z"])],
    )
    .unwrap();
    let others = connect_agent_plugin(
        "demo".to_string(),
        &vec![remote("a"), remote("c")],
        vec![with_tools(&["x"]), with_tools(&["y", "z"])],
    )
    .unwrap();
    assert_eq!(tool_names(&all.cli.commands), vec!["a_x", "c_y", "c_z"]);
    assert_eq!(tool_names(&all.cli.commands), tool_names(&others.cli.commands));
    assert_eq!(all.servers[1].name, "b");
    assert_eq!(all.servers[1].error, Some("down".to_string()));
    assert_eq!(all.servers[1].tool_count, 0);
    for (i, k) in [(0, 0), (2, 1)] {
        assert_eq!(all.servers[i].name, others.servers[k].name);
        assert_eq!(all.servers[i].tool_count, others.servers[k].tool_count);
        assert_eq!(all.servers[i].error, None);
    }
}

#[test]
fn two_tools_of_one_name_make_no_catalog() {
    let connected = connect_agent_plugin(
        "demo".to_string(),
        &vec![remote("a"), remote("a_b")],
        vec![with_tools(&["b_c"]), with_tools(&["c"])],
    );
    match connected {
        Err(error) => assert_eq!(
            error.message(),
            "failed to build Agent Plugin tool catalog: Duplicate MCP tool name: a_b_c"
        ),
        Ok(_) => panic!("Expected a collision"),
    }
}

#[test]
fn names_of_variables_may_ignore_case() {
    let base = pairs(&[("Mode", "base"), ("other", "kept"), ("plugin_root", "wrong")]);
    let configured = pairs(&[("MODE", "plugin")]);

    let ignoring = resolve_environment(&base, &configured, "/plugin", "/data", true);
    assert_eq!(
        ignoring,
        pairs(&[
            ("MODE", "plugin"),
            ("PLUGIN_DATA", "/data"),
            ("PLUGIN_ROOT", "/plugin"),
            ("other", "kept"),
        ])
    );

    let exact = resolve_environment(&base, &configured, "/plugin", "/data", false);
    assert_eq!(at(&exact, "Mode"), "base");
    assert_eq!(at(&exact, "MODE"), "plugin");
    assert_eq!(at(&exact, "plugin_root"), "wrong");
    assert_eq!(at(&exact, "PLUGIN_ROOT"), "/plugin");
}

// Addresses

#[test]
fn addresses_are_read_into_their_parts() {
    let parts = url("https://User:pw@Example.COM:8443/a/../b?q=1#f");
    assert_eq!(parts.text, "https://User:pw@example.com:8443/b?q=1#f");
    assert_eq!(parts.scheme, "https");
    assert_eq!(parts.username, "User");
    assert_eq!(parts.password, Some("pw".to_string()));
    assert_eq!(parts.fragment, Some("f".to_string()));
    assert_eq!(parts.host_text, Some("example.com".to_string()));
    assert_eq!(parts.port, Some(8443));
    assert!(parts.is_web());
    assert!(parts.has_user());
    assert!(parse_url("not an address").is_err());
}

#[test]
fn references_are_joined_to_an_address() {
    let base = url("https://example.com/a/b");
    assert_eq!(join_url(&base, "../c").unwrap().text, "https://example.com/c");
    assert_eq!(join_url(&base, "/c").unwrap().text, "https://example.com/c");
    assert_eq!(join_url(&base, "http://h/x").unwrap().text, "http://h/x");
}

#[test]
fn loopback_addresses_are_known() {
    assert!(is_loopback(&url("http://localhost/")));
    assert!(is_loopback(&url("http://127.0.0.1:80/")));
    assert!(is_loopback(&url("http://[::1]/")));
    assert!(!is_loopback(&url("http://example.com/")));
    assert!(!is_loopback(&url("http://10.0.0.1/")));
}

#[test]
fn default_ports_are_of_one_origin() {
    assert!(same_origin(&url("https://h/a"), &url("https://h:443/b")));
    assert!(!same_origin(&url("https://h/a"), &url("https://h:444/b")));
}

// Headers

#[test]
fn headers_that_http_does_not_take_are_refused() {
    assert!(matches!(
        configured_headers(&pairs(&[("bad name", "x")])),
        Err(HeaderFault::Name)
    ));
    assert!(matches!(
        configured_headers(&pairs(&[("name", "a\nb")])),
        Err(HeaderFault::Value)
    ));
    assert!(!HeaderFault::TooMany.message().is_empty());
}

#[test]
fn headers_stay_with_their_origin() {
    let configured = url("https://example.com/sse");
    let headers = configured_headers(&pairs(&[("X-Key", "k"), ("Accept", "text/plain")])).unwrap();
    let same = endpoint_headers(&configured, &url("https://example.com/m"), headers.clone());
    assert_eq!(same["x-key"], "k");
    assert!(!same.contains_key("accept"));
    let other = endpoint_headers(&configured, &url("https://other.example/m"), headers);
    assert!(other.is_empty());
}

// Events

fn event(name: Option<&str>, data: Option<&str>) -> StreamEvent {
    StreamEvent {
        event: name.map(|n| n.to_string()),
        data: data.map(|d| d.to_string()),
    }
}

#[test]
fn streams_must_be_event_streams() {
    assert!(check_content_type("text/event-stream; charset=utf-8").is_ok());
    assert!(check_content_type("application/json").is_err());
}

#[test]
fn the_endpoint_is_awaited() {
    let configured = url("http://localhost:3000/sse");
    assert!(matches!(
        await_endpoint(&configured, &Some(event(Some("ping"), Some("x")))),
        EndpointStep::Wait
    ));
    assert!(matches!(
        await_endpoint(&configured, &Some(event(Some("endpoint"), Some("/m")))),
        EndpointStep::Found(found) if found.text == "http://localhost:3000/m"
    ));
    assert!(matches!(
        await_endpoint(&configured, &None),
        EndpointStep::Failed(LegacySseError::Protocol(_))
    ));
    assert!(matches!(
        await_endpoint(&configured, &Some(event(Some("endpoint"), Some("ftp://h/")))),
        EndpointStep::Failed(_)
    ));
}

#[test]
fn messages_are_the_data_of_message_events() {
    assert_eq!(
        message_of(&event(Some("message"), Some("{}"))),
        Some("{}".to_string())
    );
    assert_eq!(message_of(&event(None, Some("{}"))), Some("{}".to_string()));
    assert_eq!(message_of(&event(Some("ping"), Some("{}"))), None);
}

#[test]
fn failures_are_told_by_kind() {
    let mut seen = vec![];
    for failure in [
        LegacySseError::Http("e".to_string()),
        LegacySseError::Sse("e".to_string()),
        LegacySseError::Url("e".to_string()),
        LegacySseError::Json("e".to_string()),
        LegacySseError::Protocol("e".to_string()),
    ] {
        let message = failure.message();
        assert!(message.ends_with('e'));
        assert!(!seen.contains(&message));
        seen.push(message);
    }
}
