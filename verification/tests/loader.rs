use incurs::agent_plugin::loader::servers::{
    list_servers, paths_of_server, AgentPluginMcpServer, ServerPaths,
};
use incurs::agent_plugin::loader::skills::{parse_skill, SkillFolder, SkillsFound};
use incurs::agent_plugin::loader::{
    load_agent_plugin, AgentPluginLoadOptions, AgentPluginLoadReport, AgentPluginMcpTransport,
    Document, Located, AGENT_PLUGIN_MCP_SCHEMA, AGENT_PLUGIN_SCHEMA,
};
use incurs::agent_plugin::publish::{
    mcp_json, plugin_manifest, AgentPluginManifestMetadata, AgentPluginPublicationPolicy,
    AgentPluginPublisherOptions, AgentPluginSkillOptions, AgentPluginToolBindingOptions,
};
use incurs::agent_plugin::servers::{
    check_server, AgentPluginMcpServerConfig, AgentPluginRemoteMcpServer,
    AgentPluginStdioMcpServer,
};
use incurs::value::{Number, Value};

fn from_json(value: &serde_json::Value) -> Value {
    match value {
        serde_json::Value::Null => Value::Null,
        serde_json::Value::Bool(b) => Value::Bool(*b),
        serde_json::Value::Number(n) => {
            if let Some(u) = n.as_u64() {
                Value::Number(Number::PosInt(u))
            } else if let Some(i) = n.as_i64() {
                Value::Number(Number::NegInt(i))
            } else {
                Value::Number(Number::Float { bits: n.as_f64().unwrap().to_bits() })
            }
        }
        serde_json::Value::String(s) => Value::String(s.clone()),
        serde_json::Value::Array(items) => Value::Array(items.iter().map(from_json).collect()),
        serde_json::Value::Object(map) => {
            Value::Object(map.iter().map(|(k, v)| (k.clone(), from_json(v))).collect())
        }
    }
}

fn to_json(value: &Value) -> serde_json::Value {
    match value {
        Value::Null => serde_json::Value::Null,
        Value::Bool(b) => serde_json::Value::from(*b),
        Value::Number(Number::PosInt(u)) => serde_json::Value::from(*u),
        Value::Number(Number::NegInt(i)) => serde_json::Value::from(*i),
        Value::Number(Number::Float { bits }) => serde_json::Value::from(f64::from_bits(*bits)),
        Value::String(s) => serde_json::Value::from(s.as_str()),
        Value::Array(items) => serde_json::Value::Array(items.iter().map(to_json).collect()),
        Value::Object(entries) => serde_json::Value::Object(
            entries.iter().map(|(k, v)| (k.clone(), to_json(v))).collect(),
        ),
    }
}

fn json(text: &str) -> serde_json::Value {
    serde_json::from_str(text).unwrap()
}

fn value(text: &str) -> Value {
    from_json(&json(text))
}

const ROOT: &str = "/plugin";

fn located(path: Option<String>, files: &[&str]) -> Located {
    match path {
        Some(path) if path.trim_end_matches('/') == ROOT => Located::Directory(ROOT.to_string()),
        Some(path) if files.contains(&path.as_str()) => Located::File(path),
        Some(path) => Located::Missing(format!("{}: not found", path)),
        None => Located::Missing("no path".to_string()),
    }
}

fn folder(name: &str, text: &str) -> SkillFolder {
    SkillFolder {
        name: name.to_string(),
        is_candidate: true,
        root: Located::Directory(format!("{}/skills/{}", ROOT, name)),
        file: Located::File(format!("{}/skills/{}/SKILL.md", ROOT, name)),
        text: Ok(text.to_string()),
    }
}

fn load(
    manifest: Value,
    skills: Vec<SkillFolder>,
    servers: Option<Value>,
    files: &[&str],
) -> AgentPluginLoadReport {
    let servers = servers.map(Document::Parsed);
    let paths: Vec<ServerPaths> = match list_servers(&servers, AGENT_PLUGIN_SCHEMA) {
        Ok(all) => all
            .iter()
            .map(|(_, server)| {
                let (command, cwd) = paths_of_server(server, ROOT);
                ServerPaths {
                    command: located(command, files),
                    cwd: located(cwd, files),
                }
            })
            .collect(),
        Err(_) => vec![],
    };
    let found = if skills.is_empty() {
        SkillsFound::Absent
    } else {
        SkillsFound::Listed(Located::Directory(format!("{}/skills", ROOT)), skills)
    };
    load_agent_plugin(
        &Located::Directory(ROOT.to_string()),
        &Document::Parsed(manifest),
        &found,
        &servers,
        &paths,
        &AgentPluginLoadOptions {
            plugin_data_root: "/data".to_string(),
            supported_mcp_transports: AgentPluginMcpTransport::all().to_vec(),
        },
    )
}

fn manifest() -> Value {
    value(
        r#"{"$schema":"https://agent-plugins.org/schemas/1.0.0/plugin.schema.json","name":"demo.plugin","extensions":{"com.example.client":{"enabled":true}}}"#,
    )
}

/// A document that lists servers in the given order.
fn servers(list: &[(&str, &str)]) -> Value {
    Value::Object(vec![
        (
            "$schema".to_string(),
            Value::String(AGENT_PLUGIN_MCP_SCHEMA.to_string()),
        ),
        (
            "mcpServers".to_string(),
            Value::Object(
                list.iter()
                    .map(|(name, text)| (name.to_string(), value(text)))
                    .collect(),
            ),
        ),
    ])
}

fn codes(report: &AgentPluginLoadReport) -> Vec<&str> {
    report.diagnostics.iter().map(|d| d.code).collect()
}

#[test]
fn load_discovers_manifest_extensions_skill_and_all_mcp_transports() {
    let report = load(
        manifest(),
        vec![folder(
            "deploy",
            "---\nname: deploy\ndescription: Deploy the project.\nmetadata:\n  incurs.command: demo deploy\n---\n\n# Deploy\n",
        )],
        Some(servers(&[
            ("local", r#"{"type":"stdio","command":"./bin/server","args":["--root","${PLUGIN_ROOT}"],"env":{"CACHE":"${PLUGIN_DATA}/cache"},"cwd":"${PLUGIN_ROOT}"}"#),
            ("remote", r#"{"type":"streamable-http","url":"https://example.com/mcp","headers":{"X-Tenant":"public"}}"#),
            ("legacy", r#"{"type":"sse","url":"http://localhost:3000/sse"}"#),
        ])),
        &["/plugin/bin/server"],
    );

    assert!(report.diagnostics.is_empty(), "{:?}", report.diagnostics);
    let plugin = report.plugin.unwrap();
    assert_eq!(plugin.manifest.name, "demo.plugin");
    let names: Vec<&str> = plugin.extensions.iter().map(|(k, _)| k.as_str()).collect();
    assert_eq!(names, vec!["com.example.client"]);
    assert_eq!(plugin.skills[0].name, "deploy");
    assert_eq!(
        plugin.skills[0].metadata,
        vec![("incurs.command".to_string(), "demo deploy".to_string())]
    );
    assert_eq!(plugin.skills[0].body, "# Deploy\n");
    assert_eq!(plugin.mcp_servers.len(), 3);
    let server = |name: &str| &plugin.mcp_servers.iter().find(|(k, _)| k == name).unwrap().1;
    match server("local") {
        AgentPluginMcpServer::Stdio(local) => {
            assert_eq!(local.resolved_args, vec!["--root", "/plugin"]);
            assert_eq!(
                local.resolved_env,
                vec![("CACHE".to_string(), "/data/cache".to_string())]
            );
            assert_eq!(local.resolved_cwd, "/plugin");
        }
        _ => panic!("Expected Stdio"),
    }
    assert!(matches!(
        server("remote"),
        AgentPluginMcpServer::StreamableHttp(_)
    ));
    assert!(matches!(server("legacy"), AgentPluginMcpServer::Sse(_)));
}

#[test]
fn manifest_unknown_fields_and_non_object_extensions_are_nonfatal() {
    let report = load(
        value(
            r#"{"$schema":"https://agent-plugins.org/schemas/1.0.0/plugin.schema.json","name":"demo","unknown":true,"extensions":false}"#,
        ),
        vec![],
        None,
        &[],
    );

    assert!(report.plugin.is_some());
    assert_eq!(
        codes(&report),
        vec!["manifest_unknown_field", "manifest_extensions_ignored"]
    );
}

#[test]
fn fatal_manifest_error_rejects_all_components() {
    let report = load(
        value(
            r#"{"$schema":"https://agent-plugins.org/schemas/1.0.0/plugin.schema.json","name":"Bad"}"#,
        ),
        vec![folder("deploy", "---\nname: deploy\ndescription: Deploy.\n---\n")],
        None,
        &[],
    );

    assert!(report.plugin.is_none());
    assert_eq!(report.diagnostics[0].code, "manifest_name_invalid");
}

#[test]
fn invalid_skill_and_invalid_mcp_server_are_skipped_independently() {
    let report = load(
        manifest(),
        vec![
            folder("good", "---\nname: good\ndescription: Good skill.\n---\n"),
            folder("bad", "---\nname: other\ndescription: Bad skill.\n---\n"),
        ],
        Some(servers(&[
            ("bad", r#"{"type":"stdio","command":"./missing"}"#),
            ("good", r#"{"type":"streamable-http","url":"https://example.com/mcp"}"#),
        ])),
        &[],
    );

    assert!(codes(&report).contains(&"skill_name_invalid"));
    assert!(codes(&report).contains(&"mcp_command_invalid"));
    let plugin = report.plugin.unwrap();
    let skills: Vec<&str> = plugin.skills.iter().map(|s| s.name.as_str()).collect();
    assert_eq!(skills, vec!["good"]);
    let names: Vec<&str> = plugin.mcp_servers.iter().map(|(k, _)| k.as_str()).collect();
    assert_eq!(names, vec!["good"]);
}

#[test]
fn mcp_top_level_error_disables_only_mcp() {
    let report = load(
        manifest(),
        vec![folder("good", "---\nname: good\ndescription: Good skill.\n---\n")],
        Some(value(
            r#"{"$schema":"https://agent-plugins.org/schemas/1.0.0/mcp.schema.json","mcpServers":{},"extra":true}"#,
        )),
        &[],
    );

    assert_eq!(report.diagnostics[0].code, "mcp_top_level_invalid");
    let plugin = report.plugin.unwrap();
    assert_eq!(plugin.skills.len(), 1);
    assert!(plugin.mcp_servers.is_empty());
}

#[test]
fn rejects_insecure_non_loopback_http_url_and_duplicate_headers() {
    let report = load(
        manifest(),
        vec![],
        Some(servers(&[
            ("insecure", r#"{"type":"streamable-http","url":"http://example.com/mcp"}"#),
            ("headers", r#"{"type":"streamable-http","url":"https://example.com/mcp","headers":{"X-Test":"a","x-test":"b"}}"#),
        ])),
        &[],
    );

    assert_eq!(codes(&report), vec!["mcp_url_insecure", "mcp_header_duplicate"]);
    assert!(report.plugin.unwrap().mcp_servers.is_empty());
}

#[test]
fn stdio_rejects_reserved_env_and_contained_data_cwd_escape() {
    let report = load(
        manifest(),
        vec![],
        Some(servers(&[
            ("env", r#"{"type":"stdio","command":"demo","env":{"PLUGIN_ROOT":"bad"}}"#),
            ("cwd", r#"{"type":"stdio","command":"demo","cwd":"${PLUGIN_DATA}/../escape"}"#),
        ])),
        &[],
    );

    assert!(codes(&report).contains(&"mcp_env_reserved"));
    assert!(codes(&report).contains(&"mcp_cwd_invalid"));
    assert!(report.plugin.unwrap().mcp_servers.is_empty());
}

#[test]
fn a_root_that_is_no_directory_is_refused() {
    let refused = |root: Located| {
        load_agent_plugin(
            &root,
            &Document::Parsed(manifest()),
            &SkillsFound::Absent,
            &None,
            &vec![],
            &AgentPluginLoadOptions {
                plugin_data_root: "/data".to_string(),
                supported_mcp_transports: vec![],
            },
        )
    };
    let missing = refused(Located::Missing("gone".to_string()));
    assert!(missing.plugin.is_none());
    assert_eq!(codes(&missing), vec!["plugin_root_missing"]);
    let file = refused(Located::File("/plugin".to_string()));
    assert_eq!(codes(&file), vec!["plugin_root_kind"]);
}

#[test]
fn skills_are_read_from_their_frontmatter() {
    let skill = parse_skill(
        "deploy",
        "/plugin/skills/deploy",
        "/plugin/skills/deploy/SKILL.md",
        "---\nname: deploy\ndescription: 'It''s here'\nlicense: MIT\nallowed-tools: a b\n---\nBody\n",
    )
    .unwrap();
    assert_eq!(skill.description, "It's here");
    assert_eq!(skill.license, Some("MIT".to_string()));
    assert_eq!(skill.allowed_tools, Some("a b".to_string()));
    assert_eq!(skill.body, "Body\n");
    let broken = parse_skill("deploy", "/r", "/p", "---\nname: [\n---\n");
    assert!(broken.is_err());
    let none = parse_skill("deploy", "/r", "/p", "no frontmatter");
    assert!(none.is_err());
}

#[test]
fn published_manifests_are_read_back() {
    let options = AgentPluginPublisherOptions {
        manifest: AgentPluginManifestMetadata {
            name: "demo-tools".to_string(),
            version: Some("1.2.3".to_string()),
            description: None,
            author: None,
            homepage: None,
            repository: None,
            license: None,
            keywords: vec!["demo".to_string()],
            extensions: vec![("com.example.client".to_string(), value(r#"{"on": true}"#))],
        },
        skills: AgentPluginSkillOptions {
            cli_name: "demo-tools".to_string(),
            depth: 0,
            additional_skills: vec![],
        },
        tools: AgentPluginToolBindingOptions { mcp_server: None, mcp_servers: vec![] },
        tool_runtime: None,
        policy: AgentPluginPublicationPolicy { overwrite: false },
    };
    let report = load(plugin_manifest(&options), vec![], None, &[]);
    assert!(report.diagnostics.is_empty());
    let plugin = report.plugin.unwrap();
    assert_eq!(plugin.manifest.name, "demo-tools");
    assert_eq!(plugin.manifest.version, Some("1.2.3".to_string()));
    assert_eq!(plugin.manifest.keywords, vec!["demo"]);
    assert_eq!(to_json(&plugin.extensions[0].1), json(r#"{"on": true}"#));
}

fn pair(key: &str, text: &str) -> (String, String) {
    (key.to_string(), text.to_string())
}

#[test]
fn published_servers_are_loaded_as_they_were_given() {
    let configured = vec![
        (
            "far".to_string(),
            AgentPluginMcpServerConfig::StreamableHttp(AgentPluginRemoteMcpServer {
                url: "https://mcp.example.com/v1".to_string(),
                headers: vec![pair("X-A", "1"), pair("X-B", "2")],
            }),
        ),
        (
            "near".to_string(),
            AgentPluginMcpServerConfig::Stdio(AgentPluginStdioMcpServer {
                command: "./bin/serve".to_string(),
                args: vec!["--root".to_string(), "${PLUGIN_ROOT}".to_string()],
                env: vec![pair("A", "x"), pair("B", "${PLUGIN_DATA}/y")],
                cwd: Some("${PLUGIN_ROOT}".to_string()),
            }),
        ),
        (
            "old".to_string(),
            AgentPluginMcpServerConfig::Sse(AgentPluginRemoteMcpServer {
                url: "http://localhost:8080/sse".to_string(),
                headers: vec![],
            }),
        ),
    ];
    for (_, server) in &configured {
        assert!(check_server(server).is_none());
    }
    let report = load(
        manifest(),
        vec![],
        Some(mcp_json(&configured)),
        &["/plugin/bin/serve"],
    );
    assert!(report.diagnostics.is_empty());
    let loaded = report.plugin.unwrap().mcp_servers;
    let names: Vec<&str> = loaded.iter().map(|s| s.0.as_str()).collect();
    assert_eq!(names, vec!["far", "near", "old"]);
    let AgentPluginMcpServer::StreamableHttp(far) = &loaded[0].1 else {
        panic!("other transport");
    };
    assert_eq!(far.url, "https://mcp.example.com/v1");
    assert_eq!(far.headers, vec![pair("X-A", "1"), pair("X-B", "2")]);
    let AgentPluginMcpServer::Stdio(near) = &loaded[1].1 else {
        panic!("other transport");
    };
    assert_eq!(near.command, "./bin/serve");
    assert_eq!(near.resolved_command, Some("/plugin/bin/serve".to_string()));
    assert_eq!(near.args, vec!["--root", "${PLUGIN_ROOT}"]);
    assert_eq!(near.resolved_args, vec!["--root", "/plugin"]);
    assert_eq!(near.env, vec![pair("A", "x"), pair("B", "${PLUGIN_DATA}/y")]);
    assert_eq!(near.resolved_env, vec![pair("A", "x"), pair("B", "/data/y")]);
    assert_eq!(near.cwd, Some("${PLUGIN_ROOT}".to_string()));
    assert_eq!(near.resolved_cwd, "/plugin");
    let AgentPluginMcpServer::Sse(old) = &loaded[2].1 else {
        panic!("other transport");
    };
    assert_eq!(old.url, "http://localhost:8080/sse");
    assert!(old.headers.is_empty());
}
