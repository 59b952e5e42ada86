use incurs::agent_plugin::error::AgentPluginPublisherError;
use incurs::agent_plugin::names::{
    is_extension_namespace, is_header_name, is_header_value, is_loopback_host, is_mcp_command,
    is_plugin_name, is_safe_relative_path, is_skill_name, url_host,
};
use incurs::agent_plugin::paths::{is_one_path, is_within, normalize_absolute, path_components};
use incurs::agent_plugin::publish::{
    canonicalize, check_options, check_output, check_runtime_file, mcp_json, owned_artifacts,
    plan_package, plugin_manifest, tool_runtime_file_name, validate_tool_runtime,
    AgentPluginAuthor, AgentPluginManifestMetadata, AgentPluginPublicationPolicy,
    AgentPluginPublisherOptions, AgentPluginSkillOptions, AgentPluginToolBindingOptions,
    AgentPluginToolRuntimeOptions, PlannedFile,
};
use incurs::agent_plugin::servers::{
    check_headers, check_server, check_url, AgentPluginMcpServer, AgentPluginMcpServerConfig,
    AgentPluginRemoteMcpServer, AgentPluginStdioMcpServer, ServerFault,
};
use incurs::agent_plugin::skills::{
    check_authored_skill, check_skill_entry, portable_skill_file, root_skill_name,
    validate_unique_skill_names, AuthoredSkill, SkillEntry, SkillFile,
};
use incurs::value::{Number, Value};

fn from_json(value: &serde_json::Value) -> Value {
    match value {
        serde_json::Value::Null => Value::Null,
        serde_json::Value::Bool(b) => Value::Bool(*b),
        serde_json::Value::Number(n) => {
            if let Some(u) = n.as_u64() {
                Value::Number(Number::PosInt(u))
            } else if let Some(i) = n.as_i64() {
                Value::Number(Number::NegInt(i))
            } else {
                Value::Number(Number::Float { bits: n.as_f64().unwrap().to_bits() })
            }
        }
        serde_json::Value::String(s) => Value::String(s.clone()),
        serde_json::Value::Array(items) => Value::Array(items.iter().map(from_json).collect()),
        serde_json::Value::Object(map) => {
            Value::Object(map.iter().map(|(k, v)| (k.clone(), from_json(v))).collect())
        }
    }
}

fn to_json(value: &Value) -> serde_json::Value {
    match value {
        Value::Null => serde_json::Value::Null,
        Value::Bool(b) => serde_json::Value::from(*b),
        Value::Number(Number::PosInt(u)) => serde_json::Value::from(*u),
        Value::Number(Number::NegInt(i)) => serde_json::Value::from(*i),
        Value::Number(Number::Float { bits }) => serde_json::Value::from(f64::from_bits(*bits)),
        Value::String(s) => serde_json::Value::from(s.as_str()),
        Value::Array(items) => serde_json::Value::Array(items.iter().map(to_json).collect()),
        Value::Object(entries) => serde_json::Value::Object(
            entries.iter().map(|(k, v)| (k.clone(), to_json(v))).collect(),
        ),
    }
}

fn json(text: &str) -> serde_json::Value {
    serde_json::from_str(text).unwrap()
}

fn value(text: &str) -> Value {
    from_json(&json(text))
}

fn pairs(list: &[(&str, &str)]) -> Vec<(String, String)> {
    list.iter()
        .map(|(k, v)| (k.to_string(), v.to_string()))
        .collect()
}

fn options(
    name: &str,
    cli_name: &str,
    depth: usize,
    mcp_server: Option<AgentPluginMcpServer>,
    overwrite: bool,
) -> AgentPluginPublisherOptions {
    AgentPluginPublisherOptions {
        manifest: AgentPluginManifestMetadata {
            name: name.to_string(),
            version: Some("1.2.3".to_string()),
            description: Some("Demo tools for repeatable work.".to_string()),
            author: None,
            homepage: None,
            repository: None,
            license: None,
            keywords: vec![],
            extensions: vec![],
        },
        skills: AgentPluginSkillOptions {
            cli_name: cli_name.to_string(),
            depth,
            additional_skills: vec![],
        },
        tools: AgentPluginToolBindingOptions {
            mcp_server,
            mcp_servers: vec![],
        },
        tool_runtime: None,
        policy: AgentPluginPublicationPolicy { overwrite },
    }
}

fn runtime() -> AgentPluginToolRuntimeOptions {
    AgentPluginToolRuntimeOptions {
        source: "/build/demo".to_string(),
        shell_command: "demo".to_string(),
        target_os: "linux".to_string(),
        target_arch: "x86_64".to_string(),
    }
}

fn pretty(value: &Value) -> String {
    let mut text = serde_json::to_string_pretty(&to_json(value)).unwrap();
    text.push('\n');
    text
}

#[test]
fn publish_rejects_invalid_remote_mcp_security_boundary() {
    let mut options = options("demo-tools", "demo-tools", 0, None, false);
    options.tools.mcp_servers.push((
        "remote".to_string(),
        AgentPluginMcpServerConfig::StreamableHttp(AgentPluginRemoteMcpServer {
            url: "http://api.example.com/mcp#frag".to_string(),
            headers: pairs(&[("X-Tenant", "public"), ("x-tenant", "other")]),
        }),
    ));

    assert!(matches!(
        check_options(&options),
        Err(AgentPluginPublisherError::InvalidMcpServer { .. })
    ));
}

#[test]
fn publish_rejects_reserved_stdio_env_and_escaping_cwd() {
    let mut options = options("demo-tools", "demo-tools", 0, None, false);
    options.tools.mcp_servers.push((
        "local".to_string(),
        AgentPluginMcpServerConfig::Stdio(AgentPluginStdioMcpServer {
            command: "./bin/demo".to_string(),
            args: vec![],
            env: pairs(&[("PLUGIN_ROOT", "/tmp")]),
            cwd: Some("${PLUGIN_DATA}/../escape".to_string()),
        }),
    ));

    assert!(matches!(
        check_options(&options),
        Err(AgentPluginPublisherError::InvalidMcpServer { .. })
    ));
}

#[test]
fn publish_rejects_invalid_plugin_name_before_writing() {
    let options = options("../bad", "bad", 0, None, false);

    assert!(matches!(
        check_options(&options),
        Err(AgentPluginPublisherError::InvalidPluginName { .. })
    ));
}

#[test]
fn publish_rejects_invalid_skill_name_before_writing() {
    let options = options("demo.tools", "demo-tools", 1, None, false);
    assert!(check_options(&options).is_ok());

    let file = SkillFile {
        dir: "bad--group".to_string(),
        content: "---\nname: bad--group\ndescription: Run bad--group run\n---\n".to_string(),
    };
    assert!(matches!(
        portable_skill_file(&options.skills.cli_name, &options.manifest.name, &file),
        Err(AgentPluginPublisherError::InvalidSkillName { .. })
    ));
}

#[test]
fn publish_rejects_invalid_mcp_command_before_writing() {
    let options = options(
        "demo-tools",
        "demo-tools",
        0,
        Some(AgentPluginMcpServer {
            command: "../demo".to_string(),
            args: vec!["--mcp".to_string()],
        }),
        false,
    );

    assert!(matches!(
        check_options(&options),
        Err(AgentPluginPublisherError::InvalidMcpCommand { .. })
    ));
}

// What is written

#[test]
fn packages_hold_manifest_skills_and_servers() {
    let options = options(
        "demo-tools",
        "demo-tools",
        1,
        Some(AgentPluginMcpServer {
            command: "demo-tools".to_string(),
            args: vec!["--mcp".to_string()],
        }),
        false,
    );
    let servers = check_options(&options).unwrap();
    let generated = vec![SkillFile { dir: "project".to_string(), content: "text".to_string() }];
    let plan = plan_package(&options, &servers, &generated, &vec![]);
    let paths: Vec<&str> = plan
        .iter()
        .map(|file| match file {
            PlannedFile::Json { path, .. }
            | PlannedFile::Text { path, .. }
            | PlannedFile::Copy { path, .. } => path.as_str(),
        })
        .collect();
    assert_eq!(paths, vec!["plugin.json", "skills/project/SKILL.md", "mcp.json"]);
    assert_eq!(
        pretty(&plugin_manifest(&options)),
        "{\n  \"$schema\": \"https://agent-plugins.org/schemas/1.0.0/plugin.schema.json\",\n  \"description\": \"Demo tools for repeatable work.\",\n  \"name\": \"demo-tools\",\n  \"version\": \"1.2.3\"\n}\n"
    );
    assert_eq!(
        pretty(&mcp_json(&servers)),
        "{\n  \"$schema\": \"https://agent-plugins.org/schemas/1.0.0/mcp.schema.json\",\n  \"mcpServers\": {\n    \"demo-tools\": {\n      \"args\": [\n        \"--mcp\"\n      ],\n      \"command\": \"demo-tools\",\n      \"type\": \"stdio\"\n    }\n  }\n}\n"
    );
}

#[test]
fn manifests_hold_all_metadata_and_every_transport() {
    let mut options = options("demo-tools", "demo-tools", 0, None, false);
    options.manifest.author = Some(AgentPluginAuthor {
        name: Some("Demo Org".to_string()),
        email: Some("dev@example.com".to_string()),
        url: Some("https://example.com".to_string()),
    });
    options.manifest.homepage = Some("https://example.com/demo".to_string());
    options.manifest.repository = Some("https://github.com/example/demo".to_string());
    options.manifest.license = Some("MIT".to_string());
    options.manifest.keywords = vec!["demo".to_string(), "tools".to_string()];
    options
        .manifest
        .extensions
        .push(("com.example.client".to_string(), value(r#"{ "enabled": true }"#)));
    options.tools.mcp_servers = vec![
        (
            "legacy".to_string(),
            AgentPluginMcpServerConfig::Sse(AgentPluginRemoteMcpServer {
                url: "http://localhost:8080/sse".to_string(),
                headers: vec![],
            }),
        ),
        (
            "local".to_string(),
            AgentPluginMcpServerConfig::Stdio(AgentPluginStdioMcpServer {
                command: "./bin/demo".to_string(),
                args: vec!["--mcp".to_string(), "${PLUGIN_ROOT}/config.json".to_string()],
                env: pairs(&[("DATA_DIR", "${PLUGIN_DATA}/demo")]),
                cwd: Some("${PLUGIN_ROOT}".to_string()),
            }),
        ),
        (
            "remote".to_string(),
            AgentPluginMcpServerConfig::StreamableHttp(AgentPluginRemoteMcpServer {
                url: "https://api.example.com/mcp".to_string(),
                headers: pairs(&[("X-Tenant", "public")]),
            }),
        ),
    ];
    let servers = check_options(&options).unwrap();
    assert_eq!(
        pretty(&plugin_manifest(&options)),
        "{\n  \"$schema\": \"https://agent-plugins.org/schemas/1.0.0/plugin.schema.json\",\n  \"author\": {\n    \"email\": \"dev@example.com\",\n    \"name\": \"Demo Org\",\n    \"url\": \"https://example.com\"\n  },\n  \"description\": \"Demo tools for repeatable work.\",\n  \"extensions\": {\n    \"com.example.client\": {\n      \"enabled\": true\n    }\n  },\n  \"homepage\": \"https://example.com/demo\",\n  \"keywords\": [\n    \"demo\",\n    \"tools\"\n  ],\n  \"license\": \"MIT\",\n  \"name\": \"demo-tools\",\n  \"repository\": \"https://github.com/example/demo\",\n  \"version\": \"1.2.3\"\n}\n"
    );
    assert_eq!(
        pretty(&mcp_json(&servers)),
        "{\n  \"$schema\": \"https://agent-plugins.org/schemas/1.0.0/mcp.schema.json\",\n  \"mcpServers\": {\n    \"legacy\": {\n      \"type\": \"sse\",\n      \"url\": \"http://localhost:8080/sse\"\n    },\n    \"local\": {\n      \"args\": [\n        \"--mcp\",\n        \"${PLUGIN_ROOT}/config.json\"\n      ],\n      \"command\": \"./bin/demo\",\n      \"cwd\": \"${PLUGIN_ROOT}\",\n      \"env\": {\n        \"DATA_DIR\": \"${PLUGIN_DATA}/demo\"\n      },\n      \"type\": \"stdio\"\n    },\n    \"remote\": {\n      \"headers\": {\n        \"X-Tenant\": \"public\"\n      },\n      \"type\": \"streamable-http\",\n      \"url\": \"https://api.example.com/mcp\"\n    }\n  }\n}\n"
    );
}

#[test]
fn absent_metadata_is_left_out() {
    let mut options = options("demo-tools", "demo-tools", 0, None, false);
    options.manifest.version = None;
    options.manifest.description = None;
    assert_eq!(
        pretty(&plugin_manifest(&options)),
        "{\n  \"$schema\": \"https://agent-plugins.org/schemas/1.0.0/plugin.schema.json\",\n  \"name\": \"demo-tools\"\n}\n"
    );
}

#[test]
fn canonical_values_have_their_keys_in_order() {
    let loose = Value::Object(vec![
        ("b".to_string(), Value::Null),
        (
            "a".to_string(),
            Value::Object(vec![
                ("d".to_string(), Value::Null),
                ("c".to_string(), Value::Null),
            ]),
        ),
    ]);
    let once = canonicalize(&loose);
    assert_eq!(
        once,
        Value::Object(vec![
            (
                "a".to_string(),
                Value::Object(vec![
                    ("c".to_string(), Value::Null),
                    ("d".to_string(), Value::Null),
                ]),
            ),
            ("b".to_string(), Value::Null),
        ])
    );
    assert_eq!(canonicalize(&once), once);
}

#[test]
fn existing_artifacts_stop_a_publication_without_overwrite() {
    let paths = owned_artifacts();
    assert!(paths.contains(&"plugin.json".to_string()));
    let mut exists = vec![false; paths.len()];
    assert!(check_output(false, &exists, &paths).is_ok());
    exists[0] = true;
    assert!(matches!(
        check_output(false, &exists, &paths),
        Err(AgentPluginPublisherError::OutputExists { .. })
    ));
    assert!(check_output(true, &exists, &paths).is_ok());
}

#[test]
fn tool_runtimes_are_executable_files() {
    let mut runtime = runtime();
    let manifest = options("demo-tools", "demo-tools", 0, None, false).manifest;
    assert!(validate_tool_runtime(&runtime, &manifest).is_ok());
    assert!(check_runtime_file(&runtime, false, true, true).is_ok());
    assert!(matches!(
        check_runtime_file(&runtime, false, true, false),
        Err(AgentPluginPublisherError::InvalidToolRuntime { .. })
    ));
    assert!(check_runtime_file(&runtime, true, true, true).is_err());
    assert_eq!(tool_runtime_file_name(&runtime), "demo");
    runtime.target_os = "windows".to_string();
    assert_eq!(tool_runtime_file_name(&runtime), "demo.exe");
    let mut with = options("demo-tools", "demo-tools", 0, None, false);
    with.tool_runtime = Some(runtime);
    let manifest = to_json(&plugin_manifest(&with));
    assert_eq!(
        manifest["extensions"]["io.github.douglance.incurs"]["toolRuntime"]["path"],
        "./bin/demo.exe"
    );
}

// Skills

#[test]
fn names_of_plugins_give_names_of_skills() {
    assert_eq!(root_skill_name("a.-b"), "a-b");
    assert_eq!(root_skill_name("a.b.c"), "a-b-c");
    assert_eq!(root_skill_name("plain-name2"), "plain-name2");
}

#[test]
fn skill_files_become_portable() {
    assert_eq!(root_skill_name("demo.tools"), "demo-tools");
    let file = SkillFile {
        dir: "project".to_string(),
        content: "---\nname: demo-tools-project\ndescription: Say \"hello\"\ncommand: demo-tools project\n---\n\n# Body\n".to_string(),
    };
    let made = portable_skill_file("demo-tools", "demo-tools", &file).unwrap();
    assert_eq!(made.dir, "project");
    assert!(made.content.starts_with("---\nname: project\ndescription: \"Say \\\"hello\\\""));
    assert!(made.content.contains("  incurs.requires_bin: \"demo-tools\"\n"));
    assert!(made.content.contains("# Body\n"));
}

#[test]
fn skill_descriptions_are_measured_in_characters() {
    let file = |n: usize| SkillFile {
        dir: "say".to_string(),
        content: format!("---\nname: say\ndescription: {}\n---\n", "\u{e9}".repeat(n)),
    };
    assert!(portable_skill_file("demo", "demo", &file(900)).is_ok());
    assert!(matches!(
        portable_skill_file("demo", "demo", &file(1025)),
        Err(AgentPluginPublisherError::InvalidSkillDescription { len: 1025, .. })
    ));
}

#[test]
fn authored_skills_are_named_like_their_directory() {
    let text = "---\nname: review\ndescription: Review\n---\n";
    assert_eq!(
        check_authored_skill("/s/review", Some("review"), text).unwrap(),
        "review"
    );
    assert!(matches!(
        check_authored_skill("/s/other", Some("other"), text),
        Err(AgentPluginPublisherError::InvalidSkillDirectory { .. })
    ));
    assert!(matches!(
        check_skill_entry("/s/x", false, true, true, false),
        Ok(SkillEntry::Directory)
    ));
    assert!(matches!(
        check_skill_entry("/s/x", false, true, false, true),
        Ok(SkillEntry::File)
    ));
    assert!(check_skill_entry("/s/x", true, true, false, true).is_err());
}

#[test]
fn skills_of_one_name_are_refused() {
    let generated = vec![SkillFile { dir: "a".to_string(), content: String::new() }];
    let authored = |name: &str| vec![AuthoredSkill { name: name.to_string(), files: vec![] }];
    assert!(validate_unique_skill_names(&generated, &authored("b")).is_ok());
    assert!(validate_unique_skill_names(&generated, &authored("a")).is_err());
}

// Servers

#[test]
fn remote_servers_are_checked() {
    assert!(check_url("https://example.com/mcp").is_none());
    assert!(check_url("http://localhost:80/mcp").is_none());
    assert!(check_url("http://example.com/mcp").is_some());
    assert!(check_url("https://user@example.com/").is_some());
    assert!(check_headers(&pairs(&[("X-A", "1"), ("x-b", "2")])).is_none());
    assert!(check_headers(&pairs(&[("X-A", "1"), ("x-a", "2")])).is_some());
    let stdio = |command: &str| {
        AgentPluginMcpServerConfig::Stdio(AgentPluginStdioMcpServer {
            command: command.to_string(),
            args: vec![],
            env: vec![],
            cwd: None,
        })
    };
    assert!(check_server(&stdio("demo")).is_none());
    assert!(matches!(check_server(&stdio("../demo")), Some(ServerFault::Command)));
}

// Names and paths

#[test]
fn names_follow_their_rules() {
    assert!(is_plugin_name("demo.tools-2"));
    assert!(!is_plugin_name("Demo"));
    assert!(!is_plugin_name(""));
    assert!(is_skill_name("deploy-app"));
    assert!(!is_skill_name("deploy.app"));
    assert!(!is_skill_name("-deploy"));
    assert!(!is_skill_name("a--b"));
    assert!(is_extension_namespace("com.example.client"));
    assert!(!is_extension_namespace("client"));
    assert!(is_mcp_command("demo"));
    assert!(is_mcp_command("./bin/demo"));
    assert!(!is_mcp_command("./../demo"));
    assert!(!is_mcp_command("/usr/bin/demo"));
    assert!(is_safe_relative_path("a/b"));
    assert!(!is_safe_relative_path("a/../b"));
    assert_eq!(url_host("example.com:80"), Some("example.com".to_string()));
    assert!(is_loopback_host("localhost"));
    assert!(!is_loopback_host("example.com"));
    assert!(is_header_name("X-Tenant"));
    assert!(!is_header_name("X Tenant"));
    assert!(is_header_value("public"));
    assert!(!is_header_value("a\nb"));
}

#[test]
fn absolute_paths_are_settled() {
    assert_eq!(normalize_absolute("/a/./b/../c"), "/a/c");
    assert_eq!(normalize_absolute("/.."), "/");
    assert!(is_within("/a/b", "/a"));
    assert!(is_within("/a", "/a"));
    assert!(!is_within("/ab", "/a"));
    assert!(is_one_path("/a/b/", "/a//b"));
    assert_eq!(path_components("/a/b").last(), Some(&"b".to_string()));
}

#[test]
fn every_refusal_says_what_it_is_about() {
    let all = [
        AgentPluginPublisherError::InvalidPluginName { name: "x1".to_string() },
        AgentPluginPublisherError::InvalidSkillName { name: "x1".to_string() },
        AgentPluginPublisherError::InvalidMcpCommand { command: "x1".to_string() },
        AgentPluginPublisherError::InvalidMcpServer {
            name: "x1".to_string(),
            reason: "r".to_string(),
        },
        AgentPluginPublisherError::InvalidExtensionNamespace { namespace: "x1".to_string() },
        AgentPluginPublisherError::InvalidSkillDescription { name: "x1".to_string(), len: 2000 },
        AgentPluginPublisherError::InvalidSkillDirectory {
            path: "x1".to_string(),
            reason: "r".to_string(),
        },
        AgentPluginPublisherError::InvalidToolRuntime {
            path: "x1".to_string(),
            reason: "r".to_string(),
        },
        AgentPluginPublisherError::OutputExists { path: "x1".to_string() },
    ];
    for refusal in &all {
        assert!(refusal.message().contains("x1"), "{}", refusal.message());
    }
}
