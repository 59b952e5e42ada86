use incurs::completions::{
    complete, ident, register, Candidate, CommandEntry, Shell,
};
use incurs::schema::{to_kebab, FieldMeta, FieldType};

fn make_field(name: &str, ft: FieldType) -> FieldMeta {
    FieldMeta {
        name: name.to_string(),
        cli_name: to_kebab(name),
        description: Some("A field".to_string()),
        field_type: ft,
        required: false,
        default: None,
        alias: None,
        deprecated: false,
        env_name: None,
    }
}

fn make_entry(desc: &str, is_group: bool) -> CommandEntry {
    CommandEntry {
        is_group,
        description: Some(desc.to_string()),
        commands: vec![],
        options_fields: vec![],
        aliases: vec![],
    }
}

#[test]
fn test_shell_parse() {
    assert_eq!(Shell::from_str("bash"), Some(Shell::Bash));
    assert_eq!(Shell::from_str("zsh"), Some(Shell::Zsh));
    assert_eq!(Shell::from_str("fish"), Some(Shell::Fish));
    assert_eq!(Shell::from_str("nushell"), Some(Shell::Nushell));
    assert_eq!(Shell::from_str("powershell"), None);
}

#[test]
fn test_ident() {
    assert_eq!(ident("my-cli"), "my_cli");
    assert_eq!(ident("my_cli"), "my_cli");
    assert_eq!(ident("cli.js"), "cli_js");
}

#[test]
fn test_register_bash() {
    let script = register(Shell::Bash, "mycli");
    assert!(script.contains("_incur_complete_mycli"));
    assert!(script.contains("complete -o default"));
}

#[test]
fn test_register_zsh() {
    let script = register(Shell::Zsh, "mycli");
    assert!(script.contains("#compdef mycli"));
    assert!(script.contains("compdef _incur_complete_mycli mycli"));
}

#[test]
fn test_register_fish() {
    let script = register(Shell::Fish, "mycli");
    assert!(script.contains("complete --keep-order"));
    assert!(script.contains("COMPLETE=fish mycli"));
}

#[test]
fn test_register_nushell() {
    let script = register(Shell::Nushell, "mycli");
    assert!(script.contains("COMPLETE=nushell mycli"));
}

#[test]
fn test_complete_subcommands() {
    let mut commands = vec![];
    commands.push(("deploy".to_string(), make_entry("Deploy things", false)));
    commands.push(("status".to_string(), make_entry("Show status", false)));
    commands.push(("debug".to_string(), make_entry("Debug mode", false)));

    let argv = vec!["mycli".to_string(), "de".to_string()];
    let candidates = complete(&commands, None, &argv, 1);
    assert_eq!(candidates.len(), 2); // both "deploy" and "debug" match "de"
    let values: Vec<&str> = candidates.iter().map(|c| c.value.as_str()).collect();
    assert!(values.contains(&"deploy"));
    assert!(values.contains(&"debug"));
}

#[test]
fn test_complete_options() {
    let mut commands = vec![];
    let mut entry = make_entry("Deploy", false);
    entry.options_fields = vec![
        make_field("output", FieldType::String),
        make_field("verbose", FieldType::Boolean),
    ];
    commands.push(("deploy".to_string(), entry));

    let argv = vec!["mycli".to_string(), "deploy".to_string(), "--".to_string()];
    let candidates = complete(&commands, None, &argv, 2);
    assert_eq!(candidates.len(), 2);
    let values: Vec<&str> = candidates.iter().map(|c| c.value.as_str()).collect();
    assert!(values.contains(&"--output"));
    assert!(values.contains(&"--verbose"));
}

#[test]
fn test_complete_enum_values() {
    let mut commands = vec![];
    let mut entry = make_entry("Format", false);
    entry.options_fields = vec![make_field(
        "format",
        FieldType::Enum(vec![
            "json".to_string(),
            "yaml".to_string(),
            "toon".to_string(),
        ]),
    )];
    commands.push(("output".to_string(), entry));

    let argv = vec![
        "mycli".to_string(),
        "output".to_string(),
        "--format".to_string(),
        "j".to_string(),
    ];
    let candidates = complete(&commands, None, &argv, 3);
    assert_eq!(candidates.len(), 1);
    assert_eq!(candidates[0].value, "json");
}

#[test]
fn test_format_bash() {
    let candidates = vec![
        Candidate {
            value: "deploy".to_string(),
            description: None,
            no_space: false,
        },
        Candidate {
            value: "status".to_string(),
            description: None,
            no_space: true,
        },
    ];
    let output = incurs::completions::format(Shell::Bash, &candidates);
    assert!(output.contains("deploy"));
    assert!(output.contains("status\x01"));
    assert!(output.contains('\x0B'));
}

#[test]
fn test_format_zsh() {
    let candidates = vec![Candidate {
        value: "deploy".to_string(),
        description: Some("Deploy things".to_string()),
        no_space: false,
    }];
    let output = incurs::completions::format(Shell::Zsh, &candidates);
    assert_eq!(output, "deploy:Deploy things");
}

#[test]
fn test_format_fish() {
    let candidates = vec![Candidate {
        value: "deploy".to_string(),
        description: Some("Deploy things".to_string()),
        no_space: false,
    }];
    let output = incurs::completions::format(Shell::Fish, &candidates);
    assert_eq!(output, "deploy\tDeploy things");
}

#[test]
fn test_format_nushell() {
    let candidates = vec![Candidate {
        value: "deploy".to_string(),
        description: Some("Deploy things".to_string()),
        no_space: false,
    }];
    let output = incurs::completions::format(Shell::Nushell, &candidates);
    let parsed: serde_json::Value = serde_json::from_str(&output).unwrap();
    assert!(parsed.is_array());
    assert_eq!(parsed[0]["value"], "deploy");
    assert_eq!(parsed[0]["description"], "Deploy things");
}

#[test]
fn test_group_no_space() {
    let mut sub_commands = vec![];
    sub_commands.push(("app".to_string(), make_entry("Deploy app", false)));

    let mut commands = vec![];
    let group = CommandEntry {
        is_group: true,
        description: Some("Deploy group".to_string()),
        commands: sub_commands,
        options_fields: vec![],
        aliases: vec![],
    };
    commands.push(("deploy".to_string(), group));

    let argv = vec!["mycli".to_string(), "".to_string()];
    let candidates = complete(&commands, None, &argv, 1);
    assert_eq!(candidates.len(), 1);
    assert!(candidates[0].no_space, "Groups should have no_space=true");
}

#[test]
fn colons_are_escaped_for_zsh() {
    let candidates = vec![Candidate {
        value: "a:b".to_string(),
        description: Some("c".to_string()),
        no_space: false,
    }];
    assert_eq!(incurs::completions::format(Shell::Zsh, &candidates), "a\\:b:c");
}

#[test]
fn records_leave_out_absent_descriptions() {
    let candidates = vec![Candidate {
        value: "x".to_string(),
        description: None,
        no_space: false,
    }];
    assert_eq!(incurs::completions::format(Shell::Nushell, &candidates), r#"[{"value":"x"}]"#);
}

#[test]
fn nushell_records_are_written_as_json_text() {
    let candidates = vec![Candidate {
        value: "say \"hi\"".to_string(),
        description: Some("line\nbreak".to_string()),
        no_space: false,
    }];
    let parsed: serde_json::Value =
        serde_json::from_str(&incurs::completions::format(Shell::Nushell, &candidates)).unwrap();
    assert_eq!(parsed[0]["value"], "say \"hi\"");
    assert_eq!(parsed[0]["description"], "line\nbreak");
    assert_eq!(
        incurs::completions::format(Shell::Nushell, &candidates),
        r#"[{"value":"say \"hi\"","description":"line\nbreak"}]"#
    );
    assert_eq!(incurs::completions::format(Shell::Nushell, &vec![]), "[]");
}
