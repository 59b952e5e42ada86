use incurs::agents::{
    all_agents, detect, diff_paths, discover_skills, do_names_fit, extract_skill_name, find_homes,
    install_result, plan_install, plan_remove, sanitize_name, try_sanitize_name, Agent,
    DiscoveredSkill, FoundDirectory, Homes, InstallMode, InstallOptions, LinkOutcome,
    RemoveOptions,
};

fn homes() -> Homes {
    find_homes(&Some("/home/alice".to_string()), &None, &None, &None)
}

fn named(name: &str) -> Agent {
    all_agents(&homes())
        .into_iter()
        .find(|a| a.name == name)
        .unwrap()
}

fn skill(name: &str) -> DiscoveredSkill {
    DiscoveredSkill {
        name: name.to_string(),
        dir: format!("/src/{}", name),
        root: false,
    }
}

#[test]
fn test_all_agents_count() {
    let agents = all_agents(&homes());
    assert_eq!(agents.len(), 21, "Expected 21 agent definitions");
}

#[test]
fn test_universal_agents() {
    let agents = all_agents(&homes());
    let universal: Vec<&str> = agents
        .iter()
        .filter(|a| a.universal)
        .map(|a| a.name.as_str())
        .collect();
    assert_eq!(
        universal,
        vec!["Amp", "Cline", "Codex", "Cursor", "Gemini CLI", "GitHub Copilot", "Kimi CLI", "OpenCode"]
    );
}

#[test]
fn test_non_universal_project_dirs() {
    let agents = all_agents(&homes());
    for agent in &agents {
        if !agent.universal {
            assert_ne!(
                agent.project_skills_dir, ".agents/skills",
                "Non-universal agent {} should have a unique project skills dir",
                agent.name
            );
        }
    }
}

#[test]
fn test_sanitize_name() {
    assert_eq!(sanitize_name("my/skill"), "my-skill");
    assert_eq!(sanitize_name("my\\skill"), "my-skill");
    assert_eq!(sanitize_name("my..skill"), "myskill");
    assert_eq!(sanitize_name("  trimmed  "), "trimmed");
}

#[test]
fn test_extract_skill_name() {
    let content = "---\nname: my-skill\ndescription: A skill\n---\n";
    assert_eq!(extract_skill_name(content), Some("my-skill".to_string()));
}

#[test]
fn test_extract_skill_name_missing() {
    let content = "---\ndescription: No name here\n---\n";
    assert_eq!(extract_skill_name(content), None);
}

#[test]
fn test_discover_skills_empty_dir() {
    let skills = discover_skills("/tmp/incurs-test-discover-empty", &None, &vec![]);
    assert!(skills.is_empty());
}

#[test]
fn test_pathdiff() {
    assert_eq!(diff_paths("/a/b/c/d", "/a/b/x/y"), Some("../../c/d".to_string()));
}

#[test]
fn ways_are_as_short_as_can_be() {
    assert_eq!(diff_paths("/a/b", "/a/b"), Some("".to_string()));
    assert_eq!(diff_paths("/a", "/a/b/c"), Some("../..".to_string()));
    assert_eq!(diff_paths("/a/b/c", "/a"), Some("b/c".to_string()));
}

#[test]
fn ways_between_relative_and_absolute_paths_share_nothing() {
    assert_eq!(diff_paths("a/b", "/a/b"), Some("../../../a/b".to_string()));
    assert_eq!(diff_paths("/a/b", "a"), Some("/a/b".to_string()));
    assert_eq!(diff_paths("/a/b", "/a"), Some("b".to_string()));
}

#[test]
fn directories_come_from_the_environment_or_the_home() {
    let own = homes();
    assert_eq!(own.config, "/home/alice/.config");
    assert_eq!(own.codex, "/home/alice/.codex");
    let set = find_homes(
        &Some("/home/alice".to_string()),
        &Some("/cfg".to_string()),
        &None,
        &Some(" /cdx ".to_string()),
    );
    assert_eq!(set.config, "/cfg");
    assert_eq!(set.codex, "/cdx");
}

#[test]
fn agents_are_found_by_the_paths_that_exist() {
    let found = detect(&homes(), &vec!["/home/alice/.cursor".to_string()]);
    assert_eq!(found.len(), 1);
    assert_eq!(found[0].name, "Cursor");
    assert!(found[0].detect(&vec!["/home/alice/.cursor".to_string()]));
    assert!(!found[0].detect(&vec![]));
}

#[test]
fn every_own_agent_has_a_hidden_directory_in_projects() {
    for agent in all_agents(&homes()) {
        assert!(agent.project_skills_dir.starts_with('.'));
        assert!(agent.project_skills_dir.ends_with("/skills"));
    }
    assert_eq!(named("Roo").project_skills_dir, ".roo/skills");
    assert_eq!(named("Qwen Code").project_skills_dir, ".qwen/skills");
}

#[test]
fn names_are_cut_between_characters_only() {
    let long = "a".repeat(300);
    assert_eq!(try_sanitize_name(&long).unwrap().len(), 255);
    let split = format!("{}\u{e9}", "a".repeat(254));
    assert_eq!(try_sanitize_name(&split), None);
}

#[test]
fn skills_are_found_in_directories_below() {
    let child = FoundDirectory {
        name: Some("deploy".to_string()),
        path: "/src/deploy".to_string(),
        skill: Some("---\nname: deploy-app\n---\n".to_string()),
        children: vec![],
    };
    let empty = FoundDirectory {
        name: Some("docs".to_string()),
        path: "/src/docs".to_string(),
        skill: None,
        children: vec![],
    };
    let dirs = vec![child, empty];
    assert!(do_names_fit(&dirs));
    let found = discover_skills("/src", &None, &dirs);
    assert_eq!(found.len(), 1);
    assert_eq!(found[0].name, "deploy-app");
    assert_eq!(found[0].dir, "/src/deploy");
    assert!(!found[0].root);
}

#[test]
fn installs_link_every_own_agent_and_no_universal_one() {
    let agents = vec![named("Cursor"), named("Roo")];
    let plan = plan_install(
        &vec![skill("deploy")],
        &InstallOptions::default(),
        "/home/alice",
        "/work",
        &agents,
    );
    assert_eq!(plan.len(), 1);
    assert_eq!(plan[0].canonical, "/home/alice/.agents/skills/deploy");
    assert_eq!(plan[0].links.len(), 1);
    assert_eq!(plan[0].links[0].agent, "Roo");
    assert_eq!(plan[0].links[0].dir, "/home/alice/.roo/skills/deploy");
    let result = install_result(&plan, &vec![vec![LinkOutcome::Copied]]);
    assert_eq!(result.paths, vec!["/home/alice/.agents/skills/deploy"]);
    assert_eq!(result.agents[0].mode, InstallMode::Copy);
    let failed = install_result(&plan, &vec![vec![LinkOutcome::Failed]]);
    assert!(failed.agents.is_empty());
}

#[test]
fn project_installs_stand_in_the_project() {
    let options = InstallOptions {
        agents: Some(vec![named("Roo")]),
        cwd: Some("/proj".to_string()),
        global: Some(false),
    };
    let plan = plan_install(&vec![skill("x")], &options, "/home/alice", "/work", &vec![]);
    assert_eq!(plan[0].canonical, "/proj/.agents/skills/x");
    assert_eq!(plan[0].links[0].dir, "/proj/.roo/skills/x");
}

#[test]
fn removals_name_the_canonical_path_and_the_links() {
    let paths = plan_remove(
        "deploy",
        &RemoveOptions::default(),
        "/home/alice",
        "/work",
        &vec![named("Roo")],
    );
    assert_eq!(paths[0], "/home/alice/.agents/skills/deploy");
    assert!(paths.contains(&"/home/alice/.roo/skills/deploy".to_string()));
}
