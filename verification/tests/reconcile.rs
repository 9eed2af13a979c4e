use ccagents::{
    clean_registry, disable_agent, doctor_fix, doctor_report, enable_agent, import_files,
    sync_registry, Agent, AgentError, AgentSource, AgentsConfig, FsAction, FsModel, FsNode,
    IssueType,
};

#[test]
fn test_link_is_idempotent_second_source_wins() {
    let mut fsm = FsModel::new();
    fsm.set_node("/p/a.md", FsNode::File(vec![1]));
    fsm.set_node("/p/b.md", FsNode::File(vec![2]));

    fsm.link("/p/a.md", "/p/.cc/agents/x");
    fsm.link("/p/b.md", "/p/.cc/agents/x");

    match fsm.get_node("/p/.cc/agents/x") {
        Some(FsNode::Symlink(t)) => assert_eq!(t, "/p/b.md"),
        _ => panic!("Expected a symlink to the second source"),
    }
    assert!(fsm.is_valid_link("/p/.cc/agents/x"));
}

#[test]
fn test_is_valid_link_truth_table() {
    let mut fsm = FsModel::new();
    fsm.set_node("/p/real.md", FsNode::File(vec![7]));
    fsm.link("/p/real.md", "/p/valid");
    fsm.link("/p/missing.md", "/p/dangling");

    assert!(!fsm.is_valid_link("/p/nonexistent"));
    assert!(!fsm.is_valid_link("/p/real.md"));
    assert!(!fsm.is_valid_link("/p/dangling"));
    assert!(fsm.is_valid_link("/p/valid"));
}

#[test]
fn test_unlink_only_removes_symlinks() {
    let mut fsm = FsModel::new();
    fsm.set_node("/p/file.md", FsNode::File(vec![1]));
    fsm.link("/p/file.md", "/p/link");

    assert!(fsm.unlink("/p/absent").is_ok());
    assert!(fsm.unlink("/p/link").is_ok());
    assert!(fsm.get_node("/p/link").is_none());

    let err = fsm.unlink("/p/file.md").unwrap_err();
    assert!(matches!(err, AgentError::NotASymlink(_)));
    assert!(fsm.get_node("/p/file.md").is_some());
}

#[test]
fn test_enable_creates_link() {
    let mut config = AgentsConfig::default();
    let mut agent = Agent::new("x".to_string(), AgentSource::Local("src/x.md".to_string()));
    agent.enabled = false;
    config.agents.push(agent);

    let mut fsm = FsModel::new();
    fsm.set_node("/p/src/x.md", FsNode::File(vec![3]));

    let actions = enable_agent(&mut config, &fsm, "x", "/p").unwrap();
    assert!(config.agents[0].enabled);
    assert_eq!(actions.len(), 1);

    fsm.apply_all(&actions);
    assert!(fsm.is_valid_link("/p/.cc/agents/x"));
    match fsm.get_node("/p/.cc/agents/x") {
        Some(FsNode::Symlink(t)) => assert_eq!(t, "/p/src/x.md"),
        _ => panic!("Expected a symlink"),
    }

    // Enabling again is a no-op.
    let again = enable_agent(&mut config, &fsm, "x", "/p").unwrap();
    assert!(again.is_empty());
    assert!(config.agents[0].enabled);
}

#[test]
fn test_enable_fails_when_source_missing() {
    let mut config = AgentsConfig::default();
    let mut agent = Agent::new("x".to_string(), AgentSource::Local("src/x.md".to_string()));
    agent.enabled = false;
    config.agents.push(agent);

    let fsm = FsModel::new();
    let err = enable_agent(&mut config, &fsm, "x", "/p").unwrap_err();
    assert!(matches!(err, AgentError::PathNotFound(_)));
    assert!(!config.agents[0].enabled);
}

#[test]
fn test_enable_unknown_agent() {
    let mut config = AgentsConfig::default();
    let fsm = FsModel::new();
    let err = enable_agent(&mut config, &fsm, "ghost", "/p").unwrap_err();
    assert!(matches!(err, AgentError::NotFound(_)));
    assert!(err.message().contains("not found"));
}

#[test]
fn test_disable_removes_link() {
    let mut config = AgentsConfig::default();
    config.agents.push(Agent::new(
        "x".to_string(),
        AgentSource::Local("src/x.md".to_string()),
    ));

    let mut fsm = FsModel::new();
    fsm.set_node("/p/src/x.md", FsNode::File(vec![3]));
    fsm.link("/p/src/x.md", "/p/.cc/agents/x");

    let actions = disable_agent(&mut config, &fsm, "x", "/p").unwrap();
    assert!(!config.agents[0].enabled);
    fsm.apply_all(&actions);
    assert!(fsm.get_node("/p/.cc/agents/x").is_none());
}

#[test]
fn test_disable_rejects_regular_file_at_link_path() {
    let mut config = AgentsConfig::default();
    config.agents.push(Agent::new(
        "x".to_string(),
        AgentSource::Local("src/x.md".to_string()),
    ));

    let mut fsm = FsModel::new();
    fsm.set_node("/p/.cc/agents/x", FsNode::File(vec![9]));

    let err = disable_agent(&mut config, &fsm, "x", "/p").unwrap_err();
    assert!(matches!(err, AgentError::NotASymlink(_)));
    assert!(config.agents[0].enabled);
}

#[test]
fn test_clean_removes_exactly_orphans() {
    let mut config = AgentsConfig::default();
    config.agents.push(Agent::new(
        "kept".to_string(),
        AgentSource::Local("src/kept.md".to_string()),
    ));
    config.agents.push(Agent::new(
        "orphan".to_string(),
        AgentSource::Local("src/orphan.md".to_string()),
    ));

    let mut fsm = FsModel::new();
    fsm.set_node("/p/src/kept.md", FsNode::File(vec![1]));
    fsm.link("/p/src/orphan.md", "/p/.cc/agents/orphan");

    let (removed, actions) = clean_registry(&mut config, &fsm, "/p");
    assert_eq!(removed, vec!["orphan".to_string()]);
    assert_eq!(config.agents.len(), 1);
    assert_eq!(config.agents[0].name, "kept");

    fsm.apply_all(&actions);
    assert!(fsm.get_node("/p/.cc/agents/orphan").is_none());
}

#[test]
fn test_orphaned_agent_handling() {
    let mut config = AgentsConfig::default();
    let agent = Agent::new(
        "orphaned.md".to_string(),
        AgentSource::Local(".ccagents/orphaned.md".to_string()),
    );
    config.add_agent(agent.clone()).unwrap();
    assert_eq!(config.agents.len(), 1);

    let fsm = FsModel::new();
    assert!(!fsm.path_exists(&agent.get_local_path("/p")));

    let (removed, _) = clean_registry(&mut config, &fsm, "/p");
    assert_eq!(removed.len(), 1);
    assert_eq!(config.agents.len(), 0);
}

#[test]
fn test_doctor_missing_source_fix() {
    let mut config = AgentsConfig::default();
    config.agents.push(Agent::new(
        "a".to_string(),
        AgentSource::Local("rel/a.md".to_string()),
    ));

    let fsm = FsModel::new();

    let issues = doctor_report(&config, &fsm, "/p");
    assert_eq!(issues.len(), 1);
    assert_eq!(issues[0].agent_name, "a");
    assert_eq!(issues[0].issue_type, IssueType::MissingSource);

    let (reported, _actions) = doctor_fix(&mut config, &fsm, "/p");
    assert_eq!(reported.len(), 1);
    assert_eq!(config.agents.len(), 0);
}

#[test]
fn test_doctor_duplicate_collapses_to_first() {
    // Duplicates cannot come from add_agent, but a hand-edited document
    // can carry them.
    let document = "{\"agents\":[\
        {\"name\":\"x\",\"source\":{\"type\":\"Local\",\"value\":\"one.md\"},\"enabled\":true},\
        {\"name\":\"x\",\"source\":{\"type\":\"Local\",\"value\":\"two.md\"},\"enabled\":true}\
        ]}";
    let mut config = AgentsConfig::from_json(document).unwrap();
    assert_eq!(config.agents.len(), 2);

    let mut fsm = FsModel::new();
    fsm.set_node("/p/one.md", FsNode::File(vec![1]));
    fsm.set_node("/p/two.md", FsNode::File(vec![2]));
    fsm.link("/p/one.md", "/p/.cc/agents/x");

    let issues = doctor_report(&config, &fsm, "/p");
    assert!(issues
        .iter()
        .any(|i| i.issue_type == IssueType::DuplicateAgent && i.agent_name == "x"));

    doctor_fix(&mut config, &fsm, "/p");
    assert_eq!(config.agents.len(), 1);
    if let AgentSource::Local(p) = &config.agents[0].source {
        assert_eq!(p, "one.md");
    } else {
        panic!("Expected Local source");
    }
}

#[test]
fn test_doctor_detects_broken_and_missing_links() {
    let mut config = AgentsConfig::default();
    config.agents.push(Agent::new(
        "unlinked".to_string(),
        AgentSource::Local("src/unlinked.md".to_string()),
    ));
    config.agents.push(Agent::new(
        "broken".to_string(),
        AgentSource::Local("src/broken.md".to_string()),
    ));

    let mut fsm = FsModel::new();
    fsm.set_node("/p/src/unlinked.md", FsNode::File(vec![1]));
    fsm.set_node("/p/src/broken.md", FsNode::File(vec![2]));
    fsm.link("/p/gone.md", "/p/.cc/agents/broken");

    let issues = doctor_report(&config, &fsm, "/p");
    assert_eq!(issues.len(), 2);
    assert_eq!(issues[0].agent_name, "unlinked");
    assert_eq!(issues[0].issue_type, IssueType::MissingSymlink);
    assert_eq!(issues[1].agent_name, "broken");
    assert_eq!(issues[1].issue_type, IssueType::BrokenSymlink);

    let mut fixed = AgentsConfig::default();
    fixed.agents = config.agents.clone();
    let (_, actions) = doctor_fix(&mut fixed, &fsm, "/p");
    let mut fsm2 = fsm;
    fsm2.apply_all(&actions);
    assert!(fsm2.is_valid_link("/p/.cc/agents/unlinked"));
    assert!(fsm2.is_valid_link("/p/.cc/agents/broken"));
}

#[test]
fn test_doctor_orphaned_link_and_unmanaged_file() {
    let config = AgentsConfig::default();

    let mut fsm = FsModel::new();
    fsm.set_node("/p/elsewhere.md", FsNode::File(vec![1]));
    fsm.link("/p/elsewhere.md", "/p/.cc/agents/orphan");
    fsm.set_node("/p/.cc/agents/loose.md", FsNode::File(vec![2]));

    let issues = doctor_report(&config, &fsm, "/p");
    assert_eq!(issues.len(), 2);
    assert_eq!(issues[0].issue_type, IssueType::OrphanedSymlink);
    assert!(issues[0].fixable);
    assert_eq!(issues[1].issue_type, IssueType::UnmanagedFile);
    assert!(!issues[1].fixable);

    let mut config2 = AgentsConfig::default();
    let (_, actions) = doctor_fix(&mut config2, &fsm, "/p");
    let mut fsm2 = fsm;
    fsm2.apply_all(&actions);
    // The orphaned link goes; the unmanaged file stays for `import`.
    assert!(fsm2.get_node("/p/.cc/agents/orphan").is_none());
    assert!(fsm2.get_node("/p/.cc/agents/loose.md").is_some());
}

#[test]
fn test_sync_links_enabled_agents() {
    let mut config = AgentsConfig::default();
    config.agents.push(Agent::new(
        "a.md".to_string(),
        AgentSource::Local("src/a.md".to_string()),
    ));
    let mut off = Agent::new("off.md".to_string(), AgentSource::Local("src/off.md".to_string()));
    off.enabled = false;
    config.agents.push(off);
    config.agents.push(Agent::new(
        "gone.md".to_string(),
        AgentSource::Local("src/gone.md".to_string()),
    ));

    let mut fsm = FsModel::new();
    fsm.set_node("/p/src/a.md", FsNode::File(vec![1]));
    fsm.set_node("/p/src/off.md", FsNode::File(vec![2]));
    // A stale link and an unmanaged file sit in the link directory.
    fsm.link("/p/old.md", "/p/.cc/agents/stale");
    fsm.set_node("/p/.cc/agents/loose.md", FsNode::File(vec![9]));

    let outcome = sync_registry(&mut config, &fsm, "/p", false).unwrap();
    assert_eq!(outcome.linked, vec!["a.md".to_string()]);
    assert_eq!(outcome.skipped, vec!["gone.md".to_string()]);
    assert_eq!(outcome.disabled_names, vec!["off.md".to_string()]);
    assert_eq!(outcome.unmanaged, vec!["loose.md".to_string()]);
    assert!(outcome.pruned.is_empty());
    assert_eq!(config.agents.len(), 3);

    fsm.apply_all(&outcome.actions);
    assert!(fsm.is_valid_link("/p/.cc/agents/a.md"));
    assert!(fsm.get_node("/p/.cc/agents/stale").is_none());
    assert!(fsm.get_node("/p/.cc/agents/loose.md").is_some());
    assert!(fsm.get_node("/p/.cc/agents/gone.md").is_none());
}

#[test]
fn test_sync_prune_drops_orphans() {
    let mut config = AgentsConfig::default();
    config.agents.push(Agent::new(
        "a.md".to_string(),
        AgentSource::Local("src/a.md".to_string()),
    ));
    config.agents.push(Agent::new(
        "gone.md".to_string(),
        AgentSource::Local("src/gone.md".to_string()),
    ));

    let mut fsm = FsModel::new();
    fsm.set_node("/p/src/a.md", FsNode::File(vec![1]));
    fsm.link("/p/src/gone.md", "/p/.cc/agents/gone.md");

    let outcome = sync_registry(&mut config, &fsm, "/p", true).unwrap();
    assert_eq!(outcome.pruned, vec!["gone.md".to_string()]);
    assert_eq!(config.agents.len(), 1);
    assert_eq!(config.agents[0].name, "a.md");

    fsm.apply_all(&outcome.actions);
    assert!(fsm.is_valid_link("/p/.cc/agents/a.md"));
    assert!(fsm.get_node("/p/.cc/agents/gone.md").is_none());
}

#[test]
fn test_sync_plans_fetch_for_missing_remote_source() {
    let mut config = AgentsConfig::default();
    config.agents.push(Agent::new(
        "tool.md".to_string(),
        AgentSource::GitHub("https://github.com/u/r/blob/main/tool.md".to_string()),
    ));

    let mut fsm = FsModel::new();
    let outcome = sync_registry(&mut config, &fsm, "/p", false).unwrap();
    assert_eq!(outcome.linked, vec!["tool.md".to_string()]);

    let fetches: Vec<&FsAction> = outcome
        .actions
        .iter()
        .filter(|a| matches!(a, FsAction::Fetch { .. }))
        .collect();
    assert_eq!(fetches.len(), 1);
    if let FsAction::Fetch { content_url, dest } = fetches[0] {
        assert_eq!(content_url, "https://raw.githubusercontent.com/u/r/main/tool.md");
        assert_eq!(dest, "/p/.ccagents/tool.md");
    }

    fsm.apply_all(&outcome.actions);
    assert!(fsm.is_valid_link("/p/.cc/agents/tool.md"));
}

#[test]
fn test_sync_fails_on_invalid_remote_reference() {
    let mut config = AgentsConfig::default();
    config.agents.push(Agent::new(
        "bad".to_string(),
        AgentSource::GitHub("https://github.com/u/r".to_string()),
    ));

    let fsm = FsModel::new();
    let err = sync_registry(&mut config, &fsm, "/p", false).unwrap_err();
    assert!(matches!(err, AgentError::InvalidReference(_)));
}

#[test]
fn test_import_workflow() {
    let mut config = AgentsConfig::default();

    let content = b"# Agent to Import".to_vec();
    let mut fsm = FsModel::new();
    fsm.set_node("/p/.cc/agents/import-test.md", FsNode::File(content.clone()));

    let (actions, imported) = import_files(&mut config, &fsm, "/p", None);
    assert_eq!(imported, vec!["import-test.md".to_string()]);
    assert_eq!(config.agents.len(), 1);
    assert_eq!(config.agents[0].name, "import-test.md");
    assert!(config.agents[0].enabled);
    if let AgentSource::Local(p) = &config.agents[0].source {
        assert_eq!(p, ".ccagents/import-test.md");
    } else {
        panic!("Expected Local source");
    }

    fsm.apply_all(&actions);
    match fsm.get_node("/p/.ccagents/import-test.md") {
        Some(FsNode::File(bytes)) => assert_eq!(bytes, &content),
        _ => panic!("Expected the file under the managed source directory"),
    }
    match fsm.get_node("/p/.cc/agents/import-test.md") {
        Some(FsNode::Symlink(t)) => assert_eq!(t, "/p/.ccagents/import-test.md"),
        _ => panic!("Expected a symlink in place of the original"),
    }
    assert!(fsm.is_valid_link("/p/.cc/agents/import-test.md"));
}

#[test]
fn test_import_skips_registered_and_filters_by_name() {
    let mut config = AgentsConfig::default();
    config.agents.push(Agent::new(
        "known.md".to_string(),
        AgentSource::Local(".ccagents/known.md".to_string()),
    ));

    let mut fsm = FsModel::new();
    fsm.set_node("/p/.cc/agents/known.md", FsNode::File(vec![1]));
    fsm.set_node("/p/.cc/agents/new1.md", FsNode::File(vec![2]));
    fsm.set_node("/p/.cc/agents/new2.md", FsNode::File(vec![3]));

    let (_, imported) = import_files(&mut config, &fsm, "/p", Some("new2.md"));
    assert_eq!(imported, vec!["new2.md".to_string()]);
    assert_eq!(config.agents.len(), 2);
}

#[test]
fn test_unmanaged_file_detection() {
    let mut fsm = FsModel::new();
    fsm.set_node("/p/.cc/agents/unmanaged.md", FsNode::File(vec![1]));
    fsm.set_node("/p/managed.md", FsNode::File(vec![2]));
    fsm.link("/p/managed.md", "/p/.cc/agents/managed.md");

    let config = AgentsConfig::default();
    let candidates = ccagents::find_unmanaged(&config, &fsm, "/p", None);
    assert_eq!(candidates, vec!["unmanaged.md".to_string()]);
}

#[test]
fn test_mixed_agents_directory() {
    let mut fsm = FsModel::new();
    fsm.set_node("/p/.cc/agents/file1.md", FsNode::File(vec![1]));
    fsm.set_node("/p/source.md", FsNode::File(vec![0]));
    fsm.link("/p/source.md", "/p/.cc/agents/link1.md");
    fsm.set_node("/p/.cc/agents/subdir", FsNode::Dir);
    fsm.set_node("/p/.cc/agents/file2.md", FsNode::File(vec![2]));

    let config = AgentsConfig::default();
    let candidates = ccagents::find_unmanaged(&config, &fsm, "/p", None);
    assert_eq!(
        candidates,
        vec!["file1.md".to_string(), "file2.md".to_string()]
    );

    let issues = doctor_report(&config, &fsm, "/p");
    let orphans: Vec<_> = issues
        .iter()
        .filter(|i| i.issue_type == IssueType::OrphanedSymlink)
        .collect();
    assert_eq!(orphans.len(), 1);
    assert_eq!(orphans[0].agent_name, "link1.md");
}

#[test]
fn test_error_messages() {
    assert!(AgentError::TransportError("HTTP 404".to_string())
        .message()
        .contains("HTTP 404"));
    assert!(AgentError::LinkCreationFailed("/p/l".to_string())
        .message()
        .contains("/p/l"));
    assert!(AgentError::DuplicateName("x".to_string())
        .message()
        .contains("already exists"));
    assert!(AgentError::NotFound("x".to_string())
        .message()
        .contains(".agents.json"));
}

#[test]
fn test_plan_add_local_inside_project() {
    let mut fsm = FsModel::new();
    fsm.set_node("/p/agents/x.md", FsNode::File(vec![1]));

    let (agent, actions) = ccagents::plan_add_local(&fsm, "/p", "agents/x.md").unwrap();
    assert_eq!(agent.name, "x.md");
    assert!(agent.enabled);
    if let AgentSource::Local(p) = &agent.source {
        assert_eq!(p, "agents/x.md");
    } else {
        panic!("Expected Local source");
    }
    assert!(actions.is_empty());
}

#[test]
fn test_plan_add_local_outside_project_copies() {
    let mut fsm = FsModel::new();
    fsm.set_node("/elsewhere/y.md", FsNode::File(vec![5]));

    let (agent, actions) = ccagents::plan_add_local(&fsm, "/p", "/elsewhere/y.md").unwrap();
    assert_eq!(agent.name, "y.md");
    if let AgentSource::Local(p) = &agent.source {
        assert_eq!(p, ".ccagents/y.md");
    } else {
        panic!("Expected Local source");
    }
    assert_eq!(actions.len(), 1);

    fsm.apply_all(&actions);
    match fsm.get_node("/p/.ccagents/y.md") {
        Some(FsNode::File(bytes)) => assert_eq!(bytes, &vec![5]),
        _ => panic!("Expected the copy under the managed source directory"),
    }
}

#[test]
fn test_plan_add_local_missing_path() {
    let fsm = FsModel::new();
    let err = ccagents::plan_add_local(&fsm, "/p", "nothing.md").unwrap_err();
    assert!(matches!(err, AgentError::PathNotFound(_)));
}

#[test]
fn test_register_agent_links_enabled() {
    let mut config = AgentsConfig::default();
    let agent = Agent::new("z.md".to_string(), AgentSource::Local("z.md".to_string()));

    let actions = ccagents::register_agent(&mut config, agent.clone(), "/p").unwrap();
    assert_eq!(config.agents.len(), 1);
    assert_eq!(actions.len(), 1);
    assert!(matches!(&actions[0], FsAction::Link { .. }));

    let err = ccagents::register_agent(&mut config, agent, "/p").unwrap_err();
    assert!(matches!(err, AgentError::DuplicateName(_)));
    assert_eq!(config.agents.len(), 1);
}
