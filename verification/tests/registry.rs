use ccagents::{Agent, AgentSource, AgentsConfig};

#[test]
fn test_agent_new() {
    let agent = Agent::new(
        "test-agent".to_string(),
        AgentSource::Local("path/to/agent".to_string()),
    );

    assert_eq!(agent.name, "test-agent");
    assert!(agent.enabled);
    matches!(agent.source, AgentSource::Local(_));
}

#[test]
fn test_agent_from_path() {
    let agent = Agent::from_path("test-agent.md").unwrap();

    assert_eq!(agent.name, "test-agent.md");
    assert!(agent.enabled);

    if let AgentSource::Local(p) = &agent.source {
        assert_eq!(p, "test-agent.md");
    } else {
        panic!("Expected Local source");
    }
}

#[test]
fn test_agent_from_path_no_filename() {
    assert!(Agent::from_path("").is_err());
    assert!(Agent::from_path("/").is_err());
    assert!(Agent::from_path("foo/..").is_err());
}

#[test]
fn test_agent_from_github_repo_url_fails() {
    let url = "https://github.com/user/agent-repo";
    let result = Agent::from_url(url);

    assert!(result.is_err());
    assert!(result.unwrap_err().message().contains("Only direct file links"));
}

#[test]
fn test_agent_from_github_repo_with_git_suffix_fails() {
    let url = "https://github.com/user/agent-repo.git";
    let result = Agent::from_url(url);

    assert!(result.is_err());
}

#[test]
fn test_agent_from_github_file_url() {
    let url = "https://github.com/user/repo/blob/main/agents/backend-developer.md";
    let agent = Agent::from_url(url).unwrap();

    assert_eq!(agent.name, "backend-developer.md");
    assert!(agent.enabled);

    if let AgentSource::GitHub(u) = &agent.source {
        assert_eq!(u, url);
    } else {
        panic!("Expected GitHub source");
    }
}

#[test]
fn test_agent_from_github_nested_file_url() {
    let url =
        "https://github.com/vijaythecoder/awesome-agents/blob/main/agents/universal/backend-developer.md";
    let agent = Agent::from_url(url).unwrap();

    assert_eq!(agent.name, "backend-developer.md");
}

#[test]
fn test_invalid_url() {
    let result = Agent::from_url("not-a-url");
    assert!(result.is_err());
}

#[test]
fn test_github_repo_url_rejected() {
    let repo_url = "https://github.com/user/test-repo";
    let result = Agent::from_url(repo_url);
    assert!(result.is_err());
    assert!(result.unwrap_err().message().contains("Only direct file links"));
}

#[test]
fn test_non_github_url_uses_last_segment() {
    let agent = Agent::from_url("https://example.com/files/notes.md").unwrap();
    assert_eq!(agent.name, "notes.md");
}

#[test]
fn test_get_local_path_for_local_relative() {
    let agent = Agent::new(
        "test".to_string(),
        AgentSource::Local("relative/path".to_string()),
    );

    assert_eq!(agent.get_local_path("/project"), "/project/relative/path");
}

#[test]
fn test_get_local_path_for_local_absolute() {
    let agent = Agent::new(
        "test".to_string(),
        AgentSource::Local("/absolute/path".to_string()),
    );

    assert_eq!(agent.get_local_path("/project"), "/absolute/path");
}

#[test]
fn test_get_local_path_for_github() {
    let agent = Agent::new(
        "repo-name".to_string(),
        AgentSource::GitHub("https://github.com/user/repo".to_string()),
    );

    assert_eq!(agent.get_local_path("/project"), "/project/.ccagents/repo-name");
}

#[test]
fn test_get_link_path() {
    let agent = Agent::new(
        "test-agent".to_string(),
        AgentSource::Local("path".to_string()),
    );

    assert_eq!(agent.get_link_path("/project"), "/project/.cc/agents/test-agent");
}

#[test]
fn test_agents_config_default() {
    let config = AgentsConfig::default();
    assert!(config.agents.is_empty());
}

#[test]
fn test_add_agent() {
    let mut config = AgentsConfig::default();
    let agent = Agent::new("test".to_string(), AgentSource::Local("path".to_string()));

    config.add_agent(agent.clone()).unwrap();
    assert_eq!(config.agents.len(), 1);

    let result = config.add_agent(agent);
    assert!(result.is_err());
    assert_eq!(config.agents.len(), 1);
}

#[test]
fn test_duplicate_agent_prevention() {
    let mut config = AgentsConfig::default();
    let agent = Agent::new(
        "duplicate.md".to_string(),
        AgentSource::Local("duplicate.md".to_string()),
    );

    let result1 = config.add_agent(agent.clone());
    assert!(result1.is_ok());

    let result2 = config.add_agent(agent);
    assert!(result2.is_err());
    assert!(result2.unwrap_err().message().contains("already exists"));
}

#[test]
fn test_remove_agent() {
    let mut config = AgentsConfig::default();
    let agent = Agent::new("test".to_string(), AgentSource::Local("path".to_string()));

    config.agents.push(agent);
    config.remove_agent("test").unwrap();
    assert!(config.agents.is_empty());

    let result = config.remove_agent("nonexistent");
    assert!(result.is_err());
}

#[test]
fn test_get_agent() {
    let mut config = AgentsConfig::default();
    let agent = Agent::new("test".to_string(), AgentSource::Local("path".to_string()));

    config.agents.push(agent);

    let found = config.get_agent("test");
    assert!(found.is_some());
    assert_eq!(found.unwrap().name, "test");

    let not_found = config.get_agent("nonexistent");
    assert!(not_found.is_none());
}

#[test]
fn test_get_agent_mut() {
    let mut config = AgentsConfig::default();
    let agent = Agent::new("test".to_string(), AgentSource::Local("path".to_string()));

    config.agents.push(agent);

    if let Some(agent) = config.get_agent_mut("test") {
        agent.enabled = false;
    }

    assert!(!config.agents[0].enabled);
}

#[test]
fn test_enabled_disabled_agents() {
    let mut config = AgentsConfig::default();

    let mut agent1 = Agent::new("enabled".to_string(), AgentSource::Local("path1".to_string()));
    agent1.enabled = true;

    let mut agent2 = Agent::new(
        "disabled".to_string(),
        AgentSource::Local("path2".to_string()),
    );
    agent2.enabled = false;

    config.agents.push(agent1);
    config.agents.push(agent2);

    let enabled = config.enabled_agents();
    assert_eq!(enabled.len(), 1);
    assert_eq!(enabled[0].name, "enabled");

    let disabled = config.disabled_agents();
    assert_eq!(disabled.len(), 1);
    assert_eq!(disabled[0].name, "disabled");
}

#[test]
fn test_agents_config_save_and_load() {
    let mut config = AgentsConfig::default();

    let agent = Agent::new(
        "test-agent".to_string(),
        AgentSource::Local(".ccagents/test-agent".to_string()),
    );
    config.agents.push(agent);

    let document = config.to_json();

    let loaded_config = AgentsConfig::from_json(&document).unwrap();
    assert_eq!(loaded_config.agents.len(), 1);
    assert_eq!(loaded_config.agents[0].name, "test-agent");
}

#[test]
fn test_github_file_agent_storage() {
    let url = "https://github.com/user/repo/blob/main/agent.md";
    let agent = Agent::from_url(url).unwrap();
    assert_eq!(agent.name, "agent.md");

    assert_eq!(agent.get_local_path("/project"), "/project/.ccagents/agent.md");

    let mut config = AgentsConfig::default();
    config.add_agent(agent).unwrap();

    let document = config.to_json();
    let loaded_config = AgentsConfig::from_json(&document).unwrap();
    assert_eq!(loaded_config.agents.len(), 1);

    if let AgentSource::GitHub(stored_url) = &loaded_config.agents[0].source {
        assert_eq!(stored_url, url);
    } else {
        panic!("Expected GitHub source");
    }
}

#[test]
fn test_json_exact_document() {
    let mut config = AgentsConfig::default();
    let mut agent = Agent::new("a".to_string(), AgentSource::Local("p/a.md".to_string()));
    agent.enabled = false;
    config.agents.push(agent);

    assert_eq!(
        config.to_json(),
        "{\"agents\":[{\"name\":\"a\",\"source\":{\"type\":\"Local\",\"value\":\"p/a.md\"},\"enabled\":false}]}"
    );
}

#[test]
fn test_json_round_trip_mixed() {
    let mut config = AgentsConfig::default();
    config.agents.push(Agent::new(
        "local.md".to_string(),
        AgentSource::Local("dir/local.md".to_string()),
    ));
    let mut remote = Agent::new(
        "remote.md".to_string(),
        AgentSource::GitHub("https://github.com/u/r/blob/main/remote.md".to_string()),
    );
    remote.enabled = false;
    config.agents.push(remote);

    let document = config.to_json();
    let loaded = AgentsConfig::from_json(&document).unwrap();

    assert_eq!(loaded.agents.len(), 2);
    assert_eq!(loaded.agents[0].name, "local.md");
    assert!(loaded.agents[0].enabled);
    if let AgentSource::Local(p) = &loaded.agents[0].source {
        assert_eq!(p, "dir/local.md");
    } else {
        panic!("Expected Local source");
    }
    assert_eq!(loaded.agents[1].name, "remote.md");
    assert!(!loaded.agents[1].enabled);
    if let AgentSource::GitHub(u) = &loaded.agents[1].source {
        assert_eq!(u, "https://github.com/u/r/blob/main/remote.md");
    } else {
        panic!("Expected GitHub source");
    }
}

#[test]
fn test_json_escapes_round_trip() {
    let mut config = AgentsConfig::default();
    config.agents.push(Agent::new(
        "quo\"te\\agent".to_string(),
        AgentSource::Local("pa\\th\"x".to_string()),
    ));

    let document = config.to_json();
    let loaded = AgentsConfig::from_json(&document).unwrap();
    assert_eq!(loaded.agents[0].name, "quo\"te\\agent");
    if let AgentSource::Local(p) = &loaded.agents[0].source {
        assert_eq!(p, "pa\\th\"x");
    } else {
        panic!("Expected Local source");
    }
}

#[test]
fn test_json_document_is_valid_json() {
    let mut config = AgentsConfig::default();
    config.agents.push(Agent::new(
        "es\"c\\aped".to_string(),
        AgentSource::Local("x/y".to_string()),
    ));
    let document = config.to_json();

    let value: serde_json::Value = serde_json::from_str(&document).unwrap();
    assert_eq!(value["agents"][0]["name"], "es\"c\\aped");
    assert_eq!(value["agents"][0]["source"]["type"], "Local");
    assert_eq!(value["agents"][0]["enabled"], true);
}

#[test]
fn test_json_malformed_rejected() {
    assert!(AgentsConfig::from_json("").is_err());
    assert!(AgentsConfig::from_json("{}").is_err());
    assert!(AgentsConfig::from_json("{\"agents\":[").is_err());
    assert!(AgentsConfig::from_json("{\"agents\":[]}garbage").is_err());
    let err = AgentsConfig::from_json("nonsense").unwrap_err();
    assert!(err.message().contains("parse"));
}

#[test]
fn test_json_empty_registry() {
    let config = AgentsConfig::default();
    assert_eq!(config.to_json(), "{\"agents\":[]}");
    let loaded = AgentsConfig::from_json("{\"agents\":[]}").unwrap();
    assert!(loaded.agents.is_empty());
}

#[test]
fn test_plan_fetch_builds_raw_url() {
    let plan = ccagents::plan_fetch(
        "https://github.com/user/repo/blob/main/agents/deep/tool.md",
        "/project/.ccagents",
    )
    .unwrap();
    assert_eq!(
        plan.content_url,
        "https://raw.githubusercontent.com/user/repo/main/agents/deep/tool.md"
    );
    assert_eq!(plan.filename, "tool.md");
    assert_eq!(plan.dest_path, "/project/.ccagents/tool.md");
}

#[test]
fn test_plan_fetch_rejects_non_file_urls() {
    assert!(ccagents::plan_fetch("https://github.com/user/repo", "/p/.ccagents").is_err());
    assert!(ccagents::plan_fetch("https://example.com/a/b/blob/c/d.md", "/p/.ccagents").is_err());
    assert!(ccagents::plan_fetch("not-a-url", "/p/.ccagents").is_err());
}
