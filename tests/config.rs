use stack_sync::config::{
    resolve_config_chain, resolve_stacks, serialize_config, ConfigChainResult, ConfigError,
    DeployMode, PartialConfigFile, PortainerGlobalConfig, ResolvedGlobalConfig, SshGlobalConfig,
    StackEntry,
};

fn entry(compose_file: &str) -> StackEntry {
    StackEntry {
        compose_file: compose_file.to_string(),
        env_file: None,
        endpoint_id: None,
        enabled: None,
    }
}

fn file_with(stacks: Vec<(&str, StackEntry)>) -> PartialConfigFile {
    PartialConfigFile {
        mode: None,
        portainer_api_key: None,
        host: None,
        endpoint_id: None,
        ssh_user: None,
        ssh_key: None,
        host_dir: None,
        stacks: stacks
            .into_iter()
            .map(|(n, e)| (n.to_string(), e))
            .collect(),
    }
}

fn portainer_global() -> ResolvedGlobalConfig {
    ResolvedGlobalConfig::Portainer(PortainerGlobalConfig {
        api_key: "test_key".to_string(),
        host: "https://portainer.example.com".to_string(),
        endpoint_id: 2,
    })
}

#[test]
fn test_partial_config_without_env_file() {
    let config = file_with(vec![("my-stack", entry("compose.yaml"))]);
    let global = portainer_global();
    let resolved = config.resolve("my-stack", &global, ".").unwrap();
    assert_eq!(resolved.env_file, None);
}

#[test]
fn test_partial_config_stack_not_found() {
    let config = file_with(vec![("my-stack", entry("compose.yaml"))]);
    let global = portainer_global();
    let result = config.resolve("nonexistent", &global, ".");
    assert!(result.is_err());
}

#[test]
fn test_partial_config_stack_names() {
    let config = file_with(vec![("alpha", entry("a.yaml")), ("beta", entry("b.yaml"))]);
    let mut names = config.stack_names();
    names.sort();
    assert_eq!(names, vec!["alpha", "beta"]);
}

#[test]
fn test_partial_config_file_resolve() {
    let mut e = entry("compose.yaml");
    e.env_file = Some(".env".to_string());
    let config = file_with(vec![("my-stack", e)]);
    let global = ResolvedGlobalConfig::Portainer(PortainerGlobalConfig {
        api_key: "test_key".to_string(),
        host: "https://example.com".to_string(),
        endpoint_id: 2,
    });
    let resolved = config.resolve("my-stack", &global, "/test").unwrap();
    assert_eq!(resolved.name, "my-stack");
    assert_eq!(resolved.host, "https://example.com");
    assert_eq!(resolved.endpoint_id, 2);
}

#[test]
fn test_partial_config_file_resolve_with_stack_endpoint_override() {
    let mut e = entry("compose.yaml");
    e.endpoint_id = Some(7);
    let config = file_with(vec![("my-stack", e)]);
    let global = ResolvedGlobalConfig::Portainer(PortainerGlobalConfig {
        api_key: "test_key".to_string(),
        host: "https://example.com".to_string(),
        endpoint_id: 2,
    });
    let resolved = config.resolve("my-stack", &global, "/test").unwrap();
    assert_eq!(resolved.endpoint_id, 7);
}

#[test]
fn test_mode_defaults_to_portainer() {
    let config = file_with(vec![("my-stack", entry("compose.yaml"))]);
    assert_eq!(config.mode, None);
    assert_eq!(config.mode.unwrap_or_default(), DeployMode::Portainer);
}

#[test]
fn test_ssh_resolve_sets_endpoint_id_zero() {
    let config = file_with(vec![("my-stack", entry("compose.yaml"))]);
    let global = ResolvedGlobalConfig::Ssh(SshGlobalConfig {
        host: "192.168.0.20".to_string(),
        ssh_user: None,
        ssh_key: None,
        host_dir: "/mnt/docker".to_string(),
    });
    let resolved = config.resolve("my-stack", &global, "/test").unwrap();
    assert_eq!(resolved.endpoint_id, 0);
    assert_eq!(resolved.host, "192.168.0.20");
}

#[test]
fn resolve_reports_missing_stack_by_name() {
    let config = file_with(vec![("web", entry("compose.yaml"))]);
    let err = config.resolve("db", &portainer_global(), "/x").unwrap_err();
    assert_eq!(err, ConfigError::StackNotFound("db".to_string()));
    assert_eq!(err.message(), "Stack 'db' not found in config");
}

#[test]
fn resolve_applies_enabled_flag_and_paths() {
    let mut e = entry("web.compose.yaml");
    e.env_file = Some("web.env".to_string());
    e.enabled = Some(false);
    let config = file_with(vec![("web", e)]);
    let resolved = config.resolve("web", &portainer_global(), "/srv/app").unwrap();
    assert!(!resolved.enabled);
    assert_eq!(resolved.compose_path(), "/srv/app/web.compose.yaml");
    assert_eq!(resolved.env_path(), Some("/srv/app/web.env".to_string()));
    let plain = file_with(vec![("web", entry("/abs/compose.yaml"))]);
    let r = plain.resolve("web", &portainer_global(), "/srv/app").unwrap();
    assert!(r.enabled);
    assert_eq!(r.compose_path(), "/abs/compose.yaml");
    assert_eq!(r.env_path(), None);
}

fn fragment_host(host: Option<&str>, endpoint_id: Option<u64>) -> PartialConfigFile {
    let mut f = file_with(vec![]);
    f.host = host.map(String::from);
    f.endpoint_id = endpoint_id;
    f
}

#[test]
fn nearer_fragment_wins_and_farther_fills_gaps() {
    let mut chain = ConfigChainResult::start(Some("key".to_string()));
    let mut near = fragment_host(Some("A"), None);
    near.stacks.push(("web".to_string(), entry("compose.yaml")));
    assert!(chain.may_enter(false));
    let go_on = chain.visit(
        Some(("/home/user/proj/.stack-sync.toml".to_string(), near)),
        false,
    );
    assert!(go_on);
    let go_on = chain.visit(
        Some((
            "/home/user/.stack-sync.toml".to_string(),
            fragment_host(Some("B"), Some(5)),
        )),
        true,
    );
    assert!(!go_on);
    assert_eq!(chain.host, Some("A".to_string()));
    assert_eq!(chain.endpoint_id, Some(5));
    assert_eq!(
        chain.local_config_path,
        Some("/home/user/proj/.stack-sync.toml".to_string())
    );
    let (global, local, path) = resolve_config_chain(chain).unwrap();
    match global {
        ResolvedGlobalConfig::Portainer(p) => {
            assert_eq!(p.host, "A");
            assert_eq!(p.endpoint_id, 5);
            assert_eq!(p.api_key, "key");
        }
        ResolvedGlobalConfig::Ssh(_) => panic!("expected portainer settings"),
    }
    assert_eq!(local.stack_names(), vec!["web".to_string()]);
    assert_eq!(path, "/home/user/proj/.stack-sync.toml");
}

#[test]
fn walk_stops_once_complete_and_outside_home() {
    let mut chain = ConfigChainResult::start(Some("key".to_string()));
    let go_on = chain.visit(Some(("/p/.stack-sync.toml".to_string(), fragment_host(Some("h"), Some(3)))), false);
    assert!(!go_on);
    assert!(!chain.may_enter(true));
    let mut empty = ConfigChainResult::start(None);
    assert!(empty.may_enter(true));
    assert!(empty.visit(None, false));
    assert!(!empty.visit(None, true));
}

#[test]
fn explicit_file_stays_the_local_manifest() {
    let explicit = file_with(vec![("app", entry("app.yaml"))]);
    let mut chain =
        ConfigChainResult::start_with_local(None, "/w/custom.toml".to_string(), explicit);
    let mut found = fragment_host(Some("h"), None);
    found.portainer_api_key = Some("k".to_string());
    found.stacks.push(("other".to_string(), entry("o.yaml")));
    chain.visit(Some(("/w/.stack-sync.toml".to_string(), found)), false);
    let (_, local, path) = resolve_config_chain(chain).unwrap();
    assert_eq!(local.stack_names(), vec!["app".to_string()]);
    assert_eq!(path, "/w/custom.toml");
}

#[test]
fn chain_errors_name_the_missing_field() {
    let chain = ConfigChainResult::start(None);
    assert_eq!(
        resolve_config_chain(chain).unwrap_err(),
        ConfigError::NoConfigFile
    );

    let mut chain = ConfigChainResult::start(None);
    chain.visit(Some(("/a/.stack-sync.toml".to_string(), fragment_host(Some("h"), None))), false);
    assert_eq!(
        resolve_config_chain(chain).unwrap_err(),
        ConfigError::MissingApiKey
    );

    let mut chain = ConfigChainResult::start(Some("k".to_string()));
    chain.visit(Some(("/a/.stack-sync.toml".to_string(), fragment_host(None, None))), false);
    assert_eq!(
        resolve_config_chain(chain).unwrap_err(),
        ConfigError::MissingHost
    );

    let mut ssh = fragment_host(Some("10.0.0.1"), None);
    ssh.mode = Some(DeployMode::Ssh);
    let mut chain = ConfigChainResult::start(None);
    chain.visit(Some(("/a/.stack-sync.toml".to_string(), ssh)), false);
    assert_eq!(
        resolve_config_chain(chain).unwrap_err(),
        ConfigError::MissingHostDir
    );

    let mut chain = ConfigChainResult::start(Some(String::new()));
    chain.visit(Some(("/a/.stack-sync.toml".to_string(), fragment_host(Some("h"), None))), false);
    assert_eq!(
        resolve_config_chain(chain).unwrap_err(),
        ConfigError::MissingApiKey
    );
}

#[test]
fn chain_defaults_endpoint_to_two() {
    let mut chain = ConfigChainResult::start(Some("k".to_string()));
    chain.visit(Some(("/a/.stack-sync.toml".to_string(), fragment_host(Some("h"), None))), true);
    match resolve_config_chain(chain).unwrap().0 {
        ResolvedGlobalConfig::Portainer(p) => assert_eq!(p.endpoint_id, 2),
        ResolvedGlobalConfig::Ssh(_) => panic!("expected portainer settings"),
    }
}

#[test]
fn resolve_stacks_sorts_all_names_and_uses_manifest_dir() {
    let config = file_with(vec![
        ("web", entry("w.yaml")),
        ("api", entry("a.yaml")),
        ("db", entry("d.yaml")),
    ]);
    let configs =
        resolve_stacks(&portainer_global(), &config, "/home/u/proj/.stack-sync.toml", &vec![])
            .unwrap();
    let names: Vec<&str> = configs.iter().map(|c| c.name.as_str()).collect();
    assert_eq!(names, vec!["api", "db", "web"]);
    assert_eq!(configs[0].base_dir, "/home/u/proj");
    assert_eq!(configs[0].compose_path(), "/home/u/proj/a.yaml");
}

#[test]
fn resolve_stacks_keeps_filter_order_and_fails_on_unknown() {
    let config = file_with(vec![("web", entry("w.yaml")), ("api", entry("a.yaml"))]);
    let filter = vec!["web".to_string(), "api".to_string()];
    let configs = resolve_stacks(&portainer_global(), &config, "cfg.toml", &filter).unwrap();
    assert_eq!(configs[0].name, "web");
    assert_eq!(configs[1].name, "api");
    assert_eq!(configs[0].base_dir, "");
    assert_eq!(configs[0].compose_path(), "w.yaml");
    let bad = vec!["api".to_string(), "nope".to_string(), "gone".to_string()];
    assert_eq!(
        resolve_stacks(&portainer_global(), &config, "cfg.toml", &bad).unwrap_err(),
        ConfigError::StackNotFound("nope".to_string())
    );
}

#[test]
fn serialize_config_orders_fields_and_stacks() {
    let mut config = file_with(vec![]);
    config.mode = Some(DeployMode::Ssh);
    config.host = Some("10.0.0.1".to_string());
    config.host_dir = Some("/srv \"docker\"".to_string());
    let mut b = entry("b.yaml");
    b.enabled = Some(false);
    b.endpoint_id = Some(4);
    config.insert_stack("beta".to_string(), b);
    let mut a = entry("a.yaml");
    a.env_file = Some("a.env".to_string());
    config.insert_stack("alpha".to_string(), a);
    config.insert_stack("alpha".to_string(), entry("a2.yaml"));
    assert_eq!(config.stacks.len(), 2);
    let text = serialize_config(&config);
    assert_eq!(
        text,
        "mode = \"ssh\"\nhost = \"10.0.0.1\"\nhost_dir = \"/srv \\\"docker\\\"\"\n\n[stacks.alpha]\ncompose_file = \"a2.yaml\"\n\n[stacks.beta]\ncompose_file = \"b.yaml\"\nendpoint_id = 4\nenabled = false\n"
    );
}

#[test]
fn serialize_empty_config_is_one_newline() {
    assert_eq!(serialize_config(&file_with(vec![])), "\n");
}
