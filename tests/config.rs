use gamecode_cli::config::{ConfigError, McpConfig, McpServerConfig};

fn server(name: &str, enabled: bool) -> McpServerConfig {
    McpServerConfig {
        name: name.to_string(),
        command: format!("/bin/{}", name),
        args: vec!["--stdio".to_string()],
        description: None,
        enabled,
    }
}

fn names(config: &McpConfig) -> Vec<String> {
    config.servers.iter().map(|s| s.name.clone()).collect()
}

#[test]
fn add_server_appends() {
    let mut config = McpConfig { servers: vec![server("a", true)] };
    assert!(config.add_server(server("b", false)).is_ok());
    assert_eq!(names(&config), vec!["a", "b"]);
}

#[test]
fn add_server_refuses_duplicate_name() {
    let mut config = McpConfig { servers: vec![server("a", true)] };
    match config.add_server(server("a", false)) {
        Err(ConfigError::AlreadyExists(n)) => assert_eq!(n, "a"),
        _ => panic!("expected AlreadyExists"),
    }
    assert_eq!(names(&config), vec!["a"]);
    assert!(config.servers[0].enabled);
}

#[test]
fn remove_server_keeps_the_others_in_order() {
    let mut config = McpConfig { servers: vec![server("a", true), server("b", true), server("c", true)] };
    assert!(config.remove_server("b").is_ok());
    assert_eq!(names(&config), vec!["a", "c"]);
}

#[test]
fn remove_server_unknown_name_fails() {
    let mut config = McpConfig { servers: vec![server("a", true)] };
    match config.remove_server("zz") {
        Err(ConfigError::NotFound(n)) => assert_eq!(n, "zz"),
        _ => panic!("expected NotFound"),
    }
    assert_eq!(names(&config), vec!["a"]);
}

#[test]
fn find_server_gives_first_match() {
    let config = McpConfig { servers: vec![server("a", true), server("b", true)] };
    assert_eq!(config.find_server("b"), Some(1));
    assert_eq!(config.find_server("c"), None);
}
