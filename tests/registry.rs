use gamecode_cli::catalog::{RefreshWarning, Route};
use gamecode_cli::client::{ClientError, FailureHint};
use gamecode_cli::config::{McpConfig, McpServerConfig};
use gamecode_cli::dispatch::document_tools_of;
use gamecode_cli::json::Json;
use gamecode_cli::protocol::{Operation, ProtocolError, SessionStep, ToolSchema};
use gamecode_cli::registry::{McpToolRegistry, RefreshAction, RegistryError};

fn server(name: &str, enabled: bool) -> McpServerConfig {
    McpServerConfig {
        name: name.to_string(),
        command: format!("/usr/bin/{}", name),
        args: Vec::new(),
        description: Some(format!("{} server", name)),
        enabled,
    }
}

fn tool(name: &str) -> ToolSchema {
    ToolSchema {
        name: name.to_string(),
        description: format!("does {}", name),
        input_schema: Json::from_text("{\"type\":\"object\",\"properties\":{}}").unwrap(),
    }
}

fn registry(servers: Vec<McpServerConfig>) -> McpToolRegistry {
    McpToolRegistry::new(McpConfig { servers })
}

#[test]
fn partial_failure_isolation() {
    let mut reg = registry(vec![server("missing", true), server("crashy", true), server("good", true)]);
    assert!(matches!(reg.begin_refresh(), RefreshAction::ListTools(0)));
    let a = reg.tools_listed(Err(ClientError::Spawn("No such file or directory".to_string())));
    assert!(matches!(a, RefreshAction::ListTools(1)));
    let a = reg.tools_listed(Err(ClientError::Protocol(ProtocolError::ConnectionClosed)));
    assert!(matches!(a, RefreshAction::ListTools(2)));
    let a = reg.tools_listed(Ok(vec![tool("read"), tool("write")]));
    assert!(matches!(a, RefreshAction::Finished));
    assert_eq!(reg.list_tools(), vec!["good_read", "good_write"]);
    let warnings = reg.refresh_warnings();
    assert_eq!(warnings.len(), 2);
    match &warnings[0] {
        RefreshWarning::Unreachable { server, hint } => {
            assert_eq!(server, "missing");
            assert_eq!(*hint, FailureHint::MissingBinary);
        }
        _ => panic!("expected an unreachable server"),
    }
    match &warnings[1] {
        RefreshWarning::Unreachable { server, hint } => {
            assert_eq!(server, "crashy");
            assert_eq!(*hint, FailureHint::ClosedEarly);
        }
        _ => panic!("expected an unreachable server"),
    }
}

#[test]
fn first_wins_collision() {
    // "a_b" + "c" and "a" + "b_c" share the namespaced name "a_b_c".
    let mut reg = registry(vec![server("a_b", true), server("a", true)]);
    assert!(matches!(reg.begin_refresh(), RefreshAction::ListTools(0)));
    assert!(matches!(reg.tools_listed(Ok(vec![tool("c"), tool("d")])), RefreshAction::ListTools(1)));
    assert!(matches!(reg.tools_listed(Ok(vec![tool("b_c"), tool("e")])), RefreshAction::Finished));
    assert_eq!(reg.list_tools(), vec!["a_b_c", "a_b_d", "a_e"]);
    let kept = reg.get_tool("a_b_c").unwrap();
    assert_eq!(kept.server, "a_b");
    assert_eq!(kept.tool.name, "c");
    assert_eq!(kept.route, Route::Direct);
    let warnings = reg.refresh_warnings();
    assert_eq!(warnings.len(), 1);
    match &warnings[0] {
        RefreshWarning::Duplicate { name, server } => {
            assert_eq!(name, "a_b_c");
            assert_eq!(server, "a");
        }
        _ => panic!("expected a duplicate"),
    }
}

#[test]
fn duplicate_tool_within_one_server_is_dropped() {
    let mut reg = registry(vec![server("s", true)]);
    reg.begin_refresh();
    let mut second = tool("t");
    second.description = "later".to_string();
    assert!(matches!(reg.tools_listed(Ok(vec![tool("t"), second])), RefreshAction::Finished));
    assert_eq!(reg.list_tools(), vec!["s_t"]);
    assert_eq!(reg.get_tool("s_t").unwrap().tool.description, "does t");
}

#[test]
fn disabled_servers_excluded() {
    let mut reg = registry(vec![server("off", false), server("on", true), server("off2", false)]);
    assert!(matches!(reg.begin_refresh(), RefreshAction::ListTools(1)));
    assert!(matches!(reg.tools_listed(Ok(vec![tool("x")])), RefreshAction::Finished));
    assert_eq!(reg.list_tools(), vec!["on_x"]);
    match reg.call_tool("off_x", Json::Null) {
        Err(RegistryError::ServerDisabled(n)) => assert_eq!(n, "off"),
        _ => panic!("expected ServerDisabled"),
    }
}

#[test]
fn refresh_with_only_disabled_servers_finishes_at_once() {
    let mut reg = registry(vec![server("off", false)]);
    assert!(matches!(reg.begin_refresh(), RefreshAction::Finished));
    assert!(reg.list_tools().is_empty());
    let mut reg = registry(Vec::new());
    assert!(matches!(reg.begin_refresh(), RefreshAction::Finished));
}

#[test]
fn meta_tool_expansion() {
    let mut reg = registry(vec![server("gc", true)]);
    reg.begin_refresh();
    let a = reg.tools_listed(Ok(vec![tool("list_tools"), tool("run")]));
    assert!(matches!(a, RefreshAction::CallListTools(0)));
    let inner = "{\"tools\":[{\"name\":\"build\",\"description\":\"Builds\"},{\"name\":\"test\"},{\"name\":\"lint\",\"description\":\"Lints\"}]}";
    let result = Json::Object(vec![(
        "content".to_string(),
        Json::Array(vec![Json::Object(vec![
            ("type".to_string(), Json::Str("text".to_string())),
            ("text".to_string(), Json::Str(inner.to_string())),
        ])]),
    )]);
    assert!(matches!(reg.dispatch_listed(Ok(result)), RefreshAction::Finished));
    assert_eq!(reg.list_tools(), vec!["gc_build", "gc_test", "gc_lint"]);
    assert!(reg.get_tool("gc_list_tools").is_none());
    assert!(reg.get_tool("gc_run").is_none());
    let build = reg.get_tool("gc_build").unwrap();
    assert_eq!(build.tool.description, "Builds");
    assert_eq!(build.route, Route::ThroughRun);
    assert_eq!(build.server, "gc");
    assert_eq!(reg.get_tool("gc_test").unwrap().tool.description, "");
    let schema: serde_json::Value = serde_json::from_str(&build.tool.input_schema.to_text()).unwrap();
    assert_eq!(schema["required"], serde_json::from_str::<serde_json::Value>("[\"tool\",\"params\"]").unwrap());
    assert_eq!(schema["properties"]["tool"]["const"], "build");
    assert_eq!(schema["type"], "object");
}

#[test]
fn failed_meta_listing_is_noted() {
    let mut reg = registry(vec![server("gc", true), server("plain", true)]);
    reg.begin_refresh();
    assert!(matches!(reg.tools_listed(Ok(vec![tool("run"), tool("list_tools")])), RefreshAction::CallListTools(0)));
    let a = reg.dispatch_listed(Err(ClientError::Protocol(ProtocolError::Decode)));
    assert!(matches!(a, RefreshAction::ListTools(1)));
    assert!(matches!(reg.tools_listed(Ok(vec![tool("run")])), RefreshAction::Finished));
    assert_eq!(reg.list_tools(), vec!["plain_run"]);
    assert!(matches!(&reg.refresh_warnings()[0], RefreshWarning::DispatchFailed { server } if server == "gc"));
}

#[test]
fn refresh_clears_the_previous_catalog() {
    let mut reg = registry(vec![server("s", true)]);
    reg.begin_refresh();
    reg.tools_listed(Ok(vec![tool("old")]));
    reg.begin_refresh();
    assert!(reg.list_tools().is_empty());
    reg.tools_listed(Ok(vec![tool("new")]));
    assert_eq!(reg.list_tools(), vec!["s_new"]);
}

#[test]
fn call_tool_routes_to_the_owning_server() {
    let reg = registry(vec![server("fs", true), server("git", true)]);
    let args = Json::from_text("{\"path\":\"a\"}").unwrap();
    let mut call = match reg.call_tool("git_log_all", args) {
        Ok(call) => call,
        Err(_) => panic!("expected a routed call"),
    };
    assert_eq!(call.server, 1);
    let _ = call.session.start();
    match call.session.on_reply("{\"jsonrpc\":\"2.0\",\"id\":1,\"result\":{}}") {
        SessionStep::Proceed { request, .. } => {
            let r: serde_json::Value = serde_json::from_str(&request).unwrap();
            assert_eq!(r["params"]["name"], "log_all");
            assert_eq!(r["params"]["arguments"]["path"], "a");
        }
        SessionStep::Finished(_) => panic!("the handshake succeeded"),
    }
    let _ = Operation::ListTools;
}

#[test]
fn call_tool_errors() {
    let reg = registry(vec![server("fs", true)]);
    match reg.call_tool("nosep", Json::Null) {
        Err(RegistryError::InvalidToolName(n)) => assert_eq!(n, "nosep"),
        _ => panic!("expected InvalidToolName"),
    }
    match reg.call_tool("web_fetch", Json::Null) {
        Err(RegistryError::ServerNotFound(n)) => assert_eq!(n, "web"),
        _ => panic!("expected ServerNotFound"),
    }
}

#[test]
fn bedrock_tools_sanitize_schemas() {
    let mut reg = registry(vec![server("s", true)]);
    reg.begin_refresh();
    let with_schema_key = ToolSchema {
        name: "a".to_string(),
        description: "A".to_string(),
        input_schema: Json::from_text("{\"$schema\":\"http://json-schema.org/draft-07/schema#\",\"properties\":{}}").unwrap(),
    };
    let typed = ToolSchema {
        name: "b".to_string(),
        description: "B".to_string(),
        input_schema: Json::from_text("{\"type\":\"array\"}").unwrap(),
    };
    let not_object = ToolSchema {
        name: "c".to_string(),
        description: "C".to_string(),
        input_schema: Json::Bool(true),
    };
    reg.tools_listed(Ok(vec![with_schema_key, typed, not_object]));
    let tools = reg.to_bedrock_tools();
    assert_eq!(tools.len(), 3);
    assert_eq!(tools[0].name, "s_a");
    assert_eq!(tools[0].description, "A");
    assert_eq!(tools[0].input_schema.to_text(), "{\"properties\":{},\"type\":\"object\"}");
    assert_eq!(tools[1].name, "s_b");
    assert_eq!(tools[1].input_schema.to_text(), "{\"type\":\"array\"}");
    assert_eq!(tools[2].input_schema.to_text(), "true");
}

#[test]
fn tools_of_a_parsed_listing_text() {
    let doc = Json::from_text("{\"tools\":[{\"name\":\"a\"},{\"description\":\"unnamed\"},{\"name\":\"b\",\"description\":7}]}").unwrap();
    let tools = document_tools_of(&doc);
    assert_eq!(tools.len(), 2);
    assert_eq!(tools[0].name, "a");
    assert_eq!(tools[1].name, "b");
    assert_eq!(tools[1].description, "");
    assert!(document_tools_of(&Json::from_text("{\"tools\":{}}").unwrap()).is_empty());
}

#[test]
fn hung_server_is_noted_as_unresponsive() {
    let mut reg = registry(vec![server("slow", true)]);
    reg.begin_refresh();
    assert!(matches!(reg.tools_listed(Err(ClientError::TimedOut)), RefreshAction::Finished));
    match &reg.refresh_warnings()[0] {
        RefreshWarning::Unreachable { hint, .. } => assert_eq!(*hint, FailureHint::Unresponsive),
        _ => panic!("expected an unreachable server"),
    }
}
