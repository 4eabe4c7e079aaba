use llama_desktop::json::JsonValue;
use llama_desktop::mcp::{
    apply_allowlist_by_field, build_server_from_object, default_tavily_config, extract_list,
    parse_mcp_server_from_value, parse_string_list, parse_transport, ConnectPlan, McpConfig,
    McpRegistry, McpServerConfig, McpTransport,
};

fn obj(fields: Vec<(&str, JsonValue)>) -> JsonValue {
    JsonValue::Obj(fields.into_iter().map(|(k, v)| (k.to_string(), v)).collect())
}

fn s(text: &str) -> JsonValue {
    JsonValue::Str(text.to_string())
}

fn sample_server(id: &str, url: &str) -> McpServerConfig {
    McpServerConfig {
        id: id.to_string(),
        name: "Test".to_string(),
        enabled: true,
        transport: McpTransport::HttpSse,
        command: None,
        args: None,
        cwd: None,
        env: None,
        url: Some(url.to_string()),
        headers: None,
        tool_allowlist: None,
        resource_allowlist: None,
    }
}

#[test]
fn extract_list_handles_array_and_object() {
    let from_obj = extract_list(
        &obj(vec![("tools", JsonValue::Arr(vec![JsonValue::Num("1".to_string()),
            JsonValue::Num("2".to_string())]))]),
        "tools",
    );
    assert_eq!(from_obj.len(), 2);
    let from_arr = extract_list(
        &JsonValue::Arr(vec![
            JsonValue::Num("1".to_string()),
            JsonValue::Num("2".to_string()),
            JsonValue::Num("3".to_string()),
        ]),
        "tools",
    );
    assert_eq!(from_arr.len(), 3);
    let empty = extract_list(&obj(vec![("nope", JsonValue::Arr(vec![]))]), "tools");
    assert!(empty.is_empty());
}

#[test]
fn apply_allowlist_by_field_filters_items() {
    let items = vec![obj(vec![("name", s("alpha"))]), obj(vec![("name", s("beta"))])];
    let allowed = apply_allowlist_by_field(items, &vec!["beta".to_string()], "name");
    assert_eq!(allowed.len(), 1);
    assert_eq!(allowed[0].get("name"), Some(&s("beta")));
}

#[test]
fn apply_allowlist_by_field_allows_all_when_empty() {
    let items = vec![obj(vec![("name", s("alpha"))])];
    let expected = vec![obj(vec![("name", s("alpha"))])];
    let allowed = apply_allowlist_by_field(items, &vec![], "name");
    assert_eq!(allowed, expected);
}

#[test]
fn test_default_mcp_config() {
    let config = McpConfig::default();
    assert_eq!(config.servers.len(), 0);
}

#[test]
fn default_tavily_config_ships_one_remote_server() {
    let config = default_tavily_config();
    assert_eq!(config.servers.len(), 1);
    assert_eq!(config.servers[0].id, "tavily");
    assert_eq!(config.servers[0].transport, McpTransport::HttpSse);
    assert!(config.servers[0].enabled);
}

#[test]
fn add_update_remove_server_flow() {
    let mut registry = McpRegistry::new(McpConfig::default());
    let server = sample_server("one", "http://localhost");
    registry.add_server(server.dup()).expect("add");
    let err = registry.add_server(server.dup()).expect_err("dup");
    assert!(err.contains("same id"));

    let mut updated = server.dup();
    updated.name = "Updated".to_string();
    registry.update_server(updated).expect("update");
    assert_eq!(registry.list_servers()[0].name, "Updated");

    let missing = sample_server("two", "http://localhost");
    let err = registry.update_server(missing).expect_err("missing");
    assert!(err.contains("Server not found"));

    registry.remove_server("one").expect("remove");
    assert_eq!(registry.list_servers().len(), 0);
}

#[test]
fn connect_plan_validates_configuration() {
    let mut registry = McpRegistry::new(McpConfig::default());
    let err = registry.connect_plan("missing").expect_err("no server");
    assert!(err.contains("Server not found"));

    let mut disabled = sample_server("one", "http://localhost");
    disabled.enabled = false;
    registry.add_server(disabled).expect("add");
    let err = registry.connect_plan("one").expect_err("disabled");
    assert!(err.contains("disabled"));

    let mut stdio = sample_server("two", "");
    stdio.transport = McpTransport::Stdio;
    stdio.url = None;
    registry.add_server(stdio).expect("add");
    let err = registry.connect_plan("two").expect_err("missing command");
    assert!(err.contains("Missing command"));

    let mut http = sample_server("three", "");
    http.url = None;
    registry.add_server(http).expect("add");
    let err = registry.connect_plan("three").expect_err("missing url");
    assert!(err.contains("Missing url"));

    registry.add_server(sample_server("four", "http://localhost:9000")).expect("add");
    match registry.connect_plan("four").expect("plan") {
        ConnectPlan::Http { url, .. } => assert_eq!(url, "http://localhost:9000"),
        _ => panic!("expected an HTTP plan"),
    }
}

#[test]
fn status_reports_connected_and_disconnected() {
    let mut registry = McpRegistry::new(McpConfig::default());
    registry.add_server(sample_server("one", "http://a")).expect("add");
    registry.add_server(sample_server("two", "http://b")).expect("add");
    registry.register_connection("one");

    let status = registry.status(None);
    assert_eq!(status.len(), 2);
    assert!(status[0].connected);
    assert_eq!(status[0].id, "one");
    assert!(!status[1].connected);
    assert_eq!(status[1].tools_cached, 0);

    let just_two = registry.status(Some("two".to_string()));
    assert_eq!(just_two.len(), 1);
    assert_eq!(just_two[0].id, "two");

    registry.disconnect("one").expect("disconnect");
    let after = registry.status(Some("one".to_string()));
    assert!(!after[0].connected);
}

#[test]
fn listing_respects_tool_allowlist() {
    // One HttpSse server with toolAllowlist ["allowed"]; the remote lists
    // one allowed and one blocked tool: only the allowed one survives, and
    // calling the blocked one fails even though the remote would serve it.
    let mut registry = McpRegistry::new(McpConfig::default());
    let mut server = sample_server("one", "http://remote");
    server.tool_allowlist = Some(vec!["allowed".to_string()]);
    registry.add_server(server).expect("add");

    let err = registry.listing_prepare("one", true).expect_err("not connected");
    assert!(err.contains("Server not connected"));

    registry.register_connection("one");
    let allowlist = registry.listing_prepare("one", true).expect("prepare");
    assert_eq!(allowlist, vec!["allowed".to_string()]);

    let remote_result = obj(vec![(
        "tools",
        JsonValue::Arr(vec![
            obj(vec![("name", s("allowed"))]),
            obj(vec![("name", s("blocked"))]),
        ]),
    )]);
    let tools = registry
        .listing_finish("one", true, &allowlist, &remote_result, "tools", "name")
        .expect("finish");
    assert_eq!(tools.len(), 1);
    assert_eq!(tools[0].get("name"), Some(&s("allowed")));

    let err = registry
        .invoke_check("one", "blocked", None, true)
        .expect_err("blocked tool");
    assert!(err.contains("not allowed"));
    let params = registry
        .invoke_check("one", "allowed", Some(obj(vec![])), true)
        .expect("allowed tool");
    assert_eq!(params.get("name"), Some(&s("allowed")));
}

#[test]
fn resource_reads_respect_resource_allowlist() {
    let mut registry = McpRegistry::new(McpConfig::default());
    let mut server = sample_server("one", "http://remote");
    server.resource_allowlist = Some(vec!["file://two".to_string()]);
    registry.add_server(server).expect("add");
    registry.register_connection("one");

    let err = registry
        .invoke_check("one", "file://one", None, false)
        .expect_err("blocked resource");
    assert!(err.contains("Resource not allowed"));
    let params = registry.invoke_check("one", "file://two", None, false).expect("allowed");
    assert_eq!(params.get("uri"), Some(&s("file://two")));
}

#[test]
fn import_parses_transport_names() {
    assert_eq!(parse_transport(Some(&s("stdio"))), Some(McpTransport::Stdio));
    assert_eq!(parse_transport(Some(&s("LOCAL"))), Some(McpTransport::Stdio));
    assert_eq!(parse_transport(Some(&s("http_sse"))), Some(McpTransport::HttpSse));
    assert_eq!(parse_transport(Some(&s("sse"))), Some(McpTransport::HttpSse));
    assert_eq!(parse_transport(Some(&s("carrier-pigeon"))), None);
    assert_eq!(parse_transport(None), None);
}

#[test]
fn import_parses_string_lists() {
    let list = parse_string_list(Some(&JsonValue::Arr(vec![s("a"), JsonValue::Null, s("b")])));
    assert_eq!(list, Some(vec!["a".to_string(), "b".to_string()]));
    assert_eq!(parse_string_list(Some(&s("solo"))), Some(vec!["solo".to_string()]));
    assert_eq!(parse_string_list(Some(&JsonValue::Arr(vec![]))), None);
    assert_eq!(parse_string_list(None), None);
}

#[test]
fn import_builds_server_from_object() {
    let v = obj(vec![
        ("id", s("search")),
        ("transport", s("http")),
        ("url", s("http://remote")),
    ]);
    let server = build_server_from_object(&v).expect("server");
    assert_eq!(server.id, "search");
    assert_eq!(server.name, "search");
    assert!(server.enabled);
    assert_eq!(server.transport, McpTransport::HttpSse);
    assert_eq!(server.url.as_deref(), Some("http://remote"));
}

#[test]
fn import_finds_server_in_nested_payloads() {
    let inner = obj(vec![("id", s("x")), ("transport", s("stdio")), ("command", s("run"))]);
    let wrapped = obj(vec![("servers", JsonValue::Arr(vec![inner]))]);
    let payload = JsonValue::Arr(vec![wrapped]);
    let server = parse_mcp_server_from_value(&payload).expect("server");
    assert_eq!(server.id, "x");
    assert_eq!(server.transport, McpTransport::Stdio);
    assert_eq!(server.command.as_deref(), Some("run"));
}

#[test]
fn import_reads_legacy_server_maps() {
    let entry = obj(vec![("command", s("uvx tool"))]);
    let payload = obj(vec![("mcpServers", obj(vec![("legacy", entry)]))]);
    let server = parse_mcp_server_from_value(&payload).expect("server");
    assert_eq!(server.id, "legacy");
    assert_eq!(server.name, "legacy");
    assert_eq!(server.transport, McpTransport::HttpSse);
    assert_eq!(server.command.as_deref(), Some("uvx tool"));
}

#[test]
fn listing_prepare_requires_known_server() {
    let registry = McpRegistry::new(McpConfig::default());
    let err = registry.listing_prepare("ghost", true).expect_err("unknown");
    assert!(err.contains("Server not found"));
}

#[test]
fn invoke_check_requires_connection() {
    let mut registry = McpRegistry::new(McpConfig::default());
    let err = registry.invoke_check("ghost", "t", None, true).expect_err("unknown");
    assert!(err.contains("Server not found"));
    registry.add_server(sample_server("one", "http://a")).expect("add");
    let err = registry.invoke_check("one", "t", None, true).expect_err("not connected");
    assert!(err.contains("Server not connected"));
}

#[test]
fn connect_plan_carries_stdio_details() {
    let mut registry = McpRegistry::new(McpConfig::default());
    let mut stdio = sample_server("one", "");
    stdio.transport = McpTransport::Stdio;
    stdio.url = None;
    stdio.command = Some("uvx".to_string());
    stdio.args = Some(vec!["tool".to_string()]);
    stdio.cwd = Some("/work".to_string());
    registry.add_server(stdio).expect("add");
    match registry.connect_plan("one").expect("plan") {
        ConnectPlan::Stdio { command, args, cwd, env } => {
            assert_eq!(command, "uvx");
            assert_eq!(args, vec!["tool".to_string()]);
            assert_eq!(cwd.as_deref(), Some("/work"));
            assert!(env.is_none());
        }
        _ => panic!("expected a stdio plan"),
    }
}
