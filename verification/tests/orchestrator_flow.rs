use llama_desktop::json::JsonValue;
use llama_desktop::models::ChatMessage;
use llama_desktop::orchestrator::{
    action_result_message, chunk_event, done_event, ensure_tool_system_prompt,
    extract_fenced_json, extract_mcp_ids, parse_action_json, parse_assistant_message,
    parse_mcp_token, prepare_regenerate_history, ActionPlan, SessionStore, StreamCollector,
    ToolTurn,
};

fn s(text: &str) -> JsonValue {
    JsonValue::Str(text.to_string())
}

fn obj(fields: Vec<(&str, JsonValue)>) -> JsonValue {
    JsonValue::Obj(fields.into_iter().map(|(k, v)| (k.to_string(), v)).collect())
}

#[test]
fn prepare_regenerate_history_validates_role() {
    let history = vec![
        ChatMessage::plain("user", "hi".to_string()),
        ChatMessage::plain("assistant", "hello".to_string()),
    ];
    let err = prepare_regenerate_history(&history, 0).expect_err("not assistant");
    assert!(err.contains("Target message is not an assistant"));
    let ok = prepare_regenerate_history(&history, 1).expect("ok");
    assert_eq!(ok.len(), 1);
}

#[test]
fn prepare_regenerate_history_errors_when_missing() {
    let history = vec![ChatMessage::plain("assistant", "hi".to_string())];
    let err = prepare_regenerate_history(&history, 2).expect_err("missing");
    assert!(err.contains("Message not found"));
}

#[test]
fn regenerate_rejections_leave_history_unchanged() {
    // An out-of-range index and a non-assistant target are both rejected,
    // and in both cases the history stays as it was.
    let mut store = SessionStore::new();
    store.set_session_history(
        "s1",
        vec![
            ChatMessage::plain("user", "Ask".to_string()),
            ChatMessage::plain("assistant", "Old".to_string()),
        ],
    );
    let history = vec![
        ChatMessage::plain("user", "Ask".to_string()),
        ChatMessage::plain("assistant", "Old".to_string()),
    ];
    assert!(prepare_regenerate_history(&history, 5).is_err());
    assert!(prepare_regenerate_history(&history, 0).is_err());
    assert_eq!(store.get_message("s1", 0).expect("kept").content, "Ask");
    assert_eq!(store.get_message("s1", 1).expect("kept").content, "Old");
}

#[test]
fn apply_regenerate_overwrites_in_place() {
    let mut store = SessionStore::new();
    store.set_session_history(
        "s1",
        vec![
            ChatMessage::plain("user", "Ask".to_string()),
            ChatMessage::plain("assistant", "Old".to_string()),
            ChatMessage::plain("user", "Later".to_string()),
        ],
    );
    store.apply_regenerate("s1", 1, "New answer".to_string()).expect("regenerate");
    let m = store.get_message("s1", 1).expect("message");
    assert_eq!(m.role, "assistant");
    assert_eq!(m.content, "New answer");
    // Later messages are untouched.
    assert_eq!(store.get_message("s1", 2).expect("kept").content, "Later");

    let err = store.apply_regenerate("s1", 9, "X".to_string()).expect_err("gone");
    assert!(err.contains("Message no longer exists"));
    let err = store.apply_regenerate("missing", 0, "X".to_string()).expect_err("no session");
    assert!(err.contains("Session not found"));
}

#[test]
fn session_crud_round_trip() {
    let mut store = SessionStore::new();
    assert!(store.get_message("s1", 0).is_none());
    store.set_session_history("s1", vec![ChatMessage::plain("user", "A".to_string())]);
    assert_eq!(store.get_message("s1", 0).expect("message").content, "A");
    store.clear_session("s1");
    assert!(store.get_message("s1", 0).is_none());
}

#[test]
fn streamed_chat_appends_full_response() {
    // Session s1, the user sends "Hi", the backend streams two chunks:
    // afterwards message 1 is the assistant's "Hello world", and exactly
    // one done event follows the chunk events.
    let mut store = SessionStore::new();
    let history = store.append_user_message("s1", "Hi".to_string());
    assert_eq!(history.len(), 1);

    let mut events: Vec<JsonValue> = Vec::new();
    let mut collector = StreamCollector::new();
    for chunk in ["Hello", " world"] {
        collector.push_chunk(chunk);
        events.push(chunk_event(chunk));
    }
    events.push(done_event());
    store.append_assistant_message("s1", collector.into_text());

    let m = store.get_message("s1", 1).expect("assistant message");
    assert_eq!(m.role, "assistant");
    assert_eq!(m.content, "Hello world");

    assert_eq!(events.len(), 3);
    let done_count = events
        .iter()
        .filter(|e| e.get("status") == Some(&s("done")))
        .count();
    assert_eq!(done_count, 1);
    assert_eq!(events[2].get("status"), Some(&s("done")));
    assert_eq!(events[0].get("chunk"), Some(&s("Hello")));
    assert_eq!(events[1].get("chunk"), Some(&s(" world")));
}

#[test]
fn mcp_tokens_are_extracted_and_stripped() {
    let (ids, cleaned) = extract_mcp_ids("@mcp:tavily please check /mcp:tavily and @mcp:other! now");
    assert_eq!(ids, vec!["tavily".to_string(), "other".to_string()]);
    assert_eq!(cleaned, "please check and now");
}

#[test]
fn mcp_token_parsing_trims_punctuation() {
    assert_eq!(parse_mcp_token("@mcp:server-1,"), Some("server-1".to_string()));
    assert_eq!(parse_mcp_token("/mcp:x"), Some("x".to_string()));
    assert_eq!(parse_mcp_token("@mcp:"), None);
    assert_eq!(parse_mcp_token("plain"), None);
}

#[test]
fn fenced_json_is_cut_between_braces() {
    assert_eq!(
        extract_fenced_json("Sure! {\"tool\":\"x\"} there"),
        Some("{\"tool\":\"x\"}".to_string())
    );
    assert_eq!(extract_fenced_json("no braces"), None);
    assert_eq!(extract_fenced_json("} reversed {"), None);
}

#[test]
fn actions_parse_from_plain_and_fenced_json() {
    let a = parse_action_json("{\"tool\":\"mcp.list_servers\"}").expect("action");
    assert_eq!(a.tool, "mcp.list_servers");
    let b = parse_action_json("Using a tool: {\"tool\":\"mcp.run\",\"server\":\"s\",\"resource\":\"r\"} now")
        .expect("fenced action");
    assert_eq!(b.tool, "mcp.run");
    assert_eq!(b.server.as_deref(), Some("s"));
    assert_eq!(b.resource.as_deref(), Some("r"));
    assert!(parse_action_json("a plain natural-language answer").is_none());
    assert!(parse_action_json("").is_none());
}

#[test]
fn assistant_message_comes_from_first_choice() {
    let response = obj(vec![(
        "choices",
        JsonValue::Arr(vec![obj(vec![(
            "message",
            obj(vec![("role", s("assistant")), ("content", s("Answer"))]),
        )])]),
    )]);
    let m = parse_assistant_message(&response).expect("message");
    assert_eq!(m.role, "assistant");
    assert_eq!(m.content, "Answer");
    assert!(parse_assistant_message(&obj(vec![])).is_none());
}

#[test]
fn tool_loop_requires_listing_before_browsing() {
    // Browsing before any listing in the same turn yields an instructive
    // error result, not a crash and not an execution.
    let turn = ToolTurn::new();
    let action = parse_action_json("{\"tool\":\"mcp.browse_resources\",\"server\":\"one\"}")
        .expect("action");
    match turn.plan_action(&action, &vec![]) {
        ActionPlan::Respond(v) => {
            assert_eq!(v.get("error"), Some(&s("Call mcp.list_servers first.")));
        }
        _ => panic!("expected the instructive error result"),
    }
}

#[test]
fn tool_loop_requires_browsing_before_running() {
    let mut turn = ToolTurn::new();
    turn.note_listed();
    let action = parse_action_json(
        "{\"tool\":\"mcp.run\",\"server\":\"one\",\"resource\":\"r\"}",
    )
    .expect("action");
    match turn.plan_action(&action, &vec![]) {
        ActionPlan::Respond(v) => match v.get("error") {
            Some(JsonValue::Str(msg)) => {
                assert!(msg.contains("Call mcp.browse_resources for 'one'"));
            }
            _ => panic!("expected the error text"),
        },
        _ => panic!("expected the instructive error result"),
    }
    turn.note_browsed("one");
    match turn.plan_action(&action, &vec![]) {
        ActionPlan::Run(server, resource, _args) => {
            assert_eq!(server, "one");
            assert_eq!(resource, "r");
        }
        _ => panic!("expected the run plan"),
    }
}

#[test]
fn tool_loop_enforces_allowed_servers() {
    let mut turn = ToolTurn::new();
    turn.note_listed();
    let action = parse_action_json("{\"tool\":\"mcp.browse_resources\",\"server\":\"rogue\"}")
        .expect("action");
    match turn.plan_action(&action, &vec!["tavily".to_string()]) {
        ActionPlan::Respond(v) => match v.get("error") {
            Some(JsonValue::Str(msg)) => assert!(msg.contains("not allowed")),
            _ => panic!("expected the error text"),
        },
        _ => panic!("expected the policy error result"),
    }
}

#[test]
fn tool_loop_round_cap_is_fatal() {
    let mut turn = ToolTurn::new();
    for _ in 0..8 {
        turn.next_round().expect("within the cap");
    }
    let err = turn.next_round().expect_err("over the cap");
    assert!(err.contains("Tool loop exceeded limit"));
}

#[test]
fn unknown_actions_get_instructive_errors() {
    let turn = ToolTurn::new();
    let action = parse_action_json("{\"tool\":\"mcp.teleport\"}").expect("action");
    match turn.plan_action(&action, &vec![]) {
        ActionPlan::Respond(v) => match v.get("error") {
            Some(JsonValue::Str(msg)) => {
                assert!(msg.contains("Unknown action 'mcp.teleport'"));
            }
            _ => panic!("expected the error text"),
        },
        _ => panic!("expected the error result"),
    }
}

#[test]
fn system_prompt_is_inserted_once() {
    let mut messages = vec![ChatMessage::plain("user", "Hi".to_string())];
    ensure_tool_system_prompt(&mut messages, &vec!["tavily".to_string()]);
    assert_eq!(messages.len(), 2);
    assert_eq!(messages[0].role, "system");
    assert!(messages[0].content.contains("mcp.list_servers"));
    assert!(messages[0].content.contains("[tavily]"));
    let before = messages.len();
    ensure_tool_system_prompt(&mut messages, &vec!["tavily".to_string()]);
    assert_eq!(messages.len(), before);
}

#[test]
fn action_results_feed_back_as_system_messages() {
    let result = obj(vec![("tool", s("mcp.list_servers"))]);
    let m = action_result_message(&result);
    assert_eq!(m.role, "system");
    assert!(m.content.starts_with("MCP_RESULT:\n"));
    assert!(m.content.contains("mcp.list_servers"));
    assert!(m.content.contains("Continue."));
}

#[test]
fn regenerate_at_fails_on_invalid_index() {
    let history = vec![ChatMessage::plain("assistant", "hi".to_string())];
    let err = prepare_regenerate_history(&history, 5).expect_err("should fail");
    assert!(err.contains("Message not found"));
}

#[test]
fn regenerate_at_fails_on_non_assistant_message() {
    let history = vec![ChatMessage::plain("user", "hi".to_string())];
    let err = prepare_regenerate_history(&history, 0).expect_err("should fail");
    assert!(err.contains("assistant"));
}
