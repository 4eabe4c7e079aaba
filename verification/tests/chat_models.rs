use llama_desktop::json::JsonValue;
use llama_desktop::models::{ChatChoice, ChatMessage, ChatRequest, ChatResponse};

#[test]
fn test_chat_message_creation() {
    let msg = ChatMessage::plain("user", "Hello".to_string());
    assert_eq!(msg.role, "user");
    assert_eq!(msg.content, "Hello");
}

#[test]
fn test_chat_message_clone() {
    let msg = ChatMessage::plain("system", "You are helpful".to_string());
    let cloned = msg.dup();
    assert_eq!(msg.role, cloned.role);
    assert_eq!(msg.content, cloned.content);
}

#[test]
fn test_chat_request_with_multiple_messages() {
    let request = ChatRequest::build(
        None,
        vec![
            ChatMessage::plain("system", "System prompt".to_string()),
            ChatMessage::plain("user", "User message".to_string()),
        ],
        500,
        1000,
        30,
        512,
        false,
    );
    assert_eq!(request.messages.len(), 2);
    assert_eq!(request.messages[0].role, "system");
    assert_eq!(request.messages[1].role, "user");
}

#[test]
fn test_chat_response_structure() {
    let response = ChatResponse {
        choices: vec![ChatChoice {
            message: ChatMessage::plain("assistant", "Response".to_string()),
            finish_reason: "stop".to_string(),
        }],
        usage: JsonValue::Null,
    };
    assert_eq!(response.choices.len(), 1);
    assert_eq!(response.choices[0].message.role, "assistant");
    assert_eq!(response.choices[0].finish_reason, "stop");
}

#[test]
fn chat_request_build_fixes_model_and_stream() {
    let request = ChatRequest::build(
        Some("session-123".to_string()),
        vec![ChatMessage::plain("user", "Test".to_string())],
        700,
        950,
        40,
        2048,
        true,
    );
    assert_eq!(request.model, "unknown");
    assert_eq!(request.session_id.as_deref(), Some("session-123"));
    assert!(request.stream);
    assert!(request.tools.is_none());
    assert!(request.tool_choice.is_none());
}
