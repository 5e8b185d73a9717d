use telllm::llm::{CompletionError, LlmClient, Message};

#[test]
fn url_and_authorization() {
    let c = LlmClient::new("http://h:1/v1".to_string(), "m".to_string(), String::new());
    assert_eq!(c.completions_url(), "http://h:1/v1/chat/completions");
    assert!(c.authorization().is_none());
    let k = LlmClient::new("e".to_string(), "m".to_string(), "abc".to_string());
    assert_eq!(k.authorization().as_deref(), Some("Bearer abc"));
}

#[test]
fn success_statuses() {
    assert!(LlmClient::is_success(200));
    assert!(LlmClient::is_success(299));
    assert!(!LlmClient::is_success(199));
    assert!(!LlmClient::is_success(300));
    assert!(!LlmClient::is_success(500));
}

#[test]
fn first_reply_of_choices() {
    let r = LlmClient::first_reply(vec!["a".to_string(), "b".to_string()]);
    assert_eq!(r.ok().as_deref(), Some("a"));
    assert!(matches!(LlmClient::first_reply(vec![]), Err(CompletionError::NoChoices)));
}

#[test]
fn error_descriptions() {
    assert_eq!(CompletionError::Transport.describe(), "Failed to send request to LLM");
    assert_eq!(CompletionError::Malformed.describe(), "Failed to parse LLM response");
    assert_eq!(CompletionError::NoChoices.describe(), "No response from LLM");
    let e = CompletionError::Api { status: "503 Service Unavailable".to_string(), body: "busy".to_string() };
    assert_eq!(e.describe(), "LLM API error 503 Service Unavailable: busy");
}

#[test]
fn message_roles() {
    assert_eq!(Message::system("s".to_string()).role, "system");
    assert_eq!(Message::user("u".to_string()).role, "user");
    let a = Message::assistant("x".to_string());
    assert_eq!(a.role, "assistant");
    assert_eq!(a.content, "x");
}
