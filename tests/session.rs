use telllm::llm::CompletionError;
use telllm::session::{name_from_summary, Command, CommandResult, LineAction, SessionState};

const BASE: &str = "You are a helpful AI assistant.";

fn roles(s: &SessionState) -> Vec<String> {
    s.messages.iter().map(|m| m.role.clone()).collect()
}

#[test]
fn new_state_holds_system_prompt_only() {
    let s = SessionState::new(BASE, None);
    assert_eq!(s.messages.len(), 1);
    assert_eq!(s.messages[0].role, "system");
    assert_eq!(s.messages[0].content, BASE);
    assert!(s.user_name.is_none());
}

#[test]
fn new_state_with_name_augments_prompt() {
    let s = SessionState::new(BASE, Some("Ann".to_string()));
    assert_eq!(
        s.messages[0].content,
        "You are a helpful AI assistant.\n\nThe user's name is Ann. Address them by name when appropriate."
    );
}

#[test]
fn build_system_prompt_exact() {
    assert_eq!(SessionState::build_system_prompt("P", None), "P");
    assert_eq!(
        SessionState::build_system_prompt("P", Some("Z")),
        "P\n\nThe user's name is Z. Address them by name when appropriate."
    );
}

#[test]
fn chat_turns_alternate_after_replies() {
    let mut s = SessionState::new(BASE, None);
    for (i, text) in ["one", "two", "three"].iter().enumerate() {
        let a = s.on_line(text, BASE);
        assert!(matches!(a, LineAction::Chat(ref t) if t == text));
        let out = s.on_reply(Ok(format!("reply {}", i)));
        assert_eq!(out, format!("AI: reply {}\n", i));
        assert_eq!(s.messages.len(), 1 + 2 * (i + 1));
    }
    assert_eq!(
        roles(&s),
        vec!["system", "user", "assistant", "user", "assistant", "user", "assistant"]
    );
    assert_eq!(s.messages[5].content, "three");
}

#[test]
fn clear_reduces_to_system_turn() {
    let mut s = SessionState::new(BASE, None);
    for t in ["a", "b"] {
        s.on_line(t, BASE);
        s.on_reply(Ok("r".to_string()));
    }
    assert_eq!(s.messages.len(), 5);
    let r = s.handle_command("/clear", BASE);
    assert!(matches!(r, CommandResult::Message(ref m) if m == "\nConversation cleared.\n"));
    assert_eq!(s.messages.len(), 1);
    assert_eq!(s.messages[0].content, BASE);
}

#[test]
fn name_then_clear_keeps_named_prompt() {
    let mut s = SessionState::new(BASE, None);
    s.on_line("hello", BASE);
    s.on_reply(Ok("hi".to_string()));
    let r = s.handle_command("/name Alice", BASE);
    assert!(matches!(r, CommandResult::SaveName(ref n) if n == "Alice"));
    assert_eq!(s.user_name.as_deref(), Some("Alice"));
    s.handle_command("/clear", BASE);
    assert_eq!(s.messages.len(), 1);
    assert_eq!(s.messages[0].role, "system");
    assert_eq!(
        s.messages[0].content,
        SessionState::build_system_prompt(BASE, Some("Alice"))
    );
}

#[test]
fn name_without_argument_is_usage() {
    let mut s = SessionState::new(BASE, None);
    let r = s.handle_command("/name", BASE);
    assert!(matches!(r, CommandResult::Message(ref m) if m == "\nUsage: /name <your name>\n"));
    assert!(s.user_name.is_none());
    assert_eq!(s.messages[0].content, BASE);
}

#[test]
fn name_argument_is_trimmed() {
    assert!(matches!(SessionState::parse_command("/name   Bob  "), Command::Name(ref n) if n == "Bob"));
}

#[test]
fn quit_words_case_insensitive() {
    for w in ["/quit", "/exit", "/q", "/QUIT", "/Exit"] {
        assert!(matches!(SessionState::parse_command(w), Command::Quit), "{}", w);
    }
    let mut s = SessionState::new(BASE, None);
    assert!(matches!(s.handle_command("/Q", BASE), CommandResult::Quit));
}

#[test]
fn unknown_command_is_reported_lowercased() {
    let mut s = SessionState::new(BASE, None);
    let r = s.handle_command("/Foo bar", BASE);
    assert!(matches!(r, CommandResult::Message(ref m) if m == "\nUnknown command: /foo\n"));
    assert_eq!(s.messages.len(), 1);
}

#[test]
fn help_then_hello() {
    let mut s = SessionState::new(BASE, None);
    let a = s.on_line("/help", BASE);
    match a {
        LineAction::Command(CommandResult::Message(m)) => {
            assert!(m.contains("/name <your name>  - Set your name"));
            assert!(m.contains("/clear             - Clear conversation history"));
            assert!(m.contains("/quit              - Disconnect"));
        }
        _ => panic!("expected the command list"),
    }
    assert_eq!(s.messages.len(), 1);
    let b = s.on_line("hello", BASE);
    assert!(matches!(b, LineAction::Chat(ref t) if t == "hello"));
    s.on_reply(Ok("Hi there".to_string()));
    assert_eq!(s.messages.len(), 3);
    assert!(matches!(SessionState::parse_command("/?"), Command::Help));
}

#[test]
fn empty_line_only_prompts() {
    let mut s = SessionState::new(BASE, None);
    assert!(matches!(s.on_line("", BASE), LineAction::Prompt));
    assert!(matches!(s.on_line("   \t", BASE), LineAction::Prompt));
    assert_eq!(s.messages.len(), 1);
}

#[test]
fn chat_input_is_trimmed() {
    let mut s = SessionState::new(BASE, None);
    let a = s.on_line("  hi there \r\n", BASE);
    assert!(matches!(a, LineAction::Chat(ref t) if t == "hi there"));
    assert_eq!(s.messages[1].content, "hi there");
}

#[test]
fn failed_completion_keeps_conversation() {
    let mut s = SessionState::new(BASE, None);
    s.on_line("hello", BASE);
    assert_eq!(s.messages.len(), 2);
    let out = s.on_reply(Err(CompletionError::Api {
        status: "500 Internal Server Error".to_string(),
        body: "overloaded".to_string(),
    }));
    assert!(out.contains("Sorry, I encountered an error"));
    assert!(out.contains("overloaded"));
    assert_eq!(
        out,
        "AI: Sorry, I encountered an error: LLM API error 500 Internal Server Error: overloaded\n"
    );
    assert_eq!(s.messages.len(), 2);
    assert_eq!(s.messages[1].role, "user");
}

#[test]
fn display_name_and_greeting() {
    let s = SessionState::new(BASE, None);
    assert_eq!(s.display_name(), "User");
    assert!(s.greeting().is_none());
    let t = SessionState::new(BASE, Some("Kim".to_string()));
    assert_eq!(t.display_name(), "Kim");
    assert_eq!(t.greeting().as_deref(), Some("\nWelcome back, Kim!\n\n"));
}

#[test]
fn name_outcome_texts() {
    assert_eq!(SessionState::name_outcome("Bo", Ok(())), "\nName set to: Bo\n");
    assert_eq!(
        SessionState::name_outcome("Bo", Err("disk full".to_string())),
        "\nError saving name: disk full\n"
    );
}

#[test]
fn update_user_name_rebuilds_prompt() {
    let mut s = SessionState::new(BASE, Some("Old".to_string()));
    s.update_user_name("New", BASE);
    assert_eq!(s.user_name.as_deref(), Some("New"));
    assert_eq!(s.messages[0].content, SessionState::build_system_prompt(BASE, Some("New")));
}

#[test]
fn name_from_summary_last_line_wins() {
    assert_eq!(name_from_summary("name: Bob\nlast_seen: 01-02-2024 10:00:00\n").as_deref(), Some("Bob"));
    assert_eq!(name_from_summary("NAME:   Eve  \nName: Zed\n").as_deref(), Some("Zed"));
    assert_eq!(name_from_summary("last_seen: x\n"), None);
    assert_eq!(name_from_summary(""), None);
}

#[test]
fn command_word_ends_at_any_whitespace() {
    assert!(matches!(SessionState::parse_command("/name\tBob"), Command::Name(ref n) if n == "Bob"));
    assert!(matches!(SessionState::parse_command("/clear\u{3000}now"), Command::Clear));
    let mut s = SessionState::new(BASE, None);
    let r = s.on_line("/NAME\tAlice ", BASE);
    assert!(matches!(r, LineAction::Command(CommandResult::SaveName(ref n)) if n == "Alice"));
}

#[test]
fn command_of_lowered_word() {
    assert!(matches!(SessionState::command_of("/help".to_string(), "/HELP"), Command::Help));
    assert!(matches!(SessionState::command_of("/q".to_string(), "/q"), Command::Quit));
    assert!(matches!(
        SessionState::command_of("/name".to_string(), "/Name  Jo Ann "),
        Command::Name(ref n) if n == "Jo Ann"
    ));
    assert!(matches!(SessionState::command_of("/name".to_string(), "/name"), Command::Name(ref n) if n.is_empty()));
    assert!(matches!(SessionState::command_of("/x".to_string(), "/X"), Command::Unknown(ref w) if w == "/x"));
}

#[test]
fn on_input_takes_trimmed_text() {
    let mut s = SessionState::new(BASE, None);
    assert!(matches!(s.on_input("", BASE), LineAction::Prompt));
    assert!(matches!(s.on_input("hey", BASE), LineAction::Chat(ref t) if t == "hey"));
    assert_eq!(s.messages.len(), 2);
}

#[test]
fn trimming_unicode_whitespace() {
    assert_eq!(telllm::text::trimmed("\u{a0}\u{2003} hi \u{3000}\n"), "hi");
    assert_eq!(telllm::text::trimmed(""), "");
    assert_eq!(telllm::text::trimmed("a b"), "a b");
    assert_eq!(telllm::text::trimmed("\u{200b}x"), "\u{200b}x");
}

#[test]
fn whitespace_agrees_with_std_on_every_char() {
    for c in (0u32..=0x10FFFF).filter_map(char::from_u32) {
        assert_eq!(telllm::text::is_white_space(c), c.is_whitespace(), "{:?}", c);
    }
    for s in ["\u{85}x\u{85}", "\u{1680}\u{202f}y\u{205f}", "\t\r\n z \u{b}\u{c}", "\u{2028}\u{2029}"] {
        assert_eq!(telllm::text::trimmed(s), s.trim());
    }
}
