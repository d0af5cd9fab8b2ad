use kiwix_chat::agent::AgentEvent;
use kiwix_chat::tui::app::{Action, App, DisplayKind, Key, KeyInput};

fn app() -> App {
    App::new("m".to_string(), "http://l/v1".to_string(), "http://k".to_string(), true, "eng".to_string(), 6)
}

fn key(k: Key) -> KeyInput {
    KeyInput { key: k, ctrl: false, release: false }
}

#[test]
fn greets_on_start() {
    let a = app();
    assert_eq!(a.messages.len(), 1);
    assert_eq!(a.messages[0].kind, DisplayKind::Info);
    assert!(a.messages[0].text.starts_with("Connected to LLM 'm' at http://l/v1. Kiwix: http://k (reachable)."));
}

#[test]
fn typing_and_enter_start_a_turn() {
    let mut a = app();
    a.on_key(key(Key::Char('h')));
    a.on_key(key(Key::Char('i')));
    assert_eq!(a.input, "hi");
    assert_eq!(a.on_key(key(Key::Enter)), Action::StartTurn("hi".to_string()));
    assert!(a.busy);
    assert_eq!(a.input, "");
    // While busy, Esc asks the turn to stop.
    assert_eq!(a.on_key(key(Key::Esc)), Action::Interrupt);
}

#[test]
fn streamed_tokens_build_one_answer() {
    let mut a = app();
    a.on_key(key(Key::Char('q')));
    a.on_key(key(Key::Enter));
    a.on_agent_event(AgentEvent::Token("Hel".to_string()));
    a.on_agent_event(AgentEvent::Token("lo".to_string()));
    a.on_agent_event(AgentEvent::Done);
    let last = a.messages.last().unwrap();
    assert_eq!((last.kind, last.text.as_str()), (DisplayKind::Assistant, "Hello"));
    assert!(!a.busy);
}

#[test]
fn interruption_and_errors_are_reported() {
    let mut a = app();
    a.on_key(key(Key::Char('q')));
    a.on_key(key(Key::Enter));
    a.on_agent_event(AgentEvent::Interrupted);
    assert_eq!(a.messages.last().unwrap().text, "Interrupted.");
    a.on_key(key(Key::Char('q')));
    a.on_key(key(Key::Enter));
    a.on_agent_event(AgentEvent::Error("LLM error: x".to_string()));
    let last = a.messages.last().unwrap();
    assert_eq!((last.kind, last.text.as_str()), (DisplayKind::Error, "LLM error: x"));
}

#[test]
fn commands() {
    let mut a = app();
    for c in "/clear".chars() {
        a.on_key(key(Key::Char(c)));
    }
    assert_eq!(a.on_key(key(Key::Enter)), Action::ClearHistory);
    assert_eq!(a.messages.last().unwrap().text, "Conversation cleared.");
    for c in "/quit".chars() {
        a.on_key(key(Key::Char(c)));
    }
    a.on_key(key(Key::Enter));
    assert!(a.should_quit);
}
