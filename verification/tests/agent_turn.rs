use kiwix_chat::agent::research::{
    interrupted_answer, invalid_research_args, nested_summary, researched_summary, researching_summary,
    tool_failure, Research, ResearchStep,
};
use kiwix_chat::agent::turn::{Turn, TurnStep, LIMIT_SUMMARY, WRAP_UP_PROMPT};
use kiwix_chat::agent::AgentEvent;
use kiwix_chat::llm::{ChatMessage, FunctionCall, Role, ToolCall};

fn call(id: &str, name: &str) -> ToolCall {
    ToolCall {
        id: id.to_string(),
        kind: "function".to_string(),
        function: FunctionCall { name: name.to_string(), arguments: "{}".to_string() },
    }
}

fn reply(content: Option<&str>, calls: Vec<ToolCall>) -> ChatMessage {
    ChatMessage {
        role: Role::Assistant,
        content: content.map(|s| s.to_string()),
        tool_calls: if calls.is_empty() { None } else { Some(calls) },
        tool_call_id: None,
    }
}

#[test]
fn a_turn_runs_tools_then_answers() {
    let mut messages = vec![ChatMessage::system("sys"), ChatMessage::user("q")];
    let mut t = Turn::new(3, &messages);
    assert_eq!(t.next(false, &mut messages), TurnStep::Request { tools: true });
    let step = t.replied(reply(None, vec![call("a", "list_books")]), false, &mut messages);
    assert_eq!(step, TurnStep::RunTool(call("a", "list_books")));
    let step = t.tool_done("books".to_string(), "Listed 0 book(s)".to_string(), &mut messages);
    assert_eq!(step, TurnStep::Emit(AgentEvent::ToolFinished { summary: "Listed 0 book(s)".to_string() }));
    assert_eq!(messages.last().unwrap().tool_call_id.as_deref(), Some("a"));
    assert_eq!(t.next(false, &mut messages), TurnStep::Request { tools: true });
    let step = t.replied(reply(Some("done"), vec![]), false, &mut messages);
    assert_eq!(step, TurnStep::Finish(AgentEvent::Done));
    assert_eq!(messages.len(), 5);
}

#[test]
fn the_last_round_wraps_up_without_tools() {
    let mut messages = vec![ChatMessage::user("q")];
    let mut t = Turn::new(1, &messages);
    assert_eq!(t.next(false, &mut messages), TurnStep::Request { tools: true });
    let step = t.replied(reply(None, vec![call("a", "calculate")]), false, &mut messages);
    assert_eq!(step, TurnStep::Emit(AgentEvent::ToolFinished { summary: LIMIT_SUMMARY.to_string() }));
    assert_eq!(t.next(false, &mut messages), TurnStep::Request { tools: false });
    assert_eq!(messages.last().unwrap().content.as_deref(), Some(WRAP_UP_PROMPT));
    assert_eq!(t.replied(reply(Some("final"), vec![]), false, &mut messages), TurnStep::Finish(AgentEvent::Done));
}

#[test]
fn cancelling_keeps_only_partial_text() {
    let mut messages = vec![ChatMessage::user("q")];
    let mut t = Turn::new(2, &messages);
    t.next(false, &mut messages);
    let step = t.replied(reply(Some("  "), vec![call("a", "calculate")]), true, &mut messages);
    assert_eq!(step, TurnStep::Finish(AgentEvent::Interrupted));
    let last = messages.last().unwrap();
    assert_eq!(last.content.as_deref(), Some("(interrupted)"));
    assert!(last.tool_calls.is_none());
    let mut t = Turn::new(2, &messages);
    assert_eq!(t.next(true, &mut messages), TurnStep::Finish(AgentEvent::Interrupted));
}

#[test]
fn failed_requests_end_the_turn() {
    let mut messages = vec![ChatMessage::user("q")];
    let mut t = Turn::new(2, &messages);
    t.next(false, &mut messages);
    assert_eq!(t.failed("timeout"), TurnStep::Finish(AgentEvent::Error("LLM error: timeout".to_string())));
}

#[test]
fn research_answers_with_the_last_text() {
    let mut r = Research::new("http://k", "why?", 2);
    assert_eq!(r.messages.len(), 2);
    assert!(r.messages[0].content.as_deref().unwrap().contains("http://k/content/<zim_name>/<path>"));
    assert_eq!(r.next(false), ResearchStep::Request { tools: true });
    let step = r.replied(reply(Some("draft"), vec![call("a", "search_wikipedia")]), false);
    assert_eq!(step, ResearchStep::RunTool(call("a", "search_wikipedia")));
    let step = r.tool_done("hits".to_string(), "Searched");
    assert_eq!(step, ResearchStep::Emit(AgentEvent::ToolFinished { summary: "↳ Searched".to_string() }));
    assert_eq!(r.next(false), ResearchStep::Request { tools: true });
    // Round limit reached with tools pending: a tool-free wrap-up request.
    let step = r.replied(reply(None, vec![call("b", "read_article")]), false);
    assert_eq!(step, ResearchStep::Request { tools: false });
    assert_eq!(r.replied(reply(Some(" "), vec![]), false), ResearchStep::Answer("draft".to_string()));
}

#[test]
fn research_interruptions_and_failures() {
    assert_eq!(interrupted_answer("  ".to_string()), "(research interrupted before an answer was produced)");
    assert_eq!(interrupted_answer("part".to_string()), "part");
    let mut r = Research::new("http://k", "q", 3);
    assert_eq!(
        r.next(true),
        ResearchStep::Answer("(research interrupted before an answer was produced)".to_string())
    );
    let mut r = Research::new("http://k", "q", 3);
    r.next(false);
    assert_eq!(r.failed("down"), ResearchStep::Answer("Research failed: LLM error: down".to_string()));
    let mut r = Research::new("http://k", "q", 0);
    assert_eq!(r.next(false), ResearchStep::Request { tools: false });
}

#[test]
fn research_status_lines() {
    assert_eq!(researching_summary("q"), "↳ researching: \"q\"");
    assert_eq!(researched_summary("q"), "↳ researched: \"q\"");
    assert_eq!(nested_summary("x"), "↳ x");
    assert_eq!(
        invalid_research_args("missing field"),
        (
            "Error running research: invalid arguments: missing field".to_string(),
            "research failed: missing field".to_string()
        )
    );
    assert_eq!(
        tool_failure("read_article", "HTTP 404: not found", "HTTP 404"),
        ("Error running read_article: HTTP 404: not found".to_string(), "read_article failed: HTTP 404".to_string())
    );
}

#[test]
fn research_cancelled_before_first_step_sends_nothing() {
    let mut r = Research::new("http://k", "why?", 3);
    assert_eq!(
        r.next(true),
        ResearchStep::Answer("(research interrupted before an answer was produced)".to_string())
    );
    assert_eq!(r.messages.len(), 2);
}

#[test]
fn research_without_rounds_wraps_up_at_once() {
    let mut r = Research::new("http://k", "why?", 0);
    assert_eq!(r.next(false), ResearchStep::Request { tools: false });
    assert_eq!(r.messages.len(), 3);
}
