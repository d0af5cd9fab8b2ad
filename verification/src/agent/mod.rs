//! The research agent: the events it reports, its tools, and the decisions of
//! its multi-round tool-calling loop.
pub mod research;
pub mod tools;
pub mod turn;

use vstd::prelude::*;

verus! {

/// How much article text (in characters) a single `read_article` call may return.
pub const ARTICLE_MAX_CHARS: usize = 8000;

/// Default number of search hits requested per `search_wikipedia` call.
pub const DEFAULT_SEARCH_LIMIT: usize = 8;

/// System prompt instructing the agent to ground answers in the local Kiwix library.
pub const SYSTEM_PROMPT: &'static str = "You are a helpful research assistant with access to a local, offline Wikipedia (Kiwix) library through tools. Answer the user's questions using ONLY information you retrieve from that library.

Guidelines:
- Use `search_wikipedia` to find relevant articles, then `read_article` to read the most promising ones before answering. Use `list_books` if you are unsure what corpora or languages are available.
- Prefer reading at least one article rather than answering from the search snippets alone.
- Base your answer strictly on the retrieved content. If the library does not contain enough information, say so plainly rather than inventing facts.
- Cite the article titles you relied on at the end of your answer.
- Be concise and factual. Do not mention the tool mechanics unless asked.";

/// Updates emitted by the agent loop for the UI to render.
#[derive(Debug, Clone, PartialEq)]
pub enum AgentEvent {
    /// A fragment of the assistant's answer text.
    Token(String),
    /// A fragment of the assistant's reasoning/thinking trace.
    Reasoning(String),
    /// A tool call has finished (dim status line).
    ToolFinished { summary: String },
    /// A `research` sub-agent finished; carries the question and its full answer
    /// for display as a collapsible block (kept out of the streamed transcript).
    SubagentAnswer { question: String, answer: String },
    /// Token usage reported by the backend for the latest request.
    Usage { prompt_tokens: u32, completion_tokens: u32 },
    /// The turn completed successfully.
    Done,
    /// The turn was cancelled by the user before it finished.
    Interrupted,
    /// The turn failed; carries a user-facing message.
    Error(String),
}

/// Outcome of a tool call: the string returned to the model plus a short human summary for the UI.
#[derive(Debug, Clone, PartialEq)]
pub struct ToolOutcome {
    pub content: String,
    pub summary: String,
}

} // verus!
