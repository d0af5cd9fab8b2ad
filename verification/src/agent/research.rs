//! The `research` tool: an isolated sub-agent that answers one question in a
//! throwaway conversation, so bulky article text never enters the main one.
use vstd::prelude::*;

use crate::agent::AgentEvent;
use crate::llm::{message_view, ChatMessage, Role, ToolCall, ToolCallV};
use crate::agent::turn::{
    answers_call, calls_of, consistent, lemma_consistent_close, lemma_consistent_push, message_views,
};
use crate::text::{from_chars, owned, push_all, push_str, to_chars, trim, trim_chars};

verus! {

/// The request for a final, tool-free answer once the sub-agent's round limit is reached.
pub const RESEARCH_WRAP_UP_PROMPT: &'static str = "Please provide your best final answer now using the information gathered above, and end with the Sources section as instructed.";

/// The sub-agent's instructions: research one question in the library and
/// cite the articles it used, linked under `kiwix_base`.
pub open spec fn subagent_prompt(kiwix_base: Seq<char>) -> Seq<char> {
    "You are a research sub-agent with access to a local, offline Wikipedia (Kiwix) library through tools. Answer the single question you are given using ONLY information you retrieve from that library: search with `search_wikipedia`, read the most promising articles with `read_article`, and say plainly when the library does not contain the answer. Be concise and factual. End your answer with a Sources section that lists each article you relied on as a markdown link of the form [Title]("@
        + kiwix_base + "/content/<zim_name>/<path>)."@
}

/// The system prompt of a research sub-agent.
pub fn subagent_system_prompt(kiwix_base: &str) -> (r: String)
    ensures
        r@ == subagent_prompt(kiwix_base@),
{
    let mut v: Vec<char> = Vec::new();
    push_str(
        &mut v,
        "You are a research sub-agent with access to a local, offline Wikipedia (Kiwix) library through tools. Answer the single question you are given using ONLY information you retrieve from that library: search with `search_wikipedia`, read the most promising articles with `read_article`, and say plainly when the library does not contain the answer. Be concise and factual. End your answer with a Sources section that lists each article you relied on as a markdown link of the form [Title](",
    );
    push_str(&mut v, kiwix_base);
    push_str(&mut v, "/content/<zim_name>/<path>).");
    from_chars(v.as_slice())
}

/// The best available answer when a sub-agent is interrupted mid-flight.
pub open spec fn interrupted_answer_spec(partial: Seq<char>) -> Seq<char> {
    if trim(partial).len() == 0 {
        "(research interrupted before an answer was produced)"@
    } else {
        partial
    }
}

/// The best available answer when a sub-agent is interrupted mid-flight.
pub fn interrupted_answer(partial: String) -> (r: String)
    ensures
        r@ == interrupted_answer_spec(partial@),
{
    let v = to_chars(partial.as_str());
    let t = trim_chars(v.as_slice());
    if t.len() == 0 {
        owned("(research interrupted before an answer was produced)")
    } else {
        partial
    }
}

fn concat2(a: &str, b: &str) -> (r: String)
    ensures
        r@ == a@ + b@,
{
    let mut v: Vec<char> = Vec::new();
    push_str(&mut v, a);
    push_str(&mut v, b);
    from_chars(v.as_slice())
}

fn concat3(a: &str, b: &str, c: &str) -> (r: String)
    ensures
        r@ == a@ + b@ + c@,
{
    let mut v: Vec<char> = Vec::new();
    push_str(&mut v, a);
    push_str(&mut v, b);
    push_str(&mut v, c);
    from_chars(v.as_slice())
}

/// The status line shown when research on `question` starts.
pub fn researching_summary(question: &str) -> (r: String)
    ensures
        r@ == "↳ researching: \""@ + question@ + "\""@,
{
    concat3("↳ researching: \"", question, "\"")
}

/// The status line stored when research on `question` is done.
pub fn researched_summary(question: &str) -> (r: String)
    ensures
        r@ == "↳ researched: \""@ + question@ + "\""@,
{
    concat3("↳ researched: \"", question, "\"")
}

/// A sub-agent's tool status line, marked as nested.
pub fn nested_summary(summary: &str) -> (r: String)
    ensures
        r@ == "↳ "@ + summary@,
{
    concat2("↳ ", summary)
}

/// `(tool result, status line)` when the `research` arguments cannot be read.
pub fn invalid_research_args(error: &str) -> (r: (String, String))
    ensures
        r.0@ == "Error running research: invalid arguments: "@ + error@,
        r.1@ == "research failed: "@ + error@,
{
    (
        concat2("Error running research: invalid arguments: ", error),
        concat2("research failed: ", error),
    )
}

/// `(tool result, status line)` when a tool fails: the result carries the
/// error with its causes (`detail`), the status line the error alone (`brief`).
pub fn tool_failure(name: &str, detail: &str, brief: &str) -> (r: (String, String))
    ensures
        r.0@ == "Error running "@ + name@ + ": "@ + detail@,
        r.1@ == name@ + " failed: "@ + brief@,
{
    let mut a: Vec<char> = Vec::new();
    push_str(&mut a, "Error running ");
    push_str(&mut a, name);
    push_str(&mut a, ": ");
    push_str(&mut a, detail);
    (from_chars(a.as_slice()), concat3(name, " failed: ", brief))
}

/// What the caller does next for a research sub-agent.
#[derive(Debug, Clone, PartialEq)]
pub enum ResearchStep {
    /// Stream a reply for `messages`; offer the tools when `tools` is set.
    Request { tools: bool },
    /// Run this tool call and report it with `tool_done`.
    RunTool(ToolCall),
    /// Send this event to the UI, then ask for the next step.
    Emit(AgentEvent),
    /// The sub-agent's answer; it is over.
    Answer(String),
}

/// Where a research sub-agent stands.
#[derive(Debug, Clone, PartialEq, Eq)]
pub enum ResearchStage {
    Ask,
    WrapUp,
    Awaiting { final_request: bool },
    Tools { next: usize, running: bool },
    Finished,
}

/// A research sub-agent: its own conversation, round counter, and the best
/// answer text seen so far.
pub struct Research {
    pub messages: Vec<ChatMessage>,
    pub calls: Vec<ToolCall>,
    pub last_answer: String,
    pub round: usize,
    pub max_rounds: usize,
    pub stage: ResearchStage,
    /// Index, in the conversation, of the reply whose tool calls are running.
    pub anchor: Ghost<int>,
}

impl Research {
    pub open spec fn inv(&self) -> bool {
        let ms = message_views(self.messages@);
        &&& self.round <= self.max_rounds
        &&& match self.stage {
            ResearchStage::Ask => self.round < self.max_rounds && consistent(ms),
            ResearchStage::Awaiting { final_request } => !final_request ==> self.round < self.max_rounds
                && consistent(ms),
            ResearchStage::Tools { next, running } => {
                let a = self.anchor@;
                let cs = crate::llm::call_views(self.calls@);
                &&& self.round + 1 < self.max_rounds
                &&& next <= self.calls@.len()
                &&& (running ==> next < self.calls@.len())
                &&& 0 <= a < ms.len()
                &&& ms.len() == a + 1 + next
                &&& ms[a].0 == Role::Assistant
                &&& calls_of(ms[a]) == cs
                &&& forall|k: int| 0 <= k < next ==> answers_call(#[trigger] ms[a + 1 + k], cs[k])
                &&& consistent(ms.take(a))
            },
            _ => true,
        }
    }

    pub open spec fn needs_report(&self) -> bool {
        ||| self.stage is Awaiting
        ||| self.stage matches ResearchStage::Tools { running, .. } && running
        ||| self.stage is Finished
    }

    /// A sub-agent for `question`; its conversation starts with its system
    /// prompt and the question.
    pub fn new(kiwix_base: &str, question: &str, max_rounds: usize) -> (r: Research)
        ensures
            r.inv(),
            !r.needs_report(),
            r.round == 0,
            r.max_rounds == max_rounds,
            max_rounds > 0 ==> r.stage == ResearchStage::Ask,
            max_rounds == 0 ==> r.stage == ResearchStage::WrapUp,
            r.last_answer@ == Seq::<char>::empty(),
            message_views(r.messages@) == seq![
                (Role::System, Some(subagent_prompt(kiwix_base@)), None::<Seq<ToolCallV>>, None::<Seq<char>>),
                (Role::User, Some(question@), None::<Seq<ToolCallV>>, None::<Seq<char>>),
            ],
    {
        let prompt = subagent_system_prompt(kiwix_base);
        let mut messages: Vec<ChatMessage> = Vec::new();
        messages.push(ChatMessage::system(prompt.as_str()));
        messages.push(ChatMessage::user(question));
        assert(message_views(messages@) =~= seq![
            (Role::System, Some(subagent_prompt(kiwix_base@)), None::<Seq<ToolCallV>>, None::<Seq<char>>),
            (Role::User, Some(question@), None::<Seq<ToolCallV>>, None::<Seq<char>>),
        ]);
        proof {
            let ms = message_views(messages@);
            assert(consistent(ms)) by {
                assert forall|i: int| 0 <= i < ms.len() implies #[trigger] ms[i].0 != Role::Assistant by {
                }
            }
        }
        Research {
            messages,
            calls: Vec::new(),
            last_answer: String::new(),
            round: 0,
            max_rounds,
            stage: if max_rounds > 0 { ResearchStage::Ask } else { ResearchStage::WrapUp },
            anchor: Ghost(0),
        }
    }

    fn ask(&mut self, cancelled: bool) -> (s: ResearchStep)
        requires
            old(self).round < old(self).max_rounds,
            consistent(message_views(old(self).messages@)),
        ensures
            final(self).round == old(self).round,
            final(self).max_rounds == old(self).max_rounds,
            final(self).messages == old(self).messages,
            final(self).last_answer == old(self).last_answer,
            final(self).calls == old(self).calls,
            final(self).inv(),
            cancelled ==> (s matches ResearchStep::Answer(a) && a@ == interrupted_answer_spec(
                old(self).last_answer@,
            )) && (final(self).stage is Finished),
            !cancelled ==> s == (ResearchStep::Request { tools: true }) && final(self).stage == (
            ResearchStage::Awaiting { final_request: false }),
    {
        if cancelled {
            self.stage = ResearchStage::Finished;
            let partial = owned(self.last_answer.as_str());
            ResearchStep::Answer(interrupted_answer(partial))
        } else {
            self.stage = ResearchStage::Awaiting { final_request: false };
            ResearchStep::Request { tools: true }
        }
    }

    /// The next step when nothing needs reporting.
    pub fn next(&mut self, cancelled: bool) -> (s: ResearchStep)
        requires
            old(self).inv(),
            !old(self).needs_report(),
        ensures
            final(self).inv(),
            final(self).max_rounds == old(self).max_rounds,
            // A request that offers tools is only made while every tool call
            // in the conversation is answered.
            s == (ResearchStep::Request { tools: true }) ==> final(self).round < final(self).max_rounds
                && consistent(message_views(final(self).messages@)),
            match old(self).stage {
                ResearchStage::Ask => final(self).messages == old(self).messages && final(self).round == old(self).round
                    && (cancelled ==> (s matches ResearchStep::Answer(a) && a@ == interrupted_answer_spec(
                    old(self).last_answer@)) && (final(self).stage is Finished)) && (!cancelled ==> s == (
                ResearchStep::Request { tools: true }) && final(self).stage == (ResearchStage::Awaiting {
                    final_request: false,
                })),
                ResearchStage::WrapUp => message_views(final(self).messages@) == message_views(
                    old(self).messages@,
                ).push((Role::User, Some(RESEARCH_WRAP_UP_PROMPT@), None::<Seq<ToolCallV>>, None::<Seq<char>>))
                    && final(self).round == old(self).round
                    && s == (ResearchStep::Request { tools: false }) && final(self).stage == (
                ResearchStage::Awaiting { final_request: true }),
                ResearchStage::Tools { next, .. } => if next < old(self).calls@.len() {
                    &&& final(self).messages == old(self).messages
                    &&& final(self).round == old(self).round
                    &&& s matches ResearchStep::RunTool(c) && crate::llm::call_view(c) == crate::llm::call_view(
                        old(self).calls@[next as int],
                    )
                    &&& final(self).stage == (ResearchStage::Tools { next, running: true })
                } else {
                    final(self).messages == old(self).messages && final(self).round == old(self).round + 1 && (
                    cancelled ==> (s matches ResearchStep::Answer(a) && a@ == interrupted_answer_spec(
                        old(self).last_answer@,
                    )) && (final(self).stage is Finished)) && (!cancelled ==> s == (ResearchStep::Request {
                        tools: true,
                    }) && final(self).stage == (ResearchStage::Awaiting { final_request: false }))
                },
                _ => false,
            },
    {
        match self.stage {
            ResearchStage::Ask => self.ask(cancelled),
            ResearchStage::WrapUp => {
                // Reached the round cap with tools still pending: ask for a tool-free answer.
                let ghost before = message_views(self.messages@);
                self.messages.push(ChatMessage::user(RESEARCH_WRAP_UP_PROMPT));
                proof {
                    assert(message_views(self.messages@) =~= before.push(
                        (Role::User, Some(RESEARCH_WRAP_UP_PROMPT@), None::<Seq<ToolCallV>>, None::<Seq<char>>),
                    ));
                }
                self.stage = ResearchStage::Awaiting { final_request: true };
                ResearchStep::Request { tools: false }
            },
            ResearchStage::Tools { next, .. } => {
                if next < self.calls.len() {
                    self.stage = ResearchStage::Tools { next, running: true };
                    let c = crate::agent::turn::copy_tool_call(&self.calls[next]);
                    ResearchStep::RunTool(c)
                } else {
                    proof {
                        lemma_consistent_close(message_views(self.messages@), self.anchor@);
                    }
                    self.round = self.round + 1;
                    self.calls = Vec::new();
                    self.ask(cancelled)
                }
            },
            _ => ResearchStep::Answer(String::new()),
        }
    }
}


/// Whether `c` holds anything but whitespace.
fn has_text(c: &Option<String>) -> (b: bool)
    ensures
        b == (c matches Some(t) && trim(t@).len() > 0),
{
    match c {
        Some(t) => {
            let v = to_chars(t.as_str());
            let w = trim_chars(v.as_slice());
            w.len() > 0
        },
        None => false,
    }
}

/// The answer text a reply carries: its content when that holds anything
/// but whitespace, else `fallback`.
pub open spec fn answer_or(content: Option<Seq<char>>, fallback: Seq<char>) -> Seq<char> {
    match content {
        Some(c) => if trim(c).len() > 0 { c } else { fallback },
        None => fallback,
    }
}

/// The answer of a sub-agent whose request failed.
pub open spec fn research_error(e: Seq<char>) -> Seq<char> {
    "Research failed: LLM error: "@ + e
}

impl Research {
    fn wrap_up(&mut self) -> (s: ResearchStep)
        requires
            old(self).round <= old(self).max_rounds,
        ensures
            final(self).round == old(self).round,
            final(self).max_rounds == old(self).max_rounds,
            final(self).last_answer == old(self).last_answer,
            final(self).inv(),
            final(self).stage == (ResearchStage::Awaiting { final_request: true }),
            message_views(final(self).messages@) == message_views(old(self).messages@).push(
                (Role::User, Some(RESEARCH_WRAP_UP_PROMPT@), None::<Seq<ToolCallV>>, None::<Seq<char>>),
            ),
            s == (ResearchStep::Request { tools: false }),
    {
        let ghost before = message_views(self.messages@);
        self.messages.push(ChatMessage::user(RESEARCH_WRAP_UP_PROMPT));
        proof {
            assert(message_views(self.messages@) =~= before.push(
                (Role::User, Some(RESEARCH_WRAP_UP_PROMPT@), None::<Seq<ToolCallV>>, None::<Seq<char>>),
            ));
        }
        self.stage = ResearchStage::Awaiting { final_request: true };
        ResearchStep::Request { tools: false }
    }

    /// Take the model's reply to the last request.
    pub fn replied(&mut self, reply: ChatMessage, cancelled: bool) -> (s: ResearchStep)
        requires
            old(self).inv(),
            old(self).stage is Awaiting,
            reply.role == Role::Assistant,
        ensures
            final(self).inv(),
            final(self).max_rounds == old(self).max_rounds,
            final(self).round == old(self).round,
            ({
                let r = message_view(reply);
                let before = message_views(old(self).messages@);
                let after = message_views(final(self).messages@);
                let last = answer_or(r.1, old(self).last_answer@);
                if old(self).stage == (ResearchStage::Awaiting { final_request: true }) {
                    &&& (s matches ResearchStep::Answer(a) && a@ == last)
                    &&& (final(self).stage is Finished)
                } else if cancelled {
                    &&& (s matches ResearchStep::Answer(a) && a@ == interrupted_answer_spec(last))
                    &&& (final(self).stage is Finished)
                } else if calls_of(r).len() == 0 {
                    &&& after == before.push(r)
                    &&& (s matches ResearchStep::Answer(a) && a@ == last)
                    &&& (final(self).stage is Finished)
                } else if old(self).round + 1 == old(self).max_rounds {
                    &&& after == before.push(r).push(
                        (Role::User, Some(RESEARCH_WRAP_UP_PROMPT@), None::<Seq<ToolCallV>>, None::<Seq<char>>),
                    )
                    &&& s == (ResearchStep::Request { tools: false })
                    &&& final(self).stage == (ResearchStage::Awaiting { final_request: true })
                    &&& final(self).last_answer@ == last
                } else {
                    &&& after == before.push(r)
                    &&& crate::llm::call_views(final(self).calls@) == calls_of(r)
                    &&& (s matches ResearchStep::RunTool(c) && crate::llm::call_view(c) == calls_of(r)[0])
                    &&& final(self).stage == (ResearchStage::Tools { next: 0, running: true })
                    &&& final(self).last_answer@ == last
                }
            }),
    {
        let ghost before = message_views(self.messages@);
        let ghost r = message_view(reply);
        let final_request = match self.stage {
            ResearchStage::Awaiting { final_request } => final_request,
            _ => false,
        };
        if has_text(&reply.content) {
            match &reply.content {
                Some(t) => {
                    self.last_answer = crate::text::owned(t.as_str());
                },
                None => {},
            }
        }
        if final_request {
            self.stage = ResearchStage::Finished;
            return ResearchStep::Answer(crate::text::owned(self.last_answer.as_str()));
        }
        if cancelled {
            self.stage = ResearchStage::Finished;
            let partial = owned(self.last_answer.as_str());
            return ResearchStep::Answer(interrupted_answer(partial));
        }
        let calls = match &reply.tool_calls {
            Some(c) => crate::agent::turn::copy_calls(c),
            None => Vec::new(),
        };
        assert(crate::llm::call_views(calls@) == calls_of(r));
        let ghost a = self.messages@.len() as int;
        self.messages.push(reply);
        proof {
            assert(message_views(self.messages@) =~= before.push(r));
            assert(message_views(self.messages@).take(a) =~= before);
        }
        if calls.len() == 0 {
            // No tool calls: the streamed text is the sub-agent's final answer.
            self.stage = ResearchStage::Finished;
            return ResearchStep::Answer(crate::text::owned(self.last_answer.as_str()));
        }
        if self.round + 1 == self.max_rounds {
            // On the final permitted round no more tools run: wrap up.
            return self.wrap_up();
        }
        let first = crate::agent::turn::copy_tool_call(&calls[0]);
        self.calls = calls;
        self.anchor = Ghost(a);
        self.stage = ResearchStage::Tools { next: 0, running: true };
        ResearchStep::RunTool(first)
    }

    /// The request failed: the sub-agent answers with the error.
    pub fn failed(&mut self, error: &str) -> (s: ResearchStep)
        requires
            old(self).stage is Awaiting,
        ensures
            s matches ResearchStep::Answer(a) && a@ == research_error(error@),
            final(self).stage is Finished,
    {
        self.stage = ResearchStage::Finished;
        ResearchStep::Answer(concat2("Research failed: LLM error: ", error))
    }

    /// The running tool call finished: record its result and report its
    /// summary, marked as nested.
    pub fn tool_done(&mut self, content: String, summary: &str) -> (s: ResearchStep)
        requires
            old(self).inv(),
            old(self).stage matches ResearchStage::Tools { running, .. } && running,
        ensures
            final(self).inv(),
            !final(self).needs_report(),
            final(self).round == old(self).round,
            final(self).max_rounds == old(self).max_rounds,
            final(self).calls == old(self).calls,
            final(self).last_answer == old(self).last_answer,
            s matches ResearchStep::Emit(AgentEvent::ToolFinished { summary: t }) && t@ == "↳ "@ + summary@,
            match old(self).stage {
                ResearchStage::Tools { next, .. } => message_views(final(self).messages@) == message_views(
                    old(self).messages@,
                ).push(
                    (Role::Tool, Some(content@), None::<Seq<ToolCallV>>, Some(crate::llm::call_views(old(self).calls@)[next as int].0)),
                ) && final(self).stage == (ResearchStage::Tools { next: (next + 1) as usize, running: false }),
                _ => false,
            },
    {
        let ghost before = message_views(self.messages@);
        match self.stage {
            ResearchStage::Tools { next, .. } => {
                let n = self.calls.len();
                assert(next < n);
                let id = crate::text::owned(self.calls[next].id.as_str());
                assert(id@ == crate::llm::call_views(self.calls@)[next as int].0);
                let m = ChatMessage::tool_result(id, content);
                self.messages.push(m);
                proof {
                    assert(message_views(self.messages@) =~= before.push(message_view(m)));
                    let ms = message_views(self.messages@);
                    let a = self.anchor@;
                    let cs = crate::llm::call_views(self.calls@);
                    assert(ms.take(a) =~= before.take(a));
                    assert forall|k: int| 0 <= k < next + 1 implies answers_call(#[trigger] ms[a + 1 + k], cs[k]) by {
                        if k < next {
                            assert(ms[a + 1 + k] == before[a + 1 + k]);
                        }
                    }
                    assert(ms[a] == before[a]);
                }
                self.stage = ResearchStage::Tools { next: next + 1, running: false };
            },
            _ => {},
        }
        ResearchStep::Emit(AgentEvent::ToolFinished { summary: nested_summary(summary) })
    }
}

} // verus!
