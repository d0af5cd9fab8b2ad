//! The decisions of one agent turn: when to ask the model, which tool calls
//! to run, when to stop. The caller performs each `TurnStep` (a request to the
//! model, a tool call, an event for the UI) and reports back.
use vstd::prelude::*;

use crate::agent::AgentEvent;
use crate::llm::{
    call_view, call_views, message_view, ChatMessage, FunctionCall, MessageV, Role, ToolCall,
    ToolCallV,
};
use crate::text::{owned, push_str, to_chars, from_chars, push_all, trim, trim_chars};

verus! {

/// The status line shown when the round limit forces a final answer.
pub const LIMIT_SUMMARY: &'static str = "Reached tool-call limit; composing an answer from gathered context";

/// The request for a final, tool-free answer once the round limit is reached.
pub const WRAP_UP_PROMPT: &'static str = "Please provide your best final answer now using the information gathered above, and cite the article titles you used.";

/// What the caller does next.
#[derive(Debug, Clone, PartialEq)]
pub enum TurnStep {
    /// Stream a reply from the model for the conversation; offer the tools
    /// when `tools` is set. Report it with `replied` or `failed`.
    Request { tools: bool },
    /// Run this tool call and report its result with `tool_done`.
    RunTool(ToolCall),
    /// Send this event to the UI, then ask for the next step.
    Emit(AgentEvent),
    /// Send this event to the UI; the turn is over.
    Finish(AgentEvent),
}

/// Where a turn stands.
pub enum Stage {
    /// About to ask the model, with tools, for the current round.
    Ask,
    /// The round limit was reached: announce it.
    Limit,
    /// Ask for a final answer without tools.
    WrapUp,
    /// Waiting for the model's reply; `final_request` marks the tool-free one.
    Awaiting { final_request: bool },
    /// Running the tool calls of the latest reply; `next` is the next to run.
    Tools { calls: Vec<ToolCall>, next: usize, running: bool },
    Finished,
}

/// One user turn of the agent loop.
pub struct Turn {
    pub round: usize,
    pub max_rounds: usize,
    pub stage: Stage,
    /// Index, in the conversation, of the reply whose tool calls are running.
    pub anchor: Ghost<int>,
    /// Whether the conversation was consistent when the turn began.
    pub valid_start: Ghost<bool>,
}

pub open spec fn message_views(v: Seq<ChatMessage>) -> Seq<MessageV> {
    v.map_values(|m: ChatMessage| message_view(m))
}

/// The tool calls a message requests (none for a message without calls).
pub open spec fn calls_of(m: MessageV) -> Seq<ToolCallV> {
    match m.2 {
        Some(cs) => cs,
        None => seq![],
    }
}

/// Whether `m` is the tool result for call `c`.
pub open spec fn answers_call(m: MessageV, c: ToolCallV) -> bool {
    m.0 == Role::Tool && m.3 == Some(c.0)
}

/// Every tool call an assistant message requests is answered, in order, by
/// the tool results that immediately follow it.
pub open spec fn consistent(ms: Seq<MessageV>) -> bool {
    forall|i: int|
        #![trigger ms[i]]
        0 <= i < ms.len() && ms[i].0 == Role::Assistant ==> i + calls_of(ms[i]).len() < ms.len()
            && forall|k: int|
            0 <= k < calls_of(ms[i]).len() ==> answers_call(#[trigger] ms[i + 1 + k], calls_of(ms[i])[k])
}

impl Turn {
    pub open spec fn inv(&self, ms: Seq<MessageV>) -> bool {
        &&& self.round <= self.max_rounds
        &&& match self.stage {
            Stage::Ask => self.round < self.max_rounds && (self.valid_start@ ==> consistent(ms)),
            Stage::Awaiting { final_request } => !final_request ==> self.round < self.max_rounds && (
            self.valid_start@ ==> consistent(ms)),
            Stage::Tools { calls, next, running } => {
                let a = self.anchor@;
                &&& self.round + 1 < self.max_rounds
                &&& 0 <= a < ms.len()
                &&& next <= calls@.len()
                &&& calls@.len() > 0
                &&& (running ==> next < calls@.len())
                &&& ms.len() == a + 1 + next
                &&& ms[a].0 == Role::Assistant
                &&& calls_of(ms[a]) == call_views(calls@)
                &&& forall|k: int| 0 <= k < next ==> answers_call(#[trigger] ms[a + 1 + k], call_views(calls@)[k])
                &&& (self.valid_start@ ==> consistent(ms.take(a)))
            },
            _ => true,
        }
    }
}


pub proof fn lemma_consistent_push(ms: Seq<MessageV>, m: MessageV)
    requires
        consistent(ms),
        calls_of(m).len() == 0,
    ensures
        consistent(ms.push(m)),
{
    let n = ms.push(m);
    assert forall|i: int|
        #![trigger n[i]]
        0 <= i < n.len() && n[i].0 == Role::Assistant implies i + calls_of(n[i]).len() < n.len()
            && forall|k: int|
            0 <= k < calls_of(n[i]).len() ==> answers_call(#[trigger] n[i + 1 + k], calls_of(n[i])[k]) by {
        if i < ms.len() {
            assert(n[i] == ms[i]);
            assert forall|k: int| 0 <= k < calls_of(n[i]).len() implies answers_call(
                #[trigger] n[i + 1 + k],
                calls_of(n[i])[k],
            ) by {
                assert(n[i + 1 + k] == ms[i + 1 + k]);
            }
        }
    }
}

pub proof fn lemma_consistent_close(ms: Seq<MessageV>, a: int)
    requires
        0 <= a < ms.len(),
        consistent(ms.take(a)),
        ms[a].0 == Role::Assistant,
        ms.len() == a + 1 + calls_of(ms[a]).len(),
        forall|k: int| 0 <= k < calls_of(ms[a]).len() ==> answers_call(#[trigger] ms[a + 1 + k], calls_of(ms[a])[k]),
    ensures
        consistent(ms),
{
    let p = ms.take(a);
    assert forall|i: int|
        #![trigger ms[i]]
        0 <= i < ms.len() && ms[i].0 == Role::Assistant implies i + calls_of(ms[i]).len() < ms.len()
            && forall|k: int|
            0 <= k < calls_of(ms[i]).len() ==> answers_call(#[trigger] ms[i + 1 + k], calls_of(ms[i])[k]) by {
        if i < a {
            assert(p[i] == ms[i]);
            assert forall|k: int| 0 <= k < calls_of(ms[i]).len() implies answers_call(
                #[trigger] ms[i + 1 + k],
                calls_of(ms[i])[k],
            ) by {
                assert(p[i + 1 + k] == ms[i + 1 + k]);
            }
        } else if i > a {
            assert(answers_call(ms[a + 1 + (i - a - 1)], calls_of(ms[a])[i - a - 1]));
        }
    }
}

fn copy_string(s: &String) -> (r: String)
    ensures
        r@ == s@,
{
    owned(s.as_str())
}

pub fn copy_tool_call(c: &ToolCall) -> (r: ToolCall)
    ensures
        call_view(r) == call_view(*c),
{
    ToolCall {
        id: copy_string(&c.id),
        kind: copy_string(&c.kind),
        function: FunctionCall {
            name: copy_string(&c.function.name),
            arguments: copy_string(&c.function.arguments),
        },
    }
}

pub fn copy_calls(v: &Vec<ToolCall>) -> (r: Vec<ToolCall>)
    ensures
        call_views(r@) == call_views(v@),
{
    let mut r: Vec<ToolCall> = Vec::new();
    let mut i: usize = 0;
    while i < v.len()
        invariant
            i <= v@.len(),
            call_views(r@) == call_views(v@.take(i as int)),
        decreases v.len() - i,
    {
        let ghost before = r@;
        r.push(copy_tool_call(&v[i]));
        i += 1;
        proof {
            assert(v@.take(i as int) =~= v@.take(i - 1).push(v@[i - 1]));
            assert(call_views(r@) =~= call_views(v@.take(i - 1)).push(call_view(v@[i - 1])));
            assert(call_views(r@) =~= call_views(v@.take(i as int)));
        }
    }
    assert(v@.take(i as int) =~= v@);
    r
}

/// The text committed when a reply is interrupted: its content if it holds
/// anything but whitespace, else a marker.
pub open spec fn partial_answer(content: Option<Seq<char>>) -> Seq<char> {
    match content {
        Some(c) => if trim(c).len() > 0 { c } else { "(interrupted)"@ },
        None => "(interrupted)"@,
    }
}

/// The message of a failed request.
pub open spec fn llm_error_message(e: Seq<char>) -> Seq<char> {
    "LLM error: "@ + e
}

impl Turn {
    /// A turn over `messages` (which end with the user's question) that may
    /// run up to `max_rounds` tool-calling rounds.
    pub fn new(max_rounds: usize, messages: &Vec<ChatMessage>) -> (t: Turn)
        ensures
            t.inv(message_views(messages@)),
            t.valid_start@ == consistent(message_views(messages@)),
            t.round == 0,
            t.max_rounds == max_rounds,
            max_rounds > 0 ==> (t.stage is Ask),
            max_rounds == 0 ==> (t.stage is Limit),
    {
        Turn {
            round: 0,
            max_rounds,
            stage: if max_rounds > 0 { Stage::Ask } else { Stage::Limit },
            anchor: Ghost(0),
            valid_start: Ghost(consistent(message_views(messages@))),
        }
    }

    /// Whether the turn waits for something other than `next`.
    pub open spec fn needs_report(&self) -> bool {
        ||| self.stage is Awaiting
        ||| self.stage matches Stage::Tools { running, .. } && running
        ||| self.stage is Finished
    }

    fn ask(&mut self, cancelled: bool, messages: &Vec<ChatMessage>) -> (s: TurnStep)
        requires
            old(self).round < old(self).max_rounds,
            old(self).valid_start@ ==> consistent(message_views(messages@)),
        ensures
            final(self).round == old(self).round,
            final(self).max_rounds == old(self).max_rounds,
            final(self).valid_start == old(self).valid_start,
            final(self).inv(message_views(messages@)),
            cancelled ==> (s == TurnStep::Finish(AgentEvent::Interrupted) && (final(self).stage is Finished)),
            !cancelled ==> s == (TurnStep::Request { tools: true }) && final(self).stage == (Stage::Awaiting {
                final_request: false,
            }),
    {
        if cancelled {
            // Cancelled between rounds: every tool call is already answered.
            self.stage = Stage::Finished;
            TurnStep::Finish(AgentEvent::Interrupted)
        } else {
            self.stage = Stage::Awaiting { final_request: false };
            TurnStep::Request { tools: true }
        }
    }

    /// The next step when nothing needs reporting.
    pub fn next(&mut self, cancelled: bool, messages: &mut Vec<ChatMessage>) -> (s: TurnStep)
        requires
            old(self).inv(message_views(old(messages)@)),
            !old(self).needs_report(),
        ensures
            final(self).inv(message_views(final(messages)@)),
            final(self).max_rounds == old(self).max_rounds,
            final(self).valid_start == old(self).valid_start,
            // A request that offers tools is only made while the conversation
            // is consistent (when it was at the start of the turn).
            s == (TurnStep::Request { tools: true }) ==> (final(self).valid_start@ ==> consistent(
                message_views(final(messages)@),
            )) && final(self).round < final(self).max_rounds,
            match old(self).stage {
                Stage::Ask => final(messages)@ == old(messages)@ && final(self).round == old(self).round
                    && (cancelled ==> s == TurnStep::Finish(AgentEvent::Interrupted) && (final(self).stage is Finished))
                    && (!cancelled ==> s == (TurnStep::Request { tools: true }) && final(self).stage == (Stage::Awaiting {
                        final_request: false,
                    })),
                Stage::Limit => final(messages)@ == old(messages)@ && (final(self).stage is WrapUp)
                    && (s matches TurnStep::Emit(AgentEvent::ToolFinished { summary }) && summary@ == LIMIT_SUMMARY@),
                Stage::WrapUp => message_views(final(messages)@) == message_views(old(messages)@).push(
                    (Role::User, Some(WRAP_UP_PROMPT@), None::<Seq<ToolCallV>>, None::<Seq<char>>),
                ) && s == (TurnStep::Request { tools: false }) && final(self).stage == (Stage::Awaiting {
                    final_request: true,
                }),
                Stage::Tools { calls, next, .. } => if next < calls@.len() {
                    final(messages)@ == old(messages)@ && final(self).round == old(self).round && (s matches TurnStep::RunTool(c) && call_view(c)
                        == call_view(calls@[next as int])) && (final(self).stage matches Stage::Tools {
                        calls: c2,
                        next: n2,
                        running: r2,
                    } && c2@ == calls@ && n2 == next && r2)
                } else {
                    final(messages)@ == old(messages)@ && final(self).round == old(self).round + 1 && (
                    cancelled ==> s == TurnStep::Finish(AgentEvent::Interrupted) && (final(self).stage is Finished)) && (!cancelled ==> s
                        == (TurnStep::Request { tools: true }) && final(self).stage == (Stage::Awaiting {
                        final_request: false,
                    }))
                },
                _ => false,
            },
    {
        let ghost ms = message_views(messages@);
        let mut stage = Stage::Finished;
        std::mem::swap(&mut stage, &mut self.stage);
        match stage {
            Stage::Ask => self.ask(cancelled, messages),
            Stage::Limit => {
                self.stage = Stage::WrapUp;
                TurnStep::Emit(AgentEvent::ToolFinished { summary: owned(LIMIT_SUMMARY) })
            },
            Stage::WrapUp => {
                // Reached the round cap with tool calls still pending: ask for a
                // final answer without tools so the user still gets a response.
                messages.push(ChatMessage::user(WRAP_UP_PROMPT));
                proof {
                    assert(message_views(messages@) =~= ms.push(
                        (Role::User, Some(WRAP_UP_PROMPT@), None::<Seq<ToolCallV>>, None::<Seq<char>>),
                    ));
                }
                self.stage = Stage::Awaiting { final_request: true };
                TurnStep::Request { tools: false }
            },
            Stage::Tools { calls, next, running } => {
                if next < calls.len() {
                    let c = copy_tool_call(&calls[next]);
                    self.stage = Stage::Tools { calls, next, running: true };
                    TurnStep::RunTool(c)
                } else {
                    proof {
                        if self.valid_start@ {
                            lemma_consistent_close(ms, self.anchor@);
                        }
                    }
                    self.round = self.round + 1;
                    self.ask(cancelled, messages)
                }
            },
            _ => {
                self.stage = stage;
                TurnStep::Finish(AgentEvent::Done)
            },
        }
    }
}


fn has_text(c: &Option<String>) -> (b: bool)
    ensures
        b == (c matches Some(t) && trim(t@).len() > 0),
{
    match c {
        Some(t) => {
            let v = to_chars(t.as_str());
            let w = trim_chars(v.as_slice());
            w.len() > 0
        },
        None => false,
    }
}

impl Turn {
    /// Take the model's reply to the last request.
    pub fn replied(&mut self, reply: ChatMessage, cancelled: bool, messages: &mut Vec<ChatMessage>) -> (s: TurnStep)
        requires
            old(self).inv(message_views(old(messages)@)),
            old(self).stage is Awaiting,
            reply.role == Role::Assistant,
        ensures
            final(self).inv(message_views(final(messages)@)),
            final(self).round == old(self).round,
            final(self).max_rounds == old(self).max_rounds,
            final(self).valid_start == old(self).valid_start,
            ({
                let r = message_view(reply);
                let before = message_views(old(messages)@);
                let after = message_views(final(messages)@);
                if old(self).stage == (Stage::Awaiting { final_request: true }) {
                    &&& after == before.push(r)
                    &&& s == TurnStep::Finish(if cancelled { AgentEvent::Interrupted } else { AgentEvent::Done })
                    &&& (final(self).stage is Finished)
                } else if cancelled {
                    // Only the partial text is kept, never incomplete tool calls.
                    &&& after == before.push(
                        (Role::Assistant, Some(partial_answer(r.1)), None::<Seq<ToolCallV>>, None::<Seq<char>>),
                    )
                    &&& s == TurnStep::Finish(AgentEvent::Interrupted)
                    &&& (final(self).stage is Finished)
                } else if calls_of(r).len() == 0 {
                    &&& after == before.push(r)
                    &&& s == TurnStep::Finish(AgentEvent::Done)
                    &&& (final(self).stage is Finished)
                } else if old(self).round + 1 == old(self).max_rounds {
                    // On the final permitted round no more tools run: wrap up.
                    &&& after == before.push(r)
                    &&& (s matches TurnStep::Emit(AgentEvent::ToolFinished { summary }) && summary@ == LIMIT_SUMMARY@)
                    &&& (final(self).stage is WrapUp)
                } else {
                    &&& after == before.push(r)
                    &&& (s matches TurnStep::RunTool(c) && call_view(c) == calls_of(r)[0])
                    &&& (final(self).stage matches Stage::Tools { calls, next, running } && call_views(calls@)
                        == calls_of(r) && next == 0 && running)
                }
            }),
    {
        let ghost before = message_views(messages@);
        let ghost r = message_view(reply);
        let final_request = match self.stage {
            Stage::Awaiting { final_request } => final_request,
            _ => false,
        };
        if final_request {
            messages.push(reply);
            proof {
                assert(message_views(messages@) =~= before.push(r));
            }
            self.stage = Stage::Finished;
            return TurnStep::Finish(if cancelled { AgentEvent::Interrupted } else { AgentEvent::Done });
        }
        if cancelled {
            // Cancelled mid-stream: commit only the partial answer text (never the
            // possibly-incomplete tool calls) so the conversation stays valid.
            let text = if has_text(&reply.content) {
                match reply.content {
                    Some(t) => t,
                    None => owned("(interrupted)"),
                }
            } else {
                owned("(interrupted)")
            };
            let m = ChatMessage::assistant(text);
            proof {
                if self.valid_start@ {
                    lemma_consistent_push(before, message_view(m));
                }
            }
            messages.push(m);
            proof {
                assert(message_views(messages@) =~= before.push(message_view(m)));
            }
            self.stage = Stage::Finished;
            return TurnStep::Finish(AgentEvent::Interrupted);
        }
        let calls = match &reply.tool_calls {
            Some(c) => copy_calls(c),
            None => Vec::new(),
        };
        assert(call_views(calls@) == calls_of(r));
        let ghost a = messages@.len() as int;
        messages.push(reply);
        proof {
            assert(message_views(messages@) =~= before.push(r));
            assert(message_views(messages@).take(a) =~= before);
        }
        if calls.len() == 0 {
            // No tool calls: the streamed text is the final answer.
            proof {
                if self.valid_start@ {
                    lemma_consistent_push(before, r);
                }
            }
            self.stage = Stage::Finished;
            return TurnStep::Finish(AgentEvent::Done);
        }
        if self.round + 1 == self.max_rounds {
            self.stage = Stage::WrapUp;
            return TurnStep::Emit(AgentEvent::ToolFinished { summary: owned(LIMIT_SUMMARY) });
        }
        let first = copy_tool_call(&calls[0]);
        self.anchor = Ghost(a);
        self.stage = Stage::Tools { calls, next: 0, running: true };
        TurnStep::RunTool(first)
    }

    /// The request failed: the turn ends with the error.
    pub fn failed(&mut self, error: &str) -> (s: TurnStep)
        requires
            old(self).stage is Awaiting,
        ensures
            s matches TurnStep::Finish(AgentEvent::Error(m)) && m@ == llm_error_message(error@),
            final(self).stage is Finished,
    {
        self.stage = Stage::Finished;
        let mut m: Vec<char> = Vec::new();
        push_str(&mut m, "LLM error: ");
        push_str(&mut m, error);
        TurnStep::Finish(AgentEvent::Error(from_chars(m.as_slice())))
    }

    /// The running tool call finished: record its result for the model and
    /// report its summary.
    pub fn tool_done(&mut self, content: String, summary: String, messages: &mut Vec<ChatMessage>) -> (s: TurnStep)
        requires
            old(self).inv(message_views(old(messages)@)),
            old(self).stage matches Stage::Tools { running, .. } && running,
        ensures
            final(self).inv(message_views(final(messages)@)),
            !final(self).needs_report(),
            final(self).round == old(self).round,
            final(self).max_rounds == old(self).max_rounds,
            final(self).valid_start == old(self).valid_start,
            s == TurnStep::Emit(AgentEvent::ToolFinished { summary }),
            match old(self).stage {
                Stage::Tools { calls, next, .. } => message_views(final(messages)@) == message_views(old(messages)@).push(
                    (Role::Tool, Some(content@), None::<Seq<ToolCallV>>, Some(call_views(calls@)[next as int].0)),
                ) && (final(self).stage matches Stage::Tools { calls: c2, next: n2, running: r2 } && c2@ == calls@
                    && n2 == next + 1 && !r2),
                _ => false,
            },
    {
        let ghost before = message_views(messages@);
        let mut stage = Stage::Finished;
        std::mem::swap(&mut stage, &mut self.stage);
        match stage {
            Stage::Tools { calls, next, .. } => {
                let n = calls.len();
                let id = copy_string(&calls[next].id);
                assert(id@ == call_views(calls@)[next as int].0);
                let m = ChatMessage::tool_result(id, content);
                messages.push(m);
                proof {
                    assert(message_views(messages@) =~= before.push(message_view(m)));
                    let ms = message_views(messages@);
                    let a = self.anchor@;
                    assert(ms.take(a) =~= before.take(a));
                    assert forall|k: int| 0 <= k < next + 1 implies answers_call(
                        #[trigger] ms[a + 1 + k],
                        call_views(calls@)[k],
                    ) by {
                        if k < next {
                            assert(ms[a + 1 + k] == before[a + 1 + k]);
                        }
                    }
                    assert(ms[a] == before[a]);
                }
                self.stage = Stage::Tools { calls, next: next + 1, running: false };
            },
            _ => {
                self.stage = stage;
            },
        }
        TurnStep::Emit(AgentEvent::ToolFinished { summary })
    }
}

} // verus!
