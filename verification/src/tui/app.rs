//! The chat session's state and how it reacts to agent events, keys and
//! commands. Work that needs the outside world (running a turn, clearing the
//! model's history) is returned as an `Action` for the event loop to perform.
use vstd::prelude::*;

use crate::agent::AgentEvent;
use crate::text::{
    eq_str, first_word, from_chars, push_all, push_str, split_first_word, to_chars, trim, trim_chars,
};

verus! {

/// What a message in the chat pane is.
#[derive(Debug, Clone, Copy, PartialEq, Eq)]
pub enum DisplayKind {
    User,
    Assistant,
    Thinking,
    /// The answer of a `research` sub-agent, shown as a collapsible block.
    Subagent,
    Tool,
    Error,
    Info,
}

/// A message as displayed in the chat pane.
#[derive(Debug, Clone)]
pub struct DisplayMessage {
    pub kind: DisplayKind,
    pub text: String,
    /// For `Thinking` and `Subagent` blocks: whether this block was collapsed once
    /// finished. The global `show_thinking` toggle can override this for display.
    pub collapsed: bool,
    /// For `Subagent` blocks: the question that was researched.
    pub title: Option<String>,
}

/// A key press, as far as the chat pane cares.
#[derive(Debug, Clone, Copy, PartialEq, Eq, Structural)]
pub enum Key {
    Char(char),
    Enter,
    Backspace,
    Tab,
    PageUp,
    PageDown,
    Esc,
    Other,
}

/// A key event: the key, whether Ctrl was held, and whether it was a release.
#[derive(Debug, Clone, Copy, PartialEq, Eq)]
pub struct KeyInput {
    pub key: Key,
    pub ctrl: bool,
    pub release: bool,
}

/// Mouse events the transcript reacts to.
#[derive(Debug, Clone, Copy, PartialEq, Eq)]
pub enum Mouse {
    ScrollUp,
    ScrollDown,
    Other,
}

/// Work the event loop performs on the session's behalf.
#[derive(Debug, Clone, PartialEq)]
pub enum Action {
    Nothing,
    /// Append this user message to the model's history and run an agent turn.
    StartTurn(String),
    /// Drop the model's history, keeping the system prompt.
    ClearHistory,
    /// Ask the running turn to stop.
    Interrupt,
}

/// Everything needed to run the chat session.
pub struct App {
    pub messages: Vec<DisplayMessage>,
    pub input: String,
    /// Vertical scroll offset (in wrapped lines from the top).
    pub scroll: u16,
    /// When true, the view auto-scrolls to the newest content.
    pub follow: bool,
    /// True while an agent turn is in progress (input is disabled).
    pub busy: bool,
    pub should_quit: bool,
    /// Index of the assistant message currently receiving streamed tokens.
    pub current_assistant: Option<usize>,
    /// Index of the thinking block currently receiving streamed reasoning.
    pub current_reasoning: Option<usize>,
    /// When true, all thinking blocks are shown expanded (toggled with Tab).
    pub show_thinking: bool,
    /// Prompt plus completion tokens of the latest request, once reported.
    pub context_tokens: Option<u32>,
    pub lang: String,
    pub max_rounds: usize,
    /// The model's id and the backends' base URLs, for display.
    pub model: String,
    pub llm_base: String,
    pub kiwix_base: String,
    pub kiwix_reachable: bool,
}

/// (kind, text, collapsed, title) of a displayed message.
pub type DisplayV = (DisplayKind, Seq<char>, bool, Option<Seq<char>>);

pub open spec fn display_view(m: DisplayMessage) -> DisplayV {
    (m.kind, m.text@, m.collapsed, match m.title { Some(t) => Some(t@), None => None })
}

pub open spec fn display_views(v: Seq<DisplayMessage>) -> Seq<DisplayV> {
    v.map_values(|m: DisplayMessage| display_view(m))
}

/// `ms` with the block at `cur` (if any) marked collapsed.
pub open spec fn collapse_at(ms: Seq<DisplayV>, cur: Option<usize>) -> Seq<DisplayV> {
    match cur {
        Some(i) => ms.update(i as int, (ms[i as int].0, ms[i as int].1, true, ms[i as int].3)),
        None => ms,
    }
}

/// `ms` with `t` appended to the text of message `i`.
pub open spec fn append_text(ms: Seq<DisplayV>, i: int, t: Seq<char>) -> Seq<DisplayV> {
    ms.update(i, (ms[i].0, ms[i].1 + t, ms[i].2, ms[i].3))
}

/// The transcript and the message receiving answer text after an answer
/// fragment `t`: the streaming reasoning block (at `cr`) is collapsed, and `t`
/// extends the answer at `ca` or starts a new answer message.
pub open spec fn after_token(ms: Seq<DisplayV>, ca: Option<usize>, cr: Option<usize>, t: Seq<char>) -> (
    Seq<DisplayV>,
    Option<usize>,
) {
    let base = collapse_at(ms, cr);
    match ca {
        Some(i) => (append_text(base, i as int, t), Some(i)),
        None => (base.push((DisplayKind::Assistant, t, false, None::<Seq<char>>)), Some(base.len() as usize)),
    }
}

/// The same after the fragments `ts` in turn; only the first one can meet a
/// streaming reasoning block, as every fragment closes it.
pub open spec fn after_tokens(ms: Seq<DisplayV>, ca: Option<usize>, cr: Option<usize>, ts: Seq<Seq<char>>) -> (
    Seq<DisplayV>,
    Option<usize>,
)
    decreases ts.len(),
{
    if ts.len() == 0 {
        (ms, ca)
    } else {
        let prev = after_tokens(ms, ca, cr, ts.drop_last());
        after_token(prev.0, prev.1, if ts.len() == 1 { cr } else { None }, ts.last())
    }
}

/// Fragments joined end to end.
pub open spec fn concat_all(ts: Seq<Seq<char>>) -> Seq<char>
    decreases ts.len(),
{
    if ts.len() == 0 { seq![] } else { concat_all(ts.drop_last()) + ts.last() }
}

/// A run of answer fragments that starts when no answer is streaming adds
/// exactly one answer message, holding the fragments joined in order.
pub proof fn law_tokens_make_one_answer(ms: Seq<DisplayV>, cr: Option<usize>, ts: Seq<Seq<char>>)
    requires
        ts.len() >= 1,
        ms.len() < usize::MAX,
        cr matches Some(i) ==> i < ms.len(),
    ensures
        after_tokens(ms, None, cr, ts) == (
            collapse_at(ms, cr).push((DisplayKind::Assistant, concat_all(ts), false, None::<Seq<char>>)),
            Some(ms.len() as usize),
        ),
    decreases ts.len(),
{
    let base = collapse_at(ms, cr);
    assert(base.len() == ms.len());
    if ts.len() == 1 {
        assert(ts.drop_last() =~= Seq::<Seq<char>>::empty());
        assert(after_tokens(ms, None, cr, ts.drop_last()) == (ms, None::<usize>));
        assert(concat_all(ts.drop_last()) == Seq::<char>::empty());
        assert(concat_all(ts) =~= ts.last());
        assert(after_tokens(ms, None, cr, ts) == after_token(ms, None, cr, ts.last()));
    } else {
        law_tokens_make_one_answer(ms, cr, ts.drop_last());
        let prev = after_tokens(ms, None, cr, ts.drop_last());
        let c = concat_all(ts.drop_last());
        assert(collapse_at(prev.0, None) == prev.0);
        assert(prev.1 == Some(ms.len() as usize));
        assert((ms.len() as usize) as int == ms.len());
        assert(after_tokens(ms, None, cr, ts) == after_token(prev.0, prev.1, None, ts.last()));
        assert(concat_all(ts) == c + ts.last());
        assert(append_text(prev.0, ms.len() as int, ts.last()) =~= base.push(
            (DisplayKind::Assistant, c + ts.last(), false, None::<Seq<char>>),
        ));
    }
}

/// The message a finished turn leaves in the transcript: none for success, a
/// note for an interruption, the message for an error.
pub open spec fn closing_message(ev: AgentEvent) -> Option<(DisplayKind, Seq<char>)> {
    match ev {
        AgentEvent::Interrupted => Some((DisplayKind::Info, "Interrupted."@)),
        AgentEvent::Error(e) => Some((DisplayKind::Error, e@)),
        _ => None,
    }
}

impl App {
    /// Everything but the transcript, its cursors, the busy and follow flags
    /// and the token count is the same in `self` and `other`.
    pub open spec fn same_session(&self, other: &App) -> bool {
        &&& self.input == other.input
        &&& self.scroll == other.scroll
        &&& self.should_quit == other.should_quit
        &&& self.show_thinking == other.show_thinking
        &&& self.lang == other.lang
        &&& self.max_rounds == other.max_rounds
        &&& self.model == other.model
        &&& self.llm_base == other.llm_base
        &&& self.kiwix_base == other.kiwix_base
        &&& self.kiwix_reachable == other.kiwix_reachable
    }

    /// The streaming cursors point at messages of the right kind.
    pub open spec fn wf(&self) -> bool {
        &&& self.current_assistant matches Some(i) ==> i < self.messages@.len()
            && self.messages@[i as int].kind == DisplayKind::Assistant
        &&& self.current_reasoning matches Some(i) ==> i < self.messages@.len()
            && self.messages@[i as int].kind == DisplayKind::Thinking
    }

    /// The greeting shown when the session starts.
    pub open spec fn greeting(model: Seq<char>, llm_base: Seq<char>, kiwix_base: Seq<char>, reachable: bool) -> Seq<char> {
        "Connected to LLM '"@ + model + "' at "@ + llm_base + ". Kiwix: "@ + kiwix_base + " ("@
            + (if reachable { "reachable"@ } else { "UNREACHABLE"@ })
            + "). Type a question and press Enter. Tab toggles thinking. Commands: /lang <code>, /clear, /quit. Ctrl+C to exit."@
    }

    pub fn new(
        model: String,
        llm_base: String,
        kiwix_base: String,
        kiwix_reachable: bool,
        lang: String,
        max_rounds: usize,
    ) -> (app: App)
        ensures
            app.wf(),
            display_views(app.messages@) == seq![(
                DisplayKind::Info,
                App::greeting(model@, llm_base@, kiwix_base@, kiwix_reachable),
                false,
                None::<Seq<char>>,
            )],
            app.input@ == Seq::<char>::empty(),
            app.scroll == 0,
            app.follow,
            !app.busy,
            !app.should_quit,
            !app.show_thinking,
            app.context_tokens is None,
            app.lang == lang,
            app.max_rounds == max_rounds,
            app.model == model,
            app.llm_base == llm_base,
            app.kiwix_base == kiwix_base,
            app.kiwix_reachable == kiwix_reachable,
    {
        let mut g: Vec<char> = Vec::new();
        push_str(&mut g, "Connected to LLM '");
        let m = to_chars(model.as_str());
        push_all(&mut g, m.as_slice());
        push_str(&mut g, "' at ");
        let b = to_chars(llm_base.as_str());
        push_all(&mut g, b.as_slice());
        push_str(&mut g, ". Kiwix: ");
        let k = to_chars(kiwix_base.as_str());
        push_all(&mut g, k.as_slice());
        push_str(&mut g, " (");
        if kiwix_reachable {
            push_str(&mut g, "reachable");
        } else {
            push_str(&mut g, "UNREACHABLE");
        }
        push_str(
            &mut g,
            "). Type a question and press Enter. Tab toggles thinking. Commands: /lang <code>, /clear, /quit. Ctrl+C to exit.",
        );
        let mut app = App {
            messages: Vec::new(),
            input: String::new(),
            scroll: 0,
            follow: true,
            busy: false,
            should_quit: false,
            current_assistant: None,
            current_reasoning: None,
            show_thinking: false,
            context_tokens: None,
            lang,
            max_rounds,
            model,
            llm_base,
            kiwix_base,
            kiwix_reachable,
        };
        assert(g@ =~= App::greeting(app.model@, app.llm_base@, app.kiwix_base@, kiwix_reachable));
        app.push(DisplayKind::Info, from_chars(g.as_slice()));
        assert(display_views(app.messages@) =~= seq![(
            DisplayKind::Info,
            App::greeting(model@, llm_base@, kiwix_base@, kiwix_reachable),
            false,
            None::<Seq<char>>,
        )]);
        app
    }

    /// Append a message and follow the transcript to it.
    pub fn push(&mut self, kind: DisplayKind, text: String)
        requires
            old(self).wf(),
        ensures
            final(self).same_session(old(self)),
            final(self).wf(),
            display_views(final(self).messages@) == display_views(old(self).messages@).push(
                (kind, text@, false, None::<Seq<char>>),
            ),
            final(self).follow,
            final(self).current_assistant == old(self).current_assistant,
            final(self).current_reasoning == old(self).current_reasoning,
            final(self).busy == old(self).busy,
            final(self).should_quit == old(self).should_quit,
            final(self).input == old(self).input,
            final(self).lang == old(self).lang,
            final(self).show_thinking == old(self).show_thinking,
            final(self).context_tokens == old(self).context_tokens,
            final(self).scroll == old(self).scroll,
    {
        let ghost before = self.messages@;
        self.messages.push(DisplayMessage { kind, text, collapsed: false, title: None });
        proof {
            assert(display_views(self.messages@) =~= display_views(before).push(
                (kind, text@, false, None::<Seq<char>>),
            ));
        }
        self.follow = true;
    }

    /// Collapse the thinking block currently streaming (if any) and stop tracking it.
    pub fn finalize_reasoning(&mut self)
        requires
            old(self).wf(),
        ensures
            final(self).same_session(old(self)),
            final(self).wf(),
            final(self).current_reasoning is None,
            display_views(final(self).messages@) == collapse_at(
                display_views(old(self).messages@),
                old(self).current_reasoning,
            ),
            old(self).current_reasoning is None ==> final(self).messages@ == old(self).messages@,
            final(self).current_assistant == old(self).current_assistant,
            final(self).busy == old(self).busy,
            final(self).follow == old(self).follow,
            final(self).should_quit == old(self).should_quit,
            final(self).input == old(self).input,
            final(self).lang == old(self).lang,
            final(self).show_thinking == old(self).show_thinking,
            final(self).context_tokens == old(self).context_tokens,
            final(self).scroll == old(self).scroll,
    {
        match self.current_reasoning {
            Some(idx) => {
                let ghost before = self.messages@;
                let mut m = self.messages.remove(idx);
                m.collapsed = true;
                self.messages.insert(idx, m);
                self.current_reasoning = None;
                proof {
                    assert(display_views(self.messages@) =~= collapse_at(
                        display_views(before),
                        Some(idx),
                    ));
                }
            },
            None => {},
        }
    }
}


impl App {
    fn append_to(&mut self, idx: usize, t: &String)
        requires
            old(self).wf(),
            idx < old(self).messages@.len(),
        ensures
            final(self).same_session(old(self)),
            final(self).wf(),
            display_views(final(self).messages@) == append_text(display_views(old(self).messages@), idx as int, t@),
            final(self).current_assistant == old(self).current_assistant,
            final(self).current_reasoning == old(self).current_reasoning,
            final(self).busy == old(self).busy,
            final(self).follow == old(self).follow,
            final(self).context_tokens == old(self).context_tokens,
    {
        let ghost before = self.messages@;
        let mut m = self.messages.remove(idx);
        let mut v = to_chars(m.text.as_str());
        let w = to_chars(t.as_str());
        push_all(&mut v, w.as_slice());
        m.text = from_chars(v.as_slice());
        self.messages.insert(idx, m);
        proof {
            assert(display_views(self.messages@) =~= append_text(display_views(before), idx as int, t@));
        }
    }

    /// Handle an event coming from the running agent task.
    pub fn on_agent_event(&mut self, ev: AgentEvent)
        requires
            old(self).wf(),
        ensures
            final(self).same_session(old(self)),
            final(self).wf(),
            final(self).follow,
            final(self).input == old(self).input,
            final(self).lang == old(self).lang,
            final(self).should_quit == old(self).should_quit,
            match ev {
                AgentEvent::Token(t) => {
                    &&& final(self).current_reasoning is None
                    &&& final(self).busy == old(self).busy
                    &&& (display_views(final(self).messages@), final(self).current_assistant) == after_token(
                        display_views(old(self).messages@),
                        old(self).current_assistant,
                        old(self).current_reasoning,
                        t@,
                    )
                },
                AgentEvent::Reasoning(r) => {
                    let base = display_views(old(self).messages@);
                    &&& final(self).current_assistant is None
                    &&& final(self).busy == old(self).busy
                    &&& match old(self).current_reasoning {
                        Some(i) => display_views(final(self).messages@) == append_text(base, i as int, r@)
                            && final(self).current_reasoning == Some(i),
                        None => display_views(final(self).messages@) == base.push(
                            (DisplayKind::Thinking, r@, false, None::<Seq<char>>),
                        ) && final(self).current_reasoning == Some(base.len() as usize),
                    }
                },
                AgentEvent::ToolFinished { summary } => {
                    &&& final(self).current_assistant is None
                    &&& final(self).current_reasoning is None
                    &&& final(self).busy == old(self).busy
                    &&& display_views(final(self).messages@) == collapse_at(
                        display_views(old(self).messages@),
                        old(self).current_reasoning,
                    ).push((DisplayKind::Tool, summary@, false, None::<Seq<char>>))
                },
                AgentEvent::SubagentAnswer { question, answer } => {
                    &&& final(self).current_assistant is None
                    &&& final(self).current_reasoning is None
                    &&& final(self).busy == old(self).busy
                    &&& display_views(final(self).messages@) == collapse_at(
                        display_views(old(self).messages@),
                        old(self).current_reasoning,
                    ).push((DisplayKind::Subagent, answer@, true, Some(question@)))
                },
                AgentEvent::Usage { prompt_tokens, completion_tokens } => {
                    &&& final(self).messages == old(self).messages
                    &&& final(self).current_assistant == old(self).current_assistant
                    &&& final(self).current_reasoning == old(self).current_reasoning
                    &&& final(self).busy == old(self).busy
                    &&& final(self).context_tokens == Some(
                        if prompt_tokens + completion_tokens <= u32::MAX {
                            (prompt_tokens + completion_tokens) as u32
                        } else {
                            u32::MAX
                        },
                    )
                },
                _ => {
                    let base = collapse_at(display_views(old(self).messages@), old(self).current_reasoning);
                    &&& final(self).current_assistant is None
                    &&& final(self).current_reasoning is None
                    &&& !final(self).busy
                    &&& display_views(final(self).messages@) == match closing_message(ev) {
                        Some((k, text)) => base.push((k, text, false, None::<Seq<char>>)),
                        None => base,
                    }
                },
            },
    {
        match ev {
            AgentEvent::Token(t) => {
                self.finalize_reasoning();
                match self.current_assistant {
                    Some(idx) => self.append_to(idx, &t),
                    None => {
                        let ghost before = self.messages@;
                        self.messages.push(DisplayMessage {
                            kind: DisplayKind::Assistant,
                            text: t,
                            collapsed: false,
                            title: None,
                        });
                        proof {
                            assert(display_views(self.messages@) =~= display_views(before).push(
                                (DisplayKind::Assistant, t@, false, None::<Seq<char>>),
                            ));
                        }
                        self.current_assistant = Some(self.messages.len() - 1);
                    },
                }
            },
            AgentEvent::Reasoning(r) => {
                self.current_assistant = None;
                match self.current_reasoning {
                    Some(idx) => self.append_to(idx, &r),
                    None => {
                        let ghost before = self.messages@;
                        self.messages.push(DisplayMessage {
                            kind: DisplayKind::Thinking,
                            text: r,
                            collapsed: false,
                            title: None,
                        });
                        proof {
                            assert(display_views(self.messages@) =~= display_views(before).push(
                                (DisplayKind::Thinking, r@, false, None::<Seq<char>>),
                            ));
                        }
                        self.current_reasoning = Some(self.messages.len() - 1);
                    },
                }
            },
            AgentEvent::ToolFinished { summary } => {
                self.finalize_reasoning();
                self.current_assistant = None;
                self.push(DisplayKind::Tool, summary);
            },
            AgentEvent::SubagentAnswer { question, answer } => {
                self.finalize_reasoning();
                self.current_assistant = None;
                let ghost before = self.messages@;
                self.messages.push(DisplayMessage {
                    kind: DisplayKind::Subagent,
                    text: answer,
                    collapsed: true,
                    title: Some(question),
                });
                proof {
                    assert(display_views(self.messages@) =~= display_views(before).push(
                        (DisplayKind::Subagent, answer@, true, Some(question@)),
                    ));
                }
            },
            AgentEvent::Usage { prompt_tokens, completion_tokens } => {
                self.context_tokens = Some(prompt_tokens.saturating_add(completion_tokens));
            },
            AgentEvent::Done => {
                self.finalize_reasoning();
                self.current_assistant = None;
                self.busy = false;
            },
            AgentEvent::Interrupted => {
                self.finalize_reasoning();
                self.current_assistant = None;
                self.push(DisplayKind::Info, crate::text::owned("Interrupted."));
                self.busy = false;
            },
            AgentEvent::Error(e) => {
                self.finalize_reasoning();
                self.current_assistant = None;
                self.push(DisplayKind::Error, e);
                self.busy = false;
            },
        }
        self.follow = true;
    }
}


/// The message an unknown command gets.
pub open spec fn unknown_command_message(word: Seq<char>) -> Seq<char> {
    "Unknown command '/"@ + word + "'. Try /lang, /clear, /quit."@
}

pub open spec fn lang_set_message(code: Seq<char>) -> Seq<char> {
    "Search language set to '"@ + code + "'."@
}

pub open spec fn lang_current_message(lang: Seq<char>) -> Seq<char> {
    "Current search language: '"@ + lang + "'."@
}

pub open spec fn is_quit_word(w: Seq<char>) -> bool {
    w == "quit"@ || w == "q"@ || w == "exit"@
}

impl App {
    /// What the slash command `cmd` (the text after `/`) does to the session.
    pub open spec fn command_effect(old_app: &App, new_app: &App, cmd: Seq<char>, r: Action) -> bool {
        match first_word(cmd) {
            None => new_app.messages == old_app.messages && new_app.lang == old_app.lang
                && new_app.should_quit == old_app.should_quit && r == Action::Nothing,
            Some((w, rest)) => if is_quit_word(w) {
                new_app.should_quit && new_app.messages == old_app.messages && new_app.lang == old_app.lang
                    && r == Action::Nothing
            } else if w == "clear"@ {
                &&& display_views(new_app.messages@) == seq![(DisplayKind::Info, "Conversation cleared."@, false, None::<Seq<char>>)]
                &&& new_app.current_assistant is None
                &&& new_app.current_reasoning is None
                &&& new_app.lang == old_app.lang
                &&& new_app.should_quit == old_app.should_quit
                &&& r == Action::ClearHistory
            } else if w == "lang"@ {
                &&& new_app.should_quit == old_app.should_quit
                &&& r == Action::Nothing
                &&& match first_word(rest) {
                    Some((code, _)) => new_app.lang@ == code && display_views(new_app.messages@)
                        == display_views(old_app.messages@).push(
                        (DisplayKind::Info, lang_set_message(code), false, None::<Seq<char>>),
                    ),
                    None => new_app.lang == old_app.lang && display_views(new_app.messages@)
                        == display_views(old_app.messages@).push(
                        (DisplayKind::Info, lang_current_message(old_app.lang@), false, None::<Seq<char>>),
                    ),
                }
            } else {
                &&& new_app.should_quit == old_app.should_quit
                &&& new_app.lang == old_app.lang
                &&& r == Action::Nothing
                &&& display_views(new_app.messages@) == display_views(old_app.messages@).push(
                    (DisplayKind::Error, unknown_command_message(w), false, None::<Seq<char>>),
                )
            },
        }
    }

    /// Run a slash command (the text after `/`).
    pub fn handle_command(&mut self, cmd: &[char]) -> (r: Action)
        requires
            old(self).wf(),
        ensures
            final(self).wf(),
            App::command_effect(old(self), final(self), cmd@, r),
            final(self).busy == old(self).busy,
            final(self).input == old(self).input,
            final(self).show_thinking == old(self).show_thinking,
            final(self).max_rounds == old(self).max_rounds,
    {
        match split_first_word(cmd) {
            None => Action::Nothing,
            Some((w, rest)) => {
                if eq_str(w.as_slice(), "quit") || eq_str(w.as_slice(), "q") || eq_str(w.as_slice(), "exit") {
                    self.should_quit = true;
                    Action::Nothing
                } else if eq_str(w.as_slice(), "clear") {
                    self.messages = Vec::new();
                    self.current_assistant = None;
                    self.current_reasoning = None;
                    self.push(DisplayKind::Info, crate::text::owned("Conversation cleared."));
                    assert(display_views(self.messages@) =~= seq![(DisplayKind::Info, "Conversation cleared."@, false, None::<Seq<char>>)]);
                    Action::ClearHistory
                } else if eq_str(w.as_slice(), "lang") {
                    match split_first_word(rest.as_slice()) {
                        Some((code, _)) => {
                            self.lang = from_chars(code.as_slice());
                            let mut m: Vec<char> = Vec::new();
                            push_str(&mut m, "Search language set to '");
                            push_all(&mut m, code.as_slice());
                            push_str(&mut m, "'.");
                            assert(m@ =~= lang_set_message(code@));
                            self.push(DisplayKind::Info, from_chars(m.as_slice()));
                        },
                        None => {
                            let mut m: Vec<char> = Vec::new();
                            push_str(&mut m, "Current search language: '");
                            let l = to_chars(self.lang.as_str());
                            push_all(&mut m, l.as_slice());
                            push_str(&mut m, "'.");
                            assert(m@ =~= lang_current_message(self.lang@));
                            self.push(DisplayKind::Info, from_chars(m.as_slice()));
                        },
                    }
                    Action::Nothing
                } else {
                    let mut m: Vec<char> = Vec::new();
                    push_str(&mut m, "Unknown command '/");
                    push_all(&mut m, w.as_slice());
                    push_str(&mut m, "'. Try /lang, /clear, /quit.");
                    assert(m@ =~= unknown_command_message(w@));
                    self.push(DisplayKind::Error, from_chars(m.as_slice()));
                    Action::Nothing
                }
            },
        }
    }

    /// Send the typed line: a slash command runs at once; anything else
    /// becomes a user message and starts an agent turn.
    /// What sending the typed line does: nothing for a blank line, the
    /// command for a line starting with `/`, else a user message and a turn.
    pub open spec fn submitted(old_app: &App, new_app: &App, r: Action) -> bool {
        let text = trim(old_app.input@);
        &&& new_app.input@ == Seq::<char>::empty()
        &&& new_app.max_rounds == old_app.max_rounds
        &&& new_app.show_thinking == old_app.show_thinking
        &&& if text.len() == 0 {
            r == Action::Nothing && new_app.messages == old_app.messages && new_app.busy == old_app.busy
        } else if text[0] == '/' {
            App::command_effect(old_app, new_app, text.drop_first(), r) && new_app.busy == old_app.busy
        } else {
            &&& r matches Action::StartTurn(t) && t@ == text
            &&& new_app.busy
            &&& new_app.current_assistant is None
            &&& new_app.lang == old_app.lang
            &&& new_app.should_quit == old_app.should_quit
            &&& display_views(new_app.messages@) == display_views(old_app.messages@).push(
                (DisplayKind::User, text, false, None::<Seq<char>>),
            )
        }
    }

    pub fn submit(&mut self) -> (r: Action)
        requires
            old(self).wf(),
        ensures
            final(self).wf(),
            App::submitted(old(self), final(self), r),
    {
        let c = to_chars(self.input.as_str());
        let text = trim_chars(c.as_slice());
        self.input = String::new();
        if text.len() == 0 {
            return Action::Nothing;
        }
        if text[0] == '/' {
            let cmd = crate::text::slice_chars(text.as_slice(), 1, text.len());
            assert(cmd@ =~= text@.drop_first());
            return self.handle_command(cmd.as_slice());
        }
        self.push(DisplayKind::User, from_chars(text.as_slice()));
        self.busy = true;
        self.current_assistant = None;
        Action::StartTurn(from_chars(text.as_slice()))
    }

    /// Handle a key press.
    pub fn on_key(&mut self, k: KeyInput) -> (r: Action)
        requires
            old(self).wf(),
        ensures
            final(self).wf(),
            final(self).max_rounds == old(self).max_rounds,
            k.release ==> r == Action::Nothing && final(self).input == old(self).input
                && final(self).messages == old(self).messages && final(self).should_quit == old(self).should_quit
                && final(self).busy == old(self).busy,
            !k.release && k.ctrl && k.key == Key::Char('c') ==> final(self).should_quit && r == Action::Nothing,
            !k.release && !(k.ctrl && k.key == Key::Char('c')) ==> match k.key {
                Key::PageUp => !final(self).follow && final(self).scroll == (if old(self).scroll >= 5 {
                    (old(self).scroll - 5) as u16
                } else {
                    0
                }) && final(self).messages == old(self).messages && r == Action::Nothing
                    && final(self).input == old(self).input && final(self).busy == old(self).busy,
                Key::PageDown => final(self).scroll == (if old(self).scroll <= u16::MAX - 5 {
                    (old(self).scroll + 5) as u16
                } else {
                    u16::MAX
                }) && final(self).messages == old(self).messages && r == Action::Nothing
                    && final(self).input == old(self).input && final(self).busy == old(self).busy,
                Key::Tab => final(self).show_thinking == !old(self).show_thinking && !final(self).follow
                    && final(self).messages == old(self).messages && r == Action::Nothing
                    && final(self).input == old(self).input && final(self).busy == old(self).busy,
                Key::Esc => final(self).messages == old(self).messages && final(self).input == old(self).input
                    && final(self).busy == old(self).busy && r == (if old(self).busy {
                    Action::Interrupt
                } else {
                    Action::Nothing
                }),
                _ => if old(self).busy {
                    final(self).input == old(self).input && final(self).messages == old(self).messages
                        && final(self).busy == old(self).busy && r == Action::Nothing
                } else {
                    match k.key {
                        Key::Char(c) => final(self).input@ == old(self).input@.push(c) && r == Action::Nothing
                            && final(self).messages == old(self).messages && final(self).busy == old(self).busy,
                        Key::Backspace => final(self).input@ == (if old(self).input@.len() > 0 {
                            old(self).input@.drop_last()
                        } else {
                            old(self).input@
                        }) && r == Action::Nothing && final(self).messages == old(self).messages
                            && final(self).busy == old(self).busy,
                        Key::Enter => App::submitted(old(self), final(self), r),
                        _ => final(self).input == old(self).input && r == Action::Nothing
                            && final(self).messages == old(self).messages && final(self).busy == old(self).busy,
                    }
                },
            },
    {
        if k.release {
            return Action::Nothing;
        }
        if k.ctrl && k.key == Key::Char('c') {
            self.should_quit = true;
            return Action::Nothing;
        }
        match k.key {
            Key::PageUp => {
                self.follow = false;
                self.scroll = self.scroll.saturating_sub(5);
                Action::Nothing
            },
            Key::PageDown => {
                self.scroll = self.scroll.saturating_add(5);
                Action::Nothing
            },
            Key::Tab => {
                // Expand/collapse all reasoning blocks (works even while busy).
                self.show_thinking = !self.show_thinking;
                self.follow = false;
                Action::Nothing
            },
            Key::Esc => {
                if self.busy {
                    Action::Interrupt
                } else {
                    Action::Nothing
                }
            },
            _ => {
                if self.busy {
                    // Input edits are ignored while a turn runs.
                    return Action::Nothing;
                }
                match k.key {
                    Key::Enter => self.submit(),
                    Key::Char(c) => {
                        let mut v = to_chars(self.input.as_str());
                        v.push(c);
                        self.input = from_chars(v.as_slice());
                        Action::Nothing
                    },
                    Key::Backspace => {
                        let mut v = to_chars(self.input.as_str());
                        v.pop();
                        self.input = from_chars(v.as_slice());
                        Action::Nothing
                    },
                    _ => Action::Nothing,
                }
            },
        }
    }

    /// Handle a mouse event (wheel scrolling of the transcript).
    pub fn on_mouse(&mut self, m: Mouse)
        requires
            old(self).wf(),
        ensures
            final(self).wf(),
            final(self).messages == old(self).messages,
            final(self).input == old(self).input,
            match m {
                Mouse::ScrollUp => !final(self).follow && final(self).scroll == (if old(self).scroll >= 3 {
                    (old(self).scroll - 3) as u16
                } else {
                    0
                }),
                Mouse::ScrollDown => final(self).scroll == (if old(self).scroll <= u16::MAX - 3 {
                    (old(self).scroll + 3) as u16
                } else {
                    u16::MAX
                }) && final(self).follow == old(self).follow,
                Mouse::Other => final(self).scroll == old(self).scroll && final(self).follow == old(self).follow,
            },
    {
        match m {
            Mouse::ScrollUp => {
                self.follow = false;
                self.scroll = self.scroll.saturating_sub(3);
            },
            Mouse::ScrollDown => {
                self.scroll = self.scroll.saturating_add(3);
            },
            Mouse::Other => {},
        }
    }
}

proof fn lemma_word_alone(w: Seq<char>)
    requires
        w.len() > 0,
        forall|k: int| 0 <= k < w.len() ==> !crate::text::is_space(#[trigger] w[k]),
    ensures
        first_word(w) == Some((w, Seq::<char>::empty())),
{
    assert(crate::text::trim_start(w) == w);
    crate::text::lemma_word_len(w, w.len() as int);
    assert(w.take(w.len() as int) =~= w);
    assert(w.skip(w.len() as int) =~= Seq::<char>::empty());
}

proof fn lemma_word_then(w: Seq<char>, rest: Seq<char>)
    requires
        w.len() > 0,
        forall|k: int| 0 <= k < w.len() ==> !crate::text::is_space(#[trigger] w[k]),
        rest.len() > 0,
        crate::text::is_space(rest[0]),
    ensures
        first_word(w + rest) == Some((w, rest)),
{
    let t = w + rest;
    assert(crate::text::trim_start(t) == t);
    crate::text::lemma_word_len(t, w.len() as int);
    assert(t.take(w.len() as int) =~= w);
    assert(t.skip(w.len() as int) =~= rest);
}

/// `/lang <code>` sets the search language to the code and says so.
pub proof fn law_lang_command(old_app: &App, new_app: &App, code: Seq<char>, r: Action)
    requires
        code.len() > 0,
        forall|k: int| 0 <= k < code.len() ==> !crate::text::is_space(#[trigger] code[k]),
        App::command_effect(old_app, new_app, "lang "@ + code, r),
    ensures
        new_app.lang@ == code,
        r == Action::Nothing,
        new_app.should_quit == old_app.should_quit,
        display_views(new_app.messages@) == display_views(old_app.messages@).push(
            (DisplayKind::Info, "Search language set to '"@ + code + "'."@, false, None::<Seq<char>>),
        ),
{
    reveal_strlit("lang ");
    reveal_strlit("lang");
    reveal_strlit(" ");
    reveal_strlit("quit");
    reveal_strlit("q");
    reveal_strlit("exit");
    reveal_strlit("clear");
    let cmd = "lang "@ + code;
    assert(cmd =~= "lang"@ + (" "@ + code));
    lemma_word_then("lang"@, " "@ + code);
    assert(crate::text::trim_start(" "@ + code) == crate::text::trim_start((" "@ + code).drop_first()));
    assert((" "@ + code).drop_first() =~= code);
    lemma_word_alone(code);
    assert("lang"@[0] == 'l' && "quit"@[0] == 'q' && "q"@[0] == 'q' && "exit"@[0] == 'e' && "clear"@[0] == 'c');
    assert("lang"@.len() != "q"@.len());
}

/// `/quit`, `/q` and `/exit` end the session and change nothing else.
pub proof fn law_quit_commands(old_app: &App, new_app: &App, word: Seq<char>, r: Action)
    requires
        word == "quit"@ || word == "q"@ || word == "exit"@,
        App::command_effect(old_app, new_app, word, r),
    ensures
        new_app.should_quit,
        new_app.messages == old_app.messages,
        new_app.lang == old_app.lang,
        r == Action::Nothing,
{
    reveal_strlit("quit");
    reveal_strlit("q");
    reveal_strlit("exit");
    lemma_word_alone(word);
}

/// `/clear` empties the transcript but for a note that says so, and asks for
/// the model's history to be dropped.
pub proof fn law_clear_command(old_app: &App, new_app: &App, r: Action)
    requires
        App::command_effect(old_app, new_app, "clear"@, r),
    ensures
        display_views(new_app.messages@) == seq![(DisplayKind::Info, "Conversation cleared."@, false, None::<Seq<char>>)],
        new_app.lang == old_app.lang,
        new_app.should_quit == old_app.should_quit,
        r == Action::ClearHistory,
{
    reveal_strlit("clear");
    reveal_strlit("quit");
    reveal_strlit("q");
    reveal_strlit("exit");
    lemma_word_alone("clear"@);
    assert("clear"@[0] == 'c' && "quit"@[0] == 'q' && "q"@[0] == 'q' && "exit"@[0] == 'e');
}

} // verus!
