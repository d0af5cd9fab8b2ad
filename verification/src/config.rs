//! Command-line configuration.
use vstd::prelude::*;

use crate::text::{from_chars, push_str, to_chars, trim_end_char, trim_trailing_slashes};

verus! {

/// Terminal chat UI backed by a local LLM agent and a local Kiwix (Wikipedia) server.
#[derive(Debug, Clone)]
pub struct Cli {
    /// Base URL of the kiwix-serve instance (host + port, optional root prefix).
    pub kiwix_url: String,
    /// OpenAI-compatible LLM base URL. If unset, auto-detect llama.cpp (:8080) then Ollama (:11434).
    pub llm_url: Option<String>,
    /// Model id to use. Defaults to the first model reported by /v1/models.
    pub model: Option<String>,
    /// 3-letter language code used to scope Wikipedia searches.
    pub lang: String,
    /// Maximum number of agent tool-call rounds per user turn.
    pub max_rounds: usize,
    /// Write a debug log to kiwix-chat.log instead of stdout (which the TUI owns).
    pub verbose: bool,
}

/// Connection timeout for the startup LLM probe, in seconds.
pub const LLM_PROBE_TIMEOUT_SECS: u64 = 3;

/// Default number of agent tool-call rounds per user turn.
pub const DEFAULT_MAX_ROUNDS: usize = 6;

impl Cli {
    /// Normalized kiwix base URL without a trailing slash.
    pub fn kiwix_base(&self) -> (r: String)
        ensures
            r@ == trim_end_char(self.kiwix_url@, '/'),
    {
        let c = to_chars(self.kiwix_url.as_str());
        let t = trim_trailing_slashes(c.as_slice());
        from_chars(t.as_slice())
    }
}


/// Candidate OpenAI-compatible backends probed at startup, in priority order:
/// llama.cpp, then Ollama.
pub fn llm_autodetect_urls() -> (r: Vec<&'static str>)
    ensures
        r@.len() == 2,
        r@[0]@ == "http://localhost:8080/v1"@,
        r@[1]@ == "http://localhost:11434/v1"@,
{
    let mut v: Vec<&'static str> = Vec::new();
    v.push("http://localhost:8080/v1");
    v.push("http://localhost:11434/v1");
    v
}

/// What a failed autodetection probe of `url` leaves as the last error:
/// nothing when the backend reported models, else why it cannot be used.
pub fn probe_note(url: &str, outcome: &Result<Vec<String>, String>) -> (r: Option<String>)
    ensures
        match outcome {
            Ok(models) => if models@.len() > 0 {
                r is None
            } else {
                r matches Some(m) && m@ == url@ + ": reachable but no models loaded"@
            },
            Err(e) => r matches Some(m) && m@ == url@ + ": "@ + e@,
        },
{
    match outcome {
        Ok(models) => {
            if models.len() > 0 {
                None
            } else {
                let mut v: Vec<char> = Vec::new();
                push_str(&mut v, url);
                push_str(&mut v, ": reachable but no models loaded");
                Some(from_chars(v.as_slice()))
            }
        },
        Err(e) => {
            let mut v: Vec<char> = Vec::new();
            push_str(&mut v, url);
            push_str(&mut v, ": ");
            push_str(&mut v, e.as_str());
            Some(from_chars(v.as_slice()))
        },
    }
}

/// The error when no candidate backend could be used, given the last probe's note.
pub fn autodetect_failure(last: Option<String>) -> (r: String)
    ensures
        r@ == "could not autodetect an LLM backend on http://localhost:8080/v1, http://localhost:11434/v1. Last error: "@
            + (match last {
            Some(l) => l@,
            None => "none"@,
        }) + ". Start llama.cpp or Ollama, or pass --llm-url."@,
{
    let mut v: Vec<char> = Vec::new();
    push_str(
        &mut v,
        "could not autodetect an LLM backend on http://localhost:8080/v1, http://localhost:11434/v1. Last error: ",
    );
    match &last {
        Some(l) => push_str(&mut v, l.as_str()),
        None => push_str(&mut v, "none"),
    }
    push_str(&mut v, ". Start llama.cpp or Ollama, or pass --llm-url.");
    from_chars(v.as_slice())
}


/// The candidate backend probed `i`-th.
pub open spec fn candidate(i: nat) -> Seq<char> {
    if i == 0 { "http://localhost:8080/v1"@ } else { "http://localhost:11434/v1"@ }
}

/// A probe's outcome: the model ids reported, or the failure's text.
pub type OutcomeV = Result<Seq<Seq<char>>, Seq<char>>;

pub open spec fn outcome_view(o: Result<Vec<String>, String>) -> OutcomeV {
    match o {
        Ok(ms) => Ok(ms@.map_values(|m: String| m@)),
        Err(e) => Err(e@),
    }
}

/// What a probe of `url` leaves as the last error (nothing when it reported models).
pub open spec fn note_spec(url: Seq<char>, o: OutcomeV) -> Option<Seq<char>> {
    match o {
        Ok(ms) => if ms.len() > 0 { None } else { Some(url + ": reachable but no models loaded"@) },
        Err(e) => Some(url + ": "@ + e),
    }
}

/// The model used: the one named on the command line, else the first reported.
pub open spec fn model_of(explicit: Option<Seq<char>>, ms: Seq<Seq<char>>) -> Seq<char> {
    match explicit {
        Some(m) => m,
        None => ms[0],
    }
}

/// The error when no candidate answered, given the last note.
pub open spec fn failure_spec(last: Option<Seq<char>>) -> Seq<char> {
    "could not autodetect an LLM backend on http://localhost:8080/v1, http://localhost:11434/v1. Last error: "@
        + (match last {
        Some(l) => l,
        None => "none"@,
    }) + ". Start llama.cpp or Ollama, or pass --llm-url."@
}

/// (candidates tried without success, last error, backend chosen) of an autodetection.
pub type DetectV = (nat, Option<Seq<char>>, Option<(Seq<char>, Seq<char>)>);

/// What autodetection does next.
#[derive(Debug, Clone, PartialEq)]
pub enum DetectStep {
    /// Probe this candidate and report the outcome with `probed`.
    Probe(String),
    /// Use this backend and model.
    Use(String, String),
    /// No candidate can be used; carries the error.
    Fail(String),
}

/// The view of a `DetectStep`: 0 probe, 1 use, 2 fail, with its texts.
pub open spec fn step_view(s: DetectStep) -> (nat, Seq<char>, Seq<char>) {
    match s {
        DetectStep::Probe(u) => (0, u@, seq![]),
        DetectStep::Use(u, m) => (1, u@, m@),
        DetectStep::Fail(e) => (2, e@, seq![]),
    }
}

/// The next step from state `st`: use the chosen backend, else probe the
/// next candidate, else fail with the last error.
pub open spec fn next_spec(st: DetectV) -> (nat, Seq<char>, Seq<char>) {
    match st.2 {
        Some(c) => (1, c.0, c.1),
        None => if st.0 < 2 { (0, candidate(st.0), seq![]) } else { (2, failure_spec(st.1), seq![]) },
    }
}

/// The state after the current candidate's probe gave `o`: the first
/// candidate that reports models is chosen; any other outcome becomes the
/// last error and the next candidate is up.
pub open spec fn probed_spec(st: DetectV, o: OutcomeV, explicit: Option<Seq<char>>) -> DetectV {
    let url = candidate(st.0);
    match note_spec(url, o) {
        None => (st.0, st.1, Some((url, model_of(explicit, o->Ok_0)))),
        Some(n) => (st.0 + 1, Some(n), None),
    }
}

/// Autodetection of the LLM backend: the candidates are probed in order and
/// the first that reports a model is used.
pub struct Autodetect {
    pub tried: usize,
    pub last_err: Option<String>,
    pub chosen: Option<(String, String)>,
}

pub open spec fn detect_view(d: &Autodetect) -> DetectV {
    (
        d.tried as nat,
        match d.last_err {
            Some(e) => Some(e@),
            None => None,
        },
        match d.chosen {
            Some(c) => Some((c.0@, c.1@)),
            None => None,
        },
    )
}

impl Autodetect {
    /// No candidate probed yet.
    pub fn new() -> (d: Autodetect)
        ensures
            detect_view(&d) == (0nat, None::<Seq<char>>, None::<(Seq<char>, Seq<char>)>),
    {
        Autodetect { tried: 0, last_err: None, chosen: None }
    }

    /// What to do next.
    pub fn next(&self) -> (s: DetectStep)
        ensures
            step_view(s) == next_spec(detect_view(self)),
    {
        match &self.chosen {
            Some(c) => DetectStep::Use(crate::text::owned(c.0.as_str()), crate::text::owned(c.1.as_str())),
            None => {
                if self.tried < 2 {
                    let urls = llm_autodetect_urls();
                    DetectStep::Probe(crate::text::owned(urls[self.tried]))
                } else {
                    let last = match &self.last_err {
                        Some(e) => Some(crate::text::owned(e.as_str())),
                        None => None,
                    };
                    DetectStep::Fail(autodetect_failure(last))
                }
            },
        }
    }

    /// Take the outcome of probing the candidate that `next` named.
    pub fn probed(&mut self, outcome: Result<Vec<String>, String>, explicit: Option<String>)
        requires
            old(self).tried < 2,
            old(self).chosen is None,
        ensures
            detect_view(final(self)) == probed_spec(
                detect_view(old(self)),
                outcome_view(outcome),
                crate::llm::opt_view(explicit),
            ),
    {
        let urls = llm_autodetect_urls();
        let url = urls[self.tried];
        assert(url@ == candidate(self.tried as nat));
        match probe_note(url, &outcome) {
            Some(n) => {
                self.tried = self.tried + 1;
                self.last_err = Some(n);
            },
            None => {
                let models = match outcome {
                    Ok(m) => m,
                    Err(_) => Vec::new(),
                };
                let ghost ms = models@.map_values(|m: String| m@);
                let model = match explicit {
                    Some(m) => m,
                    None => crate::text::owned(models[0].as_str()),
                };
                assert(models@.len() > 0 ==> ms[0] == models@[0]@);
                self.chosen = Some((crate::text::owned(url), model));
            },
        }
    }
}

/// The first candidate that reports a model is used, whatever the second
/// would answer; when neither does, autodetection fails with the second
/// candidate's note as the last error.
pub proof fn law_first_answer_wins(o0: OutcomeV, o1: OutcomeV, explicit: Option<Seq<char>>)
    ensures
        ({
            let s1 = probed_spec((0nat, None::<Seq<char>>, None::<(Seq<char>, Seq<char>)>), o0, explicit);
            let s2 = probed_spec(s1, o1, explicit);
            if note_spec(candidate(0), o0) is None {
                next_spec(s1) == (1nat, candidate(0), model_of(explicit, o0->Ok_0))
            } else if note_spec(candidate(1), o1) is None {
                next_spec(s1) == (0nat, candidate(1), Seq::<char>::empty()) && next_spec(s2) == (
                    1nat,
                    candidate(1),
                    model_of(explicit, o1->Ok_0),
                )
            } else {
                next_spec(s1) == (0nat, candidate(1), Seq::<char>::empty()) && next_spec(s2) == (
                    2nat,
                    failure_spec(note_spec(candidate(1), o1)),
                    Seq::<char>::empty(),
                )
            }
        }),
{
}

} // verus!
