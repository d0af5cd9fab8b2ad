//! The chat model's message types and the logic of the OpenAI-compatible
//! streaming protocol: base-URL normalization, server-sent-event framing, and
//! reassembly of streamed tool-call fragments.
use vstd::prelude::*;

use crate::text::{
    eq_str, from_chars, from_utf8_lossy, has_prefix, push_all,
    slice_chars, starts_with, to_chars, trim, trim_chars, utf8_lossy,
    trim_end_char, trim_trailing_slashes,
};

verus! {

/// Who authored a chat message.
#[derive(Debug, Clone, Copy, PartialEq, Eq)]
pub enum Role {
    System,
    User,
    Assistant,
    Tool,
}

/// The function a tool call invokes: its name and JSON-encoded arguments.
#[derive(Debug, Clone, PartialEq)]
pub struct FunctionCall {
    pub name: String,
    pub arguments: String,
}

/// A tool call requested by the model.
#[derive(Debug, Clone, PartialEq)]
pub struct ToolCall {
    pub id: String,
    /// The call's `type` (always `"function"` once assembled).
    pub kind: String,
    pub function: FunctionCall,
}

/// One message of the conversation sent to the model.
#[derive(Debug, Clone, PartialEq)]
pub struct ChatMessage {
    pub role: Role,
    pub content: Option<String>,
    pub tool_calls: Option<Vec<ToolCall>>,
    pub tool_call_id: Option<String>,
}

/// (id, kind, name, arguments) of a tool call.
pub type ToolCallV = (Seq<char>, Seq<char>, Seq<char>, Seq<char>);

pub open spec fn call_view(c: ToolCall) -> ToolCallV {
    (c.id@, c.kind@, c.function.name@, c.function.arguments@)
}

pub open spec fn call_views(v: Seq<ToolCall>) -> Seq<ToolCallV> {
    v.map_values(|c: ToolCall| call_view(c))
}

/// (role, content, tool calls, tool call id) of a message.
pub type MessageV = (Role, Option<Seq<char>>, Option<Seq<ToolCallV>>, Option<Seq<char>>);

pub open spec fn opt_view(o: Option<String>) -> Option<Seq<char>> {
    match o {
        Some(s) => Some(s@),
        None => None,
    }
}

pub open spec fn message_view(m: ChatMessage) -> MessageV {
    (
        m.role,
        opt_view(m.content),
        match m.tool_calls {
            Some(v) => Some(call_views(v@)),
            None => None,
        },
        opt_view(m.tool_call_id),
    )
}

impl ChatMessage {
    pub fn system(content: &str) -> (m: ChatMessage)
        ensures
            message_view(m) == (Role::System, Some(content@), None::<Seq<ToolCallV>>, None::<Seq<char>>),
    {
        ChatMessage { role: Role::System, content: Some(crate::text::owned(content)), tool_calls: None, tool_call_id: None }
    }

    pub fn user(content: &str) -> (m: ChatMessage)
        ensures
            message_view(m) == (Role::User, Some(content@), None::<Seq<ToolCallV>>, None::<Seq<char>>),
    {
        ChatMessage { role: Role::User, content: Some(crate::text::owned(content)), tool_calls: None, tool_call_id: None }
    }

    pub fn assistant(content: String) -> (m: ChatMessage)
        ensures
            message_view(m) == (Role::Assistant, Some(content@), None::<Seq<ToolCallV>>, None::<Seq<char>>),
    {
        ChatMessage { role: Role::Assistant, content: Some(content), tool_calls: None, tool_call_id: None }
    }

    pub fn tool_result(id: String, content: String) -> (m: ChatMessage)
        ensures
            message_view(m) == (Role::Tool, Some(content@), None::<Seq<ToolCallV>>, Some(id@)),
    {
        ChatMessage { role: Role::Tool, content: Some(content), tool_calls: None, tool_call_id: Some(id) }
    }
}

/// Whether `s` ends with `p`.
pub open spec fn ends_with(s: Seq<char>, p: Seq<char>) -> bool {
    p.len() <= s.len() && s.skip(s.len() - p.len()) == p
}

/// The API base: the URL without trailing slashes, with `/v1` appended unless
/// it already ends with it.
pub open spec fn api_base(url: Seq<char>) -> Seq<char> {
    let t = trim_end_char(url, '/');
    if ends_with(t, "/v1"@) {
        t
    } else {
        t + "/v1"@
    }
}

/// Ensure the base URL ends with `/v1` and has no trailing slash.
pub fn normalize_base(url: &str) -> (r: String)
    ensures
        r@ == api_base(url@),
{
    let chars = to_chars(url);
    let mut t = trim_trailing_slashes(chars.as_slice());
    let suffix = to_chars("/v1");
    let ends = t.len() >= suffix.len() && {
        let tail = slice_chars(t.as_slice(), t.len() - suffix.len(), t.len());
        assert(tail@ =~= t@.skip(t@.len() - suffix@.len()));
        eq_str(tail.as_slice(), "/v1")
    };
    if !ends {
        push_all(&mut t, suffix.as_slice());
    }
    from_chars(t.as_slice())
}

/// Normalizing an already normalized base changes nothing.
pub proof fn law_api_base_idempotent(url: Seq<char>)
    ensures
        api_base(api_base(url)) == api_base(url),
{
    reveal_strlit("/v1");
    let t = trim_end_char(url, '/');
    let b = api_base(url);
    lemma_trim_end_char_last(url, '/');
    if ends_with(t, "/v1"@) {
        assert(b == t);
        assert(b.last() == t.skip(t.len() - 3)[2]);
        assert(trim_end_char(b, '/') == b);
    } else {
        assert(b.last() == '1');
        assert(trim_end_char(b, '/') == b);
        assert(b.skip(b.len() - 3) =~= "/v1"@);
    }
}

proof fn lemma_trim_end_char_last(s: Seq<char>, c: char)
    ensures
        trim_end_char(s, c).len() > 0 ==> trim_end_char(s, c).last() != c,
        trim_end_char(trim_end_char(s, c), c) == trim_end_char(s, c),
    decreases s.len(),
{
    if s.len() > 0 && s.last() == c {
        lemma_trim_end_char_last(s.drop_last(), c);
    }
}

/// Why choosing a model failed; carries a user-facing message.
#[derive(Debug, Clone, PartialEq)]
pub struct NoModel {
    pub message: String,
}

/// The message given when `url` reports no model and none was named.
pub open spec fn no_model_message(url: Seq<char>) -> Seq<char> {
    url + " reported no models; pass --model to choose one"@
}

/// Choose the model id: explicit override if given, otherwise the first advertised model.
pub fn pick_model(explicit: Option<String>, available: Vec<String>, url: &str) -> (r: Result<
    String,
    NoModel,
>)
    ensures
        match explicit {
            Some(m) => r == Ok::<String, NoModel>(m),
            None => if available@.len() > 0 {
                r == Ok::<String, NoModel>(available@[0])
            } else {
                r matches Err(e) && e.message@ == no_model_message(url@)
            },
        },
{
    match explicit {
        Some(m) => Ok(m),
        None => {
            let mut available = available;
            if available.len() > 0 {
                Ok(available.remove(0))
            } else {
                let mut msg = to_chars(url);
                let tail = to_chars(" reported no models; pass --model to choose one");
                push_all(&mut msg, tail.as_slice());
                Err(NoModel { message: from_chars(msg.as_slice()) })
            }
        },
    }
}

/// The assistant message built from streamed text and tool calls: absent parts
/// are `None` rather than empty.
pub fn assemble(content: String, tool_calls: Vec<ToolCall>) -> (m: ChatMessage)
    ensures
        message_view(m) == (
            Role::Assistant,
            if content@.len() > 0 { Some(content@) } else { None },
            if tool_calls@.len() > 0 { Some(call_views(tool_calls@)) } else { None },
            None::<Seq<char>>,
        ),
{
    let c = if !content.as_str().is_empty() { Some(content) } else { None };
    proof {
        if content@.len() > 0 {
            assert(c == Some(content));
        }
    }
    let n = tool_calls.len();
    let t = if n > 0 { Some(tool_calls) } else { None };
    ChatMessage { role: Role::Assistant, content: c, tool_calls: t, tool_call_id: None }
}


/// A streamed fragment of a function call: pieces of its name and arguments.
#[derive(Debug, Clone, PartialEq)]
pub struct FunctionDelta {
    pub name: Option<String>,
    pub arguments: Option<String>,
}

/// A streamed fragment of a tool call, keyed by its `index`.
#[derive(Debug, Clone, PartialEq)]
pub struct ToolCallDelta {
    pub index: Option<usize>,
    pub id: Option<String>,
    pub kind: Option<String>,
    pub function: Option<FunctionDelta>,
}

/// (index, id, kind, name piece, arguments piece) of a fragment.
pub type DeltaV = (Option<usize>, Option<Seq<char>>, Option<Seq<char>>, Option<Seq<char>>, Option<Seq<char>>);

pub open spec fn delta_view(d: ToolCallDelta) -> DeltaV {
    (
        d.index,
        opt_view(d.id),
        opt_view(d.kind),
        match d.function {
            Some(f) => opt_view(f.name),
            None => None,
        },
        match d.function {
            Some(f) => opt_view(f.arguments),
            None => None,
        },
    )
}

/// A call with nothing received yet.
pub open spec fn blank_call() -> ToolCallV {
    (seq![], seq![], seq![], seq![])
}

/// The index a fragment applies to (0 when it names none).
pub open spec fn delta_index(d: DeltaV) -> int {
    match d.0 {
        Some(i) => i as int,
        None => 0,
    }
}

/// `calls` extended with blank calls up to length `n`.
pub open spec fn pad_calls(calls: Seq<ToolCallV>, n: int) -> Seq<ToolCallV> {
    if calls.len() >= n {
        calls
    } else {
        calls + Seq::new((n - calls.len()) as nat, |_i: int| blank_call())
    }
}

/// A call updated by a fragment: id and kind are replaced when present, name
/// and arguments pieces are appended.
pub open spec fn apply_delta(c: ToolCallV, d: DeltaV) -> ToolCallV {
    (
        match d.1 { Some(id) => id, None => c.0 },
        match d.2 { Some(k) => k, None => c.1 },
        match d.3 { Some(n) => c.2 + n, None => c.2 },
        match d.4 { Some(a) => c.3 + a, None => c.3 },
    )
}

/// The calls after receiving a fragment.
pub open spec fn accumulate(calls: Seq<ToolCallV>, d: DeltaV) -> Seq<ToolCallV> {
    let i = delta_index(d);
    let p = pad_calls(calls, i + 1);
    p.update(i, apply_delta(p[i], d))
}

/// The finished calls: those with a name, in index order, with an empty kind
/// defaulted to `"function"`.
pub open spec fn finished_calls(calls: Seq<ToolCallV>) -> Seq<ToolCallV>
    decreases calls.len(),
{
    if calls.len() == 0 {
        seq![]
    } else {
        let prev = finished_calls(calls.drop_last());
        let c = calls.last();
        if c.2.len() == 0 {
            prev
        } else {
            prev.push((c.0, if c.1.len() == 0 { "function"@ } else { c.1 }, c.2, c.3))
        }
    }
}

/// Reassembles streamed tool-call fragments keyed by their `index`.
pub struct ToolCallAccumulator {
    pub calls: Vec<ToolCall>,
}

fn empty_string() -> (s: String)
    ensures
        s@ == Seq::<char>::empty(),
{
    String::new()
}

fn blank() -> (c: ToolCall)
    ensures
        call_view(c) == blank_call(),
{
    ToolCall {
        id: empty_string(),
        kind: empty_string(),
        function: FunctionCall { name: empty_string(), arguments: empty_string() },
    }
}

fn concat(a: &String, b: &String) -> (r: String)
    ensures
        r@ == a@ + b@,
{
    let mut v = to_chars(a.as_str());
    let w = to_chars(b.as_str());
    push_all(&mut v, w.as_slice());
    from_chars(v.as_slice())
}

impl ToolCallAccumulator {
    pub fn new() -> (a: ToolCallAccumulator)
        ensures
            call_views(a.calls@) == Seq::<ToolCallV>::empty(),
    {
        let a = ToolCallAccumulator { calls: Vec::new() };
        assert(call_views(a.calls@) =~= Seq::<ToolCallV>::empty());
        a
    }

    /// The assembled calls: those that received a name, in index order, with
    /// an empty kind defaulted to `"function"`.
    pub fn finish(self) -> (r: Vec<ToolCall>)
        ensures
            call_views(r@) == finished_calls(call_views(self.calls@)),
    {
        let ghost all = call_views(self.calls@);
        let mut out: Vec<ToolCall> = Vec::new();
        let mut calls = self.calls;
        let mut rest: Vec<ToolCall> = Vec::new();
        // Reverse once so the calls can be taken from the back in index order.
        while calls.len() > 0
            invariant
                all == call_views(calls@) + call_views(rest@).reverse(),
            decreases calls.len(),
        {
            let ghost before = calls@;
            let ghost before_rest = rest@;
            let c = calls.pop().unwrap();
            rest.push(c);
            proof {
                assert(before == calls@.push(c));
                assert(call_views(rest@) =~= call_views(before_rest).push(call_view(c)));
                assert(call_views(rest@).reverse() =~= seq![call_view(c)] + call_views(before_rest).reverse());
                assert(call_views(before) =~= call_views(calls@).push(call_view(c)));
                assert(all =~= call_views(calls@) + call_views(rest@).reverse());
            }
        }
        assert(call_views(calls@) =~= Seq::<ToolCallV>::empty());
        let ghost n = all.len();
        while rest.len() > 0
            invariant
                n == all.len(),
                rest@.len() <= n,
                call_views(rest@).reverse() == all.skip(n - rest@.len()),
                call_views(out@) == finished_calls(all.take(n - rest@.len())),
            decreases rest.len(),
        {
            let ghost k = n - rest@.len();
            let ghost before_rest = rest@;
            let c = rest.pop().unwrap();
            proof {
                assert(call_views(before_rest) =~= call_views(rest@).push(call_view(c)));
                assert(call_views(before_rest).reverse() =~= seq![call_view(c)] + call_views(rest@).reverse());
                assert(all.skip(k)[0] == call_view(c));
                assert(all.skip(k).drop_first() =~= all.skip(k + 1));
                assert(all.take(k + 1).drop_last() =~= all.take(k));
                assert(all.take(k + 1).last() == all[k]);
                assert(all[k] == all.skip(k)[0]);
            }
            if !c.function.name.as_str().is_empty() {
                let kind = if c.kind.as_str().is_empty() {
                    crate::text::owned("function")
                } else {
                    c.kind
                };
                let fixed = ToolCall { id: c.id, kind, function: c.function };
                let ghost before_out = out@;
                out.push(fixed);
                proof {
                    assert(call_views(out@) =~= call_views(before_out).push(call_view(fixed)));
                }
            }
        }
        assert(all.take(n as int) =~= all);
        out
    }

    /// Merge one fragment into the call at its index.
    pub fn push(&mut self, delta: ToolCallDelta)
        requires
            delta_index(delta_view(delta)) < usize::MAX,
        ensures
            call_views(final(self).calls@) == accumulate(call_views(old(self).calls@), delta_view(delta)),
    {
        let idx = match delta.index {
            Some(i) => i,
            None => 0,
        };
        let ghost old_calls = call_views(self.calls@);
        while self.calls.len() <= idx
            invariant
                idx < usize::MAX,
                self.calls@.len() >= old_calls.len(),
                self.calls@.len() <= idx + 1 || self.calls@.len() == old_calls.len(),
                call_views(self.calls@) == pad_calls(old_calls, self.calls@.len() as int),
            decreases idx + 1 - self.calls.len(),
        {
            let ghost before = self.calls@;
            self.calls.push(blank());
            proof {
                let n = self.calls@.len() as int;
                assert(call_views(self.calls@) =~= call_views(before).push(blank_call()));
                let p = pad_calls(old_calls, n);
                assert(p.len() == n);
                assert forall|k: int| 0 <= k < n implies #[trigger] p[k] == call_views(self.calls@)[k] by {
                    if k < n - 1 {
                        assert(call_views(before)[k] == pad_calls(old_calls, n - 1)[k]);
                    }
                }
                assert(call_views(self.calls@) =~= p);
            }
        }
        let ghost padded = call_views(self.calls@);
        assert(padded == pad_calls(old_calls, idx + 1)) by {
            if old_calls.len() > idx {
                assert(pad_calls(old_calls, idx + 1) == old_calls);
            } else {
                assert(self.calls@.len() == idx + 1);
            }
        }
        let c = self.calls.remove(idx);
        assert(call_view(c) == padded[idx as int]);
        let id = match delta.id {
            Some(id) => id,
            None => c.id,
        };
        let kind = match delta.kind {
            Some(k) => k,
            None => c.kind,
        };
        let (name, arguments) = match delta.function {
            Some(f) => {
                let name = match f.name {
                    Some(n) => concat(&c.function.name, &n),
                    None => c.function.name,
                };
                let arguments = match f.arguments {
                    Some(a) => concat(&c.function.arguments, &a),
                    None => c.function.arguments,
                };
                (name, arguments)
            },
            None => (c.function.name, c.function.arguments),
        };
        let updated = ToolCall { id, kind, function: FunctionCall { name, arguments } };
        assert(call_view(updated) == apply_delta(padded[idx as int], delta_view(delta)));
        let ghost removed = self.calls@;
        self.calls.insert(idx, updated);
        proof {
            assert(call_views(self.calls@) =~= padded.update(
                idx as int,
                apply_delta(padded[idx as int], delta_view(delta)),
            ));
        }
    }
}


/// What one line of a server-sent-event stream says.
#[derive(Debug, Clone, PartialEq)]
pub enum SseLine {
    /// Not a `data:` line (comments, keep-alives, other fields).
    Skip,
    /// The `data: [DONE]` terminator.
    Done,
    /// The payload of a `data:` line, trimmed.
    Data(String),
}

pub open spec fn sse_view(l: SseLine) -> Option<Option<Seq<char>>> {
    match l {
        SseLine::Skip => None,
        SseLine::Done => Some(None),
        SseLine::Data(d) => Some(Some(d@)),
    }
}

/// What a line means: `None` when it is no `data:` line, `Some(None)` for the
/// `[DONE]` terminator, else `Some(Some(payload))`.
pub open spec fn sse_meaning(line: Seq<char>) -> Option<Option<Seq<char>>> {
    let t = trim(line);
    if starts_with(t, "data:"@) {
        let d = trim(t.skip(5));
        if d == "[DONE]"@ {
            Some(None)
        } else {
            Some(Some(d))
        }
    } else {
        None
    }
}

/// The byte that ends a line of the event stream (`\n`).
pub const LINE_FEED: u8 = 10;

/// Index of the first byte `x` of `b` at or after `from`.
pub open spec fn first_byte_from(b: Seq<u8>, x: u8, from: int) -> Option<int>
    decreases b.len() - from,
{
    if from < 0 || from >= b.len() {
        None
    } else if b[from] == x {
        Some(from)
    } else {
        first_byte_from(b, x, from + 1)
    }
}

proof fn lemma_first_byte_range(b: Seq<u8>, x: u8, from: int)
    ensures
        first_byte_from(b, x, from) matches Some(i) ==> 0 <= from <= i < b.len() && b[i] == x,
    decreases b.len() - from,
{
    if 0 <= from < b.len() && b[from] != x {
        lemma_first_byte_range(b, x, from + 1);
    }
}

fn find_byte(b: &[u8], x: u8) -> (r: Option<usize>)
    ensures
        r matches Some(i) ==> first_byte_from(b@, x, 0) == Some(i as int),
        r is None ==> first_byte_from(b@, x, 0) is None,
{
    let mut i: usize = 0;
    while i < b.len()
        invariant
            i <= b@.len(),
            first_byte_from(b@, x, 0) == first_byte_from(b@, x, i as int),
        decreases b.len() - i,
    {
        if b[i] == x {
            return Some(i);
        }
        i += 1;
    }
    None
}

/// The bytes of an event stream received so far that do not yet form a whole
/// line. A line is decoded only once its newline has arrived, so a character
/// whose bytes are split between two chunks is decoded whole, and the lines
/// read do not depend on where the stream was cut into chunks.
pub struct SseBuffer {
    pub buf: Vec<u8>,
}

impl SseBuffer {
    pub fn new() -> (b: SseBuffer)
        ensures
            b.buf@ == Seq::<u8>::empty(),
    {
        SseBuffer { buf: Vec::new() }
    }

    /// Append a received chunk of bytes.
    pub fn push_chunk(&mut self, chunk: &[u8])
        ensures
            final(self).buf@ == old(self).buf@ + chunk@,
    {
        let ghost start = self.buf@;
        let mut i: usize = 0;
        while i < chunk.len()
            invariant
                i <= chunk@.len(),
                self.buf@ == start + chunk@.take(i as int),
            decreases chunk.len() - i,
        {
            self.buf.push(chunk[i]);
            assert(chunk@.take(i + 1) =~= chunk@.take(i as int).push(chunk@[i as int]));
            i += 1;
        }
        assert(chunk@.take(i as int) =~= chunk@);
    }

    /// Take the first complete line, if a newline has arrived, and say what it means.
    pub fn next_line(&mut self) -> (r: Option<SseLine>)
        ensures
            match first_byte_from(old(self).buf@, LINE_FEED, 0) {
                Some(nl) => r matches Some(l) && sse_view(l) == sse_meaning(utf8_lossy(old(self).buf@.take(nl)))
                    && final(self).buf@ == old(self).buf@.skip(nl + 1),
                None => r is None && final(self).buf@ == old(self).buf@,
            },
    {
        proof {
            lemma_first_byte_range(self.buf@, LINE_FEED, 0);
        }
        match find_byte(self.buf.as_slice(), LINE_FEED) {
            None => None,
            Some(nl) => {
                let ghost all = self.buf@;
                let n = self.buf.len();
                assert(nl < n);
                let mut rest = self.buf.split_off(nl + 1);
                core::mem::swap(&mut self.buf, &mut rest);
                rest.pop();
                assert(rest@ =~= all.take(nl as int));
                assert(self.buf@ =~= all.skip(nl + 1));
                let text = from_utf8_lossy(rest.as_slice());
                let line = to_chars(text.as_str());
                let t = trim_chars(line.as_slice());
                let prefix = to_chars("data:");
                proof {
                    reveal_strlit("data:");
                }
                if has_prefix(t.as_slice(), prefix.as_slice()) {
                    let after = slice_chars(t.as_slice(), 5, t.len());
                    assert(after@ =~= t@.skip(5));
                    let d = trim_chars(after.as_slice());
                    if eq_str(d.as_slice(), "[DONE]") {
                        Some(SseLine::Done)
                    } else {
                        Some(SseLine::Data(from_chars(d.as_slice())))
                    }
                } else {
                    Some(SseLine::Skip)
                }
            },
        }
    }
}


/// The chunks joined end to end.
pub open spec fn joined_bytes(chunks: Seq<Seq<u8>>) -> Seq<u8>
    decreases chunks.len(),
{
    if chunks.len() == 0 {
        seq![]
    } else {
        joined_bytes(chunks.drop_last()) + chunks.last()
    }
}

/// The bytes an `SseBuffer` holds after `push_chunk` of each of `chunks` in
/// order, starting from `buf`.
pub open spec fn pushed(buf: Seq<u8>, chunks: Seq<Seq<u8>>) -> Seq<u8>
    decreases chunks.len(),
{
    if chunks.len() == 0 {
        buf
    } else {
        pushed(buf, chunks.drop_last()) + chunks.last()
    }
}

proof fn lemma_pushed(buf: Seq<u8>, chunks: Seq<Seq<u8>>)
    ensures
        pushed(buf, chunks) == buf + joined_bytes(chunks),
    decreases chunks.len(),
{
    if chunks.len() == 0 {
        assert(buf + Seq::<u8>::empty() =~= buf);
    } else {
        lemma_pushed(buf, chunks.drop_last());
        assert(buf + joined_bytes(chunks.drop_last()) + chunks.last() =~= buf + (joined_bytes(
            chunks.drop_last(),
        ) + chunks.last()));
    }
}

/// Where a stream is cut into chunks does not matter: two cuts of the same
/// bytes leave the buffer holding the same bytes, which are those of the
/// uncut stream; `next_line` reads its lines from these bytes alone.
pub proof fn law_cuts_do_not_matter(buf: Seq<u8>, a: Seq<Seq<u8>>, b: Seq<Seq<u8>>)
    requires
        joined_bytes(a) == joined_bytes(b),
    ensures
        pushed(buf, a) == pushed(buf, b),
        pushed(buf, a) == buf + joined_bytes(a),
{
    lemma_pushed(buf, a);
    lemma_pushed(buf, b);
}


/// The part of a streamed response chunk that carries news: text, reasoning
/// and tool-call fragments of its first choice.
#[derive(Debug, Clone, PartialEq)]
pub struct ChoiceDelta {
    pub content: Option<String>,
    pub reasoning: Option<String>,
    pub tool_calls: Vec<ToolCallDelta>,
}

/// One decoded chunk of a streamed response: the token counts it reports,
/// if any, and its first choice, if any.
#[derive(Debug, Clone, PartialEq)]
pub struct StreamChunk {
    pub usage: Option<(u32, u32)>,
    pub choice: Option<ChoiceDelta>,
}

/// What the caller passes on for a chunk: the token counts, a reasoning
/// fragment and an answer fragment, each when there is one.
#[derive(Debug, Clone, PartialEq)]
pub struct ChunkNews {
    pub usage: Option<(u32, u32)>,
    pub reasoning: Option<String>,
    pub token: Option<String>,
}

/// A text that is present and not empty.
pub open spec fn nonempty(t: Option<Seq<char>>) -> Option<Seq<char>> {
    match t {
        Some(x) => if x.len() > 0 { Some(x) } else { None },
        None => None,
    }
}

/// The calls after receiving the fragments `ds` in order; a fragment whose
/// index is `usize::MAX` names a call that cannot be held and is passed over.
pub open spec fn accumulate_all(calls: Seq<ToolCallV>, ds: Seq<DeltaV>) -> Seq<ToolCallV>
    decreases ds.len(),
{
    if ds.len() == 0 {
        calls
    } else {
        let prev = accumulate_all(calls, ds.drop_last());
        if ds.last().0 == Some(usize::MAX) { prev } else { accumulate(prev, ds.last()) }
    }
}

/// The text, or the empty text when there is none.
pub open spec fn text_or_empty(t: Option<Seq<char>>) -> Seq<char> {
    match t {
        Some(x) => x,
        None => seq![],
    }
}

pub open spec fn delta_views(ds: Seq<ToolCallDelta>) -> Seq<DeltaV> {
    ds.map_values(|d: ToolCallDelta| delta_view(d))
}

/// A response being streamed: the answer text so far, the tool calls being
/// assembled, and whether the `[DONE]` terminator has arrived.
pub struct StreamState {
    pub content: String,
    pub acc: ToolCallAccumulator,
    pub done: bool,
}

fn copy_opt(t: &Option<String>) -> (r: Option<String>)
    ensures
        opt_view(r) == nonempty(opt_view(*t)),
{
    match t {
        Some(x) => if !x.as_str().is_empty() { Some(crate::text::owned(x.as_str())) } else { None },
        None => None,
    }
}

impl StreamState {
    /// Nothing received yet.
    pub fn new() -> (st: StreamState)
        ensures
            st.content@ == Seq::<char>::empty(),
            call_views(st.acc.calls@) == Seq::<ToolCallV>::empty(),
            !st.done,
    {
        StreamState { content: String::new(), acc: ToolCallAccumulator::new(), done: false }
    }

    /// Take one line of the stream: the payload of a `data:` line is handed
    /// back to be decoded into a chunk, the `[DONE]` terminator ends the
    /// stream, and other lines are skipped. Once the stream has ended every
    /// line is skipped.
    pub fn take_line(&mut self, line: SseLine) -> (r: Option<String>)
        ensures
            final(self).content == old(self).content,
            final(self).acc == old(self).acc,
            if old(self).done {
                r is None && final(self).done
            } else {
                match line {
                    SseLine::Skip => r is None && !final(self).done,
                    SseLine::Done => r is None && final(self).done,
                    SseLine::Data(d) => r == Some(d) && !final(self).done,
                }
            },
    {
        if self.done {
            return None;
        }
        match line {
            SseLine::Skip => None,
            SseLine::Done => {
                self.done = true;
                None
            },
            SseLine::Data(d) => Some(d),
        }
    }

    /// Take one chunk: its token counts are passed on; of its first choice,
    /// reasoning is passed on and answer text is passed on and kept, each
    /// when not empty, and its tool-call fragments are accumulated.
    pub fn take(&mut self, chunk: StreamChunk) -> (news: ChunkNews)
        ensures
            news.usage == chunk.usage,
            final(self).done == old(self).done,
            match chunk.choice {
                None => {
                    &&& news.reasoning is None
                    &&& news.token is None
                    &&& final(self).content@ == old(self).content@
                    &&& call_views(final(self).acc.calls@) == call_views(old(self).acc.calls@)
                },
                Some(c) => {
                    &&& opt_view(news.reasoning) == nonempty(opt_view(c.reasoning))
                    &&& opt_view(news.token) == nonempty(opt_view(c.content))
                    &&& final(self).content@ == old(self).content@ + text_or_empty(nonempty(opt_view(c.content)))
                    &&& call_views(final(self).acc.calls@) == accumulate_all(
                        call_views(old(self).acc.calls@),
                        delta_views(c.tool_calls@),
                    )
                },
            },
    {
        match chunk.choice {
            None => {
                ChunkNews { usage: chunk.usage, reasoning: None, token: None }
            },
            Some(c) => {
                let reasoning = copy_opt(&c.reasoning);
                let token = copy_opt(&c.content);
                let ghost before = self.content@;
                match &token {
                    Some(t) => {
                        self.content = concat(&self.content, t);
                        assert(nonempty(opt_view(c.content)) == Some(t@));
                    },
                    None => {
                        assert(nonempty(opt_view(c.content)) is None);
                    },
                }
                assert(self.content@ =~= before + text_or_empty(nonempty(opt_view(c.content))));
                let ghost text = self.content@;
                let ghost start = call_views(self.acc.calls@);
                let ghost ds = delta_views(c.tool_calls@);
                let mut deltas = c.tool_calls;
                let ghost all = deltas@;
                let mut rev: Vec<ToolCallDelta> = Vec::new();
                // Take the fragments from the back once, then push them in order.
                while deltas.len() > 0
                    invariant
                        all == deltas@ + rev@.reverse(),
                    decreases deltas.len(),
                {
                    let ghost b = deltas@;
                    let ghost br = rev@;
                    let d = deltas.pop().unwrap();
                    rev.push(d);
                    proof {
                        assert(b == deltas@.push(d));
                        assert(rev@.reverse() =~= seq![d] + br.reverse());
                        assert(all =~= deltas@ + rev@.reverse());
                    }
                }
                assert(all =~= rev@.reverse());
                while rev.len() > 0
                    invariant
                        ds == delta_views(all),
                        self.content@ == text,
                        self.done == old(self).done,
                        all == all.take(all.len() - rev@.len()) + rev@.reverse(),
                        rev@.len() <= all.len(),
                        call_views(self.acc.calls@) == accumulate_all(
                            start,
                            ds.take(all.len() - rev@.len()),
                        ),
                    decreases rev.len(),
                {
                    let ghost i = all.len() - rev@.len();
                    let ghost br = rev@;
                    let d = rev.pop().unwrap();
                    proof {
                        assert(br == rev@.push(d));
                        assert(br.reverse() =~= seq![d] + rev@.reverse());
                        assert(all[i] == d);
                        assert(all =~= all.take(i + 1) + rev@.reverse());
                        assert(ds.take(i + 1).drop_last() =~= ds.take(i));
                        assert(ds.take(i + 1).last() == delta_view(d));
                    }
                    let skip = match d.index {
                        Some(j) => j == usize::MAX,
                        None => false,
                    };
                    if !skip {
                        self.acc.push(d);
                    }
                }
                assert(ds.take(all.len() as int) =~= ds);
                ChunkNews { usage: chunk.usage, reasoning, token }
            },
        }
    }

    /// The assistant message the stream assembled.
    pub fn finish(self) -> (m: ChatMessage)
        ensures
            message_view(m) == (
                Role::Assistant,
                if self.content@.len() > 0 { Some(self.content@) } else { None },
                if finished_calls(call_views(self.acc.calls@)).len() > 0 {
                    Some(finished_calls(call_views(self.acc.calls@)))
                } else {
                    None
                },
                None::<Seq<char>>,
            ),
    {
        let calls = self.acc.finish();
        assemble(self.content, calls)
    }
}

proof fn lemma_trim_word(x: Seq<char>)
    requires
        x.len() > 0,
        !crate::text::is_space(x[0]),
        !crate::text::is_space(x.last()),
    ensures
        trim(x) == x,
{
    assert(crate::text::trim_start(x) == x);
    assert(crate::text::trim_end(x) == x);
}

/// A `data:` line carries its payload without the surrounding blanks (and
/// without a trailing carriage return); the payload `[DONE]` ends the stream.
pub proof fn law_data_lines(d: Seq<char>)
    requires
        d.len() > 0,
        !crate::text::is_space(d[0]),
        !crate::text::is_space(d.last()),
    ensures
        sse_meaning("data: "@ + d) == (if d == "[DONE]"@ { Some(None) } else { Some(Some(d)) }),
        sse_meaning("data: "@ + d + "\r"@) == sse_meaning("data: "@ + d),
{
    reveal_strlit("data: ");
    reveal_strlit("data:");
    reveal_strlit("\r");
    let line = "data: "@ + d;
    assert(line.last() == d.last());
    lemma_trim_word(line);
    let cr = line + "\r"@;
    assert(crate::text::trim_start(cr) == cr);
    assert(cr.drop_last() =~= line);
    assert(crate::text::trim_end(cr) == crate::text::trim_end(line));
    assert(trim(cr) == line);
    assert(line.take(5) =~= "data:"@);
    let after = line.skip(5);
    reveal_strlit(" ");
    assert(after =~= " "@ + d);
    assert(crate::text::trim_start(after) == crate::text::trim_start(after.drop_first()));
    assert(after.drop_first() =~= d);
    lemma_trim_word(d);
    assert(crate::text::trim_start(d) == d);
    assert(crate::text::trim_end(d) == d);
}


} // verus!
