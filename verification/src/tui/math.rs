//! Best-effort conversion of stray LaTeX math into plain Unicode text.
use vstd::prelude::*;

use crate::text::{contains_char, first_from, from_chars, push_all, replace, replace_all, to_chars};

verus! {

/// The Unicode superscript of `c`, for the digits, `+`, `-`, `n` and `i`.
pub open spec fn superscript_of(c: char) -> Option<char> {
    if c == '0' { Some('⁰') }
    else if c == '1' { Some('¹') }
    else if c == '2' { Some('²') }
    else if c == '3' { Some('³') }
    else if c == '4' { Some('⁴') }
    else if c == '5' { Some('⁵') }
    else if c == '6' { Some('⁶') }
    else if c == '7' { Some('⁷') }
    else if c == '8' { Some('⁸') }
    else if c == '9' { Some('⁹') }
    else if c == '+' { Some('⁺') }
    else if c == '-' { Some('⁻') }
    else if c == 'n' { Some('ⁿ') }
    else if c == 'i' { Some('ⁱ') }
    else { None }
}

/// Unicode superscript for a small set of characters, if one exists.
pub fn superscript(c: char) -> (r: Option<char>)
    ensures
        r == superscript_of(c),
{
    if c == '0' { Some('⁰') }
    else if c == '1' { Some('¹') }
    else if c == '2' { Some('²') }
    else if c == '3' { Some('³') }
    else if c == '4' { Some('⁴') }
    else if c == '5' { Some('⁵') }
    else if c == '6' { Some('⁶') }
    else if c == '7' { Some('⁷') }
    else if c == '8' { Some('⁸') }
    else if c == '9' { Some('⁹') }
    else if c == '+' { Some('⁺') }
    else if c == '-' { Some('⁻') }
    else if c == 'n' { Some('ⁿ') }
    else if c == 'i' { Some('ⁱ') }
    else { None }
}

/// Index of the `}` that closes a group, scanning from `j` at nesting `depth`.
pub open spec fn brace_close(t: Seq<char>, j: int, depth: int) -> Option<int>
    decreases t.len() - j,
{
    if j < 0 || j >= t.len() {
        None
    } else if t[j] == '{' {
        brace_close(t, j + 1, depth + 1)
    } else if t[j] == '}' {
        if depth - 1 == 0 {
            Some(j)
        } else {
            brace_close(t, j + 1, depth - 1)
        }
    } else {
        brace_close(t, j + 1, depth)
    }
}

/// The `{…}` group that opens at `start`: its contents and the index past its `}`.
pub open spec fn brace_group(t: Seq<char>, start: int) -> Option<(Seq<char>, int)> {
    if start < 0 || start >= t.len() || t[start] != '{' {
        None
    } else {
        match brace_close(t, start + 1, 1) {
            Some(c) => Some((t.subrange(start + 1, c), c + 1)),
            None => None,
        }
    }
}

pub proof fn lemma_brace_close(t: Seq<char>, j: int, depth: int)
    ensures
        brace_close(t, j, depth) matches Some(c) ==> 0 <= j <= c < t.len(),
    decreases t.len() - j,
{
    if 0 <= j < t.len() {
        if t[j] == '{' {
            lemma_brace_close(t, j + 1, depth + 1);
        } else if t[j] == '}' {
            if depth - 1 != 0 {
                lemma_brace_close(t, j + 1, depth - 1);
            }
        } else {
            lemma_brace_close(t, j + 1, depth);
        }
    }
}

pub proof fn lemma_brace_group(t: Seq<char>, start: int)
    ensures
        brace_group(t, start) matches Some((inner, next)) ==> 0 <= start < next <= t.len()
            && inner == t.subrange(start + 1, next - 1),
{
    if 0 <= start < t.len() && t[start] == '{' {
        lemma_brace_close(t, start + 1, 1);
    }
}

/// Read a `{…}` group starting at `start`, returning its contents and the index past `}`.
pub fn take_brace(ch: &[char], start: usize) -> (r: Option<(Vec<char>, usize)>)
    ensures
        match brace_group(ch@, start as int) {
            Some((inner, next)) => r matches Some((v, n)) && v@ == inner && n == next,
            None => r is None,
        },
{
    proof {
        lemma_brace_group(ch@, start as int);
    }
    if start >= ch.len() || ch[start] != '{' {
        return None;
    }
    let mut depth: usize = 1;
    let mut j = start + 1;
    while j < ch.len()
        invariant
            start < j <= ch@.len(),
            1 <= depth <= j - start,
            ch@[start as int] == '{',
            brace_close(ch@, start + 1, 1) == brace_close(ch@, j as int, depth as int),
        decreases ch.len() - j,
    {
        let c = ch[j];
        if c == '{' {
            depth += 1;
        } else if c == '}' {
            if depth == 1 {
                let inner = crate::text::slice_chars(ch, start + 1, j);
                return Some((inner, j + 1));
            }
            depth -= 1;
        }
        j += 1;
    }
    None
}

/// Whether the text between `$` signs looks like math.
pub open spec fn mathy(inner: Seq<char>) -> bool {
    inner.contains('\\') || inner.contains('^') || inner.contains('_') || inner.contains('{')
}

/// Removal of inline `$…$` delimiters around math, scanning from `i`.
pub open spec fn strip_inline_dollars(t: Seq<char>, i: int) -> Seq<char>
    decreases t.len() - i,
{
    if i < 0 || i >= t.len() {
        seq![]
    } else {
        if t[i] == '$' {
            match first_from(t, '$', i + 1) {
                Some(close) => if i < close < t.len() && mathy(t.subrange(i + 1, close)) {
                    t.subrange(i + 1, close) + strip_inline_dollars(t, close + 1)
                } else {
                    seq![t[i]] + strip_inline_dollars(t, i + 1)
                },
                None => seq![t[i]] + strip_inline_dollars(t, i + 1),
            }
        } else {
            seq![t[i]] + strip_inline_dollars(t, i + 1)
        }
    }
}

/// `$$…$$` display delimiters removed, and `$…$` inline delimiters removed when
/// the enclosed text carries a LaTeX signal (`\`, `^`, `_`, `{`).
pub open spec fn strip_dollar_spec(s: Seq<char>) -> Seq<char> {
    strip_inline_dollars(replace_all(s, "$$"@, seq![]), 0)
}

fn is_mathy(inner: &[char]) -> (b: bool)
    ensures
        b == mathy(inner@),
{
    contains_char(inner, '\\') || contains_char(inner, '^') || contains_char(inner, '_')
        || contains_char(inner, '{')
}

/// Remove `$$…$$` display delimiters, and `$…$` inline delimiters only when the enclosed
/// text carries a LaTeX signal (`\`, `^`, `_`, `{`). This leaves currency like `$5` intact.
pub fn strip_dollar_math(s: &[char]) -> (r: Vec<char>)
    ensures
        r@ == strip_dollar_spec(s@),
{
    let dd = to_chars("$$");
    let empty: Vec<char> = Vec::new();
    let ch = replace(s, dd.as_slice(), empty.as_slice());
    assert(empty@ =~= Seq::<char>::empty());
    let mut out: Vec<char> = Vec::new();
    let mut i: usize = 0;
    while i < ch.len()
        invariant
            i <= ch@.len(),
            out@ + strip_inline_dollars(ch@, i as int) == strip_inline_dollars(ch@, 0),
        decreases ch.len() - i,
    {
        if ch[i] == '$' {
            proof {
                crate::text::lemma_first_from_range(ch@, '$', i + 1);
            }
            match crate::text::find_char_from(ch.as_slice(), '$', i + 1) {
                Some(close) => {
                    let inner = crate::text::slice_chars(ch.as_slice(), i + 1, close);
                    if is_mathy(inner.as_slice()) {
                        let ghost before = out@;
                        push_all(&mut out, inner.as_slice());
                        proof {
                            assert(out@ + strip_inline_dollars(ch@, close + 1) =~= before + (inner@
                                + strip_inline_dollars(ch@, close + 1)));
                        }
                        i = close + 1;
                        continue;
                    }
                },
                None => {},
            }
        }
        let ghost before = out@;
        out.push(ch[i as usize]);
        proof {
            assert(out@ + strip_inline_dollars(ch@, i + 1) =~= before + (seq![ch@[i as int]]
                + strip_inline_dollars(ch@, i + 1)));
        }
        i += 1;
    }
    assert(out@ + seq![] =~= out@);
    out
}


/// LaTeX command → Unicode replacements, ordered so longer names come before
/// their own prefixes (e.g. `\leq` before `\le`).
pub open spec fn symbol_table() -> Seq<(Seq<char>, Seq<char>)> {
    seq![
        ("\\times"@, "×"@),
        ("\\cdot"@, "·"@),
        ("\\div"@, "÷"@),
        ("\\pm"@, "±"@),
        ("\\mp"@, "∓"@),
        ("\\leq"@, "≤"@),
        ("\\le"@, "≤"@),
        ("\\geq"@, "≥"@),
        ("\\ge"@, "≥"@),
        ("\\neq"@, "≠"@),
        ("\\approx"@, "≈"@),
        ("\\equiv"@, "≡"@),
        ("\\infty"@, "∞"@),
        ("\\sum"@, "∑"@),
        ("\\prod"@, "∏"@),
        ("\\int"@, "∫"@),
        ("\\partial"@, "∂"@),
        ("\\nabla"@, "∇"@),
        ("\\alpha"@, "α"@),
        ("\\beta"@, "β"@),
        ("\\gamma"@, "γ"@),
        ("\\delta"@, "δ"@),
        ("\\epsilon"@, "ε"@),
        ("\\theta"@, "θ"@),
        ("\\lambda"@, "λ"@),
        ("\\mu"@, "μ"@),
        ("\\pi"@, "π"@),
        ("\\rho"@, "ρ"@),
        ("\\sigma"@, "σ"@),
        ("\\tau"@, "τ"@),
        ("\\phi"@, "φ"@),
        ("\\omega"@, "ω"@),
        ("\\Delta"@, "Δ"@),
        ("\\Sigma"@, "Σ"@),
        ("\\Omega"@, "Ω"@),
        ("\\Rightarrow"@, "⇒"@),
        ("\\rightarrow"@, "→"@),
        ("\\to"@, "→"@),
        ("\\leftarrow"@, "←"@),
        ("\\ldots"@, "…"@),
        ("\\dots"@, "…"@),
        ("\\left"@, ""@),
        ("\\right"@, ""@),
        ("\\quad"@, "  "@),
        ("\\,"@, " "@),
        ("\\;"@, " "@),
        ("\\!"@, ""@)
    ]
}

/// `s` with each replacement of `table` applied in turn.
pub open spec fn apply_symbols(s: Seq<char>, table: Seq<(Seq<char>, Seq<char>)>) -> Seq<char>
    decreases table.len(),
{
    if table.len() == 0 {
        s
    } else {
        apply_symbols(replace_all(s, table[0].0, table[0].1), table.drop_first())
    }
}

pub open spec fn pair_str_views(v: Seq<(&str, &str)>) -> Seq<(Seq<char>, Seq<char>)> {
    v.map_values(|p: (&str, &str)| (p.0@, p.1@))
}

fn command_symbols() -> (v: Vec<(&'static str, &'static str)>)
    ensures
        pair_str_views(v@) == symbol_table(),
{
    let mut v: Vec<(&'static str, &'static str)> = Vec::new();
    v.push(("\\times", "×"));
    v.push(("\\cdot", "·"));
    v.push(("\\div", "÷"));
    v.push(("\\pm", "±"));
    v.push(("\\mp", "∓"));
    v.push(("\\leq", "≤"));
    v.push(("\\le", "≤"));
    v.push(("\\geq", "≥"));
    v.push(("\\ge", "≥"));
    v.push(("\\neq", "≠"));
    v.push(("\\approx", "≈"));
    v.push(("\\equiv", "≡"));
    v.push(("\\infty", "∞"));
    v.push(("\\sum", "∑"));
    v.push(("\\prod", "∏"));
    v.push(("\\int", "∫"));
    v.push(("\\partial", "∂"));
    v.push(("\\nabla", "∇"));
    v.push(("\\alpha", "α"));
    v.push(("\\beta", "β"));
    v.push(("\\gamma", "γ"));
    v.push(("\\delta", "δ"));
    v.push(("\\epsilon", "ε"));
    v.push(("\\theta", "θ"));
    v.push(("\\lambda", "λ"));
    v.push(("\\mu", "μ"));
    v.push(("\\pi", "π"));
    v.push(("\\rho", "ρ"));
    v.push(("\\sigma", "σ"));
    v.push(("\\tau", "τ"));
    v.push(("\\phi", "φ"));
    v.push(("\\omega", "ω"));
    v.push(("\\Delta", "Δ"));
    v.push(("\\Sigma", "Σ"));
    v.push(("\\Omega", "Ω"));
    v.push(("\\Rightarrow", "⇒"));
    v.push(("\\rightarrow", "→"));
    v.push(("\\to", "→"));
    v.push(("\\leftarrow", "←"));
    v.push(("\\ldots", "…"));
    v.push(("\\dots", "…"));
    v.push(("\\left", ""));
    v.push(("\\right", ""));
    v.push(("\\quad", "  "));
    v.push(("\\,", " "));
    v.push(("\\;", " "));
    v.push(("\\!", ""));
    assert(pair_str_views(v@) =~= symbol_table());
    v
}

fn apply_command_symbols(s: Vec<char>) -> (r: Vec<char>)
    ensures
        r@ == apply_symbols(s@, symbol_table()),
{
    let table = command_symbols();
    let ghost tbl = pair_str_views(table@);
    let mut out = s;
    let mut k: usize = 0;
    assert(tbl.skip(0) =~= tbl);
    while k < table.len()
        invariant
            tbl == pair_str_views(table@),
            tbl == symbol_table(),
            k <= table@.len(),
            apply_symbols(s@, tbl) == apply_symbols(out@, tbl.skip(k as int)),
        decreases table.len() - k,
    {
        let (cmd, sym) = table[k];
        let c = to_chars(cmd);
        let y = to_chars(sym);
        proof {
            assert(tbl.skip(k as int)[0] == (cmd@, sym@));
            assert(tbl.skip(k as int).drop_first() =~= tbl.skip(k + 1));
        }
        out = replace(out.as_slice(), c.as_slice(), y.as_slice());
        k += 1;
    }
    assert(tbl.skip(k as int) =~= Seq::<(Seq<char>, Seq<char>)>::empty());
    out
}


/// Whether every character of `s` has a superscript form.
pub open spec fn all_superscript(s: Seq<char>) -> bool {
    forall|k: int| 0 <= k < s.len() ==> (#[trigger] superscript_of(s[k])) is Some
}

/// The superscript forms of the characters of `s`.
pub open spec fn superscripts(s: Seq<char>) -> Seq<char> {
    s.map_values(|c: char| superscript_of(c)->0)
}

/// `^x` and `^{…}` turned into superscripts, scanning from `i`.
pub open spec fn sup_scan(t: Seq<char>, i: int) -> Seq<char>
    decreases t.len() - i,
{
    if i < 0 || i >= t.len() {
        seq![]
    } else if t[i] == '^' && i + 1 < t.len() {
        if t[i + 1] == '{' {
            match brace_group(t, i + 1) {
                Some((inner, next)) => if i < next <= t.len() && inner.len() > 0 && all_superscript(
                    inner,
                ) {
                    superscripts(inner) + sup_scan(t, next)
                } else {
                    seq![t[i]] + sup_scan(t, i + 1)
                },
                None => seq![t[i]] + sup_scan(t, i + 1),
            }
        } else {
            match superscript_of(t[i + 1]) {
                Some(m) => seq![m] + sup_scan(t, i + 2),
                None => seq![t[i]] + sup_scan(t, i + 1),
            }
        }
    } else {
        seq![t[i]] + sup_scan(t, i + 1)
    }
}

/// `^2`, `^n`, and `^{…}` (when every char maps) converted into Unicode superscripts.
pub open spec fn superscripts_spec(s: Seq<char>) -> Seq<char> {
    if !s.contains('^') {
        s
    } else {
        sup_scan(s, 0)
    }
}

fn map_superscripts(inner: &[char]) -> (r: Option<Vec<char>>)
    ensures
        all_superscript(inner@) ==> (r matches Some(v) && v@ == superscripts(inner@)),
        !all_superscript(inner@) ==> r is None,
{
    let mut out: Vec<char> = Vec::new();
    let mut k: usize = 0;
    while k < inner.len()
        invariant
            k <= inner@.len(),
            out@ == superscripts(inner@.take(k as int)),
            forall|q: int| 0 <= q < k ==> (#[trigger] superscript_of(inner@[q])) is Some,
        decreases inner.len() - k,
    {
        match superscript(inner[k]) {
            Some(m) => {
                out.push(m);
            },
            None => {
                return None;
            },
        }
        k += 1;
        assert(out@ =~= superscripts(inner@.take(k as int)));
    }
    assert(inner@.take(k as int) =~= inner@);
    Some(out)
}

/// Convert `^2`, `^n`, and `^{…}` (when every char maps) into Unicode superscripts.
pub fn replace_superscripts(s: &[char]) -> (r: Vec<char>)
    ensures
        r@ == superscripts_spec(s@),
{
    let mut out: Vec<char> = Vec::new();
    if !contains_char(s, '^') {
        push_all(&mut out, s);
        return out;
    }
    let mut i: usize = 0;
    while i < s.len()
        invariant
            i <= s@.len(),
            out@ + sup_scan(s@, i as int) == sup_scan(s@, 0),
        decreases s.len() - i,
    {
        let ghost before = out@;
        if s[i] == '^' && i + 1 < s.len() {
            if s[i + 1] == '{' {
                proof {
                    lemma_brace_group(s@, i + 1);
                }
                match take_brace(s, i + 1) {
                    Some((inner, next)) => {
                        if inner.len() > 0 {
                            match map_superscripts(inner.as_slice()) {
                                Some(m) => {
                                    push_all(&mut out, m.as_slice());
                                    proof {
                                        assert(out@ + sup_scan(s@, next as int) =~= before + (m@
                                            + sup_scan(s@, next as int)));
                                    }
                                    i = next;
                                    continue;
                                },
                                None => {},
                            }
                        }
                    },
                    None => {},
                }
            } else {
                match superscript(s[i + 1]) {
                    Some(m) => {
                        out.push(m);
                        proof {
                            assert(out@ + sup_scan(s@, i + 2) =~= before + (seq![m] + sup_scan(s@, i + 2)));
                        }
                        i += 2;
                        continue;
                    },
                    None => {},
                }
            }
        }
        out.push(s[i]);
        proof {
            assert(out@ + sup_scan(s@, i + 1) =~= before + (seq![s@[i as int]] + sup_scan(s@, i + 1)));
        }
        i += 1;
    }
    assert(out@ + seq![] =~= out@);
    out
}

/// The LaTeX commands that take `{…}` arguments and are rewritten.
#[derive(Clone, Copy, Debug, PartialEq, Eq)]
pub enum Wrapped {
    /// `\frac{a}{b}` → `(a)/(b)`.
    Frac,
    /// `\sqrt{x}` → `√(x)`.
    Sqrt,
}

pub open spec fn wrapped_cmd(k: Wrapped) -> Seq<char> {
    match k {
        Wrapped::Frac => "\\frac"@,
        Wrapped::Sqrt => "\\sqrt"@,
    }
}

pub open spec fn wrapped_argc(k: Wrapped) -> nat {
    match k {
        Wrapped::Frac => 2,
        Wrapped::Sqrt => 1,
    }
}

/// `k` consecutive `{…}` groups starting at `j`: their contents and the index
/// past the last one.
pub open spec fn groups_at(t: Seq<char>, j: int, k: nat) -> Option<(Seq<Seq<char>>, int)>
    decreases k,
{
    if k == 0 {
        Some((seq![], j))
    } else {
        match brace_group(t, j) {
            Some((inner, n)) => match groups_at(t, n, (k - 1) as nat) {
                Some((rest, m)) => Some((seq![inner] + rest, m)),
                None => None,
            },
            None => None,
        }
    }
}

pub proof fn lemma_groups_at(t: Seq<char>, j: int, k: nat)
    ensures
        groups_at(t, j, k) matches Some((args, m)) ==> (args.len() == k && j <= m && (k > 0 ==> m <= t.len())),
    decreases k,
{
    if k > 0 {
        lemma_brace_group(t, j);
        match brace_group(t, j) {
            Some((inner, n)) => {
                lemma_groups_at(t, n, (k - 1) as nat);
            },
            None => {},
        }
    }
}

/// `s` normalized with `fuel` levels of nesting available for command arguments.
///
/// Each nested argument is strictly shorter than the text it came from and no
/// step lengthens text, so `s.len()` levels always suffice.
pub open spec fn norm(s: Seq<char>, fuel: nat) -> Seq<char>
    decreases fuel, 1int, 0int,
{
    if !s.contains('\\') && !s.contains('$') {
        s
    } else {
        let o = replace_all(s, "\\("@, ""@);
        let o = replace_all(o, "\\)"@, ""@);
        let o = replace_all(o, "\\["@, ""@);
        let o = replace_all(o, "\\]"@, ""@);
        let o = strip_dollar_spec(o);
        let o = wrap_scan(o, 0, Wrapped::Frac, fuel);
        let o = wrap_scan(o, 0, Wrapped::Sqrt, fuel);
        let o = apply_symbols(o, symbol_table());
        superscripts_spec(o)
    }
}

/// An argument normalized with the fuel left, or kept as is when none is.
pub open spec fn norm_arg(a: Seq<char>, fuel: nat) -> Seq<char>
    decreases fuel, 0int, 0int,
{
    if fuel == 0 {
        a
    } else {
        norm(a, (fuel - 1) as nat)
    }
}

/// Occurrences of command `k` with all its groups rewritten, scanning from `i`.
pub open spec fn wrap_scan(t: Seq<char>, i: int, k: Wrapped, fuel: nat) -> Seq<char>
    decreases fuel, 0int, t.len() - i,
{
    if i < 0 || i >= t.len() {
        seq![]
    } else if crate::text::occurs_at(t, wrapped_cmd(k), i) {
        match groups_at(t, i + wrapped_cmd(k).len(), wrapped_argc(k)) {
            Some((args, next)) => if i < next <= t.len() && args.len() == wrapped_argc(k) {
                match k {
                    Wrapped::Frac => "("@ + norm_arg(args[0], fuel) + ")/("@ + norm_arg(args[1], fuel)
                        + ")"@ + wrap_scan(t, next, k, fuel),
                    Wrapped::Sqrt => "√("@ + norm_arg(args[0], fuel) + ")"@ + wrap_scan(t, next, k, fuel),
                }
            } else {
                seq![t[i]] + wrap_scan(t, i + 1, k, fuel)
            },
            None => seq![t[i]] + wrap_scan(t, i + 1, k, fuel),
        }
    } else {
        seq![t[i]] + wrap_scan(t, i + 1, k, fuel)
    }
}

/// Best-effort conversion of stray LaTeX math into plain Unicode text.
pub open spec fn normalize_math_spec(s: Seq<char>) -> Seq<char> {
    norm(s, s.len())
}


fn copy_chars(s: &[char]) -> (r: Vec<char>)
    ensures
        r@ == s@,
{
    let mut r: Vec<char> = Vec::new();
    push_all(&mut r, s);
    r
}

/// `k` consecutive `{…}` groups starting at `j`, as `groups_at` describes them.
fn take_groups(t: &[char], j: usize, k: usize) -> (r: Option<(Vec<Vec<char>>, usize)>)
    ensures
        match groups_at(t@, j as int, k as nat) {
            Some((args, m)) => r matches Some((v, n)) && crate::text::views(v@) == args && n == m,
            None => r is None,
        },
    decreases k,
{
    if k == 0 {
        let v: Vec<Vec<char>> = Vec::new();
        assert(crate::text::views(v@) =~= Seq::<Seq<char>>::empty());
        return Some((v, j));
    }
    proof {
        lemma_brace_group(t@, j as int);
    }
    match take_brace(t, j) {
        Some((inner, n)) => match take_groups(t, n, k - 1) {
            Some((rest, m)) => {
                let mut v: Vec<Vec<char>> = Vec::new();
                v.push(inner);
                let mut rest = rest;
                let ghost rv = rest@;
                let ghost iv = inner@;
                v.append(&mut rest);
                proof {
                    assert(crate::text::views(v@) =~= seq![iv] + crate::text::views(rv));
                }
                Some((v, m))
            },
            None => None,
        },
        None => None,
    }
}

fn norm_arg_exec(a: &[char], fuel: usize) -> (r: Vec<char>)
    ensures
        r@ == norm_arg(a@, fuel as nat),
    decreases fuel, 0usize,
{
    if fuel == 0 {
        copy_chars(a)
    } else {
        normalize_fuel(a, fuel - 1)
    }
}

fn push_str(out: &mut Vec<char>, s: &str)
    ensures
        final(out)@ == old(out)@ + s@,
{
    let c = to_chars(s);
    push_all(out, c.as_slice());
}

/// Replace occurrences of command `k` followed by its `{…}` groups with its
/// plain rendering; group contents are normalized recursively with the fuel left.
pub fn replace_wrapped(t: &[char], k: Wrapped, fuel: usize) -> (r: Vec<char>)
    ensures
        r@ == wrap_scan(t@, 0, k, fuel as nat),
    decreases fuel, 1usize,
{
    let cmd = match k {
        Wrapped::Frac => to_chars("\\frac"),
        Wrapped::Sqrt => to_chars("\\sqrt"),
    };
    let argc: usize = match k {
        Wrapped::Frac => 2,
        Wrapped::Sqrt => 1,
    };
    proof {
        reveal_strlit("\\frac");
        reveal_strlit("\\sqrt");
    }
    assert(cmd@ == wrapped_cmd(k));
    let mut out: Vec<char> = Vec::new();
    let mut i: usize = 0;
    while i < t.len()
        invariant
            cmd@ == wrapped_cmd(k),
            cmd@.len() == 5,
            argc as nat == wrapped_argc(k),
            i <= t@.len(),
            out@ + wrap_scan(t@, i as int, k, fuel as nat) == wrap_scan(t@, 0, k, fuel as nat),
        decreases t.len() - i,
    {
        let ghost before = out@;
        if crate::text::matches_at(t, cmd.as_slice(), i) {
            proof {
                lemma_groups_at(t@, i + 5, argc as nat);
            }
            match take_groups(t, i + 5, argc) {
                Some((args, next)) => {
                    if i < next && next <= t.len() && args.len() == argc {
                        assert(args@[0]@ == crate::text::views(args@)[0]);
                        match k {
                            Wrapped::Frac => {
                                assert(args@[1]@ == crate::text::views(args@)[1]);
                                let a0 = norm_arg_exec(args[0].as_slice(), fuel);
                                let a1 = norm_arg_exec(args[1].as_slice(), fuel);
                                push_str(&mut out, "(");
                                push_all(&mut out, a0.as_slice());
                                push_str(&mut out, ")/(");
                                push_all(&mut out, a1.as_slice());
                                push_str(&mut out, ")");
                            },
                            Wrapped::Sqrt => {
                                let a0 = norm_arg_exec(args[0].as_slice(), fuel);
                                push_str(&mut out, "√(");
                                push_all(&mut out, a0.as_slice());
                                push_str(&mut out, ")");
                            },
                        }
                        proof {
                            assert(out@ + wrap_scan(t@, next as int, k, fuel as nat) =~= before
                                + wrap_scan(t@, i as int, k, fuel as nat));
                        }
                        i = next;
                        continue;
                    }
                },
                None => {},
            }
        }
        out.push(t[i]);
        proof {
            assert(out@ + wrap_scan(t@, i + 1, k, fuel as nat) =~= before + wrap_scan(
                t@,
                i as int,
                k,
                fuel as nat,
            ));
        }
        i += 1;
    }
    assert(out@ + seq![] =~= out@);
    out
}

fn drop_lit(s: Vec<char>, p: &str) -> (r: Vec<char>)
    ensures
        r@ == replace_all(s@, p@, ""@),
{
    let pc = to_chars(p);
    let e = to_chars("");
    replace(s.as_slice(), pc.as_slice(), e.as_slice())
}

/// `s` normalized as `norm` says with `fuel` levels of argument nesting.
fn normalize_fuel(s: &[char], fuel: usize) -> (r: Vec<char>)
    ensures
        r@ == norm(s@, fuel as nat),
    decreases fuel, 2usize,
{
    if !contains_char(s, '\\') && !contains_char(s, '$') {
        return copy_chars(s);
    }
    let o = copy_chars(s);
    let o = drop_lit(o, "\\(");
    let o = drop_lit(o, "\\)");
    let o = drop_lit(o, "\\[");
    let o = drop_lit(o, "\\]");
    let o = strip_dollar_math(o.as_slice());
    let o = replace_wrapped(o.as_slice(), Wrapped::Frac, fuel);
    let o = replace_wrapped(o.as_slice(), Wrapped::Sqrt, fuel);
    let o = apply_command_symbols(o);
    replace_superscripts(o.as_slice())
}

/// Best-effort conversion of stray LaTeX math into plain Unicode text.
///
/// A conservative fallback for when the model writes LaTeX anyway: math
/// delimiters are stripped and a handful of common commands mapped to Unicode.
/// Lines with neither `\` nor `$` are returned untouched, which keeps ordinary
/// prose and citation URLs unaffected.
pub fn normalize_math(s: &str) -> (r: String)
    ensures
        r@ == normalize_math_spec(s@),
{
    let c = to_chars(s);
    let n = normalize_fuel(c.as_slice(), c.len());
    from_chars(n.as_slice())
}

/// Text with neither `\` nor `$` is left exactly as it is.
pub proof fn law_plain_text_untouched(s: Seq<char>)
    requires
        !s.contains('\\'),
        !s.contains('$'),
    ensures
        normalize_math_spec(s) == s,
{
}


/// Whether `ch` occurs nowhere in `s`.
pub open spec fn lacks(s: Seq<char>, ch: char) -> bool {
    forall|i: int| 0 <= i < s.len() ==> s[i] != ch
}

/// Text that the normalizer has nothing to act on: no command, no dollar
/// sign, no caret.
pub open spec fn plain(s: Seq<char>) -> bool {
    lacks(s, '\\') && lacks(s, '$') && lacks(s, '^')
}

pub open spec fn is_letter(c: char) -> bool {
    ('a' <= c && c <= 'z') || ('A' <= c && c <= 'Z')
}

/// Whether the pattern `p` cannot match where the command `c` stands when
/// `c` is followed by something other than a letter: the two differ in one of
/// their first characters after the backslash, or `p` is `c` continued by a
/// letter.
pub open spec fn misses(p: Seq<char>, c: Seq<char>) -> bool {
    ||| (p.len() > 1 && c.len() > 1 && p[1] != c[1])
    ||| (p.len() > 2 && c.len() > 2 && p[2] != c[2])
    ||| (p.len() > 3 && c.len() > 3 && p[3] != c[3])
    ||| (c.len() < p.len() && p.take(c.len() as int) == c && is_letter(p[c.len() as int]))
}

/// Whether scanning `tbl` from `k` on, every command before the first entry
/// for `c` misses `c`, and that entry replaces `c` by `g`.
pub open spec fn reaches_from(tbl: Seq<(Seq<char>, Seq<char>)>, k: int, c: Seq<char>, g: Seq<char>) -> bool
    decreases tbl.len() - k,
{
    if k < 0 || k >= tbl.len() {
        false
    } else if misses(tbl[k].0, c) && tbl[k].0.len() > 0 && tbl[k].0[0] == '\\' {
        reaches_from(tbl, k + 1, c, g)
    } else {
        tbl[k].0 == c && tbl[k].1 == g
    }
}

/// Whether every entry of `tbl` from `k` on is a command (starts with `\`).
pub open spec fn commands_from(tbl: Seq<(Seq<char>, Seq<char>)>, k: int) -> bool
    decreases tbl.len() - k,
{
    if k < 0 || k >= tbl.len() {
        true
    } else {
        tbl[k].0.len() > 0 && tbl[k].0[0] == '\\' && commands_from(tbl, k + 1)
    }
}

proof fn lemma_replace_absent(s: Seq<char>, p: Seq<char>, r: Seq<char>)
    requires
        p.len() > 0,
        lacks(s, p[0]),
    ensures
        replace_all(s, p, r) == s,
    decreases s.len(),
{
    if s.len() > 0 {
        if crate::text::starts_with(s, p) {
            assert(s.take(p.len() as int)[0] == s[0]);
        }
        lemma_replace_absent(s.drop_first(), p, r);
        assert(seq![s[0]] + s.drop_first() =~= s);
    }
}

proof fn lemma_replace_after(a: Seq<char>, x: Seq<char>, p: Seq<char>, r: Seq<char>)
    requires
        p.len() > 0,
        lacks(a, p[0]),
    ensures
        replace_all(a + x, p, r) == a + replace_all(x, p, r),
    decreases a.len(),
{
    if a.len() == 0 {
        assert(a + x =~= x);
    } else {
        let s = a + x;
        if crate::text::starts_with(s, p) {
            assert(s.take(p.len() as int)[0] == s[0]);
        }
        assert(s.drop_first() =~= a.drop_first() + x);
        lemma_replace_after(a.drop_first(), x, p, r);
        assert(seq![a[0]] + (a.drop_first() + replace_all(x, p, r)) =~= a + replace_all(x, p, r));
    }
}

proof fn lemma_misses(c: Seq<char>, b: Seq<char>, p: Seq<char>)
    requires
        misses(p, c),
        b.len() == 0 || !is_letter(b[0]),
    ensures
        !crate::text::starts_with(c + b, p),
{
    let x = c + b;
    if crate::text::starts_with(x, p) {
        let t = x.take(p.len() as int);
        if p.len() > 1 && c.len() > 1 && p[1] != c[1] {
            assert(t[1] == x[1]);
        } else if p.len() > 2 && c.len() > 2 && p[2] != c[2] {
            assert(t[2] == x[2]);
        } else if p.len() > 3 && c.len() > 3 && p[3] != c[3] {
            assert(t[3] == x[3]);
        } else {
            assert(t[c.len() as int] == x[c.len() as int]);
            assert(x[c.len() as int] == b[0]);
        }
    }
}

/// A command `c` that the pattern `p` misses survives the replacement of `p`.
proof fn lemma_replace_miss(a: Seq<char>, c: Seq<char>, b: Seq<char>, p: Seq<char>, r: Seq<char>)
    requires
        p.len() > 0,
        p[0] == '\\',
        c.len() >= 1,
        c[0] == '\\',
        lacks(a, '\\'),
        lacks(c.drop_first() + b, '\\'),
        !crate::text::starts_with(c + b, p),
    ensures
        replace_all(a + c + b, p, r) == a + c + b,
{
    assert(a + c + b =~= a + (c + b));
    lemma_replace_after(a, c + b, p, r);
    assert((c + b).drop_first() =~= c.drop_first() + b);
    lemma_replace_absent(c.drop_first() + b, p, r);
    assert(seq![(c + b)[0]] + (c.drop_first() + b) =~= c + b);
}

/// The replacement of the command `c` itself puts `g` where it stood.
proof fn lemma_replace_hit(a: Seq<char>, c: Seq<char>, b: Seq<char>, g: Seq<char>)
    requires
        c.len() >= 1,
        c[0] == '\\',
        lacks(a, '\\'),
        lacks(b, '\\'),
    ensures
        replace_all(a + c + b, c, g) == a + g + b,
{
    assert(a + c + b =~= a + (c + b));
    lemma_replace_after(a, c + b, c, g);
    assert((c + b).take(c.len() as int) =~= c);
    assert((c + b).skip(c.len() as int) =~= b);
    lemma_replace_absent(b, c, g);
    assert(a + (g + b) =~= a + g + b);
}

proof fn lemma_apply_plain(x: Seq<char>, tbl: Seq<(Seq<char>, Seq<char>)>, k: int)
    requires
        lacks(x, '\\'),
        commands_from(tbl, k),
        0 <= k <= tbl.len(),
    ensures
        apply_symbols(x, tbl.skip(k)) == x,
    decreases tbl.len() - k,
{
    let t = tbl.skip(k);
    if k < tbl.len() {
        assert(t[0] == tbl[k]);
        assert(t.drop_first() =~= tbl.skip(k + 1));
        lemma_replace_absent(x, tbl[k].0, tbl[k].1);
        lemma_apply_plain(x, tbl, k + 1);
    } else {
        assert(t.len() == 0);
    }
}

proof fn lemma_apply_reaches(
    a: Seq<char>,
    c: Seq<char>,
    b: Seq<char>,
    g: Seq<char>,
    tbl: Seq<(Seq<char>, Seq<char>)>,
    k: int,
)
    requires
        plain(a),
        plain(b),
        lacks(g, '\\'),
        b.len() == 0 || !is_letter(b[0]),
        c.len() >= 1,
        c[0] == '\\',
        lacks(c.drop_first() + b, '\\'),
        0 <= k,
        reaches_from(tbl, k, c, g),
        commands_from(tbl, k),
    ensures
        apply_symbols(a + c + b, tbl.skip(k)) == a + g + b,
    decreases tbl.len() - k,
{
    let t = tbl.skip(k);
    assert(t[0] == tbl[k]);
    assert(t.drop_first() =~= tbl.skip(k + 1));
    let p = tbl[k].0;
    if misses(p, c) && p.len() > 0 && p[0] == '\\' {
        lemma_misses(c, b, p);
        lemma_replace_miss(a, c, b, p, tbl[k].1);
        lemma_apply_reaches(a, c, b, g, tbl, k + 1);
    } else {
        lemma_replace_hit(a, c, b, g);
        assert(lacks(a + g + b, '\\'));
        lemma_apply_plain(a + g + b, tbl, k + 1);
    }
}

proof fn lemma_strip_plain(t: Seq<char>, i: int)
    requires
        lacks(t, '$'),
        0 <= i <= t.len(),
    ensures
        strip_inline_dollars(t, i) == t.skip(i),
    decreases t.len() - i,
{
    if i < t.len() {
        lemma_strip_plain(t, i + 1);
        assert(seq![t[i]] + t.skip(i + 1) =~= t.skip(i));
    } else {
        assert(t.skip(i) =~= Seq::<char>::empty());
    }
}

proof fn lemma_wrap_plain(t: Seq<char>, i: int, k: Wrapped, fuel: nat)
    requires
        forall|j: int| 0 <= j < t.len() ==> !crate::text::occurs_at(t, wrapped_cmd(k), j),
        0 <= i <= t.len(),
    ensures
        wrap_scan(t, i, k, fuel) == t.skip(i),
    decreases t.len() - i,
{
    if i < t.len() {
        lemma_wrap_plain(t, i + 1, k, fuel);
        assert(seq![t[i]] + t.skip(i + 1) =~= t.skip(i));
    } else {
        assert(t.skip(i) =~= Seq::<char>::empty());
    }
}

proof fn lemma_no_occurrence(a: Seq<char>, c: Seq<char>, b: Seq<char>, p: Seq<char>)
    requires
        p.len() > 0,
        p[0] == '\\',
        c.len() >= 1,
        c[0] == '\\',
        lacks(a, '\\'),
        lacks(c.drop_first() + b, '\\'),
        !crate::text::starts_with(c + b, p),
    ensures
        forall|j: int| 0 <= j < (a + c + b).len() ==> !crate::text::occurs_at(a + c + b, p, j),
{
    let s = a + c + b;
    assert forall|j: int| 0 <= j < s.len() implies !crate::text::occurs_at(s, p, j) by {
        if crate::text::occurs_at(s, p, j) {
            assert(s.subrange(j, j + p.len())[0] == s[j]);
            if j < a.len() {
                assert(s[j] == a[j]);
            } else if j > a.len() {
                assert(s[j] == (c.drop_first() + b)[j - a.len() - 1]);
            } else {
                assert((c + b).take(p.len() as int) =~= s.subrange(j, j + p.len()));
            }
        }
    }
}

/// A lone command of the table between plain text becomes its glyph.
proof fn lemma_norm_command(a: Seq<char>, c: Seq<char>, b: Seq<char>, g: Seq<char>, fuel: nat)
    requires
        plain(a),
        plain(b),
        plain(g),
        b.len() == 0 || !is_letter(b[0]),
        c.len() >= 2,
        c[0] == '\\',
        plain(c.drop_first()),
        misses("\\("@, c),
        misses("\\)"@, c),
        misses("\\["@, c),
        misses("\\]"@, c),
        misses("\\frac"@, c),
        misses("\\sqrt"@, c),
        reaches_from(symbol_table(), 0, c, g),
        commands_from(symbol_table(), 0),
    ensures
        norm(a + c + b, fuel) == a + g + b,
{
    reveal_strlit("\\(");
    reveal_strlit("\\)");
    reveal_strlit("\\[");
    reveal_strlit("\\]");
    reveal_strlit("\\frac");
    reveal_strlit("\\sqrt");
    reveal_strlit("$$");
    reveal_strlit("");
    let s = a + c + b;
    assert(s[a.len() as int] == '\\');
    assert(s.contains('\\'));
    assert(lacks(c.drop_first() + b, '\\'));
    lemma_misses(c, b, "\\("@);
    lemma_replace_miss(a, c, b, "\\("@, ""@);
    lemma_misses(c, b, "\\)"@);
    lemma_replace_miss(a, c, b, "\\)"@, ""@);
    lemma_misses(c, b, "\\["@);
    lemma_replace_miss(a, c, b, "\\["@, ""@);
    lemma_misses(c, b, "\\]"@);
    lemma_replace_miss(a, c, b, "\\]"@, ""@);
    assert forall|i: int| 0 <= i < s.len() implies s[i] != '$' by {
        if i < a.len() {
            assert(s[i] == a[i]);
        } else if i == a.len() {
            assert(s[i] == c[0]);
        } else if i < a.len() + c.len() {
            assert(s[i] == c.drop_first()[i - a.len() - 1]);
        } else {
            assert(s[i] == b[i - a.len() - c.len()]);
        }
    }
    lemma_replace_absent(s, "$$"@, seq![]);
    lemma_strip_plain(s, 0);
    assert(s.skip(0) =~= s);
    lemma_misses(c, b, "\\frac"@);
    lemma_no_occurrence(a, c, b, "\\frac"@);
    lemma_wrap_plain(s, 0, Wrapped::Frac, fuel);
    lemma_misses(c, b, "\\sqrt"@);
    lemma_no_occurrence(a, c, b, "\\sqrt"@);
    lemma_wrap_plain(s, 0, Wrapped::Sqrt, fuel);
    let tbl = symbol_table();
    lemma_apply_reaches(a, c, b, g, tbl, 0);
    assert(tbl.skip(0) =~= tbl);
    let o = a + g + b;
    assert(!o.contains('^'));
}

/// Whether no character of `s` is `\`, `$` or `^`, checked one by one.
pub open spec fn plain_chars(s: Seq<char>) -> bool
    decreases s.len(),
{
    s.len() == 0 || (s[0] != '\\' && s[0] != '$' && s[0] != '^' && plain_chars(s.drop_first()))
}

proof fn lemma_plain_chars(s: Seq<char>)
    requires
        plain_chars(s),
    ensures
        plain(s),
    decreases s.len(),
{
    if s.len() > 0 {
        lemma_plain_chars(s.drop_first());
        assert forall|i: int| 0 <= i < s.len() implies s[i] != '\\' && s[i] != '$' && s[i] != '^' by {
            if i > 0 {
                assert(s[i] == s.drop_first()[i - 1]);
            }
        }
    }
}

/// What the table promises of the command `c`: a backslash and a name that
/// no delimiter or argument-taking command shares, and nothing earlier in
/// the table takes it before its own entry turns it into `g`.
pub open spec fn listed_command(c: Seq<char>, g: Seq<char>) -> bool {
    &&& c.len() >= 2
    &&& c[0] == '\\'
    &&& plain_chars(c.drop_first())
    &&& plain_chars(g)
    &&& misses("\\("@, c)
    &&& misses("\\)"@, c)
    &&& misses("\\["@, c)
    &&& misses("\\]"@, c)
    &&& misses("\\frac"@, c)
    &&& misses("\\sqrt"@, c)
    &&& reaches_from(symbol_table(), 0, c, g)
}

proof fn lemma_listed(a: Seq<char>, c: Seq<char>, b: Seq<char>, g: Seq<char>)
    requires
        plain(a),
        plain(b),
        b.len() == 0 || !is_letter(b[0]),
        listed_command(c, g),
        commands_from(symbol_table(), 0),
    ensures
        normalize_math_spec(a + c + b) == a + g + b,
{
    lemma_plain_chars(c.drop_first());
    lemma_plain_chars(g);
    lemma_norm_command(a, c, b, g, (a + c + b).len());
}

proof fn lemma_table_operators()
    ensures
        commands_from(symbol_table(), 0),
        listed_command("\\times"@, "×"@),
        listed_command("\\cdot"@, "·"@),
        listed_command("\\div"@, "÷"@),
        listed_command("\\pm"@, "±"@),
        listed_command("\\mp"@, "∓"@),
        listed_command("\\leq"@, "≤"@),
        listed_command("\\le"@, "≤"@),
        listed_command("\\geq"@, "≥"@),
        listed_command("\\ge"@, "≥"@),
        listed_command("\\neq"@, "≠"@),
        listed_command("\\approx"@, "≈"@),
        listed_command("\\equiv"@, "≡"@),
{
    reveal_strlit("\\times");
    reveal_strlit("\\cdot");
    reveal_strlit("\\div");
    reveal_strlit("\\pm");
    reveal_strlit("\\mp");
    reveal_strlit("\\leq");
    reveal_strlit("\\le");
    reveal_strlit("\\geq");
    reveal_strlit("\\ge");
    reveal_strlit("\\neq");
    reveal_strlit("\\approx");
    reveal_strlit("\\equiv");
    reveal_strlit("\\infty");
    reveal_strlit("\\sum");
    reveal_strlit("\\prod");
    reveal_strlit("\\int");
    reveal_strlit("\\partial");
    reveal_strlit("\\nabla");
    reveal_strlit("\\alpha");
    reveal_strlit("\\beta");
    reveal_strlit("\\gamma");
    reveal_strlit("\\delta");
    reveal_strlit("\\epsilon");
    reveal_strlit("\\theta");
    reveal_strlit("\\lambda");
    reveal_strlit("\\mu");
    reveal_strlit("\\pi");
    reveal_strlit("\\rho");
    reveal_strlit("\\sigma");
    reveal_strlit("\\tau");
    reveal_strlit("\\phi");
    reveal_strlit("\\omega");
    reveal_strlit("\\Delta");
    reveal_strlit("\\Sigma");
    reveal_strlit("\\Omega");
    reveal_strlit("\\Rightarrow");
    reveal_strlit("\\rightarrow");
    reveal_strlit("\\to");
    reveal_strlit("\\leftarrow");
    reveal_strlit("\\ldots");
    reveal_strlit("\\dots");
    reveal_strlit("\\left");
    reveal_strlit("\\right");
    reveal_strlit("\\quad");
    reveal_strlit("\\,");
    reveal_strlit("\\;");
    reveal_strlit("\\!");
    reveal_strlit("\\(");
    reveal_strlit("\\)");
    reveal_strlit("\\[");
    reveal_strlit("\\]");
    reveal_strlit("\\frac");
    reveal_strlit("\\sqrt");
    reveal_strlit("±");
    reveal_strlit("·");
    reveal_strlit("×");
    reveal_strlit("÷");
    reveal_strlit("∓");
    reveal_strlit("≈");
    reveal_strlit("≠");
    reveal_strlit("≡");
    reveal_strlit("≤");
    reveal_strlit("≥");
    assert("\\leq"@.take(3) =~= "\\le"@);
    assert("\\geq"@.take(3) =~= "\\ge"@);
    reveal_with_fuel(commands_from, 48);
    reveal_with_fuel(reaches_from, 13);
    reveal_with_fuel(plain_chars, 12);
}

/// The operator and relation commands become their Unicode signs (`\times`
/// `×`, `\cdot` `·`, `\div` `÷`, `\pm` `±`, `\mp` `∓`, `\leq` and `\le` `≤`,
/// `\geq` and `\ge` `≥`, `\neq` `≠`, `\approx` `≈`, `\equiv` `≡`) wherever such
/// a command stands alone between text that holds no other command, dollar
/// sign or caret, and is not followed by a letter (which would make a longer
/// command name).
pub proof fn law_operators_become_glyphs(a: Seq<char>, b: Seq<char>)
    requires
        plain(a),
        plain(b),
        b.len() == 0 || !is_letter(b[0]),
    ensures
        normalize_math_spec(a + "\\times"@ + b) == a + "×"@ + b,
        normalize_math_spec(a + "\\cdot"@ + b) == a + "·"@ + b,
        normalize_math_spec(a + "\\div"@ + b) == a + "÷"@ + b,
        normalize_math_spec(a + "\\pm"@ + b) == a + "±"@ + b,
        normalize_math_spec(a + "\\mp"@ + b) == a + "∓"@ + b,
        normalize_math_spec(a + "\\leq"@ + b) == a + "≤"@ + b,
        normalize_math_spec(a + "\\le"@ + b) == a + "≤"@ + b,
        normalize_math_spec(a + "\\geq"@ + b) == a + "≥"@ + b,
        normalize_math_spec(a + "\\ge"@ + b) == a + "≥"@ + b,
        normalize_math_spec(a + "\\neq"@ + b) == a + "≠"@ + b,
        normalize_math_spec(a + "\\approx"@ + b) == a + "≈"@ + b,
        normalize_math_spec(a + "\\equiv"@ + b) == a + "≡"@ + b,
{
    lemma_table_operators();
    lemma_listed(a, "\\times"@, b, "×"@);
    lemma_listed(a, "\\cdot"@, b, "·"@);
    lemma_listed(a, "\\div"@, b, "÷"@);
    lemma_listed(a, "\\pm"@, b, "±"@);
    lemma_listed(a, "\\mp"@, b, "∓"@);
    lemma_listed(a, "\\leq"@, b, "≤"@);
    lemma_listed(a, "\\le"@, b, "≤"@);
    lemma_listed(a, "\\geq"@, b, "≥"@);
    lemma_listed(a, "\\ge"@, b, "≥"@);
    lemma_listed(a, "\\neq"@, b, "≠"@);
    lemma_listed(a, "\\approx"@, b, "≈"@);
    lemma_listed(a, "\\equiv"@, b, "≡"@);
}

proof fn lemma_table_calculus()
    ensures
        commands_from(symbol_table(), 0),
        listed_command("\\infty"@, "∞"@),
        listed_command("\\sum"@, "∑"@),
        listed_command("\\prod"@, "∏"@),
        listed_command("\\int"@, "∫"@),
        listed_command("\\partial"@, "∂"@),
        listed_command("\\nabla"@, "∇"@),
{
    reveal_strlit("\\times");
    reveal_strlit("\\cdot");
    reveal_strlit("\\div");
    reveal_strlit("\\pm");
    reveal_strlit("\\mp");
    reveal_strlit("\\leq");
    reveal_strlit("\\le");
    reveal_strlit("\\geq");
    reveal_strlit("\\ge");
    reveal_strlit("\\neq");
    reveal_strlit("\\approx");
    reveal_strlit("\\equiv");
    reveal_strlit("\\infty");
    reveal_strlit("\\sum");
    reveal_strlit("\\prod");
    reveal_strlit("\\int");
    reveal_strlit("\\partial");
    reveal_strlit("\\nabla");
    reveal_strlit("\\alpha");
    reveal_strlit("\\beta");
    reveal_strlit("\\gamma");
    reveal_strlit("\\delta");
    reveal_strlit("\\epsilon");
    reveal_strlit("\\theta");
    reveal_strlit("\\lambda");
    reveal_strlit("\\mu");
    reveal_strlit("\\pi");
    reveal_strlit("\\rho");
    reveal_strlit("\\sigma");
    reveal_strlit("\\tau");
    reveal_strlit("\\phi");
    reveal_strlit("\\omega");
    reveal_strlit("\\Delta");
    reveal_strlit("\\Sigma");
    reveal_strlit("\\Omega");
    reveal_strlit("\\Rightarrow");
    reveal_strlit("\\rightarrow");
    reveal_strlit("\\to");
    reveal_strlit("\\leftarrow");
    reveal_strlit("\\ldots");
    reveal_strlit("\\dots");
    reveal_strlit("\\left");
    reveal_strlit("\\right");
    reveal_strlit("\\quad");
    reveal_strlit("\\,");
    reveal_strlit("\\;");
    reveal_strlit("\\!");
    reveal_strlit("\\(");
    reveal_strlit("\\)");
    reveal_strlit("\\[");
    reveal_strlit("\\]");
    reveal_strlit("\\frac");
    reveal_strlit("\\sqrt");
    reveal_strlit("∂");
    reveal_strlit("∇");
    reveal_strlit("∏");
    reveal_strlit("∑");
    reveal_strlit("∞");
    reveal_strlit("∫");
    reveal_with_fuel(commands_from, 48);
    reveal_with_fuel(reaches_from, 19);
    reveal_with_fuel(plain_chars, 12);
}

/// The commands for infinity, sums, products, integrals and derivatives
/// become their Unicode signs (`\infty` `∞`, `\sum` `∑`, `\prod` `∏`, `\int`
/// `∫`, `\partial` `∂`, `\nabla` `∇`) wherever such a command stands alone
/// between text that holds no other command, dollar sign or caret, and is not
/// followed by a letter.
pub proof fn law_calculus_become_glyphs(a: Seq<char>, b: Seq<char>)
    requires
        plain(a),
        plain(b),
        b.len() == 0 || !is_letter(b[0]),
    ensures
        normalize_math_spec(a + "\\infty"@ + b) == a + "∞"@ + b,
        normalize_math_spec(a + "\\sum"@ + b) == a + "∑"@ + b,
        normalize_math_spec(a + "\\prod"@ + b) == a + "∏"@ + b,
        normalize_math_spec(a + "\\int"@ + b) == a + "∫"@ + b,
        normalize_math_spec(a + "\\partial"@ + b) == a + "∂"@ + b,
        normalize_math_spec(a + "\\nabla"@ + b) == a + "∇"@ + b,
{
    lemma_table_calculus();
    lemma_listed(a, "\\infty"@, b, "∞"@);
    lemma_listed(a, "\\sum"@, b, "∑"@);
    lemma_listed(a, "\\prod"@, b, "∏"@);
    lemma_listed(a, "\\int"@, b, "∫"@);
    lemma_listed(a, "\\partial"@, b, "∂"@);
    lemma_listed(a, "\\nabla"@, b, "∇"@);
}

proof fn lemma_table_greek()
    ensures
        commands_from(symbol_table(), 0),
        listed_command("\\alpha"@, "α"@),
        listed_command("\\beta"@, "β"@),
        listed_command("\\gamma"@, "γ"@),
        listed_command("\\delta"@, "δ"@),
        listed_command("\\epsilon"@, "ε"@),
        listed_command("\\theta"@, "θ"@),
        listed_command("\\lambda"@, "λ"@),
        listed_command("\\mu"@, "μ"@),
        listed_command("\\pi"@, "π"@),
        listed_command("\\rho"@, "ρ"@),
        listed_command("\\sigma"@, "σ"@),
        listed_command("\\tau"@, "τ"@),
        listed_command("\\phi"@, "φ"@),
        listed_command("\\omega"@, "ω"@),
        listed_command("\\Delta"@, "Δ"@),
        listed_command("\\Sigma"@, "Σ"@),
        listed_command("\\Omega"@, "Ω"@),
{
    reveal_strlit("\\times");
    reveal_strlit("\\cdot");
    reveal_strlit("\\div");
    reveal_strlit("\\pm");
    reveal_strlit("\\mp");
    reveal_strlit("\\leq");
    reveal_strlit("\\le");
    reveal_strlit("\\geq");
    reveal_strlit("\\ge");
    reveal_strlit("\\neq");
    reveal_strlit("\\approx");
    reveal_strlit("\\equiv");
    reveal_strlit("\\infty");
    reveal_strlit("\\sum");
    reveal_strlit("\\prod");
    reveal_strlit("\\int");
    reveal_strlit("\\partial");
    reveal_strlit("\\nabla");
    reveal_strlit("\\alpha");
    reveal_strlit("\\beta");
    reveal_strlit("\\gamma");
    reveal_strlit("\\delta");
    reveal_strlit("\\epsilon");
    reveal_strlit("\\theta");
    reveal_strlit("\\lambda");
    reveal_strlit("\\mu");
    reveal_strlit("\\pi");
    reveal_strlit("\\rho");
    reveal_strlit("\\sigma");
    reveal_strlit("\\tau");
    reveal_strlit("\\phi");
    reveal_strlit("\\omega");
    reveal_strlit("\\Delta");
    reveal_strlit("\\Sigma");
    reveal_strlit("\\Omega");
    reveal_strlit("\\Rightarrow");
    reveal_strlit("\\rightarrow");
    reveal_strlit("\\to");
    reveal_strlit("\\leftarrow");
    reveal_strlit("\\ldots");
    reveal_strlit("\\dots");
    reveal_strlit("\\left");
    reveal_strlit("\\right");
    reveal_strlit("\\quad");
    reveal_strlit("\\,");
    reveal_strlit("\\;");
    reveal_strlit("\\!");
    reveal_strlit("\\(");
    reveal_strlit("\\)");
    reveal_strlit("\\[");
    reveal_strlit("\\]");
    reveal_strlit("\\frac");
    reveal_strlit("\\sqrt");
    reveal_strlit("Δ");
    reveal_strlit("Σ");
    reveal_strlit("Ω");
    reveal_strlit("α");
    reveal_strlit("β");
    reveal_strlit("γ");
    reveal_strlit("δ");
    reveal_strlit("ε");
    reveal_strlit("θ");
    reveal_strlit("λ");
    reveal_strlit("μ");
    reveal_strlit("π");
    reveal_strlit("ρ");
    reveal_strlit("σ");
    reveal_strlit("τ");
    reveal_strlit("φ");
    reveal_strlit("ω");
    reveal_with_fuel(commands_from, 48);
    reveal_with_fuel(reaches_from, 36);
    reveal_with_fuel(plain_chars, 12);
}

/// The Greek letter commands become the Greek letters (`\alpha` `α`, `\beta`
/// `β`, `\gamma` `γ`, `\delta` `δ`, `\epsilon` `ε`, `\theta` `θ`, `\lambda` `λ`,
/// `\mu` `μ`, `\pi` `π`, `\rho` `ρ`, `\sigma` `σ`, `\tau` `τ`, `\phi` `φ`,
/// `\omega` `ω`, `\Delta` `Δ`, `\Sigma` `Σ`, `\Omega` `Ω`) wherever such a
/// command stands alone between text that holds no other command, dollar sign
/// or caret, and is not followed by a letter.
pub proof fn law_greek_become_glyphs(a: Seq<char>, b: Seq<char>)
    requires
        plain(a),
        plain(b),
        b.len() == 0 || !is_letter(b[0]),
    ensures
        normalize_math_spec(a + "\\alpha"@ + b) == a + "α"@ + b,
        normalize_math_spec(a + "\\beta"@ + b) == a + "β"@ + b,
        normalize_math_spec(a + "\\gamma"@ + b) == a + "γ"@ + b,
        normalize_math_spec(a + "\\delta"@ + b) == a + "δ"@ + b,
        normalize_math_spec(a + "\\epsilon"@ + b) == a + "ε"@ + b,
        normalize_math_spec(a + "\\theta"@ + b) == a + "θ"@ + b,
        normalize_math_spec(a + "\\lambda"@ + b) == a + "λ"@ + b,
        normalize_math_spec(a + "\\mu"@ + b) == a + "μ"@ + b,
        normalize_math_spec(a + "\\pi"@ + b) == a + "π"@ + b,
        normalize_math_spec(a + "\\rho"@ + b) == a + "ρ"@ + b,
        normalize_math_spec(a + "\\sigma"@ + b) == a + "σ"@ + b,
        normalize_math_spec(a + "\\tau"@ + b) == a + "τ"@ + b,
        normalize_math_spec(a + "\\phi"@ + b) == a + "φ"@ + b,
        normalize_math_spec(a + "\\omega"@ + b) == a + "ω"@ + b,
        normalize_math_spec(a + "\\Delta"@ + b) == a + "Δ"@ + b,
        normalize_math_spec(a + "\\Sigma"@ + b) == a + "Σ"@ + b,
        normalize_math_spec(a + "\\Omega"@ + b) == a + "Ω"@ + b,
{
    lemma_table_greek();
    lemma_listed(a, "\\alpha"@, b, "α"@);
    lemma_listed(a, "\\beta"@, b, "β"@);
    lemma_listed(a, "\\gamma"@, b, "γ"@);
    lemma_listed(a, "\\delta"@, b, "δ"@);
    lemma_listed(a, "\\epsilon"@, b, "ε"@);
    lemma_listed(a, "\\theta"@, b, "θ"@);
    lemma_listed(a, "\\lambda"@, b, "λ"@);
    lemma_listed(a, "\\mu"@, b, "μ"@);
    lemma_listed(a, "\\pi"@, b, "π"@);
    lemma_listed(a, "\\rho"@, b, "ρ"@);
    lemma_listed(a, "\\sigma"@, b, "σ"@);
    lemma_listed(a, "\\tau"@, b, "τ"@);
    lemma_listed(a, "\\phi"@, b, "φ"@);
    lemma_listed(a, "\\omega"@, b, "ω"@);
    lemma_listed(a, "\\Delta"@, b, "Δ"@);
    lemma_listed(a, "\\Sigma"@, b, "Σ"@);
    lemma_listed(a, "\\Omega"@, b, "Ω"@);
}

proof fn lemma_table_arrows()
    ensures
        commands_from(symbol_table(), 0),
        listed_command("\\Rightarrow"@, "⇒"@),
        listed_command("\\rightarrow"@, "→"@),
        listed_command("\\to"@, "→"@),
        listed_command("\\ldots"@, "…"@),
        listed_command("\\dots"@, "…"@),
        listed_command("\\right"@, ""@),
        listed_command("\\quad"@, "  "@),
        listed_command("\\,"@, " "@),
        listed_command("\\;"@, " "@),
        listed_command("\\!"@, ""@),
{
    reveal_strlit("\\times");
    reveal_strlit("\\cdot");
    reveal_strlit("\\div");
    reveal_strlit("\\pm");
    reveal_strlit("\\mp");
    reveal_strlit("\\leq");
    reveal_strlit("\\le");
    reveal_strlit("\\geq");
    reveal_strlit("\\ge");
    reveal_strlit("\\neq");
    reveal_strlit("\\approx");
    reveal_strlit("\\equiv");
    reveal_strlit("\\infty");
    reveal_strlit("\\sum");
    reveal_strlit("\\prod");
    reveal_strlit("\\int");
    reveal_strlit("\\partial");
    reveal_strlit("\\nabla");
    reveal_strlit("\\alpha");
    reveal_strlit("\\beta");
    reveal_strlit("\\gamma");
    reveal_strlit("\\delta");
    reveal_strlit("\\epsilon");
    reveal_strlit("\\theta");
    reveal_strlit("\\lambda");
    reveal_strlit("\\mu");
    reveal_strlit("\\pi");
    reveal_strlit("\\rho");
    reveal_strlit("\\sigma");
    reveal_strlit("\\tau");
    reveal_strlit("\\phi");
    reveal_strlit("\\omega");
    reveal_strlit("\\Delta");
    reveal_strlit("\\Sigma");
    reveal_strlit("\\Omega");
    reveal_strlit("\\Rightarrow");
    reveal_strlit("\\rightarrow");
    reveal_strlit("\\to");
    reveal_strlit("\\leftarrow");
    reveal_strlit("\\ldots");
    reveal_strlit("\\dots");
    reveal_strlit("\\left");
    reveal_strlit("\\right");
    reveal_strlit("\\quad");
    reveal_strlit("\\,");
    reveal_strlit("\\;");
    reveal_strlit("\\!");
    reveal_strlit("\\(");
    reveal_strlit("\\)");
    reveal_strlit("\\[");
    reveal_strlit("\\]");
    reveal_strlit("\\frac");
    reveal_strlit("\\sqrt");
    reveal_strlit("");
    reveal_strlit(" ");
    reveal_strlit("  ");
    reveal_strlit("…");
    reveal_strlit("→");
    reveal_strlit("⇒");
    assert("\\rightarrow"@.take(6) =~= "\\right"@);
    reveal_with_fuel(commands_from, 48);
    reveal_with_fuel(reaches_from, 48);
    reveal_with_fuel(plain_chars, 12);
}

/// The arrow and dots commands become their Unicode signs (`\Rightarrow` `⇒`,
/// `\rightarrow` and `\to` `→`, `\ldots` and `\dots` `…`), `\quad` becomes two
/// spaces, `\,` and `\;` one space, and `\right` and `\!` vanish, wherever such
/// a command stands alone between text that holds no other command, dollar
/// sign or caret, and is not followed by a letter.
pub proof fn law_arrows_become_glyphs(a: Seq<char>, b: Seq<char>)
    requires
        plain(a),
        plain(b),
        b.len() == 0 || !is_letter(b[0]),
    ensures
        normalize_math_spec(a + "\\Rightarrow"@ + b) == a + "⇒"@ + b,
        normalize_math_spec(a + "\\rightarrow"@ + b) == a + "→"@ + b,
        normalize_math_spec(a + "\\to"@ + b) == a + "→"@ + b,
        normalize_math_spec(a + "\\ldots"@ + b) == a + "…"@ + b,
        normalize_math_spec(a + "\\dots"@ + b) == a + "…"@ + b,
        normalize_math_spec(a + "\\right"@ + b) == a + ""@ + b,
        normalize_math_spec(a + "\\quad"@ + b) == a + "  "@ + b,
        normalize_math_spec(a + "\\,"@ + b) == a + " "@ + b,
        normalize_math_spec(a + "\\;"@ + b) == a + " "@ + b,
        normalize_math_spec(a + "\\!"@ + b) == a + ""@ + b,
{
    lemma_table_arrows();
    lemma_listed(a, "\\Rightarrow"@, b, "⇒"@);
    lemma_listed(a, "\\rightarrow"@, b, "→"@);
    lemma_listed(a, "\\to"@, b, "→"@);
    lemma_listed(a, "\\ldots"@, b, "…"@);
    lemma_listed(a, "\\dots"@, b, "…"@);
    lemma_listed(a, "\\right"@, b, ""@);
    lemma_listed(a, "\\quad"@, b, "  "@);
    lemma_listed(a, "\\,"@, b, " "@);
    lemma_listed(a, "\\;"@, b, " "@);
    lemma_listed(a, "\\!"@, b, ""@);
}

proof fn lemma_differs_at(x: Seq<char>, p: Seq<char>, k: int)
    requires
        0 <= k < p.len(),
        k < x.len(),
        x[k] != p[k],
    ensures
        !crate::text::starts_with(x, p),
{
    if crate::text::starts_with(x, p) {
        assert(x.take(p.len() as int)[k] == x[k]);
    }
}

proof fn lemma_wrap_walk(t: Seq<char>, i: int, j: int, k: Wrapped, fuel: nat)
    requires
        0 <= i <= j <= t.len(),
        forall|m: int| i <= m < j ==> t[m] != '\\',
    ensures
        wrap_scan(t, i, k, fuel) == t.subrange(i, j) + wrap_scan(t, j, k, fuel),
    decreases j - i,
{
    if i < j {
        reveal_strlit("\\frac");
        reveal_strlit("\\sqrt");
        if crate::text::occurs_at(t, wrapped_cmd(k), i) {
            assert(t.subrange(i, i + wrapped_cmd(k).len())[0] == t[i]);
        }
        lemma_wrap_walk(t, i + 1, j, k, fuel);
        assert(seq![t[i]] + (t.subrange(i + 1, j) + wrap_scan(t, j, k, fuel)) =~= t.subrange(i, j) + wrap_scan(
            t,
            j,
            k,
            fuel,
        ));
    } else {
        assert(t.subrange(i, j) =~= Seq::<char>::empty());
    }
}

proof fn lemma_wrap_rest(t: Seq<char>, i: int, k: Wrapped, fuel: nat)
    requires
        0 <= i <= t.len(),
        forall|m: int| i <= m < t.len() ==> t[m] != '\\',
    ensures
        wrap_scan(t, i, k, fuel) == t.skip(i),
{
    lemma_wrap_walk(t, i, t.len() as int, k, fuel);
    assert(t.subrange(i, t.len() as int) =~= t.skip(i));
    assert(t.subrange(i, t.len() as int) + Seq::<char>::empty() =~= t.skip(i));
}

proof fn lemma_brace_skip(t: Seq<char>, j: int, to: int, depth: int)
    requires
        0 <= j <= to,
        forall|m: int| j <= m < to ==> t[m] != '{' && t[m] != '}',
        to <= t.len(),
    ensures
        brace_close(t, j, depth) == brace_close(t, to, depth),
    decreases to - j,
{
    if j < to {
        lemma_brace_skip(t, j + 1, to, depth);
    }
}

/// A `{…}` group whose contents hold no brace.
proof fn lemma_flat_group(t: Seq<char>, start: int, inner: Seq<char>)
    requires
        0 <= start,
        start + inner.len() + 2 <= t.len(),
        t[start] == '{',
        t.subrange(start + 1, start + 1 + inner.len()) == inner,
        t[start + 1 + inner.len()] == '}',
        forall|m: int| 0 <= m < inner.len() ==> inner[m] != '{' && inner[m] != '}',
    ensures
        brace_group(t, start) == Some((inner, start + inner.len() + 2)),
{
    let e = start + 1 + inner.len();
    assert forall|m: int| start + 1 <= m < e implies t[m] != '{' && t[m] != '}' by {
        assert(t[m] == t.subrange(start + 1, e)[m - start - 1]);
    }
    lemma_brace_skip(t, start + 1, e, 1);
}

/// Text the normalizer leaves alone and that holds no brace.
pub open spec fn flat(s: Seq<char>) -> bool {
    plain(s) && lacks(s, '{') && lacks(s, '}')
}

/// The stages before and after the rewriting of `\frac` and `\sqrt` leave
/// text whose only backslash opens that command untouched, and the stages
/// after it leave plain text untouched.
proof fn lemma_norm_around(a: Seq<char>, w: Seq<char>, b: Seq<char>, fuel: nat, k: Wrapped, out: Seq<char>)
    requires
        plain(a),
        plain(b),
        w.len() >= 2,
        w[0] == '\\',
        w[1] == 'f' || w[1] == 's',
        lacks(w.drop_first(), '\\'),
        lacks(w, '$'),
        lacks(w, '^'),
        plain(out),
        wrap_scan(a + w + b, 0, Wrapped::Frac, fuel) == (if k == Wrapped::Frac { out } else { a + w + b }),
        k == Wrapped::Sqrt ==> wrap_scan(a + w + b, 0, Wrapped::Sqrt, fuel) == out,
    ensures
        norm(a + w + b, fuel) == out,
{
    reveal_strlit("\\(");
    reveal_strlit("\\)");
    reveal_strlit("\\[");
    reveal_strlit("\\]");
    reveal_strlit("$$");
    reveal_strlit("");
    let s = a + w + b;
    assert(s[a.len() as int] == '\\');
    assert(s.contains('\\'));
    assert(lacks(w.drop_first() + b, '\\'));
    lemma_differs_at(w + b, "\\("@, 1);
    lemma_replace_miss(a, w, b, "\\("@, ""@);
    lemma_differs_at(w + b, "\\)"@, 1);
    lemma_replace_miss(a, w, b, "\\)"@, ""@);
    lemma_differs_at(w + b, "\\["@, 1);
    lemma_replace_miss(a, w, b, "\\["@, ""@);
    lemma_differs_at(w + b, "\\]"@, 1);
    lemma_replace_miss(a, w, b, "\\]"@, ""@);
    assert forall|i: int| 0 <= i < s.len() implies s[i] != '$' by {
        if i < a.len() {
            assert(s[i] == a[i]);
        } else if i < a.len() + w.len() {
            assert(s[i] == w[i - a.len()]);
        } else {
            assert(s[i] == b[i - a.len() - w.len()]);
        }
    }
    lemma_replace_absent(s, "$$"@, seq![]);
    lemma_strip_plain(s, 0);
    assert(s.skip(0) =~= s);
    if k == Wrapped::Frac {
        lemma_wrap_rest(out, 0, Wrapped::Sqrt, fuel);
    }
    assert(out.skip(0) =~= out);
    lemma_table_operators();
    lemma_apply_plain(out, symbol_table(), 0);
    assert(symbol_table().skip(0) =~= symbol_table());
    assert(!out.contains('^'));
}

proof fn lemma_frac_scan(a: Seq<char>, p: Seq<char>, q: Seq<char>, b: Seq<char>, fuel: nat)
    requires
        plain(a),
        plain(b),
        flat(p),
        flat(q),
    ensures
        wrap_scan(a + ("\\frac{"@ + p + "}{"@ + q + "}"@) + b, 0, Wrapped::Frac, fuel) == a + "("@ + p + ")/("@
            + q + ")"@ + b,
{
    reveal_strlit("\\frac{");
    reveal_strlit("}{");
    reveal_strlit("}");
    reveal_strlit("\\frac");
    reveal_strlit("(");
    reveal_strlit(")/(");
    reveal_strlit(")");
    let w = "\\frac{"@ + p + "}{"@ + q + "}"@;
    let t = a + w + b;
    let i = a.len() as int;
    let g1 = i + 5;
    let g2 = g1 + p.len() + 2;
    let next = g2 + q.len() + 2;
    assert forall|m: int| 0 <= m < i implies t[m] != '\\' by {
        assert(t[m] == a[m]);
    }
    lemma_wrap_walk(t, 0, i, Wrapped::Frac, fuel);
    assert(t.subrange(0, i) =~= a);
    assert(t.subrange(i, i + 5) =~= "\\frac"@);
    assert(t.subrange(g1 + 1, g1 + 1 + p.len()) =~= p);
    lemma_flat_group(t, g1, p);
    assert(t.subrange(g2 + 1, g2 + 1 + q.len()) =~= q);
    lemma_flat_group(t, g2, q);
    assert(groups_at(t, next, 0) == Some((Seq::<Seq<char>>::empty(), next)));
    assert(seq![q] + Seq::<Seq<char>>::empty() =~= seq![q]);
    assert(groups_at(t, g2, 1) == Some((seq![q], next)));
    assert(groups_at(t, g1, 2) == Some((seq![p] + seq![q], next)));
    assert(seq![p] + seq![q] =~= seq![p, q]);
    assert(norm_arg(p, fuel) == p);
    assert(norm_arg(q, fuel) == q);
    assert forall|m: int| next <= m < t.len() implies t[m] != '\\' by {
        assert(t[m] == b[m - next]);
    }
    lemma_wrap_rest(t, next, Wrapped::Frac, fuel);
    assert(t.skip(next) =~= b);
    assert(wrap_scan(t, 0, Wrapped::Frac, fuel) =~= a + "("@ + p + ")/("@ + q + ")"@ + b);
}

proof fn lemma_frac_plain(a: Seq<char>, p: Seq<char>, q: Seq<char>, b: Seq<char>)
    requires
        plain(a),
        plain(b),
        flat(p),
        flat(q),
    ensures
        lacks(("\\frac{"@ + p + "}{"@ + q + "}"@).drop_first(), '\\'),
        lacks("\\frac{"@ + p + "}{"@ + q + "}"@, '$'),
        lacks("\\frac{"@ + p + "}{"@ + q + "}"@, '^'),
        plain(a + "("@ + p + ")/("@ + q + ")"@ + b),
{
    reveal_strlit("\\frac{");
    reveal_strlit("}{");
    reveal_strlit("}");
    reveal_strlit("(");
    reveal_strlit(")/(");
    reveal_strlit(")");
    let w = "\\frac{"@ + p + "}{"@ + q + "}"@;
    assert forall|m: int| 0 <= m < w.len() implies (m == 0 || w[m] != '\\') && w[m] != '$' && w[m] != '^' by {
        if m < 6 {
        } else if m < 6 + p.len() {
            assert(w[m] == p[m - 6]);
        } else if m < 8 + p.len() {
        } else if m < 8 + p.len() + q.len() {
            assert(w[m] == q[m - 8 - p.len()]);
        }
    }
    assert forall|m: int| 0 <= m < w.len() - 1 implies w.drop_first()[m] != '\\' by {
        assert(w.drop_first()[m] == w[m + 1]);
    }
    let x = a + "("@ + p + ")/("@ + q + ")"@;
    let out = x + b;
    assert forall|m: int| 0 <= m < out.len() implies out[m] != '\\' && out[m] != '$' && out[m] != '^' by {
        if m < a.len() {
            assert(out[m] == a[m]);
        } else if m < a.len() + 1 {
        } else if m < a.len() + 1 + p.len() {
            assert(out[m] == p[m - a.len() - 1]);
        } else if m < a.len() + 4 + p.len() {
        } else if m < a.len() + 4 + p.len() + q.len() {
            assert(out[m] == q[m - a.len() - 4 - p.len()]);
        } else if m < x.len() {
        } else {
            assert(out[m] == b[m - x.len()]);
        }
    }
}

/// `\frac{p}{q}` becomes `(p)/(q)`, wherever it stands between text that
/// holds no other command, dollar sign or caret, and `p` and `q` are such
/// text without braces.
pub proof fn law_fractions(a: Seq<char>, p: Seq<char>, q: Seq<char>, b: Seq<char>)
    requires
        plain(a),
        plain(b),
        flat(p),
        flat(q),
    ensures
        normalize_math_spec(a + "\\frac{"@ + p + "}{"@ + q + "}"@ + b) == a + "("@ + p + ")/("@ + q + ")"@ + b,
{
    reveal_strlit("\\frac{");
    let w = "\\frac{"@ + p + "}{"@ + q + "}"@;
    let t = a + w + b;
    assert(a + "\\frac{"@ + p + "}{"@ + q + "}"@ + b =~= t);
    let fuel = t.len();
    lemma_frac_scan(a, p, q, b, fuel);
    lemma_frac_plain(a, p, q, b);
    lemma_norm_around(a, w, b, fuel, Wrapped::Frac, a + "("@ + p + ")/("@ + q + ")"@ + b);
}

proof fn lemma_sqrt_scans(a: Seq<char>, p: Seq<char>, b: Seq<char>, fuel: nat)
    requires
        plain(a),
        plain(b),
        flat(p),
    ensures
        wrap_scan(a + ("\\sqrt{"@ + p + "}"@) + b, 0, Wrapped::Frac, fuel) == a + ("\\sqrt{"@ + p + "}"@) + b,
        wrap_scan(a + ("\\sqrt{"@ + p + "}"@) + b, 0, Wrapped::Sqrt, fuel) == a + "√("@ + p + ")"@ + b,
{
    reveal_strlit("\\sqrt{");
    reveal_strlit("}");
    reveal_strlit("\\sqrt");
    reveal_strlit("\\frac");
    reveal_strlit("√(");
    reveal_strlit(")");
    let w = "\\sqrt{"@ + p + "}"@;
    let t = a + w + b;
    let i = a.len() as int;
    let g1 = i + 5;
    let next = g1 + p.len() + 2;
    assert forall|m: int| 0 <= m < i implies t[m] != '\\' by {
        assert(t[m] == a[m]);
    }
    assert forall|m: int| i + 1 <= m < t.len() implies t[m] != '\\' by {
        if m < g1 + 1 {
        } else if m < g1 + 1 + p.len() {
            assert(t[m] == p[m - g1 - 1]);
        } else if m < next {
        } else {
            assert(t[m] == b[m - next]);
        }
    }
    // No `\frac` here: the command is `\sqrt`.
    lemma_wrap_walk(t, 0, i, Wrapped::Frac, fuel);
    assert(t.subrange(i, i + 5)[1] == 's');
    assert(!crate::text::occurs_at(t, "\\frac"@, i));
    lemma_wrap_rest(t, i + 1, Wrapped::Frac, fuel);
    assert(t.subrange(0, i) + (seq![t[i]] + t.skip(i + 1)) =~= t);
    // The `\sqrt` group.
    lemma_wrap_walk(t, 0, i, Wrapped::Sqrt, fuel);
    assert(t.subrange(0, i) =~= a);
    assert(t.subrange(i, i + 5) =~= "\\sqrt"@);
    assert(t.subrange(g1 + 1, g1 + 1 + p.len()) =~= p);
    lemma_flat_group(t, g1, p);
    assert(groups_at(t, next, 0) == Some((Seq::<Seq<char>>::empty(), next)));
    assert(seq![p] + Seq::<Seq<char>>::empty() =~= seq![p]);
    assert(groups_at(t, g1, 1) == Some((seq![p], next)));
    assert(norm_arg(p, fuel) == p);
    lemma_wrap_rest(t, next, Wrapped::Sqrt, fuel);
    assert(t.skip(next) =~= b);
    assert(wrap_scan(t, 0, Wrapped::Sqrt, fuel) =~= a + "√("@ + p + ")"@ + b);
}

/// `\sqrt{p}` becomes `√(p)`, wherever it stands between text that holds no
/// other command, dollar sign or caret, and `p` is such text without braces.
pub proof fn law_square_roots(a: Seq<char>, p: Seq<char>, b: Seq<char>)
    requires
        plain(a),
        plain(b),
        flat(p),
    ensures
        normalize_math_spec(a + "\\sqrt{"@ + p + "}"@ + b) == a + "√("@ + p + ")"@ + b,
{
    reveal_strlit("\\sqrt{");
    reveal_strlit("}");
    reveal_strlit("√(");
    reveal_strlit(")");
    let w = "\\sqrt{"@ + p + "}"@;
    let t = a + w + b;
    assert(a + "\\sqrt{"@ + p + "}"@ + b =~= t);
    let fuel = t.len();
    lemma_sqrt_scans(a, p, b, fuel);
    let out = a + "√("@ + p + ")"@ + b;
    assert forall|m: int| 0 <= m < w.len() implies (m == 0 || w[m] != '\\') && w[m] != '$' && w[m] != '^' by {
        if 6 <= m < 6 + p.len() {
            assert(w[m] == p[m - 6]);
        }
    }
    assert forall|m: int| 0 <= m < w.len() - 1 implies w.drop_first()[m] != '\\' by {
        assert(w.drop_first()[m] == w[m + 1]);
    }
    let x = a + "√("@ + p + ")"@;
    assert forall|m: int| 0 <= m < out.len() implies out[m] != '\\' && out[m] != '$' && out[m] != '^' by {
        if m < a.len() {
            assert(out[m] == a[m]);
        } else if m < a.len() + 2 {
        } else if m < a.len() + 2 + p.len() {
            assert(out[m] == p[m - a.len() - 2]);
        } else if m < x.len() {
        } else {
            assert(out[m] == b[m - x.len()]);
        }
    }
    lemma_norm_around(a, w, b, fuel, Wrapped::Sqrt, out);
}

proof fn lemma_strip_walk(t: Seq<char>, i: int, j: int)
    requires
        0 <= i <= j <= t.len(),
        forall|k: int| i <= k < j ==> t[k] != '$',
    ensures
        strip_inline_dollars(t, i) == t.subrange(i, j) + strip_inline_dollars(t, j),
    decreases j - i,
{
    if i < j {
        lemma_strip_walk(t, i + 1, j);
        assert(seq![t[i]] + (t.subrange(i + 1, j) + strip_inline_dollars(t, j)) =~= t.subrange(i, j)
            + strip_inline_dollars(t, j));
    } else {
        assert(t.subrange(i, j) =~= Seq::<char>::empty());
    }
}

proof fn lemma_no_double_dollar(s: Seq<char>)
    requires
        forall|k: int| 0 <= k < s.len() - 1 ==> !(#[trigger] s[k] == '$' && s[k + 1] == '$'),
    ensures
        replace_all(s, "$$"@, seq![]) == s,
    decreases s.len(),
{
    reveal_strlit("$$");
    if s.len() > 0 {
        if crate::text::starts_with(s, "$$"@) {
            assert(s.take(2)[0] == s[0] && s.take(2)[1] == s[1]);
        }
        assert forall|k: int| 0 <= k < s.drop_first().len() - 1 implies !(#[trigger] s.drop_first()[k] == '$'
            && s.drop_first()[k + 1] == '$') by {
            assert(s.drop_first()[k] == s[k + 1] && s.drop_first()[k + 1] == s[k + 2]);
        }
        lemma_no_double_dollar(s.drop_first());
        assert(seq![s[0]] + s.drop_first() =~= s);
    }
}

proof fn lemma_dollar_pair(a: Seq<char>, m: Seq<char>, b: Seq<char>)
    requires
        lacks(a, '$'),
        lacks(m, '$'),
        lacks(b, '$'),
        m.len() > 0,
    ensures
        ({
            let s = a + "$"@ + m + "$"@ + b;
            let i = a.len() as int;
            let close = i + 1 + m.len();
            &&& replace_all(s, "$$"@, seq![]) == s
            &&& strip_inline_dollars(s, 0) == a + strip_inline_dollars(s, i)
            &&& s[i] == '$'
            &&& first_from(s, '$', i + 1) == Some(close)
            &&& s.subrange(i + 1, close) == m
            &&& strip_inline_dollars(s, close + 1) == b
        }),
{
    reveal_strlit("$");
    let s = a + "$"@ + m + "$"@ + b;
    let i = a.len() as int;
    let close = i + 1 + m.len();
    assert forall|k: int| 0 <= k < s.len() implies (s[k] == '$' <==> (k == i || k == close)) by {
        if k < i {
            assert(s[k] == a[k]);
        } else if i < k < close {
            assert(s[k] == m[k - i - 1]);
        } else if k > close {
            assert(s[k] == b[k - close - 1]);
        }
    }
    lemma_no_double_dollar(s);
    lemma_strip_walk(s, 0, i);
    assert(s.subrange(0, i) =~= a);
    assert forall|k: int| i + 1 <= k < close implies s[k] != '$' by {
    }
    lemma_first_dollar(s, i + 1, close);
    assert(s.subrange(i + 1, close) =~= m);
    lemma_strip_walk(s, close + 1, s.len() as int);
    assert(s.subrange(close + 1, s.len() as int) =~= b);
    assert(strip_inline_dollars(s, s.len() as int) == Seq::<char>::empty());
    assert(b + Seq::<char>::empty() =~= b);
}

proof fn lemma_first_dollar(s: Seq<char>, from: int, to: int)
    requires
        0 <= from <= to < s.len(),
        forall|k: int| from <= k < to ==> s[k] != '$',
        s[to] == '$',
    ensures
        first_from(s, '$', from) == Some(to),
    decreases to - from,
{
    if from < to {
        lemma_first_dollar(s, from + 1, to);
    }
}

/// `$…$` around text that reads as math (it holds `\`, `^`, `_` or `{`) is
/// removed, and the text kept; around anything else, such as amounts of
/// money, the dollar signs stay.
pub proof fn law_inline_math_delimiters(a: Seq<char>, m: Seq<char>, b: Seq<char>)
    requires
        lacks(a, '$'),
        lacks(m, '$'),
        lacks(b, '$'),
        m.len() > 0,
    ensures
        strip_dollar_spec(a + "$"@ + m + "$"@ + b) == (if m.contains('\\') || m.contains('^') || m.contains('_')
            || m.contains('{') {
            a + m + b
        } else {
            a + "$"@ + m + "$"@ + b
        }),
{
    reveal_strlit("$");
    lemma_dollar_pair(a, m, b);
    let s = a + "$"@ + m + "$"@ + b;
    let i = a.len() as int;
    let close = i + 1 + m.len();
    if !(m.contains('\\') || m.contains('^') || m.contains('_') || m.contains('{')) {
        assert(strip_inline_dollars(s, i) == seq![s[i]] + strip_inline_dollars(s, i + 1));
        lemma_strip_walk(s, i + 1, close);
        assert(strip_inline_dollars(s, close) == seq![s[close]] + strip_inline_dollars(s, close + 1)) by {
            crate::text::lemma_first_from_range(s, '$', close + 1);
            match first_from(s, '$', close + 1) {
                Some(c2) => {
                    assert(s[c2] == b[c2 - close - 1]);
                },
                None => {},
            }
        }
        assert(s.subrange(i + 1, close) =~= m);
        assert(a + (seq![s[i]] + (m + (seq![s[close]] + b))) =~= s);
    }
}

} // verus!
