//! Inline markdown (links, code, bold, italic) and block markers (headings,
//! lists, quotes) of the assistant's answers, turned into styled runs.
use vstd::prelude::*;

use crate::text::{find_char_from, first_from, from_chars, is_space, is_whitespace, slice_chars, trim, trim_chars};
use crate::tui::style::{
    bolded, code_inline, code_inline_style, italicized, link_label, link_label_style, link_url,
    link_url_style, segs_view, Seg, Style,
};

verus! {

/// Index of the first `**` at or after `from`.
pub open spec fn double_star_from(ch: Seq<char>, from: int) -> Option<int>
    decreases ch.len() - from,
{
    if from < 0 || from + 1 >= ch.len() {
        None
    } else if ch[from] == '*' && ch[from + 1] == '*' {
        Some(from)
    } else {
        double_star_from(ch, from + 1)
    }
}

/// Whether a `*` at `j` can close an emphasis span: it follows a non-space
/// and is not part of a `**`.
pub open spec fn closes_emphasis(ch: Seq<char>, j: int) -> bool {
    &&& ch[j] == '*'
    &&& !is_space(ch[j - 1])
    &&& !(j + 1 < ch.len() && ch[j + 1] == '*')
}

/// Index of the first `*` at or after `from` that can close an emphasis span.
pub open spec fn single_star_from(ch: Seq<char>, from: int) -> Option<int>
    decreases ch.len() - from,
{
    if from < 1 || from >= ch.len() {
        None
    } else if closes_emphasis(ch, from) {
        Some(from)
    } else {
        single_star_from(ch, from + 1)
    }
}

/// The `[label](url)` link that starts at `start`, as `(label, url, index
/// past the closing parenthesis)`: the label runs to the first `]`, which a
/// `(` must follow, and the url to the first `)` after that; a url of
/// whitespace only makes no link.
pub open spec fn link_at(ch: Seq<char>, start: int) -> Option<(Seq<char>, Seq<char>, int)> {
    match first_from(ch, ']', start + 1) {
        None => None,
        Some(cl) => if cl + 1 >= ch.len() || ch[cl + 1] != '(' {
            None
        } else {
            match first_from(ch, ')', cl + 2) {
                None => None,
                Some(cu) => if trim(ch.subrange(cl + 2, cu)).len() == 0 {
                    None
                } else {
                    Some((ch.subrange(start + 1, cl), ch.subrange(cl + 2, cu), cu + 1))
                },
            }
        },
    }
}

/// The runs of a link: the label (when not empty), then the url in parentheses.
pub open spec fn link_segs(label: Seq<char>, url: Seq<char>, base: Style) -> Seq<(Seq<char>, Style)> {
    (if label.len() > 0 { seq![(label, link_label_style())] } else { seq![] }) + seq![
        (" ("@, base),
        (url, link_url_style()),
        (")"@, base),
    ]
}

/// The closing `**` of a bold span opened at `i`, when its inside is not empty.
pub open spec fn bold_close(ch: Seq<char>, i: int) -> Option<int> {
    if ch[i] == '*' && i + 1 < ch.len() && ch[i + 1] == '*' {
        match double_star_from(ch, i + 2) {
            Some(c) => if c > i + 2 { Some(c) } else { None },
            None => None,
        }
    } else {
        None
    }
}

/// The closing `*` of an italic span opened at `i`, when its inside is not empty.
pub open spec fn italic_close(ch: Seq<char>, i: int) -> Option<int> {
    if ch[i] == '*' && i + 1 < ch.len() && !is_space(ch[i + 1]) {
        match single_star_from(ch, i + 1) {
            Some(c) => if c > i + 1 { Some(c) } else { None },
            None => None,
        }
    } else {
        None
    }
}

/// The markup that starts at `i`, if any: the runs it renders to and the
/// index after it. Links come first, then code, bold and italic.
pub open spec fn token_at(ch: Seq<char>, i: int, base: Style) -> Option<(Seq<(Seq<char>, Style)>, int)> {
    if ch[i] == '[' && link_at(ch, i) is Some {
        let l = link_at(ch, i)->0;
        Some((link_segs(l.0, l.1, base), l.2))
    } else if ch[i] == '`' && first_from(ch, '`', i + 1) is Some {
        let close = first_from(ch, '`', i + 1)->0;
        let code = ch.subrange(i + 1, close);
        Some((if code.len() > 0 { seq![(code, code_inline_style())] } else { seq![] }, close + 1))
    } else if bold_close(ch, i) is Some {
        let close = bold_close(ch, i)->0;
        Some((seq![(ch.subrange(i + 2, close), bolded(base))], close + 2))
    } else if italic_close(ch, i) is Some {
        let close = italic_close(ch, i)->0;
        Some((seq![(ch.subrange(i + 1, close), italicized(base))], close + 1))
    } else {
        None
    }
}

/// Pending plain text as a run, unless it is empty.
pub open spec fn flush(cur: Seq<char>, base: Style) -> Seq<(Seq<char>, Style)> {
    if cur.len() > 0 { seq![(cur, base)] } else { seq![] }
}

/// The runs of `ch` from `i` on, with the plain text `cur` pending.
pub open spec fn inline_from(ch: Seq<char>, i: int, cur: Seq<char>, base: Style) -> Seq<(Seq<char>, Style)>
    decreases ch.len() - i,
{
    if i < 0 || i >= ch.len() {
        flush(cur, base)
    } else {
        match token_at(ch, i, base) {
            Some(t) => if i < t.1 <= ch.len() {
                flush(cur, base) + t.0 + inline_from(ch, t.1, seq![], base)
            } else {
                seq![]
            },
            None => inline_from(ch, i + 1, cur.push(ch[i]), base),
        }
    }
}

/// The styled runs of a line with inline markdown: plain text in `base`,
/// links as "label (url)", code, bold and italic spans in their styles.
/// Spans do not nest; markup that does not close is plain text. A line
/// with no runs gives one empty run.
pub open spec fn inline_spec(text: Seq<char>, base: Style) -> Seq<(Seq<char>, Style)> {
    let r = inline_from(text, 0, seq![], base);
    if r.len() == 0 { seq![(seq![], base)] } else { r }
}

/// Index of the next `**` at or after `from`.
pub fn find_double_star(ch: &[char], from: usize) -> (r: Option<usize>)
    ensures
        r matches Some(j) ==> double_star_from(ch@, from as int) == Some(j as int) && from <= j && j + 1
            < ch@.len(),
        r is None ==> double_star_from(ch@, from as int) is None,
{
    let n = ch.len();
    let mut j = from;
    while j < n && j + 1 < n
        invariant
            from <= j,
            n == ch@.len(),
            double_star_from(ch@, from as int) == double_star_from(ch@, j as int),
        decreases n - j,
    {
        if ch[j] == '*' && ch[j + 1] == '*' {
            return Some(j);
        }
        j += 1;
    }
    None
}

/// Index of the next single `*` closing an emphasis span (preceded by a
/// non-space and not part of a `**`), searching from `from` (which is > 0).
pub fn find_single_star(ch: &[char], from: usize) -> (r: Option<usize>)
    requires
        from > 0,
    ensures
        r matches Some(j) ==> single_star_from(ch@, from as int) == Some(j as int) && from <= j < ch@.len(),
        r is None ==> single_star_from(ch@, from as int) is None,
{
    let n = ch.len();
    let mut j = from;
    while j < n
        invariant
            0 < from <= j,
            n == ch@.len(),
            single_star_from(ch@, from as int) == single_star_from(ch@, j as int),
        decreases n - j,
    {
        if ch[j] == '*' && !is_whitespace(ch[j - 1]) && !(j + 1 < n && ch[j + 1] == '*') {
            return Some(j);
        }
        j += 1;
    }
    None
}

/// Parse a `[label](url)` link starting at `start` (the `[`): the label,
/// the url and the index just past the `)`. `None` (so the `[` is literal
/// text) when the syntax does not match or the url is blank.
pub fn parse_link(ch: &[char], start: usize) -> (r: Option<(String, String, usize)>)
    requires
        start < ch@.len(),
    ensures
        match link_at(ch@, start as int) {
            Some(l) => r matches Some(t) && t.0@ == l.0 && t.1@ == l.1 && t.2 == l.2,
            None => r is None,
        },
{
    let n = ch.len();
    let close_label = match find_char_from(ch, ']', start + 1) {
        Some(j) => j,
        None => return None,
    };
    if close_label + 1 >= n || ch[close_label + 1] != '(' {
        return None;
    }
    let close_url = match find_char_from(ch, ')', close_label + 2) {
        Some(j) => j,
        None => return None,
    };
    let url = slice_chars(ch, close_label + 2, close_url);
    let t = trim_chars(url.as_slice());
    if t.len() == 0 {
        return None;
    }
    let label = slice_chars(ch, start + 1, close_label);
    Some((from_chars(label.as_slice()), from_chars(url.as_slice()), close_url + 1))
}

fn flush_into(segs: &mut Vec<Seg>, cur: &mut Vec<char>, base: Style)
    ensures
        segs_view(final(segs)@) == segs_view(old(segs)@) + flush(old(cur)@, base),
        final(cur)@ == Seq::<char>::empty(),
{
    if cur.len() > 0 {
        let ghost before = segs_view(segs@);
        let s = from_chars(cur.as_slice());
        segs.push((s, base));
        assert(segs_view(segs@) =~= before + flush(old(cur)@, base));
        *cur = Vec::new();
    } else {
        assert(segs_view(segs@) =~= segs_view(old(segs)@) + flush(old(cur)@, base));
    }
}

fn push_seg(segs: &mut Vec<Seg>, text: String, style: Style)
    ensures
        segs_view(final(segs)@) == segs_view(old(segs)@).push((text@, style)),
{
    segs.push((text, style));
    assert(segs_view(segs@) =~= segs_view(old(segs)@).push((text@, style)));
}

/// Parse inline `**bold**`, `*italic*`, `` `code` `` and `[label](url)` into
/// styled runs. Non-recursive (no nested emphasis); unmatched delimiters are
/// treated as text.
#[verifier::rlimit(40)]
pub fn parse_inline(text: &str, base: Style) -> (r: Vec<Seg>)
    ensures
        segs_view(r@) == inline_spec(text@, base),
{
    let chv = crate::text::to_chars(text);
    let ch = chv.as_slice();
    let n = ch.len();
    let ghost all = inline_from(ch@, 0, seq![], base);
    let mut segs: Vec<Seg> = Vec::new();
    let mut cur: Vec<char> = Vec::new();
    let mut i: usize = 0;
    while i < n
        invariant
            n == ch@.len(),
            ch@ == text@,
            i <= n,
            segs_view(segs@) + inline_from(ch@, i as int, cur@, base) == all,
        decreases n - i,
    {
        let c = ch[i];
        let ghost rest = inline_from(ch@, i as int, cur@, base);
        let ghost before = segs_view(segs@);
        let ghost cur0 = cur@;
        if c == '[' {
            match parse_link(ch, i) {
                Some((label, url, next)) => {
                    proof {
                        crate::text::lemma_first_from_range(ch@, ']', i + 1);
                        let cl = first_from(ch@, ']', i + 1)->0;
                        crate::text::lemma_first_from_range(ch@, ')', cl + 2);
                        assert(token_at(ch@, i as int, base) == Some((link_segs(label@, url@, base), next as int)));
                        assert(i < next <= n);
                        assert(rest == flush(cur0, base) + link_segs(label@, url@, base) + inline_from(ch@, next as int, seq![], base));
                    }
                    flush_into(&mut segs, &mut cur, base);
                    let ghost mid = segs_view(segs@);
                    if !label.as_str().is_empty() {
                        push_seg(&mut segs, label, link_label());
                    }
                    push_seg(&mut segs, crate::text::owned(" ("), base);
                    push_seg(&mut segs, url, link_url());
                    push_seg(&mut segs, crate::text::owned(")"), base);
                    proof {
                        assert(segs_view(segs@) =~= mid + link_segs(label@, url@, base));
                        assert(segs_view(segs@) + inline_from(ch@, next as int, cur@, base) =~= before + rest);
                    }
                    i = next;
                    continue;
                },
                None => {},
            }
        }
        if c == '`' {
            match find_char_from(ch, '`', i + 1) {
                Some(close) => {
                    let code = slice_chars(ch, i + 1, close);
                    let ghost toks: Seq<(Seq<char>, Style)> = if code@.len() > 0 {
                        seq![(code@, code_inline_style())]
                    } else {
                        seq![]
                    };
                    proof {
                        assert(token_at(ch@, i as int, base) == Some((toks, close + 1)));
                    }
                    flush_into(&mut segs, &mut cur, base);
                    let ghost mid = segs_view(segs@);
                    if code.len() > 0 {
                        push_seg(&mut segs, from_chars(code.as_slice()), code_inline());
                    }
                    proof {
                        assert(segs_view(segs@) =~= mid + toks);
                        assert(segs_view(segs@) + inline_from(ch@, close + 1, cur@, base) =~= before + rest);
                    }
                    i = close + 1;
                    continue;
                },
                None => {},
            }
        }
        if c == '*' && i + 1 < n && ch[i + 1] == '*' {
            match find_double_star(ch, i + 2) {
                Some(close) => {
                    if close > i + 2 {
                        let inner = slice_chars(ch, i + 2, close);
                        proof {
                            assert(bold_close(ch@, i as int) == Some(close as int));
                            assert(token_at(ch@, i as int, base) == Some((seq![(inner@, bolded(base))], close + 2)));
                        }
                        flush_into(&mut segs, &mut cur, base);
                        let ghost mid = segs_view(segs@);
                        push_seg(&mut segs, from_chars(inner.as_slice()), base.bold());
                        proof {
                            assert(segs_view(segs@) + inline_from(ch@, close + 2, cur@, base) =~= before + rest);
                        }
                        i = close + 2;
                        continue;
                    }
                },
                None => {},
            }
        }
        if c == '*' && i + 1 < n && !is_whitespace(ch[i + 1]) {
            match find_single_star(ch, i + 1) {
                Some(close) => {
                    if close > i + 1 {
                        let inner = slice_chars(ch, i + 1, close);
                        proof {
                            assert(italic_close(ch@, i as int) == Some(close as int));
                            assert(token_at(ch@, i as int, base) == Some((seq![(inner@, italicized(base))], close + 1)));
                        }
                        flush_into(&mut segs, &mut cur, base);
                        push_seg(&mut segs, from_chars(inner.as_slice()), base.italic());
                        proof {
                            assert(segs_view(segs@) + inline_from(ch@, close + 1, cur@, base) =~= before + rest);
                        }
                        i = close + 1;
                        continue;
                    }
                },
                None => {},
            }
        }
        proof {
            assert(token_at(ch@, i as int, base) is None);
            assert(rest == inline_from(ch@, i + 1, cur@.push(c), base));
        }
        cur.push(c);
        i += 1;
    }
    proof {
        assert(inline_from(ch@, n as int, cur@, base) == flush(cur@, base));
    }
    flush_into(&mut segs, &mut cur, base);
    if segs.len() == 0 {
        push_seg(&mut segs, String::new(), base);
        assert(segs_view(segs@) =~= seq![(Seq::<char>::empty(), base)]);
    }
    segs
}


/// Number of `c`s in the run that starts at `i`.
pub open spec fn run_of(s: Seq<char>, c: char, i: int) -> nat
    decreases s.len() - i,
{
    if 0 <= i < s.len() && s[i] == c { 1 + run_of(s, c, i + 1) } else { 0 }
}

/// Number of ASCII digits in the run that starts at `i`.
pub open spec fn digit_run(s: Seq<char>, i: int) -> nat
    decreases s.len() - i,
{
    if 0 <= i < s.len() && '0' <= s[i] <= '9' { 1 + digit_run(s, i + 1) } else { 0 }
}

/// One markdown line taken apart: its text, the style of the text, a leading
/// marker (bullet, quote bar, number) with its style, and how many columns
/// wrapped continuation lines are indented by (the marker's width).
#[derive(Debug, Clone, PartialEq)]
pub struct MdBlock {
    pub text: String,
    pub style: Style,
    pub marker: String,
    pub marker_style: Style,
    pub hang: usize,
}

/// The view of an `MdBlock`.
pub open spec fn block_view(b: MdBlock) -> (Seq<char>, Style, Seq<char>, Style, nat) {
    (b.text@, b.style, b.marker@, b.marker_style, b.hang as nat)
}

/// How a line reads: an ATX heading (one to six `#` and a space), a
/// blockquote (`> `), a bullet (`- `, `* `, `+ `), a numbered item (digits
/// and `. `), or a paragraph, which keeps its leading whitespace.
pub open spec fn block_spec(raw: Seq<char>, base: Style) -> (Seq<char>, Style, Seq<char>, Style, nat) {
    let t = crate::text::trim_start(raw);
    let h = run_of(t, '#', 0);
    let d = digit_run(t, 0);
    if 1 <= h <= 6 && crate::text::starts_with(t.skip(h as int), " "@) {
        (crate::text::trim_start(t.skip(h as int)), bolded(base), seq![], base, 0)
    } else if crate::text::starts_with(t, "> "@) {
        let q = crate::tui::style::colored(crate::tui::style::fg_dim());
        (t.skip(2), q, "│ "@, q, 2)
    } else if crate::text::starts_with(t, "- "@) || crate::text::starts_with(t, "* "@)
        || crate::text::starts_with(t, "+ "@) {
        (t.skip(2), base, "• "@, base, 2)
    } else if d > 0 && crate::text::starts_with(t.skip(d as int), ". "@) {
        (t.skip((d + 2) as int), base, t.take(d as int) + ". "@, base, (d + 2) as nat)
    } else {
        (raw, base, seq![], base, 0)
    }
}

fn count_run(s: &[char], c: char) -> (n: usize)
    ensures
        n == run_of(s@, c, 0),
        n <= s@.len(),
{
    let mut i: usize = 0;
    while i < s.len() && s[i] == c
        invariant
            i <= s@.len(),
            run_of(s@, c, 0) == i + run_of(s@, c, i as int),
        decreases s.len() - i,
    {
        i += 1;
    }
    i
}

fn count_digits(s: &[char]) -> (n: usize)
    ensures
        n == digit_run(s@, 0),
        n <= s@.len(),
{
    let mut i: usize = 0;
    while i < s.len() && '0' <= s[i] && s[i] <= '9'
        invariant
            i <= s@.len(),
            digit_run(s@, 0) == i + digit_run(s@, i as int),
        decreases s.len() - i,
    {
        i += 1;
    }
    i
}

fn starts_with_lit(s: &[char], from: usize, lit: &str) -> (b: bool)
    requires
        from <= s@.len(),
    ensures
        b == crate::text::starts_with(s@.skip(from as int), lit@),
{
    let p = crate::text::to_chars(lit);
    let b = crate::text::matches_at(s, p.as_slice(), from);
    proof {
        if p@.len() <= s@.len() - from {
            assert(s@.skip(from as int).take(p@.len() as int) =~= s@.subrange(from as int, from + p@.len()));
        }
    }
    b
}

/// Classify one logical line as a heading, list item, blockquote, or paragraph.
pub fn classify_block(raw: &str, base: Style) -> (b: MdBlock)
    ensures
        block_view(b) == block_spec(raw@, base),
{
    let rv = crate::text::to_chars(raw);
    let k = crate::text::skip_space(rv.as_slice());
    let tv = slice_chars(rv.as_slice(), k, rv.len());
    let t = tv.as_slice();
    let n = t.len();
    assert(t@ =~= crate::text::trim_start(raw@));
    let hashes = count_run(t, '#');
    if 1 <= hashes && hashes <= 6 && starts_with_lit(t, hashes, " ") {
        let rest = slice_chars(t, hashes, n);
        let j = crate::text::skip_space(rest.as_slice());
        let body = slice_chars(rest.as_slice(), j, rest.len());
        assert(rest@ =~= t@.skip(hashes as int));
        assert(body@ =~= crate::text::trim_start(t@.skip(hashes as int)));
        return MdBlock {
            text: from_chars(body.as_slice()),
            style: base.bold(),
            marker: String::new(),
            marker_style: base,
            hang: 0,
        };
    }
    proof {
        reveal_strlit("> ");
        reveal_strlit("- ");
        reveal_strlit("* ");
        reveal_strlit("+ ");
    }
    if starts_with_lit(t, 0, "> ") {
        let q = Style::plain().with_fg(crate::tui::style::make_rgb(0x80, 0x80, 0x80));
        let rest = slice_chars(t, 2, n);
        assert(t@.skip(0) =~= t@);
        assert(rest@ =~= t@.skip(2));
        return MdBlock {
            text: from_chars(rest.as_slice()),
            style: q,
            marker: crate::text::owned("│ "),
            marker_style: q,
            hang: 2,
        };
    }
    if starts_with_lit(t, 0, "- ") || starts_with_lit(t, 0, "* ") || starts_with_lit(t, 0, "+ ") {
        let rest = slice_chars(t, 2, n);
        assert(t@.skip(0) =~= t@);
        assert(rest@ =~= t@.skip(2));
        return MdBlock {
            text: from_chars(rest.as_slice()),
            style: base,
            marker: crate::text::owned("• "),
            marker_style: base,
            hang: 2,
        };
    }
    let digits = count_digits(t);
    if digits > 0 && starts_with_lit(t, digits, ". ") {
        proof {
            reveal_strlit(". ");
        }
        let rest = slice_chars(t, digits + 2, n);
        let mut m = slice_chars(t, 0, digits);
        m.push('.');
        m.push(' ');
        assert(rest@ =~= t@.skip(digits + 2));
        assert(m@ =~= t@.take(digits as int) + ". "@);
        return MdBlock {
            text: from_chars(rest.as_slice()),
            style: base,
            marker: from_chars(m.as_slice()),
            marker_style: base,
            hang: digits + 2,
        };
    }
    proof {
        assert(t@.skip(0) =~= t@);
    }
    MdBlock { text: crate::text::owned(raw), style: base, marker: String::new(), marker_style: base, hang: 0 }
}


proof fn lemma_trim_start_indent(indent: Seq<char>, x: Seq<char>)
    requires
        forall|i: int| 0 <= i < indent.len() ==> crate::text::is_space(#[trigger] indent[i]),
        x.len() > 0,
        !crate::text::is_space(x[0]),
    ensures
        crate::text::trim_start(indent + x) == x,
    decreases indent.len(),
{
    if indent.len() == 0 {
        assert(indent + x =~= x);
    } else {
        assert((indent + x).drop_first() =~= indent.drop_first() + x);
        lemma_trim_start_indent(indent.drop_first(), x);
    }
}

/// A line whose first non-blank characters are `- `, `* ` or `+ ` is a bullet
/// item: its marker is `• `, continuation lines hang by two columns, and its
/// text is what follows the bullet and its space, in the base style.
pub proof fn law_bullet_items(indent: Seq<char>, bullet: char, rest: Seq<char>, base: Style)
    requires
        forall|i: int| 0 <= i < indent.len() ==> crate::text::is_space(#[trigger] indent[i]),
        bullet == '-' || bullet == '*' || bullet == '+',
    ensures
        block_spec(indent + seq![bullet, ' '] + rest, base) == (rest, base, "• "@, base, 2nat),
{
    let x = seq![bullet, ' '] + rest;
    assert(indent + seq![bullet, ' '] + rest =~= indent + x);
    lemma_trim_start_indent(indent, x);
    reveal_strlit("> ");
    reveal_strlit("- ");
    reveal_strlit("* ");
    reveal_strlit("+ ");
    assert(run_of(x, '#', 0) == 0);
    assert(x.take(2) =~= seq![bullet, ' ']);
    assert(x.skip(2) =~= rest);
    if bullet == '-' {
        assert(x.take(2) =~= "- "@);
    } else if bullet == '*' {
        assert(x.take(2) =~= "* "@);
    } else {
        assert(x.take(2) =~= "+ "@);
    }
    assert(!crate::text::starts_with(x, "> "@));
    assert(crate::text::starts_with(x, "- "@) || crate::text::starts_with(x, "* "@)
        || crate::text::starts_with(x, "+ "@));
}

/// A line whose first non-blank characters are `> ` is a quote: its marker is
/// a bar, continuation lines hang by two columns, and its text is what
/// follows, in the dim quote style.
pub proof fn law_quote_lines(indent: Seq<char>, rest: Seq<char>, base: Style)
    requires
        forall|i: int| 0 <= i < indent.len() ==> crate::text::is_space(#[trigger] indent[i]),
    ensures
        ({
            let q = crate::tui::style::colored(crate::tui::style::fg_dim());
            block_spec(indent + "> "@ + rest, base) == (rest, q, "│ "@, q, 2nat)
        }),
{
    reveal_strlit("> ");
    let x = "> "@ + rest;
    assert(indent + "> "@ + rest =~= indent + x);
    lemma_trim_start_indent(indent, x);
    assert(run_of(x, '#', 0) == 0);
    assert(x.take(2) =~= "> "@);
    assert(x.skip(2) =~= rest);
}

proof fn lemma_digit_run(d: Seq<char>, y: Seq<char>, i: int)
    requires
        0 <= i <= d.len(),
        forall|k: int| 0 <= k < d.len() ==> '0' <= #[trigger] d[k] <= '9',
        y.len() > 0,
        !('0' <= y[0] <= '9'),
    ensures
        digit_run(d + y, i) == d.len() - i,
    decreases d.len() - i,
{
    if i < d.len() {
        lemma_digit_run(d, y, i + 1);
    } else {
        assert((d + y)[i] == y[0]);
    }
}

proof fn lemma_hash_run(h: nat, y: Seq<char>, i: int)
    requires
        0 <= i <= h,
        y.len() > 0,
        y[0] != '#',
    ensures
        run_of(Seq::new(h, |k: int| '#') + y, '#', i) == h - i,
    decreases h - i,
{
    if i < h {
        lemma_hash_run(h, y, i + 1);
    } else {
        assert((Seq::new(h, |k: int| '#') + y)[i] == y[0]);
    }
}

/// A line whose first non-blank characters are a run of digits and `. ` is a
/// numbered item: the digits and `. ` are its marker, continuation lines hang
/// by the marker's width, and its text is what follows.
pub proof fn law_numbered_items(indent: Seq<char>, digits: Seq<char>, rest: Seq<char>, base: Style)
    requires
        forall|i: int| 0 <= i < indent.len() ==> crate::text::is_space(#[trigger] indent[i]),
        digits.len() > 0,
        forall|k: int| 0 <= k < digits.len() ==> '0' <= #[trigger] digits[k] <= '9',
    ensures
        block_spec(indent + digits + ". "@ + rest, base) == (rest, base, digits + ". "@, base, digits.len() + 2),
{
    reveal_strlit(". ");
    reveal_strlit("> ");
    reveal_strlit("- ");
    reveal_strlit("* ");
    reveal_strlit("+ ");
    let x = digits + ". "@ + rest;
    assert(indent + digits + ". "@ + rest =~= indent + x);
    assert(x[0] == digits[0]);
    lemma_trim_start_indent(indent, x);
    assert(run_of(x, '#', 0) == 0);
    assert(x =~= digits + (". "@ + rest));
    lemma_digit_run(digits, ". "@ + rest, 0);
    assert(x.skip(digits.len() as int).take(2) =~= ". "@);
    assert(x.skip(digits.len() + 2int) =~= rest);
    assert(x.take(digits.len() as int) =~= digits);
    assert(x.take(2)[0] == digits[0]);
}

/// A line whose first non-blank characters are one to six `#` and a space is
/// a heading: its text, without the leading blanks, is shown bold, with no
/// marker and no hang.
pub proof fn law_headings(indent: Seq<char>, level: nat, rest: Seq<char>, base: Style)
    requires
        forall|i: int| 0 <= i < indent.len() ==> crate::text::is_space(#[trigger] indent[i]),
        1 <= level <= 6,
    ensures
        block_spec(indent + Seq::new(level, |k: int| '#') + " "@ + rest, base) == (
            crate::text::trim_start(" "@ + rest),
            bolded(base),
            Seq::<char>::empty(),
            base,
            0nat,
        ),
{
    reveal_strlit(" ");
    let hs = Seq::new(level, |k: int| '#');
    let x = hs + (" "@ + rest);
    assert(indent + hs + " "@ + rest =~= indent + x);
    assert(x[0] == '#');
    lemma_trim_start_indent(indent, x);
    lemma_hash_run(level, " "@ + rest, 0);
    assert(x.skip(level as int) =~= " "@ + rest);
    assert((" "@ + rest).take(1) =~= " "@);
}

/// The segment showing `t` in `style`; none when `t` is empty.
pub open spec fn segment(t: Seq<char>, style: Style) -> Seq<(Seq<char>, Style)> {
    if t.len() > 0 { seq![(t, style)] } else { seq![] }
}

/// A character that starts no inline markup (`*`, `` ` `` or `[`).
pub open spec fn inert(c: char) -> bool {
    c != '*' && c != '`' && c != '['
}

/// Text without any character that starts inline markup.
pub open spec fn inert_text(s: Seq<char>) -> bool {
    forall|i: int| 0 <= i < s.len() ==> inert(#[trigger] s[i])
}

proof fn lemma_walk(ch: Seq<char>, i: int, j: int, cur: Seq<char>, base: Style)
    requires
        0 <= i <= j <= ch.len(),
        forall|k: int| i <= k < j ==> inert(#[trigger] ch[k]),
    ensures
        inline_from(ch, i, cur, base) == inline_from(ch, j, cur + ch.subrange(i, j), base),
    decreases j - i,
{
    if i == j {
        assert(cur + ch.subrange(i, j) =~= cur);
    } else {
        assert(inert(ch[i]));
        assert(token_at(ch, i, base) is None);
        lemma_walk(ch, i + 1, j, cur.push(ch[i]), base);
        assert(cur.push(ch[i]) + ch.subrange(i + 1, j) =~= cur + ch.subrange(i, j));
    }
}

/// Walking plain text to the end leaves it as one segment in the base style.
proof fn lemma_walk_to_end(ch: Seq<char>, i: int, base: Style)
    requires
        0 <= i <= ch.len(),
        forall|k: int| i <= k < ch.len() ==> inert(#[trigger] ch[k]),
    ensures
        inline_from(ch, i, seq![], base) == flush(ch.skip(i), base),
{
    lemma_walk(ch, i, ch.len() as int, seq![], base);
    assert(Seq::<char>::empty() + ch.subrange(i, ch.len() as int) =~= ch.skip(i));
}

proof fn lemma_double_star_skip(ch: Seq<char>, from: int, to: int)
    requires
        0 <= from <= to,
        forall|k: int| from <= k < to ==> ch[k] != '*',
    ensures
        double_star_from(ch, from) == double_star_from(ch, to),
    decreases to - from,
{
    if from < to {
        lemma_double_star_skip(ch, from + 1, to);
    }
}

proof fn lemma_single_star_skip(ch: Seq<char>, from: int, to: int)
    requires
        1 <= from <= to,
        forall|k: int| from <= k < to ==> ch[k] != '*',
    ensures
        single_star_from(ch, from) == single_star_from(ch, to),
    decreases to - from,
{
    if from < to {
        lemma_single_star_skip(ch, from + 1, to);
    }
}

/// Text without markup stays one segment, in the base style.
pub proof fn law_plain_inline_text(t: Seq<char>, base: Style)
    requires
        inert_text(t),
    ensures
        inline_spec(t, base) == seq![(t, base)],
{
    lemma_walk_to_end(t, 0, base);
    assert(t.skip(0) =~= t);
    if t.len() == 0 {
        assert(t =~= Seq::<char>::empty());
    }
}

/// `**x**` between plain text is shown as `x` in bold, with the text before
/// and after it kept in the base style.
pub proof fn law_bold_spans(a: Seq<char>, x: Seq<char>, b: Seq<char>, base: Style)
    requires
        inert_text(a),
        inert_text(x),
        inert_text(b),
        x.len() > 0,
    ensures
        inline_spec(a + "**"@ + x + "**"@ + b, base) == segment(a, base) + seq![(x, bolded(base))] + segment(b, base),
{
    reveal_strlit("**");
    let ch = a + "**"@ + x + "**"@ + b;
    let i = a.len() as int;
    let c = i + 2 + x.len();
    assert(ch.subrange(0, i) =~= a);
    lemma_walk(ch, 0, i, seq![], base);
    assert(Seq::<char>::empty() + a =~= a);
    assert(ch[i] == '*' && ch[i + 1] == '*');
    lemma_double_star_skip(ch, i + 2, c);
    assert(ch[c] == '*' && ch[c + 1] == '*');
    assert(double_star_from(ch, c) == Some(c));
    assert(bold_close(ch, i) == Some(c));
    assert(ch.subrange(i + 2, c) =~= x);
    assert(ch.skip(c + 2) =~= b);
    lemma_walk_to_end(ch, c + 2, base);
    let r = inline_from(ch, 0, seq![], base);
    assert(r.len() > 0);
}

/// `*x*` between plain text, where `x` neither starts nor ends with
/// whitespace, is shown as `x` in italics, with the text before and after it
/// kept in the base style.
pub proof fn law_italic_spans(a: Seq<char>, x: Seq<char>, b: Seq<char>, base: Style)
    requires
        inert_text(a),
        inert_text(x),
        inert_text(b),
        x.len() > 0,
        !is_space(x[0]),
        !is_space(x.last()),
    ensures
        inline_spec(a + "*"@ + x + "*"@ + b, base) == segment(a, base) + seq![(x, italicized(base))] + segment(b, base),
{
    reveal_strlit("*");
    let ch = a + "*"@ + x + "*"@ + b;
    let i = a.len() as int;
    let c = i + 1 + x.len();
    assert(ch.subrange(0, i) =~= a);
    lemma_walk(ch, 0, i, seq![], base);
    assert(Seq::<char>::empty() + a =~= a);
    assert(ch[i] == '*' && ch[i + 1] == x[0]);
    assert(bold_close(ch, i) is None);
    lemma_single_star_skip(ch, i + 1, c);
    assert(ch[c] == '*' && ch[c - 1] == x.last());
    assert(closes_emphasis(ch, c));
    assert(italic_close(ch, i) == Some(c));
    assert(ch.subrange(i + 1, c) =~= x);
    assert(ch.skip(c + 1) =~= b);
    lemma_walk_to_end(ch, c + 1, base);
    let r = inline_from(ch, 0, seq![], base);
    assert(r.len() > 0);
}

/// `` `x` `` between plain text is shown as `x` verbatim in the code style
/// (markup inside it is not interpreted), with the text before and after it
/// kept in the base style.
pub proof fn law_code_spans(a: Seq<char>, x: Seq<char>, b: Seq<char>, base: Style)
    requires
        inert_text(a),
        forall|k: int| 0 <= k < x.len() ==> x[k] != '`',
        inert_text(b),
        x.len() > 0,
    ensures
        inline_spec(a + "`"@ + x + "`"@ + b, base) == segment(a, base) + seq![(x, code_inline_style())] + segment(b, base),
{
    reveal_strlit("`");
    let ch = a + "`"@ + x + "`"@ + b;
    let i = a.len() as int;
    let c = i + 1 + x.len();
    assert(ch.subrange(0, i) =~= a);
    lemma_walk(ch, 0, i, seq![], base);
    assert(Seq::<char>::empty() + a =~= a);
    assert(ch[i] == '`');
    assert forall|k: int| i + 1 <= k < c implies ch[k] != '`' by {
        assert(ch[k] == x[k - i - 1]);
    }
    crate::text::lemma_first_from_range(ch, '`', i + 1);
    lemma_first_from_skip(ch, '`', i + 1, c);
    assert(ch.subrange(i + 1, c) =~= x);
    assert(ch.skip(c + 1) =~= b);
    lemma_walk_to_end(ch, c + 1, base);
    let r = inline_from(ch, 0, seq![], base);
    assert(r.len() > 0);
}

proof fn lemma_first_from_skip(s: Seq<char>, c: char, from: int, to: int)
    requires
        0 <= from <= to < s.len(),
        forall|k: int| from <= k < to ==> s[k] != c,
        s[to] == c,
    ensures
        first_from(s, c, from) == Some(to),
    decreases to - from,
{
    if from < to {
        lemma_first_from_skip(s, c, from + 1, to);
    }
}

/// `[label](url)` between plain text is shown as the label in the link style
/// followed by the address in parentheses, so the address stays visible; the
/// text before and after it is kept in the base style.
pub proof fn law_links_show_their_address(a: Seq<char>, label: Seq<char>, url: Seq<char>, b: Seq<char>, base: Style)
    requires
        inert_text(a),
        inert_text(b),
        forall|k: int| 0 <= k < label.len() ==> label[k] != ']',
        forall|k: int| 0 <= k < url.len() ==> url[k] != ')',
        crate::text::trim(url).len() > 0,
    ensures
        inline_spec(a + "["@ + label + "]("@ + url + ")"@ + b, base) == segment(a, base) + segment(label, link_label_style())
            + seq![(" ("@, base), (url, link_url_style()), (")"@, base)] + segment(b, base),
{
    reveal_strlit("[");
    reveal_strlit("](");
    reveal_strlit(")");
    let ch = a + "["@ + label + "]("@ + url + ")"@ + b;
    let i = a.len() as int;
    let cl = i + 1 + label.len();
    let cu = cl + 2 + url.len();
    assert(ch.subrange(0, i) =~= a);
    lemma_walk(ch, 0, i, seq![], base);
    assert(Seq::<char>::empty() + a =~= a);
    assert(ch[i] == '[');
    assert forall|k: int| i + 1 <= k < cl implies ch[k] != ']' by {
        assert(ch[k] == label[k - i - 1]);
    }
    assert(ch[cl] == ']' && ch[cl + 1] == '(');
    lemma_first_from_skip(ch, ']', i + 1, cl);
    assert forall|k: int| cl + 2 <= k < cu implies ch[k] != ')' by {
        assert(ch[k] == url[k - cl - 2]);
    }
    assert(ch[cu] == ')');
    lemma_first_from_skip(ch, ')', cl + 2, cu);
    assert(ch.subrange(cl + 2, cu) =~= url);
    assert(ch.subrange(i + 1, cl) =~= label);
    assert(link_at(ch, i) == Some((label, url, cu + 1)));
    assert(ch.skip(cu + 1) =~= b);
    lemma_walk_to_end(ch, cu + 1, base);
    let r = inline_from(ch, 0, seq![], base);
    assert(r.len() > 0);
    reveal_strlit(" (");
}

} // verus!
