//! The chat transcript laid out as styled lines: labels and hanging
//! indents, markdown blocks, code fences, tables, and collapsible blocks.
use vstd::prelude::*;

use crate::kiwix::string_views;
use crate::text::{from_chars, push_str, starts_with, to_chars, trim_start};
use crate::tui::markdown::{block_spec, classify_block, inline_spec, parse_inline};
use crate::tui::math::{normalize_math, normalize_math_spec};
use crate::tui::style::{code_block, code_block_style, lines_view, plain, segs_view, Seg, Style};
use crate::tui::table::{
    is_table_start, lemma_split_pieces, render_table, repeat, split_char, split_on, str_views,
    table_spec, table_start,
};
use crate::tui::wrap::{wrap_segments, wrap_spec};
use crate::tui::app::{display_view, display_views, App, DisplayKind, DisplayMessage, DisplayV};
use crate::tui::style::{
    accent_ai, accent_err, accent_info, accent_tool, accent_user, bolded, colored, fg_text,
    italicized, make_rgb, subagent_style, thinking_style,
};
use crate::text::{decimal, lines_of, push_decimal};

verus! {

/// How a message body is laid out: the first line's prefix and its style,
/// the indent of the other lines, the base style of the text, the width of
/// the text column, and whether markdown is read.
pub type Layout = (Seq<char>, Style, Seq<char>, Style, nat, bool);

/// The lead of a line: the prefix on the very first line, else the indent.
pub open spec fn lead(first: bool, cx: Layout) -> (Seq<char>, Style) {
    if first { (cx.0, cx.1) } else { (cx.2, plain()) }
}

/// Lines already styled, each behind its lead.
pub open spec fn emit_block(block: Seq<Seq<(Seq<char>, Style)>>, first: bool, cx: Layout) -> Seq<Seq<(Seq<char>, Style)>> {
    Seq::new(block.len(), |k: int| seq![lead(first && k == 0, cx)] + block[k])
}

/// What goes between the lead and the text of wrapped line `k`: the marker
/// on the first line, blanks as wide as the hang on the others.
pub open spec fn deco(k: int, marker: Seq<char>, ms: Style, hang: nat) -> Seq<(Seq<char>, Style)> {
    if k == 0 && marker.len() > 0 {
        seq![(marker, ms)]
    } else if hang > 0 {
        seq![(repeat(' ', hang), plain())]
    } else {
        seq![]
    }
}

/// The lines of a wrapped paragraph, each behind its lead and decoration.
pub open spec fn para_lines(
    wl: Seq<Seq<(Seq<char>, Style)>>,
    marker: Seq<char>,
    ms: Style,
    hang: nat,
    first: bool,
    cx: Layout,
) -> Seq<Seq<(Seq<char>, Style)>> {
    Seq::new(wl.len(), |k: int| seq![lead(first && k == 0, cx)] + deco(k, marker, ms, hang) + wl[k])
}

/// A line read as (marker, marker style, runs, hang): verbatim inside a
/// code block, through math normalization, block classification and
/// inline markdown when markdown is read, else verbatim in `body`.
pub open spec fn para_parts(raw: Seq<char>, markdown: bool, in_code: bool, body: Style) -> (
    Seq<char>,
    Style,
    Seq<(Seq<char>, Style)>,
    nat,
) {
    if markdown && in_code {
        (seq![], body, seq![(raw, code_block_style())], 0)
    } else if markdown {
        let b = block_spec(normalize_math_spec(raw), body);
        (b.2, b.3, inline_spec(b.0, b.1), b.4)
    } else {
        (seq![], body, seq![(raw, body)], 0)
    }
}

/// The index of the first line from `j` on that holds no `|`.
pub open spec fn pipe_end(ls: Seq<Seq<char>>, j: int) -> int
    decreases ls.len() - j,
{
    if j < 0 || j >= ls.len() || !ls[j].contains('|') {
        j
    } else {
        pipe_end(ls, j + 1)
    }
}

/// The lines of a body from line `li` on, and whether the prefix is still
/// to be written after them. Fences (```) toggle a code block and are not
/// shown; a table (a header row and a delimiter row, then every following
/// line with a `|`) is drawn as a whole; any other line is wrapped to the
/// text column less its hang.
pub open spec fn body_spec(ls: Seq<Seq<char>>, li: int, in_code: bool, first: bool, cx: Layout) -> (
    Seq<Seq<(Seq<char>, Style)>>,
    bool,
)
    decreases ls.len() - li,
{
    if li < 0 || li >= ls.len() {
        (seq![], first)
    } else {
        let raw = ls[li];
        if cx.5 && starts_with(trim_start(raw), "```"@) {
            body_spec(ls, li + 1, !in_code, first, cx)
        } else if cx.5 && !in_code && table_start(ls, li) {
            let end = pipe_end(ls, li + 2);
            let t = table_spec(ls.subrange(li, end), cx.4);
            if li < end <= ls.len() {
                let r = body_spec(ls, end, in_code, first && t.len() == 0, cx);
                (emit_block(t, first, cx) + r.0, r.1)
            } else {
                (seq![], first)
            }
        } else {
            let p = para_parts(raw, cx.5, in_code, cx.3);
            let ww: nat = if cx.4 > p.3 { (cx.4 - p.3) as nat } else { 1 };
            let wl = wrap_spec(p.2, ww);
            let r = body_spec(ls, li + 1, in_code, first && wl.len() == 0, cx);
            (para_lines(wl, p.0, p.1, p.3, first, cx) + r.0, r.1)
        }
    }
}

proof fn lemma_pipe_end(ls: Seq<Seq<char>>, j: int)
    requires
        0 <= j <= ls.len(),
    ensures
        j <= pipe_end(ls, j) <= ls.len(),
        forall|q: int| j <= q < pipe_end(ls, j) ==> #[trigger] ls[q].contains('|'),
    decreases ls.len() - j,
{
    if j < ls.len() && ls[j].contains('|') {
        lemma_pipe_end(ls, j + 1);
    }
}

fn lead_seg(first: &mut bool, prefix: &str, prefix_style: Style, indent: &str) -> (s: Seg)
    ensures
        s.0@ == (if *old(first) { prefix@ } else { indent@ }),
        s.1 == (if *old(first) { prefix_style } else { plain() }),
        !*final(first),
{
    if *first {
        *first = false;
        (crate::text::owned(prefix), prefix_style)
    } else {
        (crate::text::owned(indent), Style::plain())
    }
}

fn push_all_segs(line: &mut Vec<Seg>, src: &Vec<Seg>)
    ensures
        segs_view(final(line)@) == segs_view(old(line)@) + segs_view(src@),
{
    let mut k: usize = 0;
    while k < src.len()
        invariant
            k <= src@.len(),
            segs_view(line@) =~= segs_view(old(line)@) + segs_view(src@).take(k as int),
        decreases src.len() - k,
    {
        let ghost b = segs_view(line@);
        line.push((crate::text::owned(src[k].0.as_str()), src[k].1));
        assert(segs_view(line@) =~= b.push(segs_view(src@)[k as int]));
        k += 1;
    }
    assert(segs_view(src@).take(k as int) =~= segs_view(src@));
}

/// Push a block of already-styled lines into the transcript, giving the very
/// first physical line the message prefix and the rest the hanging indent.
pub fn emit_lines(
    lines: &mut Vec<Vec<Seg>>,
    block: Vec<Vec<Seg>>,
    prefix: &str,
    prefix_style: Style,
    indent: &str,
    first: &mut bool,
)
    ensures
        ({
            let cx = (prefix@, prefix_style, indent@, plain(), 0nat, false);
            &&& lines_view(final(lines)@) == lines_view(old(lines)@) + emit_block(lines_view(block@), *old(first), cx)
            &&& *final(first) == (*old(first) && block@.len() == 0)
        }),
{
    let ghost cx = (prefix@, prefix_style, indent@, plain(), 0nat, false);
    let ghost bv = lines_view(block@);
    let ghost f0 = *first;
    let ghost o = lines_view(lines@);
    let mut k: usize = 0;
    while k < block.len()
        invariant
            k <= block@.len(),
            bv == lines_view(block@),
            cx == (prefix@, prefix_style, indent@, plain(), 0nat, false),
            *first == (f0 && k == 0),
            lines_view(lines@) =~= o + emit_block(bv, f0, cx).take(k as int),
        decreases block.len() - k,
    {
        let mut spans: Vec<Seg> = Vec::new();
        let ghost fk = *first;
        let l = lead_seg(first, prefix, prefix_style, indent);
        assert(crate::tui::style::seg_view(l) == lead(fk, cx));
        spans.push(l);
        assert(spans@ =~= seq![l]);
        assert(segs_view(spans@) =~= seq![lead(f0 && k == 0, cx)]);
        assert(bv[k as int] == segs_view(block@[k as int]@));
        push_all_segs(&mut spans, &block[k]);
        let ghost b = lines_view(lines@);
        let ghost sv = spans@;
        lines.push(spans);
        proof {
            assert(segs_view(sv) =~= seq![lead(f0 && k == 0, cx)] + bv[k as int]);
            assert(lines_view(lines@) =~= b.push(segs_view(sv)));
            assert(emit_block(bv, f0, cx).take(k + 1) =~= emit_block(bv, f0, cx).take(k as int).push(
                emit_block(bv, f0, cx)[k as int],
            ));
        }
        k += 1;
    }
    assert(emit_block(bv, f0, cx).take(k as int) =~= emit_block(bv, f0, cx));
}

fn spaces(n: usize) -> (r: String)
    ensures
        r@ == repeat(' ', n as nat),
{
    let mut v: Vec<char> = Vec::new();
    let mut k: usize = 0;
    while k < n
        invariant
            k <= n,
            v@ =~= repeat(' ', k as nat),
        decreases n - k,
    {
        v.push(' ');
        k += 1;
    }
    from_chars(v.as_slice())
}

fn push_para(
    lines: &mut Vec<Vec<Seg>>,
    wl: Vec<Vec<Seg>>,
    marker: &String,
    ms: Style,
    hang: usize,
    prefix: &str,
    prefix_style: Style,
    indent: &str,
    first: &mut bool,
)
    ensures
        ({
            let cx = (prefix@, prefix_style, indent@, plain(), 0nat, false);
            &&& lines_view(final(lines)@) == lines_view(old(lines)@) + para_lines(
                lines_view(wl@),
                marker@,
                ms,
                hang as nat,
                *old(first),
                cx,
            )
            &&& *final(first) == (*old(first) && wl@.len() == 0)
        }),
{
    let ghost cx = (prefix@, prefix_style, indent@, plain(), 0nat, false);
    let ghost wv = lines_view(wl@);
    let ghost f0 = *first;
    let ghost o = lines_view(lines@);
    let ghost pl = para_lines(wv, marker@, ms, hang as nat, f0, cx);
    let mut k: usize = 0;
    while k < wl.len()
        invariant
            k <= wl@.len(),
            wv == lines_view(wl@),
            pl == para_lines(wv, marker@, ms, hang as nat, f0, cx),
            cx == (prefix@, prefix_style, indent@, plain(), 0nat, false),
            *first == (f0 && k == 0),
            lines_view(lines@) =~= o + pl.take(k as int),
        decreases wl.len() - k,
    {
        let mut spans: Vec<Seg> = Vec::new();
        let ghost fk = *first;
        let l = lead_seg(first, prefix, prefix_style, indent);
        assert(crate::tui::style::seg_view(l) == lead(fk, cx));
        spans.push(l);
        assert(spans@ =~= seq![l]);
        assert(segs_view(spans@) =~= seq![lead(f0 && k == 0, cx)]);
        assert(wv[k as int] == segs_view(wl@[k as int]@));
        let ghost s1 = segs_view(spans@);
        if k == 0 && !marker.as_str().is_empty() {
            spans.push((crate::text::owned(marker.as_str()), ms));
        } else if hang > 0 {
            spans.push((spaces(hang), Style::plain()));
        }
        assert(segs_view(spans@) =~= s1 + deco(k as int, marker@, ms, hang as nat));
        push_all_segs(&mut spans, &wl[k]);
        let ghost b = lines_view(lines@);
        let ghost sv = spans@;
        lines.push(spans);
        proof {
            assert(segs_view(sv) =~= pl[k as int]);
            assert(lines_view(lines@) =~= b.push(segs_view(sv)));
            assert(pl.take(k + 1) =~= pl.take(k as int).push(pl[k as int]));
        }
        k += 1;
    }
    assert(pl.take(k as int) =~= pl);
}

/// The layout of a body given its parameters.
pub open spec fn layout(prefix: Seq<char>, ps: Style, indent: Seq<char>, body: Style, cw: nat, markdown: bool) -> Layout {
    (prefix, ps, indent, body, cw, markdown)
}

proof fn lemma_emit_layout(block: Seq<Seq<(Seq<char>, Style)>>, first: bool, cx: Layout)
    ensures
        emit_block(block, first, cx) == emit_block(block, first, (cx.0, cx.1, cx.2, plain(), 0nat, false)),
        forall|wl: Seq<Seq<(Seq<char>, Style)>>, m: Seq<char>, ms: Style, h: nat|
            #[trigger] para_lines(wl, m, ms, h, first, cx) == para_lines(
                wl,
                m,
                ms,
                h,
                first,
                (cx.0, cx.1, cx.2, plain(), 0nat, false),
            ),
{
    assert(emit_block(block, first, cx) =~= emit_block(block, first, (cx.0, cx.1, cx.2, plain(), 0nat, false)));
    assert forall|wl: Seq<Seq<(Seq<char>, Style)>>, m: Seq<char>, ms: Style, h: nat|
        #[trigger] para_lines(wl, m, ms, h, first, cx) == para_lines(
            wl,
            m,
            ms,
            h,
            first,
            (cx.0, cx.1, cx.2, plain(), 0nat, false),
        ) by {
        assert(para_lines(wl, m, ms, h, first, cx) =~= para_lines(
            wl,
            m,
            ms,
            h,
            first,
            (cx.0, cx.1, cx.2, plain(), 0nat, false),
        ));
    }
}

/// Render message body text into wrapped, styled lines. The first physical line
/// gets `prefix` (styled with `prefix_style`); wrapped continuations get `indent`.
/// `body` is the base style for the text. When `markdown` is true, fenced code
/// blocks, GFM tables, and inline/block markdown are interpreted.
///
/// `first` tracks whether the prefix has been emitted yet, so callers can render
/// a header line ahead of the body and still have the body indent correctly.
#[verifier::rlimit(80)]
pub fn render_body(
    lines: &mut Vec<Vec<Seg>>,
    text: &str,
    content_width: usize,
    markdown: bool,
    prefix: &str,
    prefix_style: Style,
    indent: &str,
    body: Style,
    first: &mut bool,
)
    requires
        text@.len() < usize::MAX / 128,
    ensures
        ({
            let r = body_spec(
                split_on(text@, '\n'),
                0,
                false,
                *old(first),
                layout(prefix@, prefix_style, indent@, body, content_width as nat, markdown),
            );
            &&& lines_view(final(lines)@) == lines_view(old(lines)@) + r.0
            &&& *final(first) == r.1
        }),
{
    let ghost cx = layout(prefix@, prefix_style, indent@, body, content_width as nat, markdown);
    let tc = to_chars(text);
    let raw_lines = split_char(tc.as_slice(), '\n');
    let ghost ls = split_on(text@, '\n');
    let mut strs: Vec<&str> = Vec::new();
    let mut q: usize = 0;
    while q < raw_lines.len()
        invariant
            q <= raw_lines@.len(),
            str_views(strs@) =~= string_views(raw_lines@).take(q as int),
        decreases raw_lines.len() - q,
    {
        let ghost b = str_views(strs@);
        strs.push(raw_lines[q].as_str());
        assert(str_views(strs@) =~= b.push(raw_lines@[q as int]@));
        q += 1;
    }
    assert(string_views(raw_lines@).take(q as int) =~= string_views(raw_lines@));
    proof {
        lemma_split_pieces(text@, '\n');
    }
    let ghost all = body_spec(ls, 0, false, *first, cx);
    let ghost o = lines_view(lines@);
    let mut in_code = false;
    let mut li: usize = 0;
    while li < raw_lines.len()
        invariant
            li <= raw_lines@.len(),
            ls == split_on(text@, '\n'),
            string_views(raw_lines@) == ls,
            str_views(strs@) == ls,
            text@.len() < usize::MAX / 128,
            forall|k: int| 0 <= k < ls.len() ==> #[trigger] ls[k].len() <= text@.len(),
            cx == layout(prefix@, prefix_style, indent@, body, content_width as nat, markdown),
            lines_view(lines@) + body_spec(ls, li as int, in_code, *first, cx).0 == o + all.0,
            body_spec(ls, li as int, in_code, *first, cx).1 == all.1,
        decreases raw_lines.len() - li,
    {
        let raw = raw_lines[li].as_str();
        assert(raw@ == ls[li as int]);
        let rc = to_chars(raw);
        let k0 = crate::text::skip_space(rc.as_slice());
        let fence = crate::text::to_chars("```");
        let is_fence = crate::text::matches_at(rc.as_slice(), fence.as_slice(), k0);
        proof {
            if fence@.len() <= rc@.len() - k0 {
                assert(rc@.skip(k0 as int).take(fence@.len() as int) =~= rc@.subrange(
                    k0 as int,
                    k0 + fence@.len(),
                ));
            }
            assert(is_fence == starts_with(trim_start(raw@), "```"@));
        }
        // Fenced code block delimiters toggle verbatim mode and aren't rendered.
        if markdown && is_fence {
            in_code = !in_code;
            li += 1;
            continue;
        }
        // GFM table: a header row followed by a delimiter row, rendered as a
        // whole block so column widths are computed across every row at once.
        if markdown && !in_code && is_table_start(strs.as_slice(), li) {
            let start = li;
            li = li + 2;
            proof {
                lemma_pipe_end(ls, start + 2);
            }
            while li < strs.len() && crate::text::contains_char(to_chars(strs[li]).as_slice(), '|')
                invariant
                    start + 2 <= li <= strs@.len(),
                    str_views(strs@) == ls,
                    pipe_end(ls, start + 2) == pipe_end(ls, li as int),
                decreases strs.len() - li,
            {
                li += 1;
            }
            let mut rows: Vec<&str> = Vec::new();
            let mut q: usize = start;
            while q < li
                invariant
                    start <= q <= li,
                    li <= strs@.len(),
                    str_views(strs@) == ls,
                    str_views(rows@) =~= ls.subrange(start as int, q as int),
                decreases li - q,
            {
                let ghost b = str_views(rows@);
                rows.push(strs[q]);
                assert(str_views(rows@) =~= b.push(ls[q as int]));
                q += 1;
            }
            let table = render_table(rows.as_slice(), content_width);
            let ghost t = table_spec(ls.subrange(start as int, li as int), content_width as nat);
            let ghost f0 = *first;
            let ghost l0 = lines_view(lines@);
            emit_lines(lines, table, prefix, prefix_style, indent, first);
            proof {
                lemma_emit_layout(t, f0, cx);
                assert(lines_view(lines@) + body_spec(ls, li as int, in_code, *first, cx).0 =~= l0 + body_spec(
                    ls,
                    start as int,
                    in_code,
                    f0,
                    cx,
                ).0);
            }
            continue;
        }
        let (marker, marker_style, segs, hang) = if markdown && in_code {
            let mut v: Vec<Seg> = Vec::new();
            v.push((crate::text::owned(raw), code_block()));
            (String::new(), body, v, 0)
        } else if markdown {
            let normalized = normalize_math(raw);
            let b = classify_block(normalized.as_str(), body);
            let segs = parse_inline(b.text.as_str(), b.style);
            (b.marker, b.marker_style, segs, b.hang)
        } else {
            let mut v: Vec<Seg> = Vec::new();
            v.push((crate::text::owned(raw), body));
            (String::new(), body, v, 0)
        };
        let ghost p = para_parts(ls[li as int], markdown, in_code, body);
        assert(marker@ == p.0 && marker_style == p.1 && segs_view(segs@) == p.2 && hang == p.3);
        let wrap_w = if content_width > hang { content_width - hang } else { 1 };
        let wl = wrap_segments(segs.as_slice(), wrap_w);
        let ghost f0 = *first;
        let ghost l0 = lines_view(lines@);
        let ghost wv = lines_view(wl@);
        push_para(lines, wl, &marker, marker_style, hang, prefix, prefix_style, indent, first);
        proof {
            lemma_emit_layout(seq![], f0, cx);
            assert(lines_view(lines@) + body_spec(ls, li + 1, in_code, *first, cx).0 =~= l0 + body_spec(
                ls,
                li as int,
                in_code,
                f0,
                cx,
            ).0);
        }
        li += 1;
    }
    assert(lines_view(lines@) =~= o + all.0);
}


/// The label a message kind shows before its text.
pub open spec fn label_of(k: DisplayKind) -> Seq<char> {
    match k {
        DisplayKind::User => "You"@,
        DisplayKind::Assistant => "AI"@,
        DisplayKind::Tool => "·"@,
        DisplayKind::Error => "!"@,
        DisplayKind::Info => "i"@,
        DisplayKind::Thinking => "thinking"@,
        DisplayKind::Subagent => "research"@,
    }
}

/// The accent style of a message kind.
pub open spec fn kind_style(k: DisplayKind) -> Style {
    match k {
        DisplayKind::User => bolded(colored(accent_user())),
        DisplayKind::Assistant => colored(accent_ai()),
        DisplayKind::Tool => italicized(colored(accent_tool())),
        DisplayKind::Error => bolded(colored(accent_err())),
        DisplayKind::Info => colored(accent_info()),
        DisplayKind::Thinking => thinking_style(),
        DisplayKind::Subagent => subagent_style(),
    }
}

/// Style + short label for a message kind.
pub fn style_for(kind: DisplayKind) -> (r: (&'static str, Style))
    ensures
        r.0@ == label_of(kind),
        r.1 == kind_style(kind),
{
    match kind {
        DisplayKind::User => ("You", Style::plain().with_fg(make_rgb(0x7A, 0xA2, 0xC0)).bold()),
        DisplayKind::Assistant => ("AI", Style::plain().with_fg(make_rgb(0x8F, 0xB0, 0x8F))),
        DisplayKind::Tool => ("·", Style::plain().with_fg(make_rgb(0xC2, 0xA5, 0x6B)).italic()),
        DisplayKind::Error => ("!", Style::plain().with_fg(make_rgb(0xC0, 0x7A, 0x7A)).bold()),
        DisplayKind::Info => ("i", Style::plain().with_fg(make_rgb(0xB0, 0x9A, 0x6B))),
        // Thinking and Subagent are rendered by their own functions.
        DisplayKind::Thinking => ("thinking", crate::tui::style::thinking()),
        DisplayKind::Subagent => ("research", crate::tui::style::subagent()),
    }
}

/// Bytes of `c` in UTF-8.
pub open spec fn char_bytes(c: char) -> nat {
    if (c as u32) < 0x80 {
        1
    } else if (c as u32) < 0x800 {
        2
    } else if (c as u32) < 0x10000 {
        3
    } else {
        4
    }
}

/// Bytes of `s` in UTF-8 (`str::len`).
pub open spec fn utf8_len(s: Seq<char>) -> nat
    decreases s.len(),
{
    if s.len() == 0 { 0 } else { utf8_len(s.drop_last()) + char_bytes(s.last()) }
}

fn byte_len(s: &[char]) -> (n: usize)
    requires
        s@.len() < usize::MAX / 4,
    ensures
        n == utf8_len(s@),
        n <= 4 * s@.len(),
{
    let mut n: usize = 0;
    let mut i: usize = 0;
    while i < s.len()
        invariant
            i <= s@.len(),
            s@.len() < usize::MAX / 4,
            n == utf8_len(s@.take(i as int)),
            n <= 4 * i,
        decreases s.len() - i,
    {
        let c = s[i];
        let b: usize = if (c as u32) < 0x80 {
            1
        } else if (c as u32) < 0x800 {
            2
        } else if (c as u32) < 0x10000 {
            3
        } else {
            4
        };
        assert(s@.take(i + 1).drop_last() =~= s@.take(i as int));
        n = n + b;
        i += 1;
    }
    assert(s@.take(i as int) =~= s@);
    n
}

/// The lines of a labelled message: `label: ` on the first line, continuation
/// lines indented as far (in bytes, short of the full width), the body wrapped
/// in the remaining columns, and the label line alone for an empty body.
pub open spec fn message_spec(m: DisplayV, width: nat, markdown: bool) -> Seq<Seq<(Seq<char>, Style)>> {
    let style = kind_style(m.0);
    let body = if m.0 == DisplayKind::Assistant { Style { fg: Some(crate::tui::style::Color::Rgb(fg_text())), ..style } } else { style };
    let prefix = label_of(m.0) + ": "@;
    let plen = utf8_len(prefix);
    let room: nat = if width >= 1 { (width - 1) as nat } else { 0 };
    let indent = repeat(' ', if plen <= room { plen } else { room });
    let cw: nat = if width > plen { (width - plen) as nat } else { 1 };
    let r = body_spec(split_on(m.1, '\n'), 0, false, true, layout(prefix, style, indent, body, cw, markdown));
    r.0 + (if r.1 { seq![seq![(prefix, style)]] } else { seq![] })
}

/// Render a labelled message, optionally applying simple markdown formatting.
pub fn render_message(lines: &mut Vec<Vec<Seg>>, msg: &DisplayMessage, width: usize, markdown: bool)
    requires
        msg.text@.len() < usize::MAX / 128,
    ensures
        lines_view(final(lines)@) == lines_view(old(lines)@) + message_spec(display_view(*msg), width as nat, markdown),
{
    let (label, style) = style_for(msg.kind);
    // The label keeps its accent color; assistant answers render their body in
    // soft white so the accent stays a small marker rather than tinting the text.
    let body = match msg.kind {
        DisplayKind::Assistant => style.with_fg(make_rgb(0xCC, 0xCC, 0xCC)),
        _ => style,
    };
    let mut pv: Vec<char> = Vec::new();
    push_str(&mut pv, label);
    push_str(&mut pv, ": ");
    proof {
        reveal_strlit("You");
        reveal_strlit("AI");
        reveal_strlit("·");
        reveal_strlit("!");
        reveal_strlit("i");
        reveal_strlit("thinking");
        reveal_strlit("research");
        reveal_strlit(": ");
    }
    let plen = byte_len(pv.as_slice());
    let prefix = from_chars(pv.as_slice());
    let room = if width >= 1 { width - 1 } else { 0 };
    let indent = spaces(if plen <= room { plen } else { room });
    let content_width = if width > plen { width - plen } else { 1 };
    let mut first = true;
    let ghost o = lines_view(lines@);
    render_body(
        lines,
        msg.text.as_str(),
        content_width,
        markdown,
        prefix.as_str(),
        style,
        indent.as_str(),
        body,
        &mut first,
    );
    // Guarantee at least the label line for an empty message.
    if first {
        let ghost b = lines_view(lines@);
        let mut only: Vec<Seg> = Vec::new();
        only.push((prefix, style));
        assert(segs_view(only@) =~= seq![(pv@, style)]);
        let ghost ov = only@;
        lines.push(only);
        assert(lines_view(lines@) =~= b.push(segs_view(ov)));
    }
    let ghost m = display_view(*msg);
    assert(lines_view(lines@) =~= o + message_spec(m, width as nat, markdown));
}

/// Count of the lines a collapsed block reports (at least one).
pub open spec fn shown_count(text: Seq<char>) -> nat {
    if lines_of(text).len() >= 1 { lines_of(text).len() } else { 1 }
}

/// The wrapped lines of a reasoning text, each indented by two spaces.
pub open spec fn think_body(raws: Seq<Seq<char>>, k: int, cw: nat) -> Seq<Seq<(Seq<char>, Style)>>
    decreases k,
{
    if k <= 0 {
        seq![]
    } else {
        let wl = wrap_spec(seq![(raws[k - 1], thinking_style())], cw);
        think_body(raws, k - 1, cw) + Seq::new(wl.len(), |j: int| seq![("  "@, plain())] + wl[j])
    }
}

/// A collapsible reasoning block: its header, then (when expanded, by the
/// global toggle or because it is not collapsed) the text, dim and italic.
pub open spec fn thinking_spec(m: DisplayV, show: bool, width: nat) -> Seq<Seq<(Seq<char>, Style)>> {
    let expanded = show || !m.2;
    let header = if expanded {
        "▾ thinking"@
    } else {
        "▸ thinking ("@ + decimal(shown_count(m.1)) + " lines) — Tab to expand"@
    };
    let cw: nat = if width > 2 { (width - 2) as nat } else { 1 };
    let raws = split_on(m.1, '\n');
    seq![seq![(header, thinking_style())]] + (if expanded { think_body(raws, raws.len() as int, cw) } else { seq![] })
}

fn count_lines(text: &str) -> (n: usize)
    ensures
        n == shown_count(text@),
{
    let c = to_chars(text);
    let ls = crate::text::split_lines(c.as_slice());
    if ls.len() >= 1 { ls.len() } else { 1 }
}

/// Render a collapsible reasoning block. Collapsed, it is one header line;
/// expanded (still streaming, or the global toggle is on) the reasoning
/// text follows, dim and italic.
pub fn render_thinking(lines: &mut Vec<Vec<Seg>>, msg: &DisplayMessage, show: bool, width: usize)
    ensures
        lines_view(final(lines)@) == lines_view(old(lines)@) + thinking_spec(display_view(*msg), show, width as nat),
{
    let style = crate::tui::style::thinking();
    let expanded = show || !msg.collapsed;
    let mut h: Vec<char> = Vec::new();
    if expanded {
        push_str(&mut h, "▾ thinking");
    } else {
        let n = count_lines(msg.text.as_str());
        push_str(&mut h, "▸ thinking (");
        push_decimal(&mut h, n as u64);
        push_str(&mut h, " lines) — Tab to expand");
    }
    let ghost o = lines_view(lines@);
    let mut head: Vec<Seg> = Vec::new();
    head.push((from_chars(h.as_slice()), style));
    assert(segs_view(head@) =~= seq![(h@, style)]);
    let ghost hv = head@;
    lines.push(head);
    assert(lines_view(lines@) =~= o.push(segs_view(hv)));
    let ghost m = display_view(*msg);
    let ghost o1 = lines_view(lines@);
    assert(o1 =~= o + seq![seq![(h@, style)]]);
    if expanded {
        let content_width = if width > 2 { width - 2 } else { 1 };
        let tc = to_chars(msg.text.as_str());
        let raws = split_char(tc.as_slice(), '\n');
        let ghost rv = split_on(m.1, '\n');
        let mut k: usize = 0;
        while k < raws.len()
            invariant
                k <= raws@.len(),
                string_views(raws@) == rv,
                style == thinking_style(),
                lines_view(lines@) =~= o1 + think_body(rv, k as int, content_width as nat),
            decreases raws.len() - k,
        {
            let mut one: Vec<Seg> = Vec::new();
            one.push((crate::text::owned(raws[k].as_str()), style));
            assert(segs_view(one@) =~= seq![(rv[k as int], thinking_style())]);
            let wl = wrap_segments(one.as_slice(), content_width);
            let ghost wv = lines_view(wl@);
            let ghost l0 = lines_view(lines@);
            let mut j: usize = 0;
            while j < wl.len()
                invariant
                    j <= wl@.len(),
                    wv == lines_view(wl@),
                    lines_view(lines@) =~= l0 + Seq::new(j as nat, |q: int| seq![("  "@, plain())] + wv[q]),
                decreases wl.len() - j,
            {
                let mut spans: Vec<Seg> = Vec::new();
                spans.push((crate::text::owned("  "), Style::plain()));
                push_all_segs(&mut spans, &wl[j]);
                let ghost b = lines_view(lines@);
                let ghost sv = spans@;
                lines.push(spans);
                proof {
                    assert(wv[j as int] == segs_view(wl@[j as int]@));
                    assert(segs_view(sv) =~= seq![("  "@, plain())] + wv[j as int]);
                    assert(lines_view(lines@) =~= b.push(segs_view(sv)));
                }
                j += 1;
            }
            k += 1;
        }
    }
}


/// A collapsible research block: its header with the question, then (when
/// expanded) the answer, dim and markdown-formatted, indented by two spaces.
pub open spec fn subagent_spec(m: DisplayV, show: bool, width: nat) -> Seq<Seq<(Seq<char>, Style)>> {
    let expanded = show || !m.2;
    let q = match m.3 {
        Some(t) => t,
        None => "(question)"@,
    };
    let header = if expanded {
        "▾ research: \""@ + q + "\""@
    } else {
        "▸ research: \""@ + q + "\" ("@ + decimal(shown_count(m.1)) + " lines) — Tab to expand"@
    };
    let cw: nat = if width > 2 { (width - 2) as nat } else { 1 };
    let st = subagent_style();
    seq![seq![(header, st)]] + (if expanded {
        body_spec(split_on(m.1, '\n'), 0, false, false, layout(seq![], st, "  "@, st, cw, true)).0
    } else {
        seq![]
    })
}

/// Render a collapsible `research` block: collapsed, one header line with the
/// question; expanded, the cited answer follows, dim and markdown-formatted.
pub fn render_subagent(lines: &mut Vec<Vec<Seg>>, msg: &DisplayMessage, show: bool, width: usize)
    requires
        msg.text@.len() < usize::MAX / 128,
    ensures
        lines_view(final(lines)@) == lines_view(old(lines)@) + subagent_spec(display_view(*msg), show, width as nat),
{
    let style = crate::tui::style::subagent();
    let expanded = show || !msg.collapsed;
    let mut h: Vec<char> = Vec::new();
    if expanded {
        push_str(&mut h, "▾ research: \"");
    } else {
        push_str(&mut h, "▸ research: \"");
    }
    match &msg.title {
        Some(t) => push_str(&mut h, t.as_str()),
        None => push_str(&mut h, "(question)"),
    }
    if expanded {
        push_str(&mut h, "\"");
    } else {
        let n = count_lines(msg.text.as_str());
        push_str(&mut h, "\" (");
        push_decimal(&mut h, n as u64);
        push_str(&mut h, " lines) — Tab to expand");
    }
    let ghost o = lines_view(lines@);
    let mut head: Vec<Seg> = Vec::new();
    head.push((from_chars(h.as_slice()), style));
    assert(segs_view(head@) =~= seq![(h@, style)]);
    let ghost hv = head@;
    lines.push(head);
    assert(lines_view(lines@) =~= o.push(segs_view(hv)));
    let ghost m = display_view(*msg);
    proof {
        let q = match m.3 {
            Some(t) => t,
            None => "(question)"@,
        };
        let header = if expanded {
            "▾ research: \""@ + q + "\""@
        } else {
            "▸ research: \""@ + q + "\" ("@ + decimal(shown_count(m.1)) + " lines) — Tab to expand"@
        };
        assert(h@ == header);
    }
    if expanded {
        let content_width = if width > 2 { width - 2 } else { 1 };
        // `first` starts false: the header stands in for the prefix line.
        let mut first = false;
        proof {
            reveal_strlit("");
            reveal_strlit("  ");
        }
        let ghost l1 = lines_view(lines@);
        render_body(lines, msg.text.as_str(), content_width, true, "", style, "  ", style, &mut first);
        proof {
            assert(""@ =~= Seq::<char>::empty());
            assert(layout(""@, style, "  "@, style, content_width as nat, true) == layout(
                seq![],
                subagent_style(),
                "  "@,
                subagent_style(),
                content_width as nat,
                true,
            ));
            assert(msg.text@ == m.1);
        }
    }
    assert(lines_view(lines@) =~= o + subagent_spec(m, show, width as nat));
}

/// The lines of one message.
pub open spec fn message_lines(m: DisplayV, show: bool, width: nat) -> Seq<Seq<(Seq<char>, Style)>> {
    match m.0 {
        DisplayKind::Thinking => thinking_spec(m, show, width),
        DisplayKind::Subagent => subagent_spec(m, show, width),
        // Only assistant answers get markdown formatting.
        DisplayKind::Assistant => message_spec(m, width, true),
        _ => message_spec(m, width, false),
    }
}

/// The transcript's lines for its first `k` messages, each followed by a blank line.
pub open spec fn transcript(ms: Seq<DisplayV>, k: int, show: bool, width: nat) -> Seq<Seq<(Seq<char>, Style)>>
    decreases k,
{
    if k <= 0 {
        seq![]
    } else {
        transcript(ms, k - 1, show, width) + message_lines(ms[k - 1], show, width) + seq![seq![]]
    }
}

/// Whether every message is short enough to lay out.
pub open spec fn layable(ms: Seq<DisplayV>) -> bool {
    forall|k: int| 0 <= k < ms.len() ==> (#[trigger] ms[k]).1.len() < usize::MAX / 128
}

/// Build the fully wrapped, styled line list for the chat transcript.
pub fn build_lines(app: &App, width: usize) -> (r: Vec<Vec<Seg>>)
    requires
        layable(display_views(app.messages@)),
    ensures
        lines_view(r@) == transcript(
            display_views(app.messages@),
            app.messages@.len() as int,
            app.show_thinking,
            width as nat,
        ),
{
    let ghost ms = display_views(app.messages@);
    let mut lines: Vec<Vec<Seg>> = Vec::new();
    let mut k: usize = 0;
    while k < app.messages.len()
        invariant
            k <= app.messages@.len(),
            ms == display_views(app.messages@),
            layable(ms),
            lines_view(lines@) =~= transcript(ms, k as int, app.show_thinking, width as nat),
        decreases app.messages.len() - k,
    {
        let msg = &app.messages[k];
        assert(ms[k as int] == display_view(*msg));
        assert(ms[k as int].1.len() < usize::MAX / 128);
        match msg.kind {
            DisplayKind::Thinking => render_thinking(&mut lines, msg, app.show_thinking, width),
            DisplayKind::Subagent => render_subagent(&mut lines, msg, app.show_thinking, width),
            DisplayKind::Assistant => render_message(&mut lines, msg, width, true),
            _ => render_message(&mut lines, msg, width, false),
        }
        // Blank separator line between messages.
        let ghost b = lines_view(lines@);
        let blank: Vec<Seg> = Vec::new();
        assert(segs_view(blank@) =~= seq![]);
        lines.push(blank);
        assert(lines_view(lines@) =~= b.push(seq![]));
        k += 1;
    }
    lines
}


/// The status bar: the model on a highlighted tag, Kiwix reachability, the
/// search language, whether a turn runs, the context size (a dash until a
/// request reports one), and the key help.
pub open spec fn status_spec(
    model: Seq<char>,
    reachable: bool,
    lang: Seq<char>,
    busy: bool,
    ctx: Option<Seq<char>>,
) -> Seq<(Seq<char>, Style)> {
    let tag = Style {
        fg: Some(crate::tui::style::Color::Black),
        bg: Some(crate::tui::style::Color::Rgb(accent_user())),
        ..plain()
    };
    seq![
        (" "@ + model + " "@, tag),
        (" "@, plain()),
        if reachable { ("kiwix✓"@, colored(accent_ai())) } else { ("kiwix✗"@, colored(accent_err())) },
        ("  lang:"@ + lang + "  "@, plain()),
        (if busy { "busy"@ } else { "ready"@ }, crate::tui::style::dimmed(plain())),
        (
            "  ctx:"@ + match ctx {
                Some(c) => c,
                None => "—"@,
            },
            plain(),
        ),
        ("  PgUp/PgDn scroll · Tab thinking · /quit"@, plain()),
    ]
}

fn text_of(parts: &Vec<char>) -> (s: String)
    ensures
        s@ == parts@,
{
    from_chars(parts.as_slice())
}

/// The runs of the status bar; `ctx` is the context size as already written.
pub fn status_segments(app: &App, ctx: Option<String>) -> (r: Vec<Seg>)
    requires
        app.wf(),
    ensures
        segs_view(r@) == status_spec(
            app.model@,
            app.kiwix_reachable,
            app.lang@,
            app.busy,
            crate::llm::opt_view(ctx),
        ),
{
    let ghost cv = crate::llm::opt_view(ctx);
    let mut r: Vec<Seg> = Vec::new();
    let mut m: Vec<char> = Vec::new();
    push_str(&mut m, " ");
    push_str(&mut m, app.model.as_str());
    push_str(&mut m, " ");
    let tag = Style::plain().in_black().with_bg(
        crate::tui::style::Color::Rgb(make_rgb(0x7A, 0xA2, 0xC0)),
    );
    r.push((text_of(&m), tag));
    r.push((crate::text::owned(" "), Style::plain()));
    if app.kiwix_reachable {
        r.push((crate::text::owned("kiwix✓"), Style::plain().with_fg(make_rgb(0x8F, 0xB0, 0x8F))));
    } else {
        r.push((crate::text::owned("kiwix✗"), Style::plain().with_fg(make_rgb(0xC0, 0x7A, 0x7A))));
    }
    let mut l: Vec<char> = Vec::new();
    push_str(&mut l, "  lang:");
    push_str(&mut l, app.lang.as_str());
    push_str(&mut l, "  ");
    r.push((text_of(&l), Style::plain()));
    if app.busy {
        r.push((crate::text::owned("busy"), Style::plain().dim()));
    } else {
        r.push((crate::text::owned("ready"), Style::plain().dim()));
    }
    let mut c: Vec<char> = Vec::new();
    push_str(&mut c, "  ctx:");
    match &ctx {
        Some(t) => push_str(&mut c, t.as_str()),
        None => push_str(&mut c, "—"),
    }
    r.push((text_of(&c), Style::plain()));
    r.push((crate::text::owned("  PgUp/PgDn scroll · Tab thinking · /quit"), Style::plain()));
    assert(segs_view(r@) =~= status_spec(app.model@, app.kiwix_reachable, app.lang@, app.busy, cv));
    r
}

} // verus!
