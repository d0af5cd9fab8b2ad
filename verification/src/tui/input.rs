//! Geometry of the input box and the chat pane: how the prompt line wraps,
//! where the cursor goes, how tall the box is, and how far the chat scrolls.
use vstd::prelude::*;

use crate::kiwix::string_views;
use crate::text::{from_chars, slice_chars, to_chars};

verus! {

/// Usable text width inside the input box (total width minus the two borders).
pub fn input_inner_width(total_width: u16) -> (w: usize)
    ensures
        w == (if total_width > 3 { total_width - 2 } else { 1 }),
        w >= 1,
{
    let inner = if total_width >= 2 { total_width - 2 } else { 0 };
    if inner >= 1 { inner as usize } else { 1 }
}

/// Columns the prompt line `"> {input}"` takes.
pub open spec fn prompt_cols(input: Seq<char>) -> nat {
    input.len() + 2
}

/// Number of rows the prompt line `"> {input}"` occupies once hard-wrapped to
/// `width` columns. The trailing cursor position counts, so a line filled exactly
/// to `width` reports one extra row (the cursor sits on a fresh line).
pub fn input_rows(input: &str, width: usize) -> (r: usize)
    requires
        width > 0,
        prompt_cols(input@) / (width as nat) + 1 <= usize::MAX,
    ensures
        r == prompt_cols(input@) / (width as nat) + 1,
{
    let n = to_chars(input).len();
    // Counted in 128 bits: the column count may pass `usize::MAX` though the rows do not.
    let cols: u128 = n as u128 + 2;
    let rows: u128 = cols / (width as u128) + 1;
    rows as usize
}

/// `s` cut into rows of `w` characters, the last one possibly shorter.
pub open spec fn chunks(s: Seq<char>, w: nat) -> Seq<Seq<char>>
    decreases s.len(),
{
    if w == 0 || s.len() == 0 {
        seq![]
    } else if s.len() <= w {
        seq![s]
    } else {
        seq![s.take(w as int)] + chunks(s.skip(w as int), w)
    }
}

/// The prompt line hard-wrapped to `width` columns.
pub open spec fn wrap_input_spec(input: Seq<char>, width: nat) -> Seq<Seq<char>> {
    chunks("> "@ + input, width)
}

/// Hard-wrap `"> {input}"` into rows of at most `width` columns (character-based,
/// matching the single-column-per-char cursor model used elsewhere).
pub fn wrap_input(input: &str, width: usize) -> (r: Vec<String>)
    requires
        width > 0,
    ensures
        string_views(r@) == wrap_input_spec(input@, width as nat),
{
    let mut t: Vec<char> = Vec::new();
    crate::text::push_str(&mut t, "> ");
    crate::text::push_str(&mut t, input);
    let ghost all = t@;
    let n = t.len();
    let mut out: Vec<String> = Vec::new();
    let mut start: usize = 0;
    assert(all.skip(0) =~= all);
    while start < n
        invariant
            start <= n,
            n == t@.len(),
            t@ == all,
            width > 0,
            string_views(out@) + chunks(all.skip(start as int), width as nat) == chunks(all, width as nat),
        decreases n - start,
    {
        let end = if n - start <= width { n } else { start + width };
        let piece = slice_chars(t.as_slice(), start, end);
        let ghost before = string_views(out@);
        let ghost rest = all.skip(start as int);
        out.push(from_chars(piece.as_slice()));
        proof {
            assert(string_views(out@) =~= before.push(piece@));
            if n - start <= width {
                assert(piece@ =~= rest);
                assert(all.skip(end as int) =~= seq![]);
            } else {
                assert(piece@ =~= rest.take(width as int));
                assert(rest.skip(width as int) =~= all.skip(end as int));
            }
        }
        start = end;
    }
    assert(all.skip(start as int) =~= seq![]);
    out
}

proof fn lemma_chunks_len(s: Seq<char>, w: nat)
    requires
        w > 0,
    ensures
        s.len() > 0 ==> chunks(s, w).len() == (s.len() + w - 1) / (w as int),
        s.len() == 0 ==> chunks(s, w).len() == 0,
    decreases s.len(),
{
    if s.len() > w {
        lemma_chunks_len(s.skip(w as int), w);
        let m = s.len() - w;
        assert((m + w - 1) / (w as int) + 1 == (s.len() + w - 1) / (w as int)) by (nonlinear_arith)
            requires
                m == s.len() - w,
                w > 0,
                m > 0,
        {
            assert(s.len() + w - 1 == (m + w - 1) + w);
        }
    } else if s.len() > 0 {
        assert((s.len() + w - 1) / (w as int) == 1) by (nonlinear_arith)
            requires
                0 < s.len() <= w,
        ;
    }
}

/// The rows the prompt wraps to and the rows it reports agree, but for the
/// row the cursor opens when the prompt fills its last row exactly.
pub proof fn law_input_rows(input: Seq<char>, width: nat)
    requires
        width > 0,
    ensures
        prompt_cols(input) / width + 1 == wrap_input_spec(input, width).len() + (if prompt_cols(input) % width == 0 {
            1int
        } else {
            0
        }),
{
    let s = "> "@ + input;
    reveal_strlit("> ");
    assert(s.len() == prompt_cols(input));
    lemma_chunks_len(s, width);
    let n = prompt_cols(input) as int;
    let w = width as int;
    assert(n / w + 1 == (n + w - 1) / w + (if n % w == 0 { 1int } else { 0 })) by (nonlinear_arith)
        requires
            n > 0,
            w > 0,
    {
        let q = n / w;
        let r = n % w;
        assert(n == q * w + r);
        assert(0 <= r < w);
        if r == 0 {
            assert(n + w - 1 == q * w + (w - 1));
            assert((n + w - 1) / w == q);
        } else {
            assert(n + w - 1 == (q + 1) * w + (r - 1));
            assert((n + w - 1) / w == q + 1);
        }
    }
}

/// Where the cursor sits, just past the last character of the prompt:
/// `(column, row)` in the wrapped layout, the row counted from the first
/// row in view when the box shows its last `visible` rows of `rows`.
pub fn input_cursor(input: &str, width: usize, rows: usize, visible: usize) -> (r: (usize, usize))
    requires
        width > 0,
        input@.len() + 2 <= usize::MAX,
    ensures
        ({
            let scroll: int = if rows >= visible { rows - visible } else { 0 };
            let row: int = (prompt_cols(input@) / (width as nat)) as int;
            &&& r.0 == prompt_cols(input@) % (width as nat)
            &&& r.1 == (if row >= scroll { row - scroll } else { 0 })
        }),
{
    let cols = 2 + to_chars(input).len();
    // Keep the last (cursor) row in view when the content is taller than the box.
    let scroll = if rows >= visible { rows - visible } else { 0 };
    let row = cols / width;
    let col = cols % width;
    (col, if row >= scroll { row - scroll } else { 0 })
}

/// Height of the input box: its rows, but never so many that the chat pane
/// (at least three lines) and the status line lose room, plus two borders.
pub fn input_height(rows: usize, area_height: u16) -> (h: u16)
    ensures
        ({
            let room: int = if area_height >= 6 { area_height - 6 } else { 0 };
            let max_content: int = if room >= 1 { room } else { 1 };
            h == (if rows <= max_content { rows as int } else { max_content }) + 2
        }),
{
    let room = if area_height >= 6 { area_height - 6 } else { 0 };
    let max_content = if room >= 1 { room } else { 1 };
    let shown: u16 = if rows <= max_content as usize { rows as u16 } else { max_content };
    shown + 2
}

/// The chat pane's scroll offset: the bottom when following, else the
/// offset asked for, but never past the bottom. The bottom is the line
/// count less the pane's height, kept to 16 bits as the terminal's offset is.
pub fn chat_scroll(follow: bool, scroll: u16, total: usize, height: usize) -> (r: u16)
    ensures
        ({
            let bottom = ((if total >= height { total - height } else { 0 }) % 0x10000) as u16;
            r == (if follow || scroll > bottom { bottom } else { scroll })
        }),
{
    let over = if total >= height { total - height } else { 0 };
    let bottom = (over % 0x10000) as u16;
    if follow || scroll > bottom { bottom } else { scroll }
}

} // verus!
