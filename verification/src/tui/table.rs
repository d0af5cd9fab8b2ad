//! GFM table detection and layout.
use vstd::prelude::*;

use crate::text::{
    contains_char, first_from, find_char_from, from_chars, lemma_first_from_range, slice_chars,
    to_chars, trim, trim_chars,
};
use crate::tui::columns::{column_widths, fit_cols, fit_spec, grid_views, nats, widths_spec};
use crate::tui::markdown::{inline_spec, parse_inline};
use crate::tui::style::{
    bolded, border, border_style, colored, fg_text, lines_view, make_rgb, segs_view, Seg, Style,
};
use crate::tui::wrap::{at_least_one, lemma_width_concat, width_of, wrap_segments, wrap_spec};
use crate::tui::columns::{lemma_total_take, lemma_widths_positive, law_columns_fit, total};

verus! {

/// The pieces of `s` between the separators `c` (`str::split` with a char):
/// always at least one piece.
pub open spec fn split_on(s: Seq<char>, c: char) -> Seq<Seq<char>>
    decreases s.len(),
{
    match first_from(s, c, 0) {
        Some(i) => if 0 <= i < s.len() {
            seq![s.take(i)] + split_on(s.skip(i + 1), c)
        } else {
            seq![s]
        },
        None => seq![s],
    }
}

/// `s` without one leading `c`.
pub open spec fn strip_first(s: Seq<char>, c: char) -> Seq<char> {
    if s.len() > 0 && s[0] == c { s.drop_first() } else { s }
}

/// `s` without one trailing `c`.
pub open spec fn strip_last(s: Seq<char>, c: char) -> Seq<char> {
    if s.len() > 0 && s.last() == c { s.drop_last() } else { s }
}

/// The trimmed cells of a table row: the row is trimmed, one bracketing `|` is
/// dropped at each end, and the rest is split at every `|`.
pub open spec fn row_cells(line: Seq<char>) -> Seq<Seq<char>> {
    split_on(strip_last(strip_first(trim(line), '|'), '|'), '|').map_values(|c: Seq<char>| trim(c))
}

pub open spec fn string_views(v: Seq<String>) -> Seq<Seq<char>> {
    v.map_values(|s: String| s@)
}

/// Split one table row into trimmed cell strings, dropping the empty cells that
/// bracket a `|a|b|`-style row.
pub fn split_table_row(line: &str) -> (r: Vec<String>)
    ensures
        string_views(r@) == row_cells(line@),
{
    let c = to_chars(line);
    let t = trim_chars(c.as_slice());
    let t = if t.len() > 0 && t[0] == '|' { slice_chars(t.as_slice(), 1, t.len()) } else { t };
    let ghost a = strip_first(trim(line@), '|');
    assert(t@ =~= a);
    let t = if t.len() > 0 && t[t.len() - 1] == '|' { slice_chars(t.as_slice(), 0, t.len() - 1) } else { t };
    let ghost b = strip_last(a, '|');
    assert(t@ =~= b);
    let mut out: Vec<String> = Vec::new();
    let mut i: usize = 0;
    let n = t.len();
    assert(b.skip(0) =~= b);
    loop
        invariant
            n == t@.len(),
            t@ == b,
            b == strip_last(strip_first(trim(line@), '|'), '|'),
            i <= n,
            string_views(out@) + split_on(b.skip(i as int), '|').map_values(|c: Seq<char>| trim(c))
                == split_on(b, '|').map_values(|c: Seq<char>| trim(c)),
        decreases n - i,
    {
        let ghost rest = b.skip(i as int);
        proof {
            crate::text::lemma_first_from_range(rest, '|', 0);
            crate::text::lemma_first_from_shift(b, '|', i as int, i as int);
        }
        match find_char_from(t.as_slice(), '|', i) {
            Some(j) => {
                let piece = slice_chars(t.as_slice(), i, j);
                let cell = trim_chars(piece.as_slice());
                let ghost before = out@;
                out.push(from_chars(cell.as_slice()));
                proof {
                    assert(first_from(rest, '|', 0) == Some(j - i));
                    assert(rest.take(j - i) =~= piece@);
                    assert(rest.skip(j - i + 1) =~= b.skip(j + 1));
                    let tail = split_on(b.skip(j + 1), '|').map_values(|c: Seq<char>| trim(c));
                    assert(split_on(rest, '|') == seq![piece@] + split_on(b.skip(j + 1), '|'));
                    assert(split_on(rest, '|').map_values(|c: Seq<char>| trim(c)) =~= seq![trim(
                        piece@,
                    )] + tail);
                    assert(string_views(out@) =~= string_views(before).push(cell@));
                }
                i = j + 1;
            },
            None => {
                let piece = slice_chars(t.as_slice(), i, n);
                let cell = trim_chars(piece.as_slice());
                let ghost before = out@;
                out.push(from_chars(cell.as_slice()));
                proof {
                    assert(first_from(rest, '|', 0) is None);
                    assert(rest =~= piece@);
                    assert(split_on(rest, '|') == seq![rest]);
                    assert(split_on(rest, '|').map_values(|c: Seq<char>| trim(c)) =~= seq![trim(rest)]);
                    assert(string_views(out@) =~= string_views(before).push(cell@));
                    assert(string_views(out@) =~= split_on(b, '|').map_values(|c: Seq<char>| trim(c)));
                }
                return out;
            },
        }
    }
}

/// Whether a (trimmed) cell is a delimiter cell: nonempty, holds a `-`, and
/// consists of `-` and `:` only.
pub open spec fn delimiter_cell(t: Seq<char>) -> bool {
    t.len() > 0 && t.contains('-') && forall|k: int| 0 <= k < t.len() ==> (#[trigger] t[k] == '-' || t[k] == ':')
}

/// A GFM delimiter row: every cell is `:?-+:?` (surrounding spaces allowed).
pub open spec fn delimiter_row(line: Seq<char>) -> bool {
    let cells = row_cells(line);
    cells.len() > 0 && forall|k: int| 0 <= k < cells.len() ==> delimiter_cell(trim(#[trigger] cells[k]))
}

fn is_delimiter_cell(t: &[char]) -> (b: bool)
    ensures
        b == delimiter_cell(t@),
{
    if t.len() == 0 || !contains_char(t, '-') {
        return false;
    }
    let mut k: usize = 0;
    while k < t.len()
        invariant
            k <= t@.len(),
            forall|q: int| 0 <= q < k ==> (#[trigger] t@[q] == '-' || t@[q] == ':'),
        decreases t.len() - k,
    {
        if t[k] != '-' && t[k] != ':' {
            return false;
        }
        k += 1;
    }
    true
}

/// A GFM delimiter row: every cell is `:?-+:?` (optional surrounding spaces) and
/// contains at least one `-`.
pub fn is_delimiter_row(line: &str) -> (b: bool)
    ensures
        b == delimiter_row(line@),
{
    let cells = split_table_row(line);
    if cells.len() == 0 {
        return false;
    }
    let mut k: usize = 0;
    while k < cells.len()
        invariant
            string_views(cells@) == row_cells(line@),
            k <= cells@.len(),
            forall|q: int| 0 <= q < k ==> delimiter_cell(trim(#[trigger] row_cells(line@)[q])),
        decreases cells.len() - k,
    {
        let c = to_chars(cells[k].as_str());
        let t = trim_chars(c.as_slice());
        assert(cells@[k as int]@ == row_cells(line@)[k as int]);
        if !is_delimiter_cell(t.as_slice()) {
            return false;
        }
        k += 1;
    }
    true
}

/// Whether line `i` starts a GFM table: a row holding `|` immediately followed
/// by a delimiter row that itself holds `|`.
pub open spec fn table_start(lines: Seq<Seq<char>>, i: int) -> bool {
    lines[i].contains('|') && i + 1 < lines.len() && lines[i + 1].contains('|') && delimiter_row(lines[i + 1])
}

pub open spec fn str_views(v: Seq<&str>) -> Seq<Seq<char>> {
    v.map_values(|s: &str| s@)
}

/// True when `lines[i]` begins a GFM table: a row containing `|` immediately
/// followed by a delimiter row (`| --- | :--: |` and friends).
pub fn is_table_start(lines: &[&str], i: usize) -> (b: bool)
    requires
        i < lines@.len(),
    ensures
        b == table_start(str_views(lines@), i as int),
{
    let cur = to_chars(lines[i]);
    if !contains_char(cur.as_slice(), '|') {
        return false;
    }
    if i + 1 < lines.len() {
        let next = to_chars(lines[i + 1]);
        // The delimiter must carry a `|` so a `text | x` line above a `---`
        // thematic break isn't mistaken for a one-column table.
        contains_char(next.as_slice(), '|') && is_delimiter_row(lines[i + 1])
    } else {
        false
    }
}

/// Cell text alignment, read from the `:---`, `:--:`, `---:` markers in the
/// delimiter row.
#[derive(Clone, Copy, PartialEq, Eq, Debug)]
pub enum Align {
    Left,
    Center,
    Right,
}

pub open spec fn align_of(cell: Seq<char>) -> Align {
    let t = trim(cell);
    let starts = t.len() > 0 && t[0] == ':';
    let ends = t.len() > 0 && t.last() == ':';
    if starts && ends {
        Align::Center
    } else if !starts && ends {
        Align::Right
    } else {
        Align::Left
    }
}

/// Alignment encoded by a single delimiter cell.
pub fn parse_align(cell: &str) -> (a: Align)
    ensures
        a == align_of(cell@),
{
    let c = to_chars(cell);
    let t = trim_chars(c.as_slice());
    let starts = t.len() > 0 && t[0] == ':';
    let ends = t.len() > 0 && t[t.len() - 1] == ':';
    if starts && ends {
        Align::Center
    } else if !starts && ends {
        Align::Right
    } else {
        Align::Left
    }
}


proof fn lemma_split_len(s: Seq<char>, c: char)
    ensures
        1 <= split_on(s, c).len() <= s.len() + 1,
    decreases s.len(),
{
    lemma_first_from_range(s, c, 0);
    match first_from(s, c, 0) {
        Some(i) => {
            if 0 <= i < s.len() {
                lemma_split_len(s.skip(i + 1), c);
            }
        },
        None => {},
    }
}

proof fn lemma_trim_start_len(s: Seq<char>)
    ensures
        crate::text::trim_start(s).len() <= s.len(),
    decreases s.len(),
{
    if s.len() > 0 && crate::text::is_space(s[0]) {
        lemma_trim_start_len(s.drop_first());
    }
}

proof fn lemma_trim_end_len(s: Seq<char>)
    ensures
        crate::text::trim_end(s).len() <= s.len(),
    decreases s.len(),
{
    if s.len() > 0 && crate::text::is_space(s.last()) {
        lemma_trim_end_len(s.drop_last());
    }
}

/// A row has at least one cell and at most one more than its length.
pub proof fn lemma_row_cells_len(line: Seq<char>)
    ensures
        1 <= row_cells(line).len() <= line.len() + 1,
{
    lemma_trim_start_len(line);
    lemma_trim_end_len(crate::text::trim_start(line));
    lemma_split_len(strip_last(strip_first(trim(line), '|'), '|'), '|');
}

/// A run of `n` copies of `c`.
pub open spec fn repeat(c: char, n: nat) -> Seq<char> {
    Seq::new(n, |i: int| c)
}

/// The inside of a border rule: a stretch of `─` two wider than each
/// column, with `mid` between neighbours.
pub open spec fn rule_body(ws: Seq<nat>, mid: Seq<char>) -> Seq<char>
    decreases ws.len(),
{
    if ws.len() == 0 {
        seq![]
    } else {
        rule_body(ws.drop_last(), mid) + (if ws.len() > 1 { mid } else { seq![] }) + repeat(
            '─',
            ws.last() + 2,
        )
    }
}

/// A horizontal border rule spanning the columns `ws`.
pub open spec fn rule_spec(ws: Seq<nat>, left: Seq<char>, mid: Seq<char>, right: Seq<char>) -> Seq<(Seq<char>, Style)> {
    seq![(left + rule_body(ws, mid) + right, border_style())]
}

fn push_repeat(out: &mut Vec<char>, c: char, n: usize)
    ensures
        final(out)@ == old(out)@ + repeat(c, n as nat),
{
    let mut k: usize = 0;
    while k < n
        invariant
            k <= n,
            out@ == old(out)@ + repeat(c, k as nat),
        decreases n - k,
    {
        out.push(c);
        k += 1;
        assert(out@ =~= old(out)@ + repeat(c, k as nat));
    }
}

/// A horizontal border rule (`┌─┬─┐`, `├─┼─┤`, or `└─┴─┘`) spanning `widths`.
pub fn table_rule(widths: &Vec<usize>, left: &str, mid: &str, right: &str) -> (r: Vec<Seg>)
    requires
        forall|i: int| 0 <= i < widths@.len() ==> #[trigger] widths@[i] + 2 <= usize::MAX,
    ensures
        segs_view(r@) == rule_spec(nats(widths@), left@, mid@, right@),
{
    let mut s: Vec<char> = Vec::new();
    crate::text::push_str(&mut s, left);
    let mut i: usize = 0;
    while i < widths.len()
        invariant
            i <= widths@.len(),
            forall|q: int| 0 <= q < widths@.len() ==> #[trigger] widths@[q] + 2 <= usize::MAX,
            s@ == left@ + rule_body(nats(widths@).take(i as int), mid@),
        decreases widths.len() - i,
    {
        let ghost before = s@;
        if i > 0 {
            crate::text::push_str(&mut s, mid);
        }
        push_repeat(&mut s, '─', widths[i] + 2);
        proof {
            let ws = nats(widths@);
            assert(ws.take(i + 1).drop_last() =~= ws.take(i as int));
            assert(s@ =~= left@ + rule_body(ws.take(i + 1), mid@));
        }
        i += 1;
    }
    assert(nats(widths@).take(i as int) =~= nats(widths@));
    crate::text::push_str(&mut s, right);
    let mut out: Vec<Seg> = Vec::new();
    out.push((from_chars(s.as_slice()), border()));
    assert(segs_view(out@) =~= rule_spec(nats(widths@), left@, mid@, right@));
    out
}

/// Left and right padding of a cell by its alignment.
pub open spec fn pads(a: Align, pad: nat) -> (nat, nat) {
    match a {
        Align::Left => (0, pad),
        Align::Right => (pad, 0),
        Align::Center => (pad / 2, (pad - pad / 2) as nat),
    }
}

/// One cell's part of a physical table line: the bar and a space, the cell's
/// line padded to the column width by its alignment, and a space.
pub open spec fn cell_piece(content: Seq<(Seq<char>, Style)>, w: nat, a: Align, base: Style) -> Seq<(Seq<char>, Style)> {
    let cw = width_of(content);
    let pad: nat = if w >= cw { (w - cw) as nat } else { 0 };
    let p = pads(a, pad);
    seq![("│ "@, border_style())] + (if p.0 > 0 { seq![(repeat(' ', p.0), base)] } else { seq![] })
        + content + seq![(repeat(' ', p.1 + 1), border_style())]
}

/// A cell's text as wrapped lines of runs.
pub open spec fn cell_lines(text: Seq<char>, base: Style, w: nat) -> Seq<Seq<(Seq<char>, Style)>> {
    wrap_spec(inline_spec(text, base), w)
}

pub open spec fn line_of(lines: Seq<Seq<(Seq<char>, Style)>>, h: int) -> Seq<(Seq<char>, Style)> {
    if 0 <= h < lines.len() { lines[h] } else { seq![] }
}

/// The first `k` cells of physical line `h` of a table row.
pub open spec fn row_line_prefix(
    row: Seq<Seq<char>>,
    base: Style,
    ws: Seq<nat>,
    al: Seq<Align>,
    h: int,
    k: int,
) -> Seq<(Seq<char>, Style)>
    decreases k,
{
    if k <= 0 {
        seq![]
    } else {
        row_line_prefix(row, base, ws, al, h, k - 1) + cell_piece(
            line_of(cell_lines(row[k - 1], base, ws[k - 1]), h),
            ws[k - 1],
            al[k - 1],
            base,
        )
    }
}

/// Physical line `h` of a table row, closed by a bar.
pub open spec fn row_line(row: Seq<Seq<char>>, base: Style, ws: Seq<nat>, al: Seq<Align>, h: int) -> Seq<(Seq<char>, Style)> {
    row_line_prefix(row, base, ws, al, h, ws.len() as int) + seq![("│"@, border_style())]
}

/// The height of a row over its first `k` cells: its tallest cell, at least one.
pub open spec fn row_height(row: Seq<Seq<char>>, base: Style, ws: Seq<nat>, k: int) -> nat
    decreases k,
{
    if k <= 0 {
        1
    } else {
        let prev = row_height(row, base, ws, k - 1);
        let n = cell_lines(row[k - 1], base, ws[k - 1]).len();
        if n > prev { n } else { prev }
    }
}

/// The physical lines of a table row.
pub open spec fn row_block(row: Seq<Seq<char>>, base: Style, ws: Seq<nat>, al: Seq<Align>) -> Seq<Seq<(Seq<char>, Style)>> {
    Seq::new(row_height(row, base, ws, ws.len() as int), |h: int| row_line(row, base, ws, al, h))
}

pub open spec fn header_style() -> Style {
    bolded(colored(fg_text()))
}

pub open spec fn body_style() -> Style {
    colored(fg_text())
}

/// The lines of the first `k` rows, the header row followed by its rule.
pub open spec fn table_rows(grid: Seq<Seq<Seq<char>>>, ws: Seq<nat>, al: Seq<Align>, k: int) -> Seq<Seq<(Seq<char>, Style)>>
    decreases k,
{
    if k <= 0 {
        seq![]
    } else {
        table_rows(grid, ws, al, k - 1) + row_block(
            grid[k - 1],
            if k == 1 { header_style() } else { body_style() },
            ws,
            al,
        ) + (if k == 1 { seq![rule_spec(ws, "├"@, "┼"@, "┤"@)] } else { seq![] })
    }
}

/// The number of columns of a table: that of its header row.
pub open spec fn table_cols(rows: Seq<Seq<char>>) -> nat {
    let n = row_cells(rows[0]).len();
    if n >= 1 { n } else { 1 }
}

/// The alignment of each column, from the delimiter row (left where none).
pub open spec fn table_aligns(rows: Seq<Seq<char>>) -> Seq<Align> {
    let delim = row_cells(if rows.len() > 1 { rows[1] } else { seq![] });
    Seq::new(table_cols(rows), |i: int| if i < delim.len() { align_of(delim[i]) } else { Align::Left })
}

/// The cells of a table: the header and the body rows, each cut or padded
/// to the column count.
pub open spec fn table_grid(rows: Seq<Seq<char>>) -> Seq<Seq<Seq<char>>> {
    let ncols = table_cols(rows);
    seq![fit_spec(row_cells(rows[0]), ncols)] + (if rows.len() > 2 { rows.skip(2) } else { seq![] }).map_values(
        |r: Seq<char>| fit_spec(row_cells(r), ncols),
    )
}

/// A GFM table (`rows[0]` header, `rows[1]` delimiter, the rest its body)
/// drawn as a box-drawing grid: a top rule, each row's wrapped cells, a rule
/// under the header, and a bottom rule.
pub open spec fn table_spec(rows: Seq<Seq<char>>, avail: nat) -> Seq<Seq<(Seq<char>, Style)>> {
    let grid = table_grid(rows);
    let ws = widths_spec(grid, table_cols(rows), avail);
    seq![rule_spec(ws, "┌"@, "┬"@, "┐"@)] + table_rows(grid, ws, table_aligns(rows), grid.len() as int)
        + seq![rule_spec(ws, "└"@, "┴"@, "┘"@)]
}


/// A copy of a line of runs.
pub fn copy_segs(v: &Vec<Seg>) -> (r: Vec<Seg>)
    ensures
        segs_view(r@) == segs_view(v@),
{
    let mut r: Vec<Seg> = Vec::new();
    let mut i: usize = 0;
    while i < v.len()
        invariant
            i <= v@.len(),
            segs_view(r@) =~= segs_view(v@).take(i as int),
        decreases v.len() - i,
    {
        let ghost b = segs_view(r@);
        r.push((crate::text::owned(v[i].0.as_str()), v[i].1));
        assert(segs_view(r@) =~= b.push(segs_view(v@)[i as int]));
        i += 1;
    }
    r
}

/// The width of a line of runs.
pub fn segs_width(v: &Vec<Seg>) -> (w: usize)
    requires
        width_of(segs_view(v@)) <= usize::MAX,
    ensures
        w == width_of(segs_view(v@)),
{
    let mut w: usize = 0;
    let mut i: usize = 0;
    while i < v.len()
        invariant
            i <= v@.len(),
            width_of(segs_view(v@)) <= usize::MAX,
            w == width_of(segs_view(v@).take(i as int)),
        decreases v.len() - i,
    {
        let t = to_chars(v[i].0.as_str());
        proof {
            let sv = segs_view(v@);
            assert(sv.take(i + 1).drop_last() =~= sv.take(i as int));
            crate::tui::wrap::lemma_width_prefix(sv, i + 1);
        }
        w = w + t.len();
        i += 1;
    }
    assert(segs_view(v@).take(i as int) =~= segs_view(v@));
    w
}

fn push_cell_piece(out: &mut Vec<Seg>, content: Vec<Seg>, w: usize, a: Align, base: Style)
    requires
        width_of(segs_view(content@)) <= usize::MAX,
        w < usize::MAX,
    ensures
        segs_view(final(out)@) == segs_view(old(out)@) + cell_piece(segs_view(content@), w as nat, a, base),
{
    let cw = segs_width(&content);
    let pad = if w >= cw { w - cw } else { 0 };
    let (lp, rp) = match a {
        Align::Left => (0, pad),
        Align::Right => (pad, 0),
        Align::Center => (pad / 2, pad - pad / 2),
    };
    let ghost o = segs_view(out@);
    let ghost cv = segs_view(content@);
    let mut bar: Vec<char> = Vec::new();
    crate::text::push_str(&mut bar, "│ ");
    out.push((from_chars(bar.as_slice()), border()));
    let ghost o1 = segs_view(out@);
    assert(o1 =~= o + seq![("│ "@, border_style())]);
    if lp > 0 {
        let mut sp: Vec<char> = Vec::new();
        push_repeat(&mut sp, ' ', lp);
        out.push((from_chars(sp.as_slice()), base));
    }
    let ghost o2 = segs_view(out@);
    assert(o2 =~= o1 + (if lp > 0 { seq![(repeat(' ', lp as nat), base)] } else { seq![] }));
    let mut k: usize = 0;
    while k < content.len()
        invariant
            k <= content@.len(),
            cv == segs_view(content@),
            segs_view(out@) =~= o2 + cv.take(k as int),
        decreases content.len() - k,
    {
        let ghost b = segs_view(out@);
        out.push((crate::text::owned(content[k].0.as_str()), content[k].1));
        assert(segs_view(out@) =~= b.push(cv[k as int]));
        k += 1;
    }
    assert(cv.take(k as int) =~= cv);
    let mut sp: Vec<char> = Vec::new();
    push_repeat(&mut sp, ' ', rp + 1);
    let ghost o3 = segs_view(out@);
    out.push((from_chars(sp.as_slice()), border()));
    assert(segs_view(out@) =~= o3.push((repeat(' ', (rp + 1) as nat), border_style())));
    assert(segs_view(out@) =~= o + cell_piece(cv, w as nat, a, base));
}

/// Appends the physical lines of one table row to `out`.
#[verifier::rlimit(40)]
fn render_row(out: &mut Vec<Vec<Seg>>, row: &Vec<String>, base: Style, widths: &Vec<usize>, aligns: &Vec<Align>)
    requires
        row@.len() == widths@.len(),
        aligns@.len() == widths@.len(),
        forall|i: int| 0 <= i < widths@.len() ==> #[trigger] widths@[i] < usize::MAX / 2,
    ensures
        lines_view(final(out)@) == lines_view(old(out)@) + row_block(
            string_views(row@),
            base,
            nats(widths@),
            aligns@,
        ),
{
    let ncols = widths.len();
    let ghost rv = string_views(row@);
    let ghost ws = nats(widths@);
    let mut cells: Vec<Vec<Vec<Seg>>> = Vec::new();
    let mut height: usize = 1;
    let mut ci: usize = 0;
    while ci < ncols
        invariant
            ci <= ncols,
            ncols == widths@.len(),
            row@.len() == ncols,
            rv == string_views(row@),
            ws == nats(widths@),
            cells@.len() == ci,
            forall|q: int| 0 <= q < ci ==> #[trigger] lines_view(cells@[q]@) == cell_lines(rv[q], base, ws[q]),
            height == row_height(rv, base, ws, ci as int),
        decreases ncols - ci,
    {
        let segs = parse_inline(row[ci].as_str(), base);
        let lines = wrap_segments(segs.as_slice(), widths[ci]);
        assert(rv[ci as int] == row@[ci as int]@);
        assert(ws[ci as int] == widths@[ci as int]);
        if lines.len() > height {
            height = lines.len();
        }
        cells.push(lines);
        ci += 1;
    }
    let ghost block = row_block(rv, base, ws, aligns@);
    let ghost o = lines_view(out@);
    let mut h: usize = 0;
    while h < height
        invariant
            h <= height,
            ncols == widths@.len(),
            aligns@.len() == ncols,
            forall|i: int| 0 <= i < widths@.len() ==> #[trigger] widths@[i] < usize::MAX / 2,
            rv == string_views(row@),
            ws == nats(widths@),
            cells@.len() == ncols,
            forall|q: int| 0 <= q < ncols ==> #[trigger] lines_view(cells@[q]@) == cell_lines(rv[q], base, ws[q]),
            height == row_height(rv, base, ws, ncols as int),
            block == row_block(rv, base, ws, aligns@),
            lines_view(out@) =~= o + block.take(h as int),
        decreases height - h,
    {
        let mut line: Vec<Seg> = Vec::new();
        let mut ci: usize = 0;
        while ci < ncols
            invariant
                ci <= ncols,
                h < height,
                ncols == widths@.len(),
                aligns@.len() == ncols,
                forall|i: int| 0 <= i < widths@.len() ==> #[trigger] widths@[i] < usize::MAX / 2,
                rv == string_views(row@),
                ws == nats(widths@),
                cells@.len() == ncols,
                forall|q: int| 0 <= q < ncols ==> #[trigger] lines_view(cells@[q]@) == cell_lines(rv[q], base, ws[q]),
                segs_view(line@) == row_line_prefix(rv, base, ws, aligns@, h as int, ci as int),
            decreases ncols - ci,
        {
            let ghost cl = cell_lines(rv[ci as int], base, ws[ci as int]);
            assert(lines_view(cells@[ci as int]@) == cl);
            let content = if h < cells[ci].len() {
                copy_segs(&cells[ci][h])
            } else {
                Vec::new()
            };
            proof {
                crate::tui::wrap::law_wrapped_lines_fit(inline_spec(rv[ci as int], base), ws[ci as int]);
                if h < cl.len() {
                    assert(segs_view(content@) == cl[h as int]);
                } else {
                    assert(segs_view(content@) =~= seq![]);
                }
                assert(segs_view(content@) == line_of(cl, h as int));
            }
            push_cell_piece(&mut line, content, widths[ci], aligns[ci], base);
            ci += 1;
        }
        let ghost lv = segs_view(line@);
        let mut bar: Vec<char> = Vec::new();
        crate::text::push_str(&mut bar, "│");
        line.push((from_chars(bar.as_slice()), border()));
        assert(segs_view(line@) =~= lv + seq![("│"@, border_style())]);
        let ghost before = lines_view(out@);
        let ghost l = line@;
        out.push(line);
        proof {
            assert(lines_view(out@) =~= before.push(segs_view(l)));
            assert(block[h as int] == row_line(rv, base, ws, aligns@, h as int));
            assert(block.take(h + 1) =~= block.take(h as int).push(block[h as int]));
        }
        h += 1;
    }
    assert(block.take(h as int) =~= block);
}


/// Render a GFM table (`rows[0]` header, `rows[1]` delimiter, remaining rows the
/// body) into styled lines within `avail` columns, using a full box-drawing
/// grid. Cell contents keep inline markdown and are wrapped to fit.
#[verifier::rlimit(60)]
pub fn render_table(rows: &[&str], avail: usize) -> (r: Vec<Vec<Seg>>)
    requires
        rows@.len() >= 1,
        rows@[0]@.len() < usize::MAX / 128,
    ensures
        lines_view(r@) == table_spec(str_views(rows@), avail as nat),
{
    let ghost rs = str_views(rows@);
    let header = split_table_row(rows[0]);
    proof {
        lemma_row_cells_len(rs[0]);
    }
    let ncols = if header.len() >= 1 { header.len() } else { 1 };
    let delim = if rows.len() > 1 { split_table_row(rows[1]) } else { split_table_row("") };
    proof {
        reveal_strlit("");
        if rows@.len() > 1 {
            assert(rows@[1]@ == rs[1]);
        } else {
            assert(""@ =~= Seq::<char>::empty());
        }
        assert(string_views(delim@) == row_cells(if rs.len() > 1 { rs[1] } else { seq![] }));
    }
    let ghost al = table_aligns(rs);
    let mut aligns: Vec<Align> = Vec::new();
    let mut i: usize = 0;
    while i < ncols
        invariant
            i <= ncols,
            ncols == table_cols(rs),
            al == table_aligns(rs),
            string_views(delim@) == row_cells(if rs.len() > 1 { rs[1] } else { seq![] }),
            aligns@ =~= al.take(i as int),
        decreases ncols - i,
    {
        if i < delim.len() {
            aligns.push(parse_align(delim[i].as_str()));
        } else {
            aligns.push(Align::Left);
        }
        i += 1;
    }
    assert(al.take(ncols as int) =~= al);
    let ghost g = table_grid(rs);
    let mut grid: Vec<Vec<String>> = Vec::new();
    let first = fit_cols(header.as_slice(), ncols);
    assert(string_views(first@).len() == first@.len());
    grid.push(first);
    let mut k: usize = 2;
    proof {
        let tail = (if rs.len() > 2 { rs.skip(2) } else { seq![] }).map_values(
            |r: Seq<char>| fit_spec(row_cells(r), ncols as nat),
        );
        assert(grid_views(grid@) =~= g.take(1));
    }
    while k < rows.len()
        invariant
            2 <= k,
            k <= rows@.len() || k == 2,
            rs == str_views(rows@),
            ncols == table_cols(rs),
            g == table_grid(rs),
            grid@.len() == k - 1,
            grid_views(grid@) =~= g.take(k - 1),
            forall|q: int| 0 <= q < grid@.len() ==> #[trigger] grid@[q]@.len() == ncols,
        decreases rows.len() - k,
    {
        let cells = split_table_row(rows[k]);
        let fitted = fit_cols(cells.as_slice(), ncols);
        assert(string_views(fitted@).len() == fitted@.len());
        let ghost before = grid_views(grid@);
        grid.push(fitted);
        proof {
            assert(rs[k as int] == rows@[k as int]@);
            assert(g[k - 1] == fit_spec(row_cells(rs[k as int]), ncols as nat));
            assert(grid_views(grid@) =~= before.push(g[k - 1]));
            assert(g.take(k as int) =~= g.take(k - 1).push(g[k - 1]));
        }
        k += 1;
    }
    assert(g.take(grid@.len() as int) =~= g);
    let widths = column_widths(grid.as_slice(), ncols, avail);
    assert(ncols <= usize::MAX / 128);
    assert(40 * ncols < usize::MAX / 2) by (nonlinear_arith)
        requires
            ncols <= usize::MAX / 128,
            usize::MAX >= 255,
    ;
    let ghost ws = nats(widths@);
    assert(ws == widths_spec(g, ncols as nat, avail as nat));
    let mut out: Vec<Vec<Seg>> = Vec::new();
    out.push(table_rule(&widths, "┌", "┬", "┐"));
    let mut ri: usize = 0;
    proof {
        assert(lines_view(out@) =~= seq![rule_spec(ws, "┌"@, "┬"@, "┐"@)] + table_rows(g, ws, al, 0));
    }
    while ri < grid.len()
        invariant
            ri <= grid@.len(),
            grid_views(grid@) == g,
            ws == nats(widths@),
            widths@.len() == ncols,
            aligns@ == al,
            al.len() == ncols,
            forall|q: int| 0 <= q < grid@.len() ==> #[trigger] grid@[q]@.len() == ncols,
            forall|q: int| 0 <= q < widths@.len() ==> #[trigger] widths@[q] <= 40 * ncols,
            40 * ncols < usize::MAX / 2,
            lines_view(out@) =~= seq![rule_spec(ws, "┌"@, "┬"@, "┐"@)] + table_rows(g, ws, al, ri as int),
        decreases grid.len() - ri,
    {
        let base = if ri == 0 {
            Style::plain().with_fg(make_rgb(0xCC, 0xCC, 0xCC)).bold()
        } else {
            Style::plain().with_fg(make_rgb(0xCC, 0xCC, 0xCC))
        };
        assert(string_views(grid@[ri as int]@) == g[ri as int]);
        let ghost o = lines_view(out@);
        render_row(&mut out, &grid[ri], base, &widths, &aligns);
        if ri == 0 {
            let ghost o2 = lines_view(out@);
            let rule = table_rule(&widths, "├", "┼", "┤");
            out.push(rule);
            assert(lines_view(out@) =~= o2.push(rule_spec(ws, "├"@, "┼"@, "┤"@)));
        }
        ri += 1;
    }
    let ghost o = lines_view(out@);
    let rule = table_rule(&widths, "└", "┴", "┘");
    out.push(rule);
    assert(lines_view(out@) =~= o.push(rule_spec(ws, "└"@, "┴"@, "┘"@)));
    out
}


/// The pieces of `s` between the separators `c` (`str::split` with a char).
pub fn split_char(s: &[char], c: char) -> (r: Vec<String>)
    ensures
        string_views(r@) == split_on(s@, c),
{
    let mut out: Vec<String> = Vec::new();
    let mut i: usize = 0;
    let n = s.len();
    assert(s@.skip(0) =~= s@);
    loop
        invariant
            n == s@.len(),
            i <= n,
            string_views(out@) + split_on(s@.skip(i as int), c) == split_on(s@, c),
        decreases n - i,
    {
        let ghost rest = s@.skip(i as int);
        proof {
            lemma_first_from_range(rest, c, 0);
            crate::text::lemma_first_from_shift(s@, c, i as int, i as int);
        }
        match find_char_from(s, c, i) {
            Some(j) => {
                let piece = slice_chars(s, i, j);
                let ghost before = out@;
                out.push(from_chars(piece.as_slice()));
                proof {
                    assert(first_from(rest, c, 0) == Some(j - i));
                    assert(rest.take(j - i) =~= piece@);
                    assert(rest.skip(j - i + 1) =~= s@.skip(j + 1));
                    assert(split_on(rest, c) == seq![piece@] + split_on(s@.skip(j + 1), c));
                    assert(string_views(out@) =~= string_views(before).push(piece@));
                }
                i = j + 1;
            },
            None => {
                let piece = slice_chars(s, i, n);
                let ghost before = out@;
                out.push(from_chars(piece.as_slice()));
                proof {
                    assert(first_from(rest, c, 0) is None);
                    assert(rest =~= piece@);
                    assert(split_on(rest, c) == seq![rest]);
                    assert(string_views(out@) =~= string_views(before).push(piece@));
                }
                return out;
            },
        }
    }
}

/// No piece of a split is longer than what was split.
pub proof fn lemma_split_pieces(s: Seq<char>, c: char)
    ensures
        forall|k: int| 0 <= k < split_on(s, c).len() ==> #[trigger] split_on(s, c)[k].len() <= s.len(),
    decreases s.len(),
{
    lemma_first_from_range(s, c, 0);
    match first_from(s, c, 0) {
        Some(i) => {
            if 0 <= i < s.len() {
                lemma_split_pieces(s.skip(i + 1), c);
                let t = split_on(s.skip(i + 1), c);
                assert forall|k: int| 0 <= k < split_on(s, c).len() implies #[trigger] split_on(s, c)[k].len() <= s.len() by {
                    if k > 0 {
                        assert(split_on(s, c)[k] == t[k - 1]);
                    }
                }
            }
        },
        None => {},
    }
}


proof fn lemma_rule_body_len(ws: Seq<nat>, mid: Seq<char>)
    requires
        mid.len() == 1,
    ensures
        ws.len() >= 1 ==> rule_body(ws, mid).len() == total(ws) + 3 * ws.len() - 1,
        ws.len() == 0 ==> rule_body(ws, mid).len() == 0,
    decreases ws.len(),
{
    if ws.len() > 0 {
        lemma_rule_body_len(ws.drop_last(), mid);
    }
}

proof fn lemma_rule_width(ws: Seq<nat>, l: Seq<char>, m: Seq<char>, r: Seq<char>)
    requires
        l.len() == 1,
        m.len() == 1,
        r.len() == 1,
        ws.len() >= 1,
    ensures
        width_of(rule_spec(ws, l, m, r)) == total(ws) + 3 * ws.len() + 1,
{
    lemma_rule_body_len(ws, m);
    crate::tui::wrap::lemma_width_single((l + rule_body(ws, m) + r, border_style()));
}

proof fn lemma_piece_width(content: Seq<(Seq<char>, Style)>, w: nat, a: Align, base: Style)
    requires
        width_of(content) <= w,
    ensures
        width_of(cell_piece(content, w, a, base)) == w + 3,
{
    let cw = width_of(content);
    let pad = (w - cw) as nat;
    let p = pads(a, pad);
    let bar: Seq<(Seq<char>, Style)> = seq![("│ "@, border_style())];
    let lead: Seq<(Seq<char>, Style)> = if p.0 > 0 { seq![(repeat(' ', p.0), base)] } else { seq![] };
    let tail: Seq<(Seq<char>, Style)> = seq![(repeat(' ', p.1 + 1), border_style())];
    reveal_strlit("│ ");
    crate::tui::wrap::lemma_width_single(("│ "@, border_style()));
    crate::tui::wrap::lemma_width_single((repeat(' ', p.0), base));
    crate::tui::wrap::lemma_width_single((repeat(' ', p.1 + 1), border_style()));
    assert(width_of(Seq::<(Seq<char>, Style)>::empty()) == 0);
    lemma_width_concat(bar, lead);
    lemma_width_concat(bar + lead, content);
    lemma_width_concat(bar + lead + content, tail);
}

proof fn lemma_row_prefix_width(
    row: Seq<Seq<char>>,
    base: Style,
    ws: Seq<nat>,
    al: Seq<Align>,
    h: int,
    k: int,
)
    requires
        0 <= k <= ws.len(),
        forall|i: int| 0 <= i < ws.len() ==> #[trigger] ws[i] >= 1,
    ensures
        width_of(row_line_prefix(row, base, ws, al, h, k)) == total(ws.take(k)) + 3 * k,
    decreases k,
{
    if k > 0 {
        lemma_row_prefix_width(row, base, ws, al, h, k - 1);
        let cl = cell_lines(row[k - 1], base, ws[k - 1]);
        crate::tui::wrap::law_wrapped_lines_fit(inline_spec(row[k - 1], base), ws[k - 1]);
        assert(width_of(line_of(cl, h)) <= ws[k - 1]) by {
            if !(0 <= h < cl.len()) {
                assert(line_of(cl, h) =~= Seq::<(Seq<char>, Style)>::empty());
            }
        }
        lemma_piece_width(line_of(cl, h), ws[k - 1], al[k - 1], base);
        lemma_width_concat(
            row_line_prefix(row, base, ws, al, h, k - 1),
            cell_piece(line_of(cl, h), ws[k - 1], al[k - 1], base),
        );
        lemma_total_take(ws, k - 1);
    } else {
        assert(ws.take(0) =~= Seq::<nat>::empty());
    }
}

proof fn lemma_row_width(row: Seq<Seq<char>>, base: Style, ws: Seq<nat>, al: Seq<Align>, h: int)
    requires
        forall|i: int| 0 <= i < ws.len() ==> #[trigger] ws[i] >= 1,
    ensures
        width_of(row_line(row, base, ws, al, h)) == total(ws) + 3 * ws.len() + 1,
{
    lemma_row_prefix_width(row, base, ws, al, h, ws.len() as int);
    assert(ws.take(ws.len() as int) =~= ws);
    reveal_strlit("│");
    let end: Seq<(Seq<char>, Style)> = seq![("│"@, border_style())];
    crate::tui::wrap::lemma_width_single(("│"@, border_style()));
    lemma_width_concat(row_line_prefix(row, base, ws, al, h, ws.len() as int), end);
}

proof fn lemma_rows_width(grid: Seq<Seq<Seq<char>>>, ws: Seq<nat>, al: Seq<Align>, k: int)
    requires
        ws.len() >= 1,
        forall|i: int| 0 <= i < ws.len() ==> #[trigger] ws[i] >= 1,
    ensures
        forall|i: int|
            0 <= i < table_rows(grid, ws, al, k).len() ==> width_of(#[trigger] table_rows(grid, ws, al, k)[i])
                == total(ws) + 3 * ws.len() + 1,
    decreases k,
{
    if k > 0 {
        lemma_rows_width(grid, ws, al, k - 1);
        let prev = table_rows(grid, ws, al, k - 1);
        let base = if k == 1 { header_style() } else { body_style() };
        let block = row_block(grid[k - 1], base, ws, al);
        let rule: Seq<Seq<(Seq<char>, Style)>> = if k == 1 { seq![rule_spec(ws, "├"@, "┼"@, "┤"@)] } else { seq![] };
        reveal_strlit("├");
        reveal_strlit("┼");
        reveal_strlit("┤");
        lemma_rule_width(ws, "├"@, "┼"@, "┤"@);
        let all = table_rows(grid, ws, al, k);
        assert(all == prev + block + rule);
        assert forall|i: int| 0 <= i < all.len() implies width_of(#[trigger] all[i]) == total(ws) + 3 * ws.len() + 1 by {
            if i < prev.len() {
                assert(all[i] == prev[i]);
            } else if i < prev.len() + block.len() {
                assert(all[i] == block[i - prev.len()]);
                lemma_row_width(grid[k - 1], base, ws, al, i - prev.len());
            } else {
                assert(all[i] == rule[i - prev.len() - block.len()]);
            }
        }
    }
}

/// Every line of a rendered table fits the columns it was given, whenever
/// there is room for one column of text per table column.
pub proof fn law_table_fits(rows: Seq<Seq<char>>, avail: nat)
    requires
        rows.len() >= 1,
        avail >= 4 * table_cols(rows) + 1,
    ensures
        forall|i: int| 0 <= i < table_spec(rows, avail).len() ==> width_of(#[trigger] table_spec(rows, avail)[i]) <= avail,
{
    let grid = table_grid(rows);
    let n = table_cols(rows);
    let ws = widths_spec(grid, n, avail);
    law_columns_fit(grid, n, avail);
    lemma_widths_positive(grid, n, avail);
    lemma_rows_width(grid, ws, table_aligns(rows), grid.len() as int);
    reveal_strlit("┌");
    reveal_strlit("┬");
    reveal_strlit("┐");
    reveal_strlit("└");
    reveal_strlit("┴");
    reveal_strlit("┘");
    lemma_rule_width(ws, "┌"@, "┬"@, "┐"@);
    lemma_rule_width(ws, "└"@, "┴"@, "┘"@);
    let body = table_rows(grid, ws, table_aligns(rows), grid.len() as int);
    let t = table_spec(rows, avail);
    assert forall|i: int| 0 <= i < t.len() implies width_of(#[trigger] t[i]) <= avail by {
        if i == 0 {
            assert(t[i] == rule_spec(ws, "┌"@, "┬"@, "┐"@));
        } else if i < 1 + body.len() {
            assert(t[i] == body[i - 1]);
        } else {
            assert(t[i] == rule_spec(ws, "└"@, "┴"@, "┘"@));
        }
    }
}

} // verus!
