//! Word wrapping of styled runs to a column width.
use vstd::prelude::*;

use crate::tui::style::{lines_view, plain, seg_view, segs_view, Seg, Style};

verus! {

/// A character with its style.
pub type Cell = (char, Style);

/// `dst` with `c` appended, extending the last run when the style matches.
pub open spec fn append_spec(dst: Seq<(Seq<char>, Style)>, c: Cell) -> Seq<(Seq<char>, Style)> {
    if dst.len() > 0 && dst.last().1 == c.1 {
        dst.drop_last().push((dst.last().0.push(c.0), c.1))
    } else {
        dst.push((seq![c.0], c.1))
    }
}

/// `dst` with every cell of `cs` appended in turn.
pub open spec fn append_all(dst: Seq<(Seq<char>, Style)>, cs: Seq<Cell>) -> Seq<(Seq<char>, Style)>
    decreases cs.len(),
{
    if cs.len() == 0 {
        dst
    } else {
        append_spec(append_all(dst, cs.drop_last()), cs.last())
    }
}

/// The runs of a sequence of cells: neighbours of one style share a run.
pub open spec fn runs(cs: Seq<Cell>) -> Seq<(Seq<char>, Style)> {
    append_all(seq![], cs)
}

/// The cells of one run.
pub open spec fn cells_of(s: (Seq<char>, Style)) -> Seq<Cell> {
    s.0.map_values(|c: char| (c, s.1))
}

/// The cells of a list of runs, in order.
pub open spec fn flatten(segs: Seq<(Seq<char>, Style)>) -> Seq<Cell>
    decreases segs.len(),
{
    if segs.len() == 0 {
        seq![]
    } else {
        flatten(segs.drop_last()) + cells_of(segs.last())
    }
}

/// Number of characters in a list of runs: its width in columns.
pub open spec fn width_of(segs: Seq<(Seq<char>, Style)>) -> nat
    decreases segs.len(),
{
    if segs.len() == 0 {
        0
    } else {
        width_of(segs.drop_last()) + segs.last().0.len()
    }
}

/// The wrapping state: finished lines, the line being filled, and the word
/// being read, each as cells.
pub type WrapSt = (Seq<Seq<Cell>>, Seq<Cell>, Seq<Cell>);

/// Place the pending word on the current line, starting a new line first
/// when it would not fit; words on a line are separated by one space.
pub open spec fn place(st: WrapSt, width: nat) -> WrapSt {
    let (lines, line, word) = st;
    let (lines, line) = if line.len() > 0 && line.len() + 1 + word.len() > width {
        (lines.push(line), seq![])
    } else {
        (lines, line)
    };
    let line = if line.len() > 0 { line.push((' ', plain())) } else { line };
    (lines, line + word, seq![])
}

/// Read one cell: a space ends the pending word; any other character joins
/// it, and a word that reaches the full width is split onto a line of its own.
pub open spec fn feed(st: WrapSt, c: Cell, width: nat) -> WrapSt {
    let (lines, line, word) = st;
    if c.0 == ' ' {
        if word.len() > 0 { place(st, width) } else { st }
    } else {
        let word = word.push(c);
        if word.len() == width {
            let lines = if line.len() > 0 { lines.push(line) } else { lines };
            (lines.push(word), seq![], seq![])
        } else {
            (lines, line, word)
        }
    }
}

/// The state after reading `cs` from `st`.
pub open spec fn feed_all(st: WrapSt, cs: Seq<Cell>, width: nat) -> WrapSt
    decreases cs.len(),
{
    if cs.len() == 0 {
        st
    } else {
        feed(feed_all(st, cs.drop_last(), width), cs.last(), width)
    }
}

/// The lines once the input is over: the last word is placed and the last
/// line kept when it holds anything (or when there is no line at all).
pub open spec fn finish(st: WrapSt, width: nat) -> Seq<Seq<Cell>> {
    let st = if st.2.len() > 0 { place(st, width) } else { st };
    if st.1.len() > 0 || st.0.len() == 0 { st.0.push(st.1) } else { st.0 }
}

pub open spec fn at_least_one(width: nat) -> nat {
    if width == 0 { 1 } else { width }
}

/// The lines of `segs` word-wrapped to `width` columns (at least one), each
/// line as runs.
pub open spec fn wrap_spec(segs: Seq<(Seq<char>, Style)>, width: nat) -> Seq<Seq<(Seq<char>, Style)>> {
    finish(feed_all((seq![], seq![], seq![]), flatten(segs), at_least_one(width)), at_least_one(width)).map_values(
        |l: Seq<Cell>| runs(l),
    )
}

pub proof fn lemma_append_all_concat(d: Seq<(Seq<char>, Style)>, a: Seq<Cell>, b: Seq<Cell>)
    ensures
        append_all(append_all(d, a), b) == append_all(d, a + b),
    decreases b.len(),
{
    if b.len() == 0 {
        assert(a + b =~= a);
    } else {
        lemma_append_all_concat(d, a, b.drop_last());
        assert((a + b).drop_last() =~= a + b.drop_last());
        assert((a + b).last() == b.last());
    }
}

pub proof fn lemma_append_all_push(d: Seq<(Seq<char>, Style)>, a: Seq<Cell>, c: Cell)
    ensures
        append_all(d, a.push(c)) == append_spec(append_all(d, a), c),
{
    assert(a.push(c).drop_last() =~= a);
}

pub proof fn lemma_flatten_push(segs: Seq<(Seq<char>, Style)>, s: (Seq<char>, Style))
    ensures
        flatten(segs.push(s)) == flatten(segs) + cells_of(s),
{
    assert(segs.push(s).drop_last() =~= segs);
}

proof fn lemma_flatten_append(d: Seq<(Seq<char>, Style)>, c: Cell)
    ensures
        flatten(append_spec(d, c)) == flatten(d).push(c),
        width_of(append_spec(d, c)) == width_of(d) + 1,
        append_spec(d, c).len() > 0,
{
    if d.len() > 0 && d.last().1 == c.1 {
        let l = d.last();
        let e = d.drop_last().push((l.0.push(c.0), c.1));
        lemma_flatten_push(d.drop_last(), (l.0.push(c.0), c.1));
        assert(d.drop_last().push(l) =~= d);
        lemma_flatten_push(d.drop_last(), l);
        assert(cells_of((l.0.push(c.0), c.1)) =~= cells_of(l).push(c));
        assert(e.drop_last() =~= d.drop_last());
    } else {
        lemma_flatten_push(d, (seq![c.0], c.1));
        assert(cells_of((seq![c.0], c.1)) =~= seq![c]);
        assert(d.push((seq![c.0], c.1)).drop_last() =~= d);
    }
}

/// Grouping cells into runs keeps every cell, in order, and one column each.
pub proof fn lemma_runs(cs: Seq<Cell>)
    ensures
        flatten(runs(cs)) == cs,
        width_of(runs(cs)) == cs.len(),
        cs.len() > 0 <==> runs(cs).len() > 0,
    decreases cs.len(),
{
    if cs.len() > 0 {
        lemma_runs(cs.drop_last());
        lemma_flatten_append(runs(cs.drop_last()), cs.last());
        assert(cs.drop_last().push(cs.last()) =~= cs);
    }
}

/// Appends `c` in `style` to a list of runs, extending the last run if the style matches.
fn append_char(dst: &mut Vec<Seg>, c: char, style: Style)
    ensures
        segs_view(final(dst)@) == append_spec(segs_view(old(dst)@), (c, style)),
{
    let ghost d = segs_view(dst@);
    let n = dst.len();
    if n > 0 && dst[n - 1].1 == style {
        let mut last = dst.pop().unwrap();
        let mut t = crate::text::to_chars(last.0.as_str());
        t.push(c);
        last.0 = crate::text::from_chars(t.as_slice());
        dst.push(last);
        assert(segs_view(dst@) =~= d.drop_last().push((d.last().0.push(c), style)));
    } else {
        let mut t: Vec<char> = Vec::new();
        t.push(c);
        dst.push((crate::text::from_chars(t.as_slice()), style));
        assert(segs_view(dst@) =~= d.push((seq![c], style)));
    }
}

/// Appends the cells of `src`, run by run, to `dst`.
fn append_runs(dst: &mut Vec<Seg>, src: &Vec<Seg>)
    ensures
        segs_view(final(dst)@) == append_all(segs_view(old(dst)@), flatten(segs_view(src@))),
{
    let ghost d0 = segs_view(dst@);
    let mut k: usize = 0;
    proof {
        assert(segs_view(src@).take(0) =~= seq![]);
    }
    while k < src.len()
        invariant
            k <= src@.len(),
            segs_view(dst@) == append_all(d0, flatten(segs_view(src@).take(k as int))),
        decreases src.len() - k,
    {
        let t = crate::text::to_chars(src[k].0.as_str());
        let style = src[k].1;
        let ghost pre = flatten(segs_view(src@).take(k as int));
        let mut j: usize = 0;
        proof {
            assert(pre + cells_of(seg_view(src@[k as int])).take(0) =~= pre);
        }
        while j < t.len()
            invariant
                j <= t@.len(),
                t@ == src@[k as int].0@,
                style == src@[k as int].1,
                segs_view(dst@) == append_all(d0, pre + cells_of(seg_view(src@[k as int])).take(j as int)),
            decreases t.len() - j,
        {
            let ghost cs = pre + cells_of(seg_view(src@[k as int])).take(j as int);
            append_char(dst, t[j], style);
            proof {
                lemma_append_all_push(d0, cs, (t@[j as int], style));
                assert(cs.push((t@[j as int], style)) =~= pre + cells_of(seg_view(src@[k as int])).take(j + 1));
            }
            j += 1;
        }
        proof {
            assert(cells_of(seg_view(src@[k as int])).take(j as int) =~= cells_of(seg_view(src@[k as int])));
            assert(segs_view(src@).take(k + 1) =~= segs_view(src@).take(k as int).push(seg_view(src@[k as int])));
            lemma_flatten_push(segs_view(src@).take(k as int), seg_view(src@[k as int]));
        }
        k += 1;
    }
    assert(segs_view(src@).take(k as int) =~= segs_view(src@));
}

/// Whether the exec state matches the cell state `st`.
pub open spec fn tracks(lines: Seq<Vec<Seg>>, line: Seq<Seg>, line_w: usize, word: Seq<Seg>, word_w: usize, st: WrapSt) -> bool {
    &&& lines_view(lines) == st.0.map_values(|l: Seq<Cell>| runs(l))
    &&& segs_view(line) == runs(st.1)
    &&& line_w == st.1.len()
    &&& segs_view(word) == runs(st.2)
    &&& word_w == st.2.len()
}

/// Lines never exceed the width, and the word never reaches it.
pub open spec fn fits(st: WrapSt, width: nat) -> bool {
    &&& forall|i: int| 0 <= i < st.0.len() ==> #[trigger] st.0[i].len() <= width
    &&& st.1.len() <= width
    &&& st.2.len() < width
}

/// Append one styled word to the current line, wrapping first if it doesn't fit.
fn place_word(
    lines: &mut Vec<Vec<Seg>>,
    line: &mut Vec<Seg>,
    line_w: &mut usize,
    word: &Vec<Seg>,
    word_w: usize,
    width: usize,
    Ghost(st): Ghost<WrapSt>,
)
    requires
        tracks(old(lines)@, old(line)@, *old(line_w), word@, word_w, st),
        fits(st, width as nat),
        width > 0,
    ensures
        tracks(final(lines)@, final(line)@, *final(line_w), seq![], 0, place(st, width as nat)),
        fits(place(st, width as nat), width as nat),
{
    let ghost (l0, c0, w0) = st;
    proof {
        lemma_runs(w0);
    }
    if *line_w > 0 && word_w + 1 > width - *line_w {
        let mut done: Vec<Seg> = Vec::new();
        std::mem::swap(&mut done, line);
        let ghost lv = lines_view(lines@);
        lines.push(done);
        *line_w = 0;
        proof {
            assert(lines_view(lines@) =~= lv.push(segs_view(done@)));
            assert(l0.push(c0).map_values(|l: Seq<Cell>| runs(l)) =~= l0.map_values(|l: Seq<Cell>| runs(l)).push(runs(c0)));
            assert(lines_view(lines@) =~= l0.push(c0).map_values(|l: Seq<Cell>| runs(l)));
            assert(segs_view(line@) =~= runs(seq![]));
        }
    }
    let ghost c1 = if c0.len() > 0 && c0.len() + 1 + w0.len() > width { Seq::<Cell>::empty() } else { c0 };
    if *line_w > 0 {
        append_char(line, ' ', Style::plain());
        *line_w = *line_w + 1;
        proof {
            lemma_append_all_push(seq![], c1, (' ', plain()));
        }
    }
    let ghost c2 = if c1.len() > 0 { c1.push((' ', plain())) } else { c1 };
    append_runs(line, word);
    *line_w = *line_w + word_w;
    proof {
        lemma_append_all_concat(seq![], c2, w0);
        let p = place(st, width as nat);
        assert(p.1 == c2 + w0);
        assert(segs_view(seq![]) =~= runs(seq![]));
        assert forall|i: int| 0 <= i < p.0.len() implies #[trigger] p.0[i].len() <= width by {
            if i < l0.len() {
                assert(p.0[i] == l0[i]);
            }
        }
    }
}

/// Word-wrap a styled run list to `width` columns (at least one), keeping
/// each run's style. Words longer than `width` are hard-split.
#[verifier::rlimit(50)]
pub fn wrap_segments(segs: &[Seg], width: usize) -> (r: Vec<Vec<Seg>>)
    ensures
        lines_view(r@) == wrap_spec(segs_view(segs@), width as nat),
{
    let width = if width == 0 { 1 } else { width };
    let ghost wn = width as nat;
    let ghost all = flatten(segs_view(segs@));
    let mut lines: Vec<Vec<Seg>> = Vec::new();
    let mut line: Vec<Seg> = Vec::new();
    let mut line_w: usize = 0;
    let mut word: Vec<Seg> = Vec::new();
    let mut word_w: usize = 0;
    let ghost init: WrapSt = (seq![], seq![], seq![]);
    let ghost mut st: WrapSt = init;
    proof {
        assert(lines_view(lines@) =~= init.0.map_values(|l: Seq<Cell>| runs(l)));
        assert(segs_view(line@) =~= runs(seq![]));
        assert(segs_view(segs@).take(0) =~= seq![]);
    }
    let mut k: usize = 0;
    while k < segs.len()
        invariant
            width > 0,
            wn == width as nat,
            k <= segs@.len(),
            tracks(lines@, line@, line_w, word@, word_w, st),
            fits(st, wn),
            st == feed_all(init, flatten(segs_view(segs@).take(k as int)), wn),
        decreases segs.len() - k,
    {
        let t = crate::text::to_chars(segs[k].0.as_str());
        let style = segs[k].1;
        let ghost pre = flatten(segs_view(segs@).take(k as int));
        let ghost cells = cells_of(seg_view(segs@[k as int]));
        let mut j: usize = 0;
        proof {
            assert(pre + cells.take(0) =~= pre);
        }
        while j < t.len()
            invariant
                width > 0,
                wn == width as nat,
                j <= t@.len(),
                t@ == segs@[k as int].0@,
                style == segs@[k as int].1,
                cells == cells_of(seg_view(segs@[k as int])),
                tracks(lines@, line@, line_w, word@, word_w, st),
                fits(st, wn),
                st == feed_all(init, pre + cells.take(j as int), wn),
            decreases t.len() - j,
        {
            let c = t[j];
            let ghost cell: Cell = (c, style);
            let ghost next = feed(st, cell, wn);
            proof {
                assert((pre + cells.take(j as int)).push(cell) =~= pre + cells.take(j + 1));
                assert(feed_all(init, (pre + cells.take(j as int)).push(cell), wn) == next) by {
                    assert((pre + cells.take(j as int)).push(cell).drop_last() =~= pre + cells.take(j as int));
                }
            }
            if c == ' ' {
                if word_w > 0 {
                    place_word(&mut lines, &mut line, &mut line_w, &word, word_w, width, Ghost(st));
                    word = Vec::new();
                    word_w = 0;
                    proof {
                        st = next;
                        assert(segs_view(word@) =~= runs(seq![]));
                    }
                }
            } else {
                let ghost w1 = st.2.push(cell);
                append_char(&mut word, c, style);
                word_w = word_w + 1;
                proof {
                    lemma_append_all_push(seq![], st.2, cell);
                    lemma_runs(w1);
                }
                if word_w == width {
                    // Hard-split an over-long word onto its own line(s).
                    if line.len() > 0 {
                        proof {
                            lemma_runs(st.1);
                        }
                        let mut done: Vec<Seg> = Vec::new();
                        std::mem::swap(&mut done, &mut line);
                        let ghost lv = lines_view(lines@);
                        lines.push(done);
                        line_w = 0;
                        proof {
                            assert(lines_view(lines@) =~= lv.push(segs_view(done@)));
                            assert(st.0.push(st.1).map_values(|l: Seq<Cell>| runs(l)) =~= st.0.map_values(|l: Seq<Cell>| runs(l)).push(runs(st.1)));
                        }
                    } else {
                        proof {
                            lemma_runs(st.1);
                        }
                    }
                    let mut full: Vec<Seg> = Vec::new();
                    std::mem::swap(&mut full, &mut word);
                    let ghost lv1 = lines_view(lines@);
                    lines.push(full);
                    word_w = 0;
                    proof {
                        let l1 = if st.1.len() > 0 { st.0.push(st.1) } else { st.0 };
                        assert(lines_view(lines@) =~= lv1.push(segs_view(full@)));
                        assert(l1.push(w1).map_values(|l: Seq<Cell>| runs(l)) =~= l1.map_values(|l: Seq<Cell>| runs(l)).push(runs(w1)));
                        assert(lines_view(lines@) =~= l1.push(w1).map_values(|l: Seq<Cell>| runs(l)));
                        assert(segs_view(word@) =~= runs(seq![]));
                        assert(segs_view(line@) =~= runs(seq![]));
                        assert forall|i: int| 0 <= i < next.0.len() implies #[trigger] next.0[i].len() <= wn by {
                            if i < st.0.len() {
                                assert(next.0[i] == st.0[i]);
                            }
                        }
                        st = next;
                    }
                } else {
                    proof {
                        st = next;
                    }
                }
            }
            j += 1;
        }
        proof {
            assert(cells.take(j as int) =~= cells);
            assert(segs_view(segs@).take(k + 1) =~= segs_view(segs@).take(k as int).push(seg_view(segs@[k as int])));
            lemma_flatten_push(segs_view(segs@).take(k as int), seg_view(segs@[k as int]));
        }
        k += 1;
    }
    proof {
        assert(segs_view(segs@).take(k as int) =~= segs_view(segs@));
    }
    let ghost st2 = if st.2.len() > 0 { place(st, wn) } else { st };
    if word_w > 0 {
        place_word(&mut lines, &mut line, &mut line_w, &word, word_w, width, Ghost(st));
    }
    proof {
        lemma_runs(st2.1);
    }
    if line.len() > 0 || lines.len() == 0 {
        let ghost lv = lines_view(lines@);
        let ghost lx = line@;
        lines.push(line);
        proof {
            assert(lines_view(lines@) =~= lv.push(segs_view(lx)));
            assert(st2.0.push(st2.1).map_values(|l: Seq<Cell>| runs(l)) =~= st2.0.map_values(|l: Seq<Cell>| runs(l)).push(runs(st2.1)));
            assert(lines_view(lines@) =~= st2.0.push(st2.1).map_values(|l: Seq<Cell>| runs(l)));
        }
    }
    lines
}

/// Wrapped lines never exceed the width they were wrapped to (one column at
/// least), and there is always at least one line.
pub proof fn law_wrapped_lines_fit(segs: Seq<(Seq<char>, Style)>, width: nat)
    ensures
        wrap_spec(segs, width).len() >= 1,
        forall|i: int|
            0 <= i < wrap_spec(segs, width).len() ==> width_of(#[trigger] wrap_spec(segs, width)[i])
                <= at_least_one(width),
{
    let w = at_least_one(width);
    let st = feed_all((seq![], seq![], seq![]), flatten(segs), w);
    lemma_feed_all_fits(flatten(segs), w);
    if st.2.len() > 0 {
        lemma_place_fits(st, w);
    }
    let st2 = if st.2.len() > 0 { place(st, w) } else { st };
    let ls = finish(st, w);
    assert forall|i: int| 0 <= i < ls.len() implies #[trigger] ls[i].len() <= w by {
        if i < st2.0.len() {
            assert(ls[i] == st2.0[i]);
        }
    }
    assert forall|i: int| 0 <= i < ls.len() implies width_of(#[trigger] wrap_spec(segs, width)[i]) <= w by {
        lemma_runs(ls[i]);
    }
}

proof fn lemma_place_fits(st: WrapSt, width: nat)
    requires
        fits(st, width),
    ensures
        fits(place(st, width), width),
{
    let p = place(st, width);
    assert forall|i: int| 0 <= i < p.0.len() implies #[trigger] p.0[i].len() <= width by {
        if i < st.0.len() {
            assert(p.0[i] == st.0[i]);
        }
    }
}

proof fn lemma_feed_all_fits(cs: Seq<Cell>, width: nat)
    requires
        width > 0,
    ensures
        fits(feed_all((seq![], seq![], seq![]), cs, width), width),
    decreases cs.len(),
{
    if cs.len() > 0 {
        lemma_feed_all_fits(cs.drop_last(), width);
        let st = feed_all((seq![], seq![], seq![]), cs.drop_last(), width);
        let c = cs.last();
        let n = feed(st, c, width);
        if c.0 == ' ' {
            if st.2.len() > 0 {
                lemma_place_fits(st, width);
            }
        } else {
            assert forall|i: int| 0 <= i < n.0.len() implies #[trigger] n.0[i].len() <= width by {
                if i < st.0.len() {
                    assert(n.0[i] == st.0[i]);
                }
            }
        }
    }
}


/// The width of a prefix of a line is that of the shorter prefix plus the
/// next run, and never above the whole line's width.
pub proof fn lemma_width_prefix(segs: Seq<(Seq<char>, Style)>, i: int)
    requires
        0 < i <= segs.len(),
    ensures
        width_of(segs.take(i)) == width_of(segs.take(i - 1)) + segs[i - 1].0.len(),
        width_of(segs.take(i)) <= width_of(segs),
    decreases segs.len() - i,
{
    assert(segs.take(i).drop_last() =~= segs.take(i - 1));
    if i < segs.len() {
        lemma_width_prefix(segs, i + 1);
    } else {
        assert(segs.take(i) =~= segs);
    }
}


/// The width of two lines of runs put together.
pub proof fn lemma_width_concat(a: Seq<(Seq<char>, Style)>, b: Seq<(Seq<char>, Style)>)
    ensures
        width_of(a + b) == width_of(a) + width_of(b),
    decreases b.len(),
{
    if b.len() > 0 {
        lemma_width_concat(a, b.drop_last());
        assert((a + b).drop_last() =~= a + b.drop_last());
    } else {
        assert(a + b =~= a);
    }
}


/// The width of a single run is its length.
pub proof fn lemma_width_single(x: (Seq<char>, Style))
    ensures
        width_of(seq![x]) == x.0.len(),
{
    assert(seq![x].drop_last() =~= Seq::<(Seq<char>, Style)>::empty());
    assert(width_of(Seq::<(Seq<char>, Style)>::empty()) == 0);
}

} // verus!
