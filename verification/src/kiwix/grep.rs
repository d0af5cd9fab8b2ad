//! Searching an article's plain text for lines that contain a query.
use vstd::prelude::*;

use crate::kiwix::{GrepArticleResult, GrepBlock, string_views};
use crate::text::{
    contains, contains_seq, from_chars, lines_of, lowercase, split_lines, to_chars, to_lowercase,
    views,
};

verus! {

/// Whether an already lower-cased line holds the (lower-cased) needle; an
/// empty needle is held by no line.
pub open spec fn line_hit(low: Seq<char>, needle: Seq<char>) -> bool {
    needle.len() > 0 && contains_seq(low, needle)
}

/// Whether an article line matches the (already lower-cased) needle.
pub open spec fn line_matches(line: Seq<char>, needle: Seq<char>) -> bool {
    line_hit(lowercase(line), needle)
}

/// The lines of `text`, each lower-cased.
pub open spec fn lowered_lines(text: Seq<char>) -> Seq<Seq<char>> {
    lines_of(text).map_values(|l: Seq<char>| lowercase(l))
}

/// Indices, in increasing order, of the lines among the first `k` of the
/// lower-cased lines `low` that hold the needle.
pub open spec fn match_indices(low: Seq<Seq<char>>, needle: Seq<char>, k: int) -> Seq<int>
    decreases k,
{
    if k <= 0 {
        seq![]
    } else {
        let prev = match_indices(low, needle, k - 1);
        if line_hit(low[k - 1], needle) {
            prev.push(k - 1)
        } else {
            prev
        }
    }
}

/// The inclusive window `[i - context, i + context]` clipped to lines `0..n`.
pub open spec fn window(i: int, context: int, n: int) -> (int, int) {
    (vstd::math::max(i - context, 0), vstd::math::min(i + context, n - 1))
}

/// The windows around the matches `ms`, where a window that touches or overlaps
/// the previous block is merged into it.
pub open spec fn merge_windows(ms: Seq<int>, context: int, n: int) -> Seq<(int, int)>
    decreases ms.len(),
{
    if ms.len() == 0 {
        seq![]
    } else {
        let prev = merge_windows(ms.drop_last(), context, n);
        let w = window(ms.last(), context, n);
        if prev.len() > 0 && w.0 <= prev.last().1 + 1 {
            prev.update(prev.len() - 1, (prev.last().0, vstd::math::max(prev.last().1, w.1)))
        } else {
            prev.push(w)
        }
    }
}

/// The needle searched for: the lower-cased query, or nothing for an empty
/// query (which therefore matches no line).
pub open spec fn grep_needle(query: Seq<char>) -> Seq<char> {
    if query.len() == 0 { seq![] } else { lowercase(query) }
}

/// Indices of the lines of `text` that contain `query`, ignoring case.
pub open spec fn grep_matches(text: Seq<char>, query: Seq<char>) -> Seq<int> {
    match_indices(lowered_lines(text), grep_needle(query), lines_of(text).len() as int)
}

/// The reported line intervals for lines whose lower-cased forms are `low`.
pub open spec fn prepared_windows(low: Seq<Seq<char>>, needle: Seq<char>, context: int) -> Seq<(int, int)> {
    merge_windows(match_indices(low, needle, low.len() as int), context, low.len() as int)
}

/// The line intervals (inclusive, 0-based) reported for `text` and `query`.
pub open spec fn grep_windows(text: Seq<char>, query: Seq<char>, context: int) -> Seq<(int, int)> {
    merge_windows(grep_matches(text, query), context, lines_of(text).len() as int)
}

/// The view of a block: its 1-based first line and its lines.
pub open spec fn block_view(b: GrepBlock) -> (int, Seq<Seq<char>>) {
    (b.start_line as int, string_views(b.lines@))
}

proof fn lemma_match_indices_bounds(lines: Seq<Seq<char>>, needle: Seq<char>, k: int)
    requires
        0 <= k <= lines.len(),
    ensures
        forall|t: int|
            0 <= t < match_indices(lines, needle, k).len() ==> 0 <= #[trigger] match_indices(
                lines,
                needle,
                k,
            )[t] < k,
        forall|t: int, u: int|
            0 <= t < u < match_indices(lines, needle, k).len() ==> #[trigger] match_indices(
                lines,
                needle,
                k,
            )[t] < #[trigger] match_indices(lines, needle, k)[u],
        match_indices(lines, needle, k).len() <= k,
    decreases k,
{
    if k > 0 {
        lemma_match_indices_bounds(lines, needle, k - 1);
    }
}

proof fn lemma_no_needle_no_match(lines: Seq<Seq<char>>, k: int)
    ensures
        match_indices(lines, seq![], k) == Seq::<int>::empty(),
    decreases k,
{
    if k > 0 {
        lemma_no_needle_no_match(lines, k - 1);
    }
}

/// The search over prepared lines: `lowered[i]` is line `i` lower-cased and
/// `needle` the lower-cased query (empty when no line is to match). The lines
/// that hold the needle are reported with `context` lines before and after;
/// overlapping or directly adjacent windows are merged into one block.
pub fn grep_prepared(lines: Vec<Vec<char>>, lowered: Vec<Vec<char>>, needle: Vec<char>, context: usize) -> (r:
    GrepArticleResult)
    requires
        lowered@.len() == lines@.len(),
    ensures
        r.total_lines == lines@.len(),
        r.match_count == match_indices(views(lowered@), needle@, lines@.len() as int).len(),
        r.blocks@.len() == prepared_windows(views(lowered@), needle@, context as int).len(),
        forall|j: int|
            0 <= j < r.blocks@.len() ==> #[trigger] block_view(r.blocks@[j]) == ({
                let w = prepared_windows(views(lowered@), needle@, context as int)[j];
                (w.0 + 1, views(lines@).subrange(w.0, w.1 + 1))
            }),
{
    let n = lines.len();
    let ghost ls = views(lines@);
    let ghost low = views(lowered@);

    // Indices of the matching lines.
    let mut ms: Vec<usize> = Vec::new();
    let mut i: usize = 0;
    while i < n
        invariant
            n == lines@.len(),
            n == lowered@.len(),
            views(lines@) == ls,
            views(lowered@) == low,
            i <= n,
            ms@.map_values(|m: usize| m as int) == match_indices(low, needle@, i as int),
        decreases n - i,
    {
        let mut matched = false;
        if needle.len() > 0 {
            matched = contains(lowered[i].as_slice(), needle.as_slice());
            assert(lowered@[i as int]@ == low[i as int]);
        }
        let ghost before = ms@;
        if matched {
            ms.push(i);
        }
        i += 1;
        proof {
            assert(ms@.map_values(|m: usize| m as int) =~= match_indices(low, needle@, i as int));
        }
    }
    let ghost msv = ms@.map_values(|m: usize| m as int);
    proof {
        lemma_match_indices_bounds(low, needle@, n as int);
    }

    // Merge the context windows.
    let mut wins: Vec<(usize, usize)> = Vec::new();
    let mut k: usize = 0;
    while k < ms.len()
        invariant
            n == ls.len(),
            msv == ms@.map_values(|m: usize| m as int),
            forall|t: int| 0 <= t < msv.len() ==> 0 <= #[trigger] msv[t] < n,
            k <= ms@.len(),
            wins@.map_values(|w: (usize, usize)| (w.0 as int, w.1 as int)) == merge_windows(
                msv.take(k as int),
                context as int,
                n as int,
            ),
            forall|t: int| 0 <= t < wins@.len() ==> #[trigger] wins@[t].1 < n,
            forall|t: int| 0 <= t < wins@.len() ==> #[trigger] wins@[t].0 <= wins@[t].1,
        decreases ms.len() - k,
    {
        let m = ms[k];
        assert(msv[k as int] == m);
        let start = if m >= context { m - context } else { 0 };
        let end = if context <= n - 1 - m { m + context } else { n - 1 };
        proof {
            assert(msv.take(k + 1).drop_last() =~= msv.take(k as int));
            assert(msv.take(k + 1).last() == m);
        }
        if wins.len() > 0 && start <= wins[wins.len() - 1].1 + 1 {
            let last = wins.pop().unwrap();
            let new_end = if last.1 >= end { last.1 } else { end };
            wins.push((last.0, new_end));
        } else {
            wins.push((start, end));
        }
        k += 1;
        proof {
            assert(wins@.map_values(|w: (usize, usize)| (w.0 as int, w.1 as int)) =~= merge_windows(
                msv.take(k as int),
                context as int,
                n as int,
            ));
        }
    }
    assert(msv.take(k as int) =~= msv);

    // Materialize the blocks.
    let ghost ws = merge_windows(msv, context as int, n as int);
    let mut blocks: Vec<GrepBlock> = Vec::new();
    let mut b: usize = 0;
    while b < wins.len()
        invariant
            n == lines@.len(),
            views(lines@) == ls,
            ws == wins@.map_values(|w: (usize, usize)| (w.0 as int, w.1 as int)),
            forall|t: int| 0 <= t < wins@.len() ==> #[trigger] wins@[t].1 < n,
            forall|t: int| 0 <= t < wins@.len() ==> #[trigger] wins@[t].0 <= wins@[t].1,
            b <= wins@.len(),
            blocks@.len() == b,
            forall|j: int|
                0 <= j < b ==> #[trigger] block_view(blocks@[j]) == (ws[j].0 + 1, ls.subrange(
                    ws[j].0,
                    ws[j].1 + 1,
                )),
        decreases wins.len() - b,
    {
        let (s, e) = wins[b];
        let mut block_lines: Vec<String> = Vec::new();
        let mut q = s;
        while q <= e
            invariant
                s <= q <= e + 1,
                e < n,
                n == lines@.len(),
                views(lines@) == ls,
                string_views(block_lines@) == ls.subrange(s as int, q as int),
            decreases e + 1 - q,
        {
            let line = from_chars(lines[q].as_slice());
            let ghost before = block_lines@;
            block_lines.push(line);
            q += 1;
            proof {
                assert(lines@[q - 1]@ == ls[q - 1]);
                assert(block_lines@ == before.push(line));
                assert(string_views(before).len() == before.len());
                assert(before.len() == q - 1 - s);
                assert(block_lines@.len() == q - s);
                assert forall|t: int| 0 <= t < q - s implies #[trigger] string_views(block_lines@)[t]
                    == ls.subrange(s as int, q as int)[t] by {
                    if t < q - 1 - s {
                        assert(string_views(before)[t] == ls.subrange(s as int, q - 1)[t]);
                    } else {
                        assert(block_lines@[t] == line);
                        assert(string_views(block_lines@)[t] == line@);
                        assert(line@ == lines@[q - 1]@);
                    }
                }
                assert(string_views(block_lines@) =~= ls.subrange(s as int, q as int));
            }
        }
        blocks.push(GrepBlock { start_line: s + 1, lines: block_lines });
        b += 1;
    }

    GrepArticleResult { total_lines: n, match_count: ms.len(), blocks }
}

/// Lines of `text` that contain `query` (case-insensitively), each with
/// `context` lines before and after; overlapping or directly adjacent windows
/// are merged into one block. An empty query matches no line.
pub fn grep_lines(text: &str, query: &str, context: usize) -> (r: GrepArticleResult)
    ensures
        r.total_lines == lines_of(text@).len(),
        r.match_count == grep_matches(text@, query@).len(),
        query@.len() == 0 ==> r.match_count == 0 && r.blocks@.len() == 0,
        r.blocks@.len() == grep_windows(text@, query@, context as int).len(),
        forall|j: int|
            0 <= j < r.blocks@.len() ==> #[trigger] block_view(r.blocks@[j]) == ({
                let w = grep_windows(text@, query@, context as int)[j];
                (w.0 + 1, lines_of(text@).subrange(w.0, w.1 + 1))
            }),
{
    let chars = to_chars(text);
    let lines = split_lines(chars.as_slice());
    let n = lines.len();
    let ghost ls = lines_of(text@);
    let needle: Vec<char> = if query.is_empty() {
        Vec::new()
    } else {
        let lowered = to_lowercase(query);
        to_chars(lowered.as_str())
    };
    let mut lowered: Vec<Vec<char>> = Vec::new();
    let mut i: usize = 0;
    while i < n
        invariant
            n == lines@.len(),
            views(lines@) == ls,
            i <= n,
            views(lowered@) =~= ls.take(i as int).map_values(|l: Seq<char>| lowercase(l)),
        decreases n - i,
    {
        let line = from_chars(lines[i].as_slice());
        let low = to_lowercase(line.as_str());
        let ghost before = views(lowered@);
        lowered.push(to_chars(low.as_str()));
        proof {
            assert(lines@[i as int]@ == ls[i as int]);
            assert(views(lowered@) =~= before.push(lowercase(ls[i as int])));
            assert(ls.take(i + 1).map_values(|l: Seq<char>| lowercase(l)) =~= ls.take(i as int).map_values(
                |l: Seq<char>| lowercase(l),
            ).push(lowercase(ls[i as int])));
        }
        i += 1;
    }
    proof {
        assert(ls.take(n as int) =~= ls);
        assert(views(lowered@) =~= lowered_lines(text@));
        lemma_no_needle_no_match(lowered_lines(text@), n as int);
    }
    grep_prepared(lines, lowered, needle, context)
}


/// Whether line `x` lies within `context` lines of one of the matches `ms`.
pub open spec fn near_match(ms: Seq<int>, x: int, context: int) -> bool {
    exists|t: int| 0 <= t < ms.len() && ms[t] - context <= x <= #[trigger] ms[t] + context
}

/// The index of a window in `ws` that holds line `x`, where one does.
pub open spec fn block_of(ws: Seq<(int, int)>, x: int) -> int {
    choose|j: int| in_window(ws, j, x)
}

/// Whether the window `ws[j]` holds line `x`.
pub open spec fn in_window(ws: Seq<(int, int)>, j: int, x: int) -> bool {
    0 <= j < ws.len() && ws[j].0 <= x <= ws[j].1
}

pub open spec fn increasing_in(ms: Seq<int>, n: int) -> bool {
    &&& forall|t: int| 0 <= t < ms.len() ==> 0 <= #[trigger] ms[t] < n
    &&& forall|t: int, u: int| 0 <= t < u < ms.len() ==> #[trigger] ms[t] < #[trigger] ms[u]
}

proof fn lemma_increasing_drop_last(ms: Seq<int>, n: int)
    requires
        increasing_in(ms, n),
        ms.len() > 0,
    ensures
        increasing_in(ms.drop_last(), n),
        forall|t: int| 0 <= t < ms.len() - 1 ==> #[trigger] ms.drop_last()[t] < ms.last(),
{
    let pm = ms.drop_last();
    assert forall|t: int| 0 <= t < pm.len() implies 0 <= #[trigger] pm[t] < n by {
        assert(pm[t] == ms[t]);
    }
    assert forall|t: int, u: int| 0 <= t < u < pm.len() implies #[trigger] pm[t]
        < #[trigger] pm[u] by {
        assert(pm[t] == ms[t] && pm[u] == ms[u]);
    }
    assert forall|t: int| 0 <= t < ms.len() - 1 implies #[trigger] pm[t] < ms.last() by {
        assert(pm[t] == ms[t]);
        assert(ms.last() == ms[ms.len() - 1]);
    }
}

proof fn lemma_merge_shape(ms: Seq<int>, c: int, n: int)
    requires
        c >= 0,
        increasing_in(ms, n),
    ensures
        ({
            let ws = merge_windows(ms, c, n);
            &&& (ms.len() == 0 <==> ws.len() == 0)
            &&& forall|j: int| 0 <= j < ws.len() ==> 0 <= #[trigger] ws[j].0 <= ws[j].1 < n
            &&& forall|j: int| 0 <= j < ws.len() - 1 ==> #[trigger] ws[j].1 + 1 < ws[j + 1].0
            &&& ms.len() > 0 ==> ws.last().1 == window(ms.last(), c, n).1 && ws.last().0
                <= ms.last()
        }),
    decreases ms.len(),
{
    if ms.len() > 0 {
        let pm = ms.drop_last();
        lemma_increasing_drop_last(ms, n);
        lemma_merge_shape(pm, c, n);
        let prev = merge_windows(pm, c, n);
        if pm.len() > 0 {
            assert(pm.last() == pm[pm.len() - 1]);
        }
    }
}

proof fn lemma_merge_covers(ms: Seq<int>, c: int, n: int, t: int)
    requires
        c >= 0,
        increasing_in(ms, n),
        0 <= t < ms.len(),
    ensures
        exists|j: int| #[trigger] in_window(merge_windows(ms, c, n), j, ms[t]),
    decreases ms.len(),
{
    let ws = merge_windows(ms, c, n);
    let pm = ms.drop_last();
    lemma_increasing_drop_last(ms, n);
    lemma_merge_shape(pm, c, n);
    lemma_merge_shape(ms, c, n);
    let prev = merge_windows(pm, c, n);
    if t < ms.len() - 1 {
        lemma_merge_covers(pm, c, n, t);
        assert(ms[t] == pm[t]);
        let j = choose|j: int| #[trigger] in_window(prev, j, pm[t]);
        if j < prev.len() - 1 {
            assert(ws[j] == prev[j]);
        } else {
            let w = window(ms.last(), c, n);
            if prev.len() > 0 && w.0 <= prev.last().1 + 1 {
                assert(ws[j].0 == prev[j].0 && ws[j].1 >= prev[j].1);
            } else {
                assert(ws[j] == prev[j]);
            }
        }
        assert(in_window(ws, j, ms[t]));
    } else {
        assert(ms[t] == ms.last());
        assert(in_window(ws, ws.len() - 1, ms[t]));
    }
}

proof fn lemma_merge_near(ms: Seq<int>, c: int, n: int)
    requires
        c >= 0,
        increasing_in(ms, n),
    ensures
        forall|j: int, x: int| #[trigger] in_window(merge_windows(ms, c, n), j, x) ==> near_match(
            ms,
            x,
            c,
        ),
    decreases ms.len(),
{
    if ms.len() > 0 {
        let ws = merge_windows(ms, c, n);
        let pm = ms.drop_last();
        lemma_increasing_drop_last(ms, n);
        lemma_merge_near(pm, c, n);
        lemma_merge_shape(pm, c, n);
        let prev = merge_windows(pm, c, n);
        let m = ms.last();
        let w = window(m, c, n);
        assert forall|j: int, x: int| #[trigger] in_window(ws, j, x) implies near_match(ms, x, c) by {
            if j < prev.len() && (j < prev.len() - 1 || x <= prev[j].1) && x >= prev[j].0 {
                assert(in_window(prev, j, x));
                let t = choose|t: int| 0 <= t < pm.len() && pm[t] - c <= x <= #[trigger] pm[t] + c;
                assert(ms[t] == pm[t]);
            } else {
                assert(w.0 <= x <= w.1);
                assert(ms[ms.len() - 1] == m);
            }
        }
    }
}

/// The blocks that grep reports are in document order, separated by at least
/// one unreported line (overlapping or adjacent windows are merged), hold every
/// matching line, and hold no line farther than `context` from a match.
#[verifier::rlimit(60)]
#[verifier::spinoff_prover]
pub proof fn law_grep_blocks(text: Seq<char>, query: Seq<char>, context: nat)
    ensures
        forall|j: int|
            0 <= j < grep_windows(text, query, context as int).len() ==> 0 <= #[trigger] grep_windows(
                text,
                query,
                context as int,
            )[j].0 <= grep_windows(text, query, context as int)[j].1 < lines_of(text).len(),
        forall|j: int|
            0 <= j < grep_windows(text, query, context as int).len() - 1 ==> #[trigger] grep_windows(
                text,
                query,
                context as int,
            )[j].1 + 1 < grep_windows(text, query, context as int)[j + 1].0,
        forall|t: int|
            #![trigger grep_matches(text, query)[t]]
            0 <= t < grep_matches(text, query).len() ==> in_window(
                grep_windows(text, query, context as int),
                block_of(grep_windows(text, query, context as int), grep_matches(text, query)[t]),
                grep_matches(text, query)[t],
            ),
        forall|j: int, x: int|
            #[trigger] in_window(grep_windows(text, query, context as int), j, x) ==> near_match(
                grep_matches(text, query),
                x,
                context as int,
            ),
        forall|t: int|
            #![trigger grep_matches(text, query)[t]]
            0 <= t < grep_matches(text, query).len() ==> line_matches(
                lines_of(text)[grep_matches(text, query)[t]],
                grep_needle(query),
            ),
{
    let ls = lines_of(text);
    let needle = grep_needle(query);
    let low = lowered_lines(text);
    let ms = grep_matches(text, query);
    let c = context as int;
    let n = ls.len() as int;
    let ws = grep_windows(text, query, c);
    assert(ms == match_indices(low, needle, n));
    assert(ws == merge_windows(ms, c, n));
    lemma_match_indices_bounds(low, needle, n);
    lemma_match_indices_sound(low, needle, n);
    assert forall|t: int| #![trigger ms[t]] 0 <= t < ms.len() implies line_matches(ls[ms[t]], needle) by {
        assert(low[ms[t]] == lowercase(ls[ms[t]]));
    }
    assert(increasing_in(ms, n));
    lemma_merge_shape(ms, c, n);
    lemma_merge_near(ms, c, n);
    assert forall|t: int| #![trigger ms[t]] 0 <= t < ms.len() implies in_window(
        ws,
        block_of(ws, ms[t]),
        ms[t],
    ) by {
        lemma_merge_covers(ms, c, n, t);
    }
}

proof fn lemma_match_indices_sound(lines: Seq<Seq<char>>, needle: Seq<char>, k: int)
    requires
        0 <= k <= lines.len(),
    ensures
        forall|t: int|
            #![trigger match_indices(lines, needle, k)[t]]
            0 <= t < match_indices(lines, needle, k).len() ==> line_hit(
                lines[match_indices(lines, needle, k)[t]],
                needle,
            ),
    decreases k,
{
    if k > 0 {
        lemma_match_indices_sound(lines, needle, k - 1);
        let prev = match_indices(lines, needle, k - 1);
        assert forall|t: int| 0 <= t < match_indices(lines, needle, k).len() implies line_hit(
            lines[#[trigger] match_indices(lines, needle, k)[t]],
            needle,
        ) by {
            if t < prev.len() {
                assert(match_indices(lines, needle, k)[t] == prev[t]);
            }
        }
    }
}

} // verus!
