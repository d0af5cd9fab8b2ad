//! Column widths of a rendered table: each column's natural width, shrunk
//! in proportion when the table would not fit.
use vstd::prelude::*;

use crate::kiwix::string_views;

verus! {

/// Widest a column grows on its own.
pub const MAX_COL: usize = 40;

/// The width a cell asks for: its length, at least one and at most `MAX_COL`.
pub open spec fn cell_width(c: Seq<char>) -> nat {
    if c.len() < 1 {
        1
    } else if c.len() > MAX_COL {
        MAX_COL as nat
    } else {
        c.len()
    }
}

/// The natural width of column `i` over the first `r` rows (at least one).
pub open spec fn col_natural(grid: Seq<Seq<Seq<char>>>, i: int, r: int) -> nat
    decreases r,
{
    if r <= 0 {
        1
    } else {
        let prev = col_natural(grid, i, r - 1);
        let w = if i < grid[r - 1].len() { cell_width(grid[r - 1][i]) } else { 1 };
        if w > prev { w } else { prev }
    }
}

/// The natural width of every column.
pub open spec fn naturals(grid: Seq<Seq<Seq<char>>>, ncols: nat) -> Seq<nat> {
    Seq::new(ncols, |i: int| col_natural(grid, i, grid.len() as int))
}

/// The sum of a sequence of widths.
pub open spec fn total(s: Seq<nat>) -> nat
    decreases s.len(),
{
    if s.len() == 0 { 0 } else { total(s.drop_last()) + s.last() }
}

/// Columns of the table left for cell text: `avail` less the `ncols + 1`
/// bars and a padding space on each side of every cell.
pub open spec fn budget_of(ncols: nat, avail: nat) -> nat {
    let overhead = 3 * ncols + 1;
    if avail >= overhead { (avail - overhead) as nat } else { 0 }
}

/// Position in `ord` before the first entry whose key is below that of `i`,
/// looking from `p` on.
pub open spec fn pos_from(ord: Seq<nat>, key: Seq<nat>, i: nat, p: int) -> nat
    decreases ord.len() - p,
{
    if p < 0 || p >= ord.len() {
        ord.len()
    } else if key[ord[p] as int] < key[i as int] {
        p as nat
    } else {
        pos_from(ord, key, i, p + 1)
    }
}

/// The columns `0..k` ordered by falling key, ties in column order.
pub open spec fn order(key: Seq<nat>, k: nat) -> Seq<nat>
    decreases k,
{
    if k == 0 {
        seq![]
    } else {
        let o = order(key, (k - 1) as nat);
        o.insert(pos_from(o, key, (k - 1) as nat, 0) as int, (k - 1) as nat)
    }
}

/// `out` with `left` more columns handed out one at a time, in the order
/// `ord`, starting at its entry `k` and going round.
pub open spec fn distribute(out: Seq<nat>, ord: Seq<nat>, k: nat, left: nat) -> Seq<nat>
    decreases left,
{
    if left == 0 || ord.len() == 0 {
        out
    } else {
        let j = ord[(k % ord.len()) as int] as int;
        distribute(out.update(j, out[j] + 1), ord, k + 1, (left - 1) as nat)
    }
}

/// The width of each column: the natural widths when they fit the budget;
/// one column each when the budget is below the column count; else each
/// column keeps one and gets a share of the rest in proportion to its
/// natural width beyond one (rounded down), and what rounding leaves over
/// goes one at a time to the widest columns first.
pub open spec fn widths_spec(grid: Seq<Seq<Seq<char>>>, ncols: nat, avail: nat) -> Seq<nat> {
    let nat_w = naturals(grid, ncols);
    let budget = budget_of(ncols, avail);
    if total(nat_w) <= budget {
        nat_w
    } else if budget < ncols {
        Seq::new(ncols, |i: int| 1nat)
    } else {
        let extra = (budget - ncols) as nat;
        let a = Seq::new(ncols, |i: int| (nat_w[i] - 1) as nat);
        let shrink = if total(a) >= 1 { total(a) } else { 1 };
        let base = Seq::new(ncols, |i: int| 1 + (a[i] * extra) / shrink);
        let left = if budget >= total(base) { (budget - total(base)) as nat } else { 0 };
        distribute(base, order(nat_w, ncols), 0, left)
    }
}

pub open spec fn nats(v: Seq<usize>) -> Seq<nat> {
    v.map_values(|x: usize| x as nat)
}

pub open spec fn grid_views(grid: Seq<Vec<String>>) -> Seq<Seq<Seq<char>>> {
    grid.map_values(|row: Vec<String>| string_views(row@))
}

/// A row's cells cut or padded with empty cells to exactly `ncols`.
pub open spec fn fit_spec(cells: Seq<Seq<char>>, ncols: nat) -> Seq<Seq<char>> {
    Seq::new(ncols, |i: int| if i < cells.len() { cells[i] } else { Seq::<char>::empty() })
}

/// Pad or truncate a row's cells to exactly `ncols` entries.
pub fn fit_cols(cells: &[String], ncols: usize) -> (r: Vec<String>)
    ensures
        string_views(r@) == fit_spec(string_views(cells@), ncols as nat),
{
    let mut v: Vec<String> = Vec::new();
    let mut i: usize = 0;
    while i < ncols
        invariant
            i <= ncols,
            string_views(v@) == fit_spec(string_views(cells@), ncols as nat).take(i as int),
        decreases ncols - i,
    {
        let ghost before = string_views(v@);
        if i < cells.len() {
            v.push(crate::text::owned(cells[i].as_str()));
        } else {
            v.push(String::new());
        }
        proof {
            assert(string_views(v@) =~= before.push(string_views(v@).last()));
            assert(string_views(v@) =~= fit_spec(string_views(cells@), ncols as nat).take(i + 1));
        }
        i += 1;
    }
    assert(fit_spec(string_views(cells@), ncols as nat).take(ncols as int) =~= fit_spec(
        string_views(cells@),
        ncols as nat,
    ));
    v
}

proof fn lemma_total_update(s: Seq<nat>, j: int)
    requires
        0 <= j < s.len(),
    ensures
        total(s.update(j, s[j] + 1)) == total(s) + 1,
        s[j] <= total(s),
    decreases s.len(),
{
    let u = s.update(j, s[j] + 1);
    if j < s.len() - 1 {
        lemma_total_update(s.drop_last(), j);
        assert(u.drop_last() =~= s.drop_last().update(j, s[j] + 1));
    } else {
        assert(u.drop_last() =~= s.drop_last());
    }
}

proof fn lemma_total_bound(s: Seq<nat>, j: int)
    requires
        0 <= j < s.len(),
    ensures
        s[j] <= total(s),
    decreases s.len(),
{
    if j < s.len() - 1 {
        lemma_total_bound(s.drop_last(), j);
    }
}

proof fn lemma_distribute(out: Seq<nat>, ord: Seq<nat>, k: nat, left: nat)
    requires
        ord.len() > 0,
        forall|q: int| 0 <= q < ord.len() ==> #[trigger] ord[q] < out.len(),
    ensures
        total(distribute(out, ord, k, left)) == total(out) + left,
        distribute(out, ord, k, left).len() == out.len(),
    decreases left,
{
    if left > 0 {
        let j = ord[(k % ord.len()) as int] as int;
        lemma_total_update(out, j);
        lemma_distribute(out.update(j, out[j] + 1), ord, k + 1, (left - 1) as nat);
    }
}

proof fn lemma_order_bound(key: Seq<nat>, k: nat)
    ensures
        order(key, k).len() == k,
        forall|q: int| 0 <= q < k ==> #[trigger] order(key, k)[q] < k,
    decreases k,
{
    if k > 0 {
        let o = order(key, (k - 1) as nat);
        lemma_order_bound(key, (k - 1) as nat);
        lemma_pos_bound(o, key, (k - 1) as nat, 0);
        let p = pos_from(o, key, (k - 1) as nat, 0) as int;
        let n = o.insert(p, (k - 1) as nat);
        assert forall|q: int| 0 <= q < k implies #[trigger] n[q] < k by {
            if q < p {
                assert(n[q] == o[q]);
            } else if q > p {
                assert(n[q] == o[q - 1]);
            }
        }
    }
}

proof fn lemma_pos_bound(ord: Seq<nat>, key: Seq<nat>, i: nat, p: int)
    ensures
        pos_from(ord, key, i, p) <= ord.len(),
    decreases ord.len() - p,
{
    if 0 <= p < ord.len() && !(key[ord[p] as int] < key[i as int]) {
        lemma_pos_bound(ord, key, i, p + 1);
    }
}

proof fn lemma_floor_add(x: int, y: int, s: int)
    requires
        0 <= x,
        0 <= y,
        0 < s,
    ensures
        x / s + y / s <= (x + y) / s,
{
    let qx = x / s;
    let qy = y / s;
    let rx = x % s;
    let ry = y % s;
    vstd::arithmetic::div_mod::lemma_fundamental_div_mod(x, s);
    vstd::arithmetic::div_mod::lemma_fundamental_div_mod(y, s);
    vstd::arithmetic::div_mod::lemma_mod_pos_bound(x, s);
    vstd::arithmetic::div_mod::lemma_mod_pos_bound(y, s);
    assert(x + y == (rx + ry) + (qx + qy) * s) by (nonlinear_arith)
        requires
            x == s * qx + rx,
            y == s * qy + ry,
    ;
    vstd::arithmetic::div_mod::lemma_hoist_over_denominator(rx + ry, qx + qy, s as nat);
    vstd::arithmetic::div_mod::lemma_div_pos_is_pos(rx + ry, s);
}

proof fn lemma_floor_mono(x: int, y: int, s: int)
    by (nonlinear_arith)
    requires
        0 <= x <= y,
        0 < s,
    ensures
        x / s <= y / s,
{
}

proof fn lemma_shares(a: Seq<nat>, e: nat, s: nat, k: nat)
    requires
        0 < s,
        k <= a.len(),
    ensures
        total(Seq::new(k, |i: int| 1 + (a[i] * e) / s)) <= k + (total(a.take(k as int)) * e) / s,
    decreases k,
{
    if k > 0 {
        let f = Seq::new(k, |i: int| 1 + (a[i] * e) / s);
        let g = Seq::new((k - 1) as nat, |i: int| 1 + (a[i] * e) / s);
        assert(f.drop_last() =~= g);
        lemma_shares(a, e, s, (k - 1) as nat);
        let t = total(a.take(k - 1));
        assert(a.take(k as int).drop_last() =~= a.take(k - 1));
        assert(total(a.take(k as int)) == t + a[k - 1]);
        lemma_floor_add((t * e) as int, (a[k - 1] * e) as int, s as int);
        assert((t + a[k - 1]) * e == t * e + a[k - 1] * e) by (nonlinear_arith);
    }
}

/// A table laid out with these widths fits `avail` columns whenever there
/// is room for at least one column of text per column.
pub proof fn law_columns_fit(grid: Seq<Seq<Seq<char>>>, ncols: nat, avail: nat)
    requires
        avail >= 4 * ncols + 1,
    ensures
        widths_spec(grid, ncols, avail).len() == ncols,
        total(widths_spec(grid, ncols, avail)) + 3 * ncols + 1 <= avail,
{
    let nat_w = naturals(grid, ncols);
    let budget = budget_of(ncols, avail);
    if total(nat_w) > budget {
        let extra = (budget - ncols) as nat;
        let a = Seq::new(ncols, |i: int| (nat_w[i] - 1) as nat);
        let shrink = if total(a) >= 1 { total(a) } else { 1 };
        let base = Seq::new(ncols, |i: int| 1 + (a[i] * extra) / shrink);
        lemma_shares(a, extra, shrink, ncols);
        assert(a.take(ncols as int) =~= a);
        assert(total(a) * extra <= shrink * extra) by (nonlinear_arith)
            requires
                total(a) <= shrink,
        ;
        lemma_floor_mono((total(a) * extra) as int, (shrink * extra) as int, shrink as int);
        assert(((shrink * extra) as int) / (shrink as int) == extra as int) by (nonlinear_arith)
            requires
                shrink > 0,
        ;
        assert(total(base) <= budget);
        lemma_order_bound(nat_w, ncols);
        if ncols > 0 {
            lemma_distribute(base, order(nat_w, ncols), 0, (budget - total(base)) as nat);
        } else {
            assert(total(nat_w) == 0);
        }
    }
}


pub proof fn lemma_total_take(s: Seq<nat>, i: int)
    requires
        0 <= i < s.len(),
    ensures
        total(s.take(i + 1)) == total(s.take(i)) + s[i],
{
    assert(s.take(i + 1).drop_last() =~= s.take(i));
}

proof fn lemma_total_prefix(s: Seq<nat>, i: int)
    requires
        0 <= i <= s.len(),
    ensures
        total(s.take(i)) <= total(s),
    decreases s.len() - i,
{
    if i < s.len() {
        lemma_total_prefix(s, i + 1);
        lemma_total_take(s, i);
    } else {
        assert(s.take(i) =~= s);
    }
}

/// Sum of `v`, known to be at most `bound`.
fn sum_of(v: &Vec<usize>, Ghost(bound): Ghost<nat>) -> (t: usize)
    requires
        total(nats(v@)) <= bound,
        bound <= usize::MAX,
    ensures
        t == total(nats(v@)),
{
    let mut t: usize = 0;
    let mut i: usize = 0;
    while i < v.len()
        invariant
            i <= v@.len(),
            t == total(nats(v@).take(i as int)),
            total(nats(v@)) <= bound,
            bound <= usize::MAX,
        decreases v.len() - i,
    {
        proof {
            lemma_total_take(nats(v@), i as int);
            lemma_total_prefix(nats(v@), i + 1);
        }
        t = t + v[i];
        i += 1;
    }
    assert(nats(v@).take(i as int) =~= nats(v@));
    t
}

pub proof fn lemma_col_natural_bound(grid: Seq<Seq<Seq<char>>>, i: int, r: int)
    ensures
        1 <= col_natural(grid, i, r) <= MAX_COL,
    decreases r,
{
    if r > 0 {
        lemma_col_natural_bound(grid, i, r - 1);
    }
}

proof fn lemma_total_bounded(s: Seq<nat>, m: nat)
    requires
        forall|q: int| 0 <= q < s.len() ==> #[trigger] s[q] <= m,
    ensures
        total(s) <= s.len() * m,
    decreases s.len(),
{
    if s.len() > 0 {
        lemma_total_bounded(s.drop_last(), m);
        assert(s.drop_last().len() * m + m == s.len() * m) by (nonlinear_arith)
            requires
                s.drop_last().len() + 1 == s.len(),
        ;
    }
}

/// Longest natural cell width per column (capped at `MAX_COL`), then shrunk
/// in proportion so the whole table, borders and padding included, fits
/// within `avail` columns.
#[verifier::rlimit(60)]
pub fn column_widths(grid: &[Vec<String>], ncols: usize, avail: usize) -> (r: Vec<usize>)
    requires
        forall|k: int| 0 <= k < grid@.len() ==> #[trigger] grid@[k]@.len() <= ncols,
        ncols <= usize::MAX / 64,
    ensures
        nats(r@) == widths_spec(grid_views(grid@), ncols as nat, avail as nat),
        forall|i: int| 0 <= i < r@.len() ==> #[trigger] r@[i] <= MAX_COL * ncols,
        r@.len() == ncols,
{
    let ghost g = grid_views(grid@);
    let mut nat_w: Vec<usize> = Vec::new();
    let mut i: usize = 0;
    while i < ncols
        invariant
            i <= ncols,
            nats(nat_w@) =~= Seq::new(i as nat, |q: int| col_natural(g, q, 0)),
        decreases ncols - i,
    {
        let ghost b = nats(nat_w@);
        nat_w.push(1);
        assert(nats(nat_w@) =~= b.push(1nat));
        i += 1;
    }
    let mut r: usize = 0;
    while r < grid.len()
        invariant
            r <= grid@.len(),
            g == grid_views(grid@),
            forall|k: int| 0 <= k < grid@.len() ==> #[trigger] grid@[k]@.len() <= ncols,
            nats(nat_w@) =~= Seq::new(ncols as nat, |q: int| col_natural(g, q, r as int)),
            nat_w@.len() == ncols,
        decreases grid.len() - r,
    {
        let row = &grid[r];
        assert(g[r as int] == string_views(row@));
        let mut i: usize = 0;
        while i < row.len()
            invariant
                i <= row@.len(),
                row@.len() <= ncols,
                nat_w@.len() == ncols,
                g == grid_views(grid@),
                r < grid@.len(),
                g[r as int] == string_views(row@),
                nats(nat_w@) =~= Seq::new(
                    ncols as nat,
                    |q: int| if q < i { col_natural(g, q, r + 1) } else { col_natural(g, q, r as int) },
                ),
            decreases row.len() - i,
        {
            let cs = crate::text::to_chars(row[i].as_str());
            let len = cs.len();
            let w: usize = if len < 1 { 1 } else if len > MAX_COL { MAX_COL } else { len };
            assert(w == cell_width(g[r as int][i as int]));
            let ghost b = nats(nat_w@);
            assert(b[i as int] == col_natural(g, i as int, r as int));
            assert(i < g[r as int].len());
            if w > nat_w[i] {
                nat_w.set(i, w);
                assert(nats(nat_w@) =~= b.update(i as int, w as nat));
            }
            assert(nats(nat_w@)[i as int] == col_natural(g, i as int, r + 1));
            proof {
                assert forall|q: int| 0 <= q < ncols && q != i implies #[trigger] nats(nat_w@)[q] == b[q] by {
                }
            }
            i += 1;
        }
        proof {
            assert forall|q: int| row@.len() <= q < ncols implies col_natural(g, q, r + 1) == col_natural(
                g,
                q,
                r as int,
            ) by {
                lemma_col_natural_bound(g, q, r as int);
            }
        }
        r += 1;
    }
    let ghost nw = naturals(g, ncols as nat);
    assert(nats(nat_w@) =~= nw);
    proof {
        assert forall|q: int| 0 <= q < nw.len() implies #[trigger] nw[q] <= MAX_COL by {
            lemma_col_natural_bound(g, q, g.len() as int);
        }
        lemma_total_bounded(nw, MAX_COL as nat);
        assert(nw.len() * MAX_COL <= ncols * 40);
    }
    let overhead = 3 * ncols + 1;
    let budget = if avail >= overhead { avail - overhead } else { 0 };
    let total_w = sum_of(&nat_w, Ghost((ncols * 40) as nat));
    if total_w <= budget {
        proof {
            assert forall|i: int| 0 <= i < nat_w@.len() implies #[trigger] nat_w@[i] <= MAX_COL * ncols by {
                assert(nats(nat_w@)[i] == nw[i]);
            }
        }
        return nat_w;
    }
    if budget < ncols {
        let mut ones: Vec<usize> = Vec::new();
        let mut i: usize = 0;
        while i < ncols
            invariant
                i <= ncols,
                nats(ones@) =~= Seq::new(i as nat, |q: int| 1nat),
            decreases ncols - i,
        {
            let ghost b = nats(ones@);
            ones.push(1);
            assert(nats(ones@) =~= b.push(1nat));
            i += 1;
        }
        proof {
            assert forall|i: int| 0 <= i < ones@.len() implies #[trigger] ones@[i] <= MAX_COL * ncols by {
                assert(nats(ones@)[i] == 1);
            }
        }
        return ones;
    }
    let extra = budget - ncols;
    assert(budget < ncols * 40);
    let ghost a = Seq::new(ncols as nat, |q: int| (nw[q] - 1) as nat);
    proof {
        lemma_col_natural_bound(g, 0, 0);
        assert forall|q: int| 0 <= q < a.len() implies #[trigger] a[q] <= MAX_COL by {
            lemma_col_natural_bound(g, q, g.len() as int);
        }
        lemma_total_bounded(a, MAX_COL as nat);
        assert(a.len() * MAX_COL <= ncols * 40);
    }
    let mut av: Vec<usize> = Vec::new();
    let mut i: usize = 0;
    while i < ncols
        invariant
            budget < ncols * 40,
            i <= ncols,
            nat_w@.len() == ncols,
            nats(nat_w@) == nw,
            nw == naturals(g, ncols as nat),
            a == Seq::new(ncols as nat, |q: int| (nw[q] - 1) as nat),
            nats(av@) =~= a.take(i as int),
        decreases ncols - i,
    {
        proof {
            lemma_col_natural_bound(g, i as int, g.len() as int);
        }
        assert(nats(nat_w@)[i as int] == nw[i as int]);
        let ghost b = nats(av@);
        av.push(nat_w[i] - 1);
        assert(nats(av@) =~= b.push(a[i as int]));
        i += 1;
    }
    assert(a.take(ncols as int) =~= a);
    let shrinkable = sum_of(&av, Ghost((ncols * 40) as nat));
    let shrink = if shrinkable >= 1 { shrinkable } else { 1 };
    let ghost base_s = Seq::new(ncols as nat, |q: int| 1 + (a[q] * (extra as nat)) / (shrink as nat));
    assert(total(a) <= shrink);
    let mut out: Vec<usize> = Vec::new();
    let mut i: usize = 0;
    while i < ncols
        invariant
            budget < ncols * 40,
            i <= ncols,
            av@.len() == ncols,
            nats(av@) == a,
            shrink >= 1,
            total(a) <= shrink,
            extra + ncols == budget,
            budget <= usize::MAX,
            base_s == Seq::new(ncols as nat, |q: int| 1 + (a[q] * (extra as nat)) / (shrink as nat)),
            nats(out@) =~= base_s.take(i as int),
        decreases ncols - i,
    {
        let x = av[i];
        assert(nats(av@)[i as int] == a[i as int]);
        proof {
            lemma_total_bound(a, i as int);
        }
        // Counted in 128 bits: the product may pass `usize::MAX` though the share does not.
        assert((x as int) * (extra as int) <= u128::MAX) by (nonlinear_arith)
            requires
                0 <= x <= usize::MAX,
                0 <= extra <= usize::MAX,
                usize::MAX <= u64::MAX,
        ;
        let q: u128 = (x as u128) * (extra as u128) / (shrink as u128);
        assert(q <= extra) by (nonlinear_arith)
            requires
                q == (x as int) * (extra as int) / (shrink as int),
                x <= shrink,
                shrink > 0,
                extra >= 0,
        {
            assert((x as int) * (extra as int) <= (shrink as int) * (extra as int));
            assert(((shrink as int) * (extra as int)) / (shrink as int) == extra as int);
        }
        let share = 1 + q as usize;
        let ghost b = nats(out@);
        out.push(share);
        assert(nats(out@) =~= b.push(base_s[i as int]));
        i += 1;
    }
    assert(base_s.take(ncols as int) =~= base_s);
    proof {
        lemma_shares(a, extra as nat, shrink as nat, ncols as nat);
        assert(a.take(ncols as int) =~= a);
        assert(total(a) <= shrink);
        assert(total(a) * extra <= shrink * extra) by (nonlinear_arith)
            requires
                total(a) <= shrink,
        ;
        lemma_floor_mono((total(a) * extra) as int, (shrink * extra) as int, shrink as int);
        assert(((shrink * extra) as int) / (shrink as int) == extra as int) by (nonlinear_arith)
            requires
                shrink > 0,
        ;
    }
    let assigned = sum_of(&out, Ghost(budget as nat));
    let leftover = budget - assigned;
    // The columns by falling natural width, ties in column order.
    let mut ord: Vec<usize> = Vec::new();
    let mut i: usize = 0;
    while i < ncols
        invariant
            budget < ncols * 40,
            i <= ncols,
            nat_w@.len() == ncols,
            nats(nat_w@) == nw,
            nats(ord@) == order(nw, i as nat),
            forall|q: int| 0 <= q < ord@.len() ==> #[trigger] ord@[q] < i,
        decreases ncols - i,
    {
        proof {
            lemma_order_bound(nw, i as nat);
        }
        let mut p: usize = 0;
        while p < ord.len() && !(nat_w[ord[p]] < nat_w[i])
            invariant
            budget < ncols * 40,
                p <= ord@.len(),
                i < ncols,
                nat_w@.len() == ncols,
                nats(nat_w@) == nw,
                forall|q: int| 0 <= q < ord@.len() ==> #[trigger] ord@[q] < i,
                pos_from(nats(ord@), nw, i as nat, 0) == pos_from(nats(ord@), nw, i as nat, p as int),
            decreases ord.len() - p,
        {
            p += 1;
        }
        let ghost o = nats(ord@);
        ord.insert(p, i);
        proof {
            assert(nats(ord@) =~= o.insert(p as int, i as nat));
            assert forall|q: int| 0 <= q < ord@.len() implies #[trigger] ord@[q] < i + 1 by {
                if q < p {
                    assert(ord@[q] == o[q]);
                } else if q > p {
                    assert(ord@[q] == o[q - 1]);
                }
            }
        }
        i += 1;
    }
    let ghost ord_s = order(nw, ncols as nat);
    let ghost out0 = nats(out@);
    let mut k: usize = 0;
    let mut left = leftover;
    proof {
        lemma_order_bound(nw, ncols as nat);
        lemma_distribute(out0, ord_s, 0, leftover as nat);
    }
    while left > 0
        invariant
            budget < ncols * 40,
            ncols > 0,
            ord@.len() == ncols,
            out@.len() == ncols,
            nats(ord@) == ord_s,
            forall|q: int| 0 <= q < ncols ==> #[trigger] ord_s[q] < ncols,
            k + left == leftover,
            total(nats(out@)) + left == budget,
            budget <= usize::MAX,
            distribute(nats(out@), ord_s, k as nat, left as nat) == distribute(out0, ord_s, 0, leftover as nat),
        decreases left,
    {
        let j = ord[k % ncols];
        proof {
            assert(ord_s[(k % ncols) as int] == j);
            lemma_total_update(nats(out@), j as int);
        }
        let ghost before = nats(out@);
        let v = out[j] + 1;
        out.set(j, v);
        proof {
            assert(nats(out@) =~= before.update(j as int, before[j as int] + 1));
        }
        left = left - 1;
        k = k + 1;
    }
    proof {
        assert(extra == budget_of(ncols as nat, avail as nat) - ncols);
        assert forall|i: int| 0 <= i < out@.len() implies #[trigger] out@[i] <= MAX_COL * ncols by {
            lemma_total_bound(nats(out@), i);
            assert(nats(out@)[i] == out@[i]);
        }
    }
    out
}


proof fn lemma_distribute_grows(out: Seq<nat>, ord: Seq<nat>, k: nat, left: nat)
    requires
        forall|q: int| 0 <= q < ord.len() ==> #[trigger] ord[q] < out.len(),
    ensures
        distribute(out, ord, k, left).len() == out.len(),
        forall|i: int| 0 <= i < out.len() ==> #[trigger] distribute(out, ord, k, left)[i] >= out[i],
    decreases left,
{
    if left > 0 && ord.len() > 0 {
        let j = ord[(k % ord.len()) as int] as int;
        let u = out.update(j, out[j] + 1);
        assert(0 <= j < out.len());
        lemma_distribute_grows(u, ord, k + 1, (left - 1) as nat);
        assert forall|i: int| 0 <= i < out.len() implies #[trigger] distribute(out, ord, k, left)[i] >= out[i] by {
            assert(distribute(out, ord, k, left)[i] >= u[i]);
        }
    }
}

/// Every column is at least one wide.
pub proof fn lemma_widths_positive(grid: Seq<Seq<Seq<char>>>, ncols: nat, avail: nat)
    ensures
        widths_spec(grid, ncols, avail).len() == ncols,
        forall|i: int| 0 <= i < ncols ==> #[trigger] widths_spec(grid, ncols, avail)[i] >= 1,
{
    let nat_w = naturals(grid, ncols);
    let budget = budget_of(ncols, avail);
    assert forall|i: int| 0 <= i < ncols implies #[trigger] nat_w[i] >= 1 by {
        lemma_col_natural_bound(grid, i, grid.len() as int);
    }
    if total(nat_w) > budget && budget >= ncols {
        let extra = (budget - ncols) as nat;
        let a = Seq::new(ncols, |i: int| (nat_w[i] - 1) as nat);
        let shrink = if total(a) >= 1 { total(a) } else { 1 };
        let base = Seq::new(ncols, |i: int| 1 + (a[i] * extra) / shrink);
        let left = if budget >= total(base) { (budget - total(base)) as nat } else { 0 };
        lemma_order_bound(nat_w, ncols);
        lemma_distribute_grows(base, order(nat_w, ncols), 0, left);
        assert forall|i: int| 0 <= i < ncols implies #[trigger] widths_spec(grid, ncols, avail)[i] >= 1 by {
            assert(base[i] >= 1);
        }
    }
}

} // verus!
