//! The flow engine: per-criterion outranking flows.
//!
//! For one criterion the positive flow of alternative `i` averages the
//! intensity with which `i` is preferred to every alternative, and the
//! negative flow the intensity with which every alternative is preferred to
//! `i`. Flow numerators are exact integers over the denominator
//! `ramp_den(gc) * (n - 1)`.
//!
//! Two algorithms compute the same numerators: a quadratic one that works
//! for every family, and a sliding-window one for the linear-ramp families
//! that needs only one pass over the alternatives in ascending order of
//! performance.

use crate::generalized_criterion::lemma_pref_num_range;
use crate::generalized_criterion::pref_num;
use crate::generalized_criterion::ramp_den;
use crate::generalized_criterion::GeneralizedCriterion;
use crate::VALUE_LIMIT;
use vstd::prelude::*;

verus! {

/// Summand of the positive flow of an alternative with performance `f`:
/// the intensity with which `f` is preferred to performance `v`.
pub open spec fn pos_term(gc: GeneralizedCriterion, f: int) -> spec_fn(i64) -> int {
    |v: i64| pref_num(gc, f - v)
}

/// Summand of the negative flow of an alternative with performance `f`:
/// the intensity with which performance `v` is preferred to `f`.
pub open spec fn neg_term(gc: GeneralizedCriterion, f: int) -> spec_fn(i64) -> int {
    |v: i64| pref_num(gc, v - f)
}

/// Sum of `g` over the first `m` entries of `col`.
pub open spec fn sum_all(col: Seq<i64>, g: spec_fn(i64) -> int, m: int) -> int
    decreases m,
{
    if m <= 0 {
        0
    } else {
        sum_all(col, g, m - 1) + g(col[m - 1])
    }
}

/// Sum of `g` over the entries of `col` selected by the first `m` entries
/// of the index list `ord`.
pub open spec fn sum_idx(col: Seq<i64>, ord: Seq<usize>, g: spec_fn(i64) -> int, m: int) -> int
    decreases m,
{
    if m <= 0 {
        0
    } else {
        sum_idx(col, ord, g, m - 1) + g(col[ord[m - 1] as int])
    }
}

/// Numerator of the positive unicriterion flow of alternative `i`, over
/// denominator `ramp_den(gc)`; the flow itself divides once more by `n - 1`.
pub open spec fn pos_flow_num(col: Seq<i64>, gc: GeneralizedCriterion, i: int) -> int {
    sum_all(col, pos_term(gc, col[i] as int), col.len() as int)
}

/// Numerator of the negative unicriterion flow of alternative `i`, over
/// denominator `ramp_den(gc)`; the flow itself divides once more by `n - 1`.
pub open spec fn neg_flow_num(col: Seq<i64>, gc: GeneralizedCriterion, i: int) -> int {
    sum_all(col, neg_term(gc, col[i] as int), col.len() as int)
}

/// The identity index list `0, 1, ..., n-1`.
pub open spec fn ident_ord(n: nat) -> Seq<usize> {
    Seq::new(n, |i: int| i as usize)
}

/// `ord` lists every index of `col` exactly once, in ascending order of the
/// performances they select.
pub open spec fn is_asc_order(col: Seq<i64>, ord: Seq<usize>) -> bool {
    &&& ord.len() == col.len()
    &&& forall|s: int| 0 <= s < ord.len() ==> (#[trigger] ord[s] as int) < col.len()
    &&& ord.to_multiset() == ident_ord(col.len()).to_multiset()
    &&& forall|s: int, t: int|
        0 <= s < t < ord.len() ==> col[#[trigger] ord[s] as int] <= col[#[trigger] ord[t] as int]
}

/// Every performance of the column lies within the accepted range.
pub open spec fn col_bounded(col: Seq<i64>) -> bool {
    forall|j: int| 0 <= j < col.len() ==> -VALUE_LIMIT <= #[trigger] col[j] <= VALUE_LIMIT
}

/// Index sums only look at the first `m` selectors.
proof fn lemma_sum_idx_agree(
    col: Seq<i64>,
    o1: Seq<usize>,
    o2: Seq<usize>,
    g: spec_fn(i64) -> int,
    m: int,
)
    requires
        m <= o1.len(),
        m <= o2.len(),
        forall|s: int| 0 <= s < m ==> o1[s] == o2[s],
    ensures
        sum_idx(col, o1, g, m) == sum_idx(col, o2, g, m),
    decreases m,
{
    if m > 0 {
        lemma_sum_idx_agree(col, o1, o2, g, m - 1);
    }
}

/// Removing one selector removes exactly its summand.
proof fn lemma_sum_idx_remove(col: Seq<i64>, ord: Seq<usize>, g: spec_fn(i64) -> int, t: int)
    requires
        0 <= t < ord.len(),
    ensures
        sum_idx(col, ord.remove(t), g, ord.len() - 1) == sum_idx(col, ord, g, ord.len() as int) - g(
            col[ord[t] as int],
        ),
    decreases ord.len(),
{
    let n = ord.len() as int;
    if t == n - 1 {
        lemma_sum_idx_agree(col, ord.remove(t), ord, g, n - 1);
    } else {
        let o1 = ord.drop_last();
        lemma_sum_idx_remove(col, o1, g, t);
        lemma_sum_idx_agree(col, ord, o1, g, n - 1);
        lemma_sum_idx_agree(col, ord.remove(t), o1.remove(t), g, n - 2);
        assert(ord.remove(t)[n - 2] == ord[n - 1]);
    }
}

/// Index sums do not depend on the order of the selectors.
proof fn lemma_sum_idx_perm(col: Seq<i64>, o1: Seq<usize>, o2: Seq<usize>, g: spec_fn(i64) -> int)
    requires
        o1.to_multiset() == o2.to_multiset(),
    ensures
        sum_idx(col, o1, g, o1.len() as int) == sum_idx(col, o2, g, o2.len() as int),
    decreases o1.len(),
{
    broadcast use vstd::seq_lib::group_to_multiset_ensures;
    broadcast use vstd::multiset::group_multiset_axioms;

    assert(o1.to_multiset().len() == o1.len());
    assert(o2.to_multiset().len() == o2.len());
    if o1.len() == 0 {
        assert(o2.len() == 0);
    } else {
        let n = o1.len() as int;
        let x = o1[n - 1];
        assert(o1.contains(x));
        assert(o2.to_multiset().count(x) > 0);
        assert(o2.contains(x));
        let t = choose|t: int| 0 <= t < o2.len() && o2[t] == x;
        assert(o1.remove(n - 1).to_multiset() =~= o2.remove(t).to_multiset());
        lemma_sum_idx_perm(col, o1.remove(n - 1), o2.remove(t), g);
        lemma_sum_idx_remove(col, o2, g, t);
        lemma_sum_idx_agree(col, o1.remove(n - 1), o1, g, n - 1);
    }
}

/// Summing along the identity order is summing the column directly.
proof fn lemma_sum_idx_ident(col: Seq<i64>, g: spec_fn(i64) -> int, m: int)
    requires
        m <= col.len(),
        col.len() <= usize::MAX,
    ensures
        sum_idx(col, ident_ord(col.len()), g, m) == sum_all(col, g, m),
    decreases m,
{
    if m > 0 {
        lemma_sum_idx_ident(col, g, m - 1);
        assert(ident_ord(col.len())[m - 1] == (m - 1) as usize);
    }
}

/// Summing the column in any complete order is summing it directly.
pub proof fn lemma_sum_idx_complete(col: Seq<i64>, ord: Seq<usize>, g: spec_fn(i64) -> int)
    requires
        ord.len() == col.len(),
        col.len() <= usize::MAX,
        ord.to_multiset() == ident_ord(col.len()).to_multiset(),
    ensures
        sum_idx(col, ord, g, ord.len() as int) == sum_all(col, g, col.len() as int),
{
    lemma_sum_idx_perm(col, ord, ident_ord(col.len()), g);
    lemma_sum_idx_ident(col, g, col.len() as int);
}

/// Sum of the performances selected by `ord[a..b]`: the running window sum
/// of the sliding-window algorithm.
pub open spec fn win_sum(col: Seq<i64>, ord: Seq<usize>, a: int, b: int) -> int
    decreases b - a,
{
    if b <= a {
        0
    } else {
        win_sum(col, ord, a, b - 1) + col[ord[b - 1] as int] as int
    }
}

/// A window sum shrinks from the left by dropping the leftmost performance.
proof fn lemma_win_sum_lo(col: Seq<i64>, ord: Seq<usize>, a: int, b: int)
    requires
        a < b,
    ensures
        win_sum(col, ord, a, b) == win_sum(col, ord, a + 1, b) + col[ord[a] as int],
    decreases b - a,
{
    if a + 1 < b {
        lemma_win_sum_lo(col, ord, a, b - 1);
        assert(win_sum(col, ord, a, b) == win_sum(col, ord, a, b - 1) + col[ord[b - 1] as int]);
        assert(win_sum(col, ord, a + 1, b) == win_sum(col, ord, a + 1, b - 1) + col[ord[b
            - 1] as int]);
    } else {
        assert(b == a + 1);
        assert(win_sum(col, ord, a, b) == win_sum(col, ord, a, a) + col[ord[a] as int]);
        assert(win_sum(col, ord, a + 1, b) == 0);
    }
}

/// A window sum over bounded performances is itself bounded.
proof fn lemma_win_sum_bound(col: Seq<i64>, ord: Seq<usize>, a: int, b: int)
    requires
        0 <= a <= b <= ord.len(),
        forall|s: int| 0 <= s < ord.len() ==> (#[trigger] ord[s] as int) < col.len(),
        col_bounded(col),
        ord.len() == col.len(),
    ensures
        -(b - a) * (VALUE_LIMIT as int) <= win_sum(col, ord, a, b) <= (b - a) * (
        VALUE_LIMIT as int),
    decreases b - a,
{
    let lim = VALUE_LIMIT as int;
    if a < b {
        lemma_win_sum_bound(col, ord, a, b - 1);
        assert((b - 1 - a) * lim + lim == (b - a) * lim) by (nonlinear_arith);
        assert(-(b - 1 - a) * lim - lim == -(b - a) * lim) by (nonlinear_arith);
    }
}

/// The performances selected by an index list, in the list's order.
pub open spec fn map_ord(col: Seq<i64>, ord: Seq<usize>) -> Seq<i64> {
    Seq::new(ord.len(), |t: int| col[ord[t] as int])
}

/// Selecting along index lists with the same multiset yields value lists
/// with the same multiset.
proof fn lemma_map_ord_perm(col: Seq<i64>, o1: Seq<usize>, o2: Seq<usize>)
    requires
        o1.to_multiset() == o2.to_multiset(),
    ensures
        map_ord(col, o1).to_multiset() == map_ord(col, o2).to_multiset(),
    decreases o1.len(),
{
    broadcast use vstd::seq_lib::group_to_multiset_ensures;
    broadcast use vstd::multiset::group_multiset_axioms;

    assert(o1.to_multiset().len() == o1.len());
    assert(o2.to_multiset().len() == o2.len());
    if o1.len() == 0 {
        assert(map_ord(col, o1).to_multiset() =~= map_ord(col, o2).to_multiset());
    } else {
        let n = o1.len() as int;
        let x = o1[n - 1];
        assert(o1.contains(x));
        assert(o2.to_multiset().count(x) > 0);
        assert(o2.contains(x));
        let t = choose|t: int| 0 <= t < o2.len() && o2[t] == x;
        assert(o1.remove(n - 1).to_multiset() =~= o2.remove(t).to_multiset());
        lemma_map_ord_perm(col, o1.remove(n - 1), o2.remove(t));
        let v = col[x as int];
        let m1 = map_ord(col, o1);
        let m2 = map_ord(col, o2);
        assert(m1 =~= map_ord(col, o1.remove(n - 1)).push(v));
        assert(m1.to_multiset() =~= map_ord(col, o1.remove(n - 1)).to_multiset().insert(v));
        assert(m2.remove(t) =~= map_ord(col, o2.remove(t)));
        assert(m2[t] == v);
        assert(m2.remove(t).to_multiset() =~= m2.to_multiset().remove(v));
        assert(m2.contains(v)) by {
            assert(m2[t] == v);
        }
        assert(m2.to_multiset().count(v) > 0);
        assert forall|w: i64|
            m1.to_multiset().count(w) == #[trigger] m2.to_multiset().count(w) by {
            if w == v {
                assert(m2.to_multiset().remove(v).count(v) == m2.to_multiset().count(v) - 1);
            } else {
                assert(m2.to_multiset().remove(v).count(w) == m2.to_multiset().count(w));
            }
        }
        assert(m1.to_multiset() =~= m2.to_multiset());
    }
}

/// The performances selected by a complete index list are a rearrangement
/// of the column: both hold the same multiset of values.
pub proof fn lemma_map_ord_multiset(col: Seq<i64>, ord: Seq<usize>)
    requires
        ord.len() == col.len(),
        col.len() <= usize::MAX,
        ord.to_multiset() == ident_ord(col.len()).to_multiset(),
    ensures
        map_ord(col, ord).to_multiset() == col.to_multiset(),
{
    lemma_map_ord_perm(col, ord, ident_ord(col.len()));
    assert(map_ord(col, ident_ord(col.len())) =~= col);
}

/// Two summand functions that agree on every value give equal sums.
proof fn lemma_sum_all_ext(col: Seq<i64>, g1: spec_fn(i64) -> int, g2: spec_fn(i64) -> int, m: int)
    requires
        forall|v: i64| #[trigger] g1(v) == g2(v),
    ensures
        sum_all(col, g1, m) == sum_all(col, g2, m),
    decreases m,
{
    if m > 0 {
        lemma_sum_all_ext(col, g1, g2, m - 1);
    }
}

/// A `VShape` ramp is the `Linear` ramp whose indifference threshold is 0:
/// their flow numerators agree on every column.
pub proof fn lemma_vshape_as_linear(col: Seq<i64>, p: i64, i: int)
    ensures
        pos_flow_num(col, GeneralizedCriterion::VShape { p }, i) == pos_flow_num(
            col,
            GeneralizedCriterion::Linear { q: 0, p },
            i,
        ),
        neg_flow_num(col, GeneralizedCriterion::VShape { p }, i) == neg_flow_num(
            col,
            GeneralizedCriterion::Linear { q: 0, p },
            i,
        ),
{
    let gv = GeneralizedCriterion::VShape { p };
    let gl = GeneralizedCriterion::Linear { q: 0, p };
    let f = col[i] as int;
    assert forall|v: i64| #[trigger] pos_term(gv, f)(v) == pos_term(gl, f)(v) by {
        assert(pos_term(gv, f)(v) == pref_num(gv, f - v));
        assert(pos_term(gl, f)(v) == pref_num(gl, f - v));
    }
    assert forall|v: i64| #[trigger] neg_term(gv, f)(v) == neg_term(gl, f)(v) by {
        assert(neg_term(gv, f)(v) == pref_num(gv, v - f));
        assert(neg_term(gl, f)(v) == pref_num(gl, v - f));
    }
    lemma_sum_all_ext(col, pos_term(gv, f), pos_term(gl, f), col.len() as int);
    lemma_sum_all_ext(col, neg_term(gv, f), neg_term(gl, f), col.len() as int);
}

/// Inserting a value anywhere in a sequence inserts it into its multiset.
pub(crate) proof fn lemma_insert_multiset(s: Seq<usize>, pos: int, x: usize)
    requires
        0 <= pos <= s.len(),
    ensures
        s.insert(pos, x).to_multiset() =~= s.to_multiset().insert(x),
{
    broadcast use vstd::seq_lib::group_to_multiset_ensures;
    broadcast use vstd::multiset::group_multiset_axioms;

    let si = s.insert(pos, x);
    assert(si.remove(pos) =~= s);
    assert(si.remove(pos).to_multiset() =~= si.to_multiset().remove(si[pos]));
    assert(si.contains(x)) by {
        assert(si[pos] == x);
    }
    assert(si.to_multiset().count(x) > 0);
    assert forall|v: usize|
        si.to_multiset().count(v) == #[trigger] s.to_multiset().insert(x).count(v) by {
        if v == x {
            assert(s.to_multiset().count(x) == si.to_multiset().remove(x).count(x));
        } else {
            assert(s.to_multiset().count(v) == si.to_multiset().remove(x).count(v));
        }
    }
    assert(si.to_multiset() =~= s.to_multiset().insert(x));
}

/// Product bounds used to keep the window arithmetic inside `i128`.
proof fn lemma_prod_bounds(x: int, y: int, xb: int, yb: int)
    requires
        0 <= x <= xb,
        -yb <= y <= yb,
    ensures
        -(xb * yb) <= x * y <= xb * yb,
{
    assert(-(xb * yb) <= x * y <= xb * yb) by (nonlinear_arith)
        requires
            0 <= x <= xb,
            -yb <= y <= yb,
    ;
}

/// An ascending order selects every index exactly once, so its selectors
/// are pairwise distinct.
proof fn lemma_asc_order_distinct(col: Seq<i64>, ord: Seq<usize>)
    requires
        is_asc_order(col, ord),
        col.len() <= usize::MAX,
    ensures
        forall|s: int, t: int|
            0 <= s < t < ord.len() ==> #[trigger] ord[s] != #[trigger] ord[t],
{
    broadcast use vstd::seq_lib::group_to_multiset_ensures;
    broadcast use vstd::multiset::group_multiset_axioms;

    let id = ident_ord(col.len());
    assert(id.no_duplicates()) by {
        assert forall|i: int, j: int| 0 <= i < id.len() && 0 <= j < id.len() && i != j implies id[i]
            != id[j] by {
            assert(id[i] == i as usize);
            assert(id[j] == j as usize);
        }
    }
    id.lemma_multiset_has_no_duplicates();
    assert(forall|x: usize|
        ord.to_multiset().contains(x) ==> ord.to_multiset().count(x) == 1);
    ord.lemma_multiset_has_no_duplicates_conv();
    assert forall|s: int, t: int| 0 <= s < t < ord.len() implies #[trigger] ord[s]
        != #[trigger] ord[t] by {
        assert(ord.no_duplicates());
    }
}

/// Once every selector has a correct result, every index has one: the
/// ascending order covers all of `0..n`.
proof fn lemma_results_complete(
    col: Seq<i64>,
    ord: Seq<usize>,
    r: Seq<i128>,
    gc: GeneralizedCriterion,
    positive: bool,
)
    requires
        is_asc_order(col, ord),
        col.len() <= usize::MAX,
        r.len() == col.len(),
        forall|u: int|
            0 <= u < ord.len() ==> r[#[trigger] ord[u] as int] == if positive {
                pos_flow_num(col, gc, ord[u] as int)
            } else {
                neg_flow_num(col, gc, ord[u] as int)
            },
    ensures
        forall|i: int|
            0 <= i < col.len() ==> #[trigger] r[i] == if positive {
                pos_flow_num(col, gc, i)
            } else {
                neg_flow_num(col, gc, i)
            },
{
    broadcast use vstd::seq_lib::group_to_multiset_ensures;
    broadcast use vstd::multiset::group_multiset_axioms;

    let id = ident_ord(col.len());
    assert forall|i: int|
        0 <= i < col.len() implies #[trigger] r[i] == (if positive {
        pos_flow_num(col, gc, i)
    } else {
        neg_flow_num(col, gc, i)
    }) by {
        assert(id[i] == i as usize);
        assert(id.contains(i as usize));
        assert(id.to_multiset().count(i as usize) > 0);
        assert(ord.to_multiset().count(i as usize) > 0);
        assert(ord.contains(i as usize));
        let u = choose|u: int| 0 <= u < ord.len() && ord[u] == i as usize;
        assert(r[ord[u] as int] == if positive {
            pos_flow_num(col, gc, ord[u] as int)
        } else {
            neg_flow_num(col, gc, ord[u] as int)
        });
    }
}

/// Value of the sliding window's counters at one anchor of the ascending
/// pass, degenerate ramp (`qv == pv`, a pure step): the partial sums of the
/// positive-flow summands count the fully preferred prefix.
proof fn lemma_fast_pos_anchor_deg(
    col: Seq<i64>,
    ord: Seq<usize>,
    qv: i64,
    pv: i64,
    f: i64,
    c: int,
    m: int,
)
    requires
        qv == pv,
        0 <= c <= ord.len(),
        forall|s: int| 0 <= s < c ==> col[#[trigger] ord[s] as int] as int <= f as int - pv as int,
        forall|s: int|
            c <= s < ord.len() ==> col[#[trigger] ord[s] as int] as int > f as int - pv as int,
        0 <= m <= ord.len(),
    ensures
        sum_idx(
            col,
            ord,
            pos_term(GeneralizedCriterion::Linear { q: qv, p: pv }, f as int),
            m,
        ) == if m <= c {
            m
        } else {
            c
        },
    decreases m,
{
    let gc = GeneralizedCriterion::Linear { q: qv, p: pv };
    if m > 0 {
        lemma_fast_pos_anchor_deg(col, ord, qv, pv, f, c, m - 1);
        let v = col[ord[m - 1] as int];
        assert(pos_term(gc, f as int)(v) == pref_num(gc, f as int - v as int));
        if m - 1 < c {
            assert(pref_num(gc, f as int - v as int) == 1);
        } else {
            assert(pref_num(gc, f as int - v as int) == 0);
        }
    }
}

/// Value of the sliding window's counters at one anchor of the ascending
/// pass, proper ramp (`qv < pv`): prefix entries are fully preferred,
/// window entries contribute their ramp position, the rest contribute
/// nothing.
proof fn lemma_fast_pos_anchor(
    col: Seq<i64>,
    ord: Seq<usize>,
    qv: i64,
    pv: i64,
    f: i64,
    lo: int,
    hi: int,
    m: int,
)
    requires
        qv < pv,
        0 <= lo <= hi <= ord.len(),
        forall|s: int| 0 <= s < lo ==> col[#[trigger] ord[s] as int] as int <= f as int - pv as int,
        forall|s: int|
            lo <= s < hi ==> f as int - pv as int <= col[#[trigger] ord[s] as int] as int <= f as int
                - qv as int,
        forall|s: int|
            hi <= s < ord.len() ==> col[#[trigger] ord[s] as int] as int > f as int - qv as int,
        0 <= m <= ord.len(),
    ensures
        sum_idx(
            col,
            ord,
            pos_term(GeneralizedCriterion::Linear { q: qv, p: pv }, f as int),
            m,
        ) == if m <= lo {
            m * (pv - qv)
        } else if m <= hi {
            lo * (pv - qv) + (m - lo) * (f - qv) - win_sum(col, ord, lo, m)
        } else {
            lo * (pv - qv) + (hi - lo) * (f - qv) - win_sum(col, ord, lo, hi)
        },
    decreases m,
{
    let gc = GeneralizedCriterion::Linear { q: qv, p: pv };
    let g = pos_term(gc, f as int);
    let d = pv as int - qv as int;
    let fq = f as int - qv as int;
    if m > 0 {
        lemma_fast_pos_anchor(col, ord, qv, pv, f, lo, hi, m - 1);
        let v64 = col[ord[m - 1] as int];
        let v = v64 as int;
        assert(sum_idx(col, ord, g, m) == sum_idx(col, ord, g, m - 1) + g(v64));
        assert(g(v64) == pref_num(gc, f as int - v));
        if m - 1 < lo {
            assert(pref_num(gc, f as int - v) == d);
            assert((m - 1) * d + d == m * d) by (nonlinear_arith);
            assert(sum_idx(col, ord, g, m) == m * d);
        } else if m - 1 < hi {
            assert(pref_num(gc, f as int - v) == f as int - v - qv as int);
            assert((m - 1 - lo) * fq + fq == (m - lo) * fq) by (nonlinear_arith);
            assert(win_sum(col, ord, lo, m) == win_sum(col, ord, lo, m - 1) + v);
            if m - 1 == lo {
                assert(sum_idx(col, ord, g, m - 1) == lo * d);
                assert(win_sum(col, ord, lo, m - 1) == 0);
                assert((m - 1 - lo) * fq == 0) by (nonlinear_arith)
                    requires
                        m - 1 == lo,
                ;
            }
            assert(sum_idx(col, ord, g, m) == lo * d + (m - lo) * fq - win_sum(col, ord, lo, m));
        } else {
            assert(pref_num(gc, f as int - v) == 0);
            if m - 1 == hi {
                if hi == lo {
                    assert(sum_idx(col, ord, g, m - 1) == lo * d);
                    assert((hi - lo) * fq == 0) by (nonlinear_arith)
                        requires
                            hi == lo,
                    ;
                    assert(win_sum(col, ord, lo, hi) == 0);
                }
                assert(sum_idx(col, ord, g, m - 1) == lo * d + (hi - lo) * fq - win_sum(
                    col,
                    ord,
                    lo,
                    hi,
                ));
            }
            assert(sum_idx(col, ord, g, m) == lo * d + (hi - lo) * fq - win_sum(col, ord, lo, hi));
        }
    } else {
        assert(sum_idx(col, ord, g, m) == 0);
    }
}

/// Positive unicriterion flow numerators of a linear-ramp criterion
/// `Linear { q: qv, p: pv }` (a `VShape { p }` is the same ramp with
/// `qv == 0`), computed in one ascending pass.
///
/// Walking the alternatives by ascending performance, `ord[..lo]` holds the
/// alternatives the anchor fully prefers, the window `ord[lo..hi]` those
/// inside the active ramp `[f - pv, f - qv]`, and `wsum` their running
/// performance sum, so each anchor's numerator costs amortized constant
/// time instead of a pass over all alternatives.
#[verifier::loop_isolation(false)]
#[verifier::rlimit(100)]
pub fn fast_positive_flow_nums(col: &Vec<i64>, qv: i64, pv: i64, ord: &Vec<usize>) -> (r: Vec<
    i128,
>)
    requires
        0 <= qv <= pv <= VALUE_LIMIT,
        col_bounded(col@),
        is_asc_order(col@, ord@),
    ensures
        r@.len() == col@.len(),
        forall|i: int|
            0 <= i < col@.len() ==> #[trigger] r@[i] == pos_flow_num(
                col@,
                GeneralizedCriterion::Linear { q: qv, p: pv },
                i,
            ),
{
    let ghost gcl = GeneralizedCriterion::Linear { q: qv, p: pv };
    let n = col.len();
    proof {
        lemma_asc_order_distinct(col@, ord@);
    }
    let mut r: Vec<i128> = Vec::new();
    let mut z: usize = 0;
    while z < n
        invariant
            z <= n,
            r@.len() == z as int,
        decreases n - z,
    {
        r.push(0);
        z = z + 1;
    }
    if pv == qv {
        let mut cnt: usize = 0;
        let mut t: usize = 0;
        while t < n
            invariant
                t <= n,
                cnt <= n,
                r@.len() == n as int,
                t == 0 ==> cnt == 0,
                t > 0 ==> forall|s: int|
                    0 <= s < cnt ==> col@[#[trigger] ord@[s] as int] as int <= col@[ord@[t
                        - 1] as int] as int - pv as int,
                t > 0 ==> forall|s: int|
                    cnt <= s < n ==> col@[#[trigger] ord@[s] as int] as int > col@[ord@[t
                        - 1] as int] as int - pv as int,
                forall|u: int|
                    0 <= u < t ==> r@[#[trigger] ord@[u] as int] == pos_flow_num(
                        col@,
                        gcl,
                        ord@[u] as int,
                    ),
            decreases n - t,
        {
            let idx = ord[t];
            let f = col[idx];
            proof {
                if t > 0 {
                    assert(col@[ord@[t - 1] as int] <= col@[ord@[t as int] as int]);
                }
            }
            let lowv: i128 = f as i128 - pv as i128;
            while cnt < n && col[ord[cnt]] as i128 <= lowv
                invariant
                    cnt <= n,
                    forall|s: int|
                        0 <= s < cnt ==> col@[#[trigger] ord@[s] as int] as int <= f as int
                            - pv as int,
                decreases n - cnt,
            {
                cnt = cnt + 1;
            }
            proof {
                assert forall|s: int|
                    cnt <= s < n implies col@[#[trigger] ord@[s] as int] as int > f as int
                    - pv as int by {
                    assert(col@[ord@[cnt as int] as int] as i128 > lowv);
                    if s > cnt {
                        assert(col@[ord@[cnt as int] as int] <= col@[ord@[s] as int]);
                    }
                }
                lemma_fast_pos_anchor_deg(col@, ord@, qv, pv, f, cnt as int, n as int);
                lemma_sum_idx_complete(col@, ord@, pos_term(gcl, f as int));
            }
            r.set(idx, cnt as i128);
            t = t + 1;
        }
        proof {
            lemma_results_complete(col@, ord@, r@, gcl, true);
        }
        r
    } else {
        let dw: i64 = pv - qv;
        let mut lo: usize = 0;
        let mut hi: usize = 0;
        let mut wsum: i128 = 0;
        let mut t: usize = 0;
        while t < n
            invariant
                t <= n,
                lo <= hi <= n,
                r@.len() == n as int,
                wsum == win_sum(col@, ord@, lo as int, hi as int),
                t == 0 ==> lo == 0 && hi == 0,
                t > 0 ==> forall|s: int|
                    0 <= s < lo ==> col@[#[trigger] ord@[s] as int] as int <= col@[ord@[t
                        - 1] as int] as int - pv as int,
                t > 0 ==> forall|s: int|
                    lo <= s < hi ==> col@[ord@[t - 1] as int] as int - pv as int <= col@[
                        #[trigger] ord@[s] as int
                    ] as int <= col@[ord@[t - 1] as int] as int - qv as int,
                t > 0 ==> forall|s: int|
                    hi <= s < n ==> col@[#[trigger] ord@[s] as int] as int > col@[ord@[t
                        - 1] as int] as int - qv as int,
                forall|u: int|
                    0 <= u < t ==> r@[#[trigger] ord@[u] as int] == pos_flow_num(
                        col@,
                        gcl,
                        ord@[u] as int,
                    ),
            decreases n - t,
        {
            let idx = ord[t];
            let f = col[idx];
            proof {
                if t > 0 {
                    assert(col@[ord@[t - 1] as int] <= col@[ord@[t as int] as int]);
                }
            }
            let lowv: i128 = f as i128 - pv as i128;
            let upv: i128 = f as i128 - qv as i128;
            while lo < hi && col[ord[lo]] as i128 <= lowv
                invariant
                    lo <= hi,
                    wsum == win_sum(col@, ord@, lo as int, hi as int),
                    forall|s: int|
                        0 <= s < lo ==> col@[#[trigger] ord@[s] as int] as int <= f as int
                            - pv as int,
                    forall|s: int|
                        lo <= s < hi ==> col@[#[trigger] ord@[s] as int] as int <= f as int
                            - qv as int,
                decreases hi - lo,
            {
                proof {
                    lemma_win_sum_lo(col@, ord@, lo as int, hi as int);
                    lemma_win_sum_bound(col@, ord@, lo as int, hi as int);
                    lemma_prod_bounds(
                        hi - lo,
                        VALUE_LIMIT as int,
                        usize::MAX as int,
                        VALUE_LIMIT as int,
                    );
                }
                wsum = wsum - col[ord[lo]] as i128;
                lo = lo + 1;
            }
            proof {
                assert forall|s: int|
                    lo <= s < hi implies col@[#[trigger] ord@[s] as int] as int >= f as int
                    - pv as int by {
                    assert(col@[ord@[lo as int] as int] as i128 > lowv);
                    if s > lo {
                        assert(col@[ord@[lo as int] as int] <= col@[ord@[s] as int]);
                    }
                }
            }
            while hi < n && col[ord[hi]] as i128 <= upv
                invariant
                    lo <= hi <= n,
                    wsum == win_sum(col@, ord@, lo as int, hi as int),
                    forall|s: int|
                        0 <= s < lo ==> col@[#[trigger] ord@[s] as int] as int <= f as int
                            - pv as int,
                    forall|s: int|
                        lo <= s < hi ==> f as int - pv as int <= col@[
                            #[trigger] ord@[s] as int
                        ] as int <= f as int - qv as int,
                decreases n - hi,
            {
                if col[ord[hi]] as i128 >= lowv {
                    proof {
                        lemma_win_sum_bound(col@, ord@, lo as int, hi as int);
                        lemma_prod_bounds(
                            hi - lo,
                            VALUE_LIMIT as int,
                            usize::MAX as int,
                            VALUE_LIMIT as int,
                        );
                    }
                    wsum = wsum + col[ord[hi]] as i128;
                    hi = hi + 1;
                } else {
                    proof {
                        if lo < hi {
                            assert(col@[ord@[lo as int] as int] <= col@[ord@[hi as int] as int]);
                            assert(false);
                        }
                    }
                    lo = lo + 1;
                    hi = hi + 1;
                }
            }
            proof {
                assert forall|s: int|
                    hi <= s < n implies col@[#[trigger] ord@[s] as int] as int > f as int
                    - qv as int by {
                    assert(col@[ord@[hi as int] as int] as i128 > upv);
                    if s > hi {
                        assert(col@[ord@[hi as int] as int] <= col@[ord@[s] as int]);
                    }
                }
                lemma_win_sum_bound(col@, ord@, lo as int, hi as int);
                lemma_prod_bounds(
                    lo as int,
                    dw as int,
                    usize::MAX as int,
                    VALUE_LIMIT as int,
                );
                lemma_prod_bounds(
                    hi - lo,
                    f as int - qv as int,
                    usize::MAX as int,
                    2 * VALUE_LIMIT as int,
                );
                lemma_prod_bounds(
                    hi - lo,
                    VALUE_LIMIT as int,
                    usize::MAX as int,
                    VALUE_LIMIT as int,
                );
                lemma_fast_pos_anchor(col@, ord@, qv, pv, f, lo as int, hi as int, n as int);
                lemma_sum_idx_complete(col@, ord@, pos_term(gcl, f as int));
            }
            let val: i128 = (lo as i128) * (dw as i128) + ((hi - lo) as i128) * (f as i128
                - qv as i128) - wsum;
            r.set(idx, val);
            t = t + 1;
        }
        proof {
            lemma_results_complete(col@, ord@, r@, gcl, true);
        }
        r
    }
}

/// Value of the sliding window's counters at one anchor of the descending
/// pass, degenerate ramp (`qv == pv`): the partial sums of the
/// negative-flow summands count the fully preferring suffix.
proof fn lemma_fast_neg_anchor_deg(
    col: Seq<i64>,
    ord: Seq<usize>,
    qv: i64,
    pv: i64,
    f: i64,
    c: int,
    m: int,
)
    requires
        qv == pv,
        0 <= c <= ord.len(),
        forall|s: int| 0 <= s < c ==> (col[#[trigger] ord[s] as int] as int) < f as int + pv as int,
        forall|s: int|
            c <= s < ord.len() ==> col[#[trigger] ord[s] as int] as int >= f as int + pv as int,
        0 <= m <= ord.len(),
    ensures
        sum_idx(
            col,
            ord,
            neg_term(GeneralizedCriterion::Linear { q: qv, p: pv }, f as int),
            m,
        ) == if m <= c {
            0
        } else {
            m - c
        },
    decreases m,
{
    let gc = GeneralizedCriterion::Linear { q: qv, p: pv };
    if m > 0 {
        lemma_fast_neg_anchor_deg(col, ord, qv, pv, f, c, m - 1);
        let v64 = col[ord[m - 1] as int];
        assert(neg_term(gc, f as int)(v64) == pref_num(gc, v64 as int - f as int));
        if m - 1 < c {
            assert(pref_num(gc, v64 as int - f as int) == 0);
        } else {
            assert(pref_num(gc, v64 as int - f as int) == 1);
        }
    }
}

/// Value of the sliding window's counters at one anchor of the descending
/// pass, proper ramp (`qv < pv`): suffix entries fully prefer the anchor,
/// window entries contribute their ramp position, the rest contribute
/// nothing.
proof fn lemma_fast_neg_anchor(
    col: Seq<i64>,
    ord: Seq<usize>,
    qv: i64,
    pv: i64,
    f: i64,
    lo: int,
    hi: int,
    m: int,
)
    requires
        qv < pv,
        0 <= lo <= hi <= ord.len(),
        forall|s: int| 0 <= s < lo ==> (col[#[trigger] ord[s] as int] as int) < f as int + qv as int,
        forall|s: int|
            lo <= s < hi ==> f as int + qv as int <= col[#[trigger] ord[s] as int] as int <= f as int
                + pv as int,
        forall|s: int|
            hi <= s < ord.len() ==> col[#[trigger] ord[s] as int] as int >= f as int + pv as int,
        0 <= m <= ord.len(),
    ensures
        sum_idx(
            col,
            ord,
            neg_term(GeneralizedCriterion::Linear { q: qv, p: pv }, f as int),
            m,
        ) == if m <= lo {
            0
        } else if m <= hi {
            win_sum(col, ord, lo, m) - (m - lo) * (f + qv)
        } else {
            win_sum(col, ord, lo, hi) - (hi - lo) * (f + qv) + (m - hi) * (pv - qv)
        },
    decreases m,
{
    let gc = GeneralizedCriterion::Linear { q: qv, p: pv };
    let g = neg_term(gc, f as int);
    let d = pv as int - qv as int;
    let fq = f as int + qv as int;
    if m > 0 {
        lemma_fast_neg_anchor(col, ord, qv, pv, f, lo, hi, m - 1);
        let v64 = col[ord[m - 1] as int];
        let v = v64 as int;
        assert(sum_idx(col, ord, g, m) == sum_idx(col, ord, g, m - 1) + g(v64));
        assert(g(v64) == pref_num(gc, v - f as int));
        if m - 1 < lo {
            assert(pref_num(gc, v - f as int) == 0);
        } else if m - 1 < hi {
            assert(pref_num(gc, v - f as int) == v - f as int - qv as int);
            assert((m - 1 - lo) * fq + fq == (m - lo) * fq) by (nonlinear_arith);
            assert(win_sum(col, ord, lo, m) == win_sum(col, ord, lo, m - 1) + v);
            if m - 1 == lo {
                assert(sum_idx(col, ord, g, m - 1) == 0);
                assert(win_sum(col, ord, lo, m - 1) == 0);
                assert((m - 1 - lo) * fq == 0) by (nonlinear_arith)
                    requires
                        m - 1 == lo,
                ;
            }
            assert(sum_idx(col, ord, g, m) == win_sum(col, ord, lo, m) - (m - lo) * fq);
        } else {
            assert(pref_num(gc, v - f as int) == d);
            assert((m - 1 - hi) * d + d == (m - hi) * d) by (nonlinear_arith);
            if m - 1 == hi {
                if hi == lo {
                    assert(sum_idx(col, ord, g, m - 1) == 0);
                    assert((hi - lo) * fq == 0) by (nonlinear_arith)
                        requires
                            hi == lo,
                    ;
                    assert(win_sum(col, ord, lo, hi) == 0);
                }
                assert(sum_idx(col, ord, g, m - 1) == win_sum(col, ord, lo, hi) - (hi - lo) * fq);
                assert((m - 1 - hi) * d == 0) by (nonlinear_arith)
                    requires
                        m - 1 == hi,
                ;
            }
            assert(sum_idx(col, ord, g, m) == win_sum(col, ord, lo, hi) - (hi - lo) * fq + (m - hi)
                * d);
        }
    } else {
        assert(sum_idx(col, ord, g, m) == 0);
    }
}

/// Negative unicriterion flow numerators of a linear-ramp criterion
/// `Linear { q: qv, p: pv }`, computed in one descending pass.
///
/// The mirror image of [`fast_positive_flow_nums`]: walking the
/// alternatives by descending performance, `ord[jhi..]` holds the
/// alternatives that fully prefer the anchor, the window `ord[jlo..jhi]`
/// those inside the active ramp `[f + qv, f + pv]`, and `wsum` their
/// running performance sum.
#[verifier::loop_isolation(false)]
#[verifier::rlimit(100)]
pub fn fast_negative_flow_nums(col: &Vec<i64>, qv: i64, pv: i64, ord: &Vec<usize>) -> (r: Vec<
    i128,
>)
    requires
        0 <= qv <= pv <= VALUE_LIMIT,
        col_bounded(col@),
        is_asc_order(col@, ord@),
    ensures
        r@.len() == col@.len(),
        forall|i: int|
            0 <= i < col@.len() ==> #[trigger] r@[i] == neg_flow_num(
                col@,
                GeneralizedCriterion::Linear { q: qv, p: pv },
                i,
            ),
{
    let ghost gcl = GeneralizedCriterion::Linear { q: qv, p: pv };
    let n = col.len();
    proof {
        lemma_asc_order_distinct(col@, ord@);
    }
    let mut r: Vec<i128> = Vec::new();
    let mut z: usize = 0;
    while z < n
        invariant
            z <= n,
            r@.len() == z as int,
        decreases n - z,
    {
        r.push(0);
        z = z + 1;
    }
    if pv == qv {
        let mut cnt: usize = n;
        let mut t: usize = n;
        while t > 0
            invariant
                t <= n,
                cnt <= n,
                r@.len() == n as int,
                t == n ==> cnt == n,
                t < n ==> forall|s: int|
                    cnt <= s < n ==> col@[#[trigger] ord@[s] as int] as int >= col@[
                        ord@[t as int] as int
                    ] as int + pv as int,
                t < n ==> forall|s: int|
                    0 <= s < cnt ==> (col@[#[trigger] ord@[s] as int] as int) < col@[
                        ord@[t as int] as int
                    ] as int + pv as int,
                forall|u: int|
                    t <= u < n ==> r@[#[trigger] ord@[u] as int] == neg_flow_num(
                        col@,
                        gcl,
                        ord@[u] as int,
                    ),
            decreases t,
        {
            let tp = t - 1;
            let idx = ord[tp];
            let f = col[idx];
            proof {
                if t < n {
                    assert(col@[ord@[tp as int] as int] <= col@[ord@[t as int] as int]);
                }
            }
            let upv: i128 = f as i128 + pv as i128;
            while cnt > 0 && col[ord[cnt - 1]] as i128 >= upv
                invariant
                    cnt <= n,
                    forall|s: int|
                        cnt <= s < n ==> col@[#[trigger] ord@[s] as int] as int >= f as int
                            + pv as int,
                decreases cnt,
            {
                cnt = cnt - 1;
            }
            proof {
                assert forall|s: int|
                    0 <= s < cnt implies (col@[#[trigger] ord@[s] as int] as int) < f as int
                    + pv as int by {
                    assert((col@[ord@[cnt - 1] as int] as i128) < upv);
                    if s < cnt - 1 {
                        assert(col@[ord@[s] as int] <= col@[ord@[cnt - 1] as int]);
                    }
                }
                lemma_fast_neg_anchor_deg(col@, ord@, qv, pv, f, cnt as int, n as int);
                lemma_sum_idx_complete(col@, ord@, neg_term(gcl, f as int));
            }
            r.set(idx, (n - cnt) as i128);
            t = tp;
        }
        proof {
            lemma_results_complete(col@, ord@, r@, gcl, false);
        }
        r
    } else {
        let dw: i64 = pv - qv;
        let mut jlo: usize = n;
        let mut jhi: usize = n;
        let mut wsum: i128 = 0;
        let mut t: usize = n;
        while t > 0
            invariant
                t <= n,
                jlo <= jhi <= n,
                r@.len() == n as int,
                wsum == win_sum(col@, ord@, jlo as int, jhi as int),
                t == n ==> jlo == n && jhi == n,
                t < n ==> forall|s: int|
                    jhi <= s < n ==> col@[#[trigger] ord@[s] as int] as int >= col@[
                        ord@[t as int] as int
                    ] as int + pv as int,
                t < n ==> forall|s: int|
                    jlo <= s < jhi ==> col@[ord@[t as int] as int] as int + qv as int <= col@[
                        #[trigger] ord@[s] as int
                    ] as int <= col@[ord@[t as int] as int] as int + pv as int,
                forall|u: int|
                    t <= u < n ==> r@[#[trigger] ord@[u] as int] == neg_flow_num(
                        col@,
                        gcl,
                        ord@[u] as int,
                    ),
            decreases t,
        {
            let tp = t - 1;
            let idx = ord[tp];
            let f = col[idx];
            proof {
                if t < n {
                    assert(col@[ord@[tp as int] as int] <= col@[ord@[t as int] as int]);
                }
            }
            let lowv: i128 = f as i128 + qv as i128;
            let upv: i128 = f as i128 + pv as i128;
            while jlo < jhi && col[ord[jhi - 1]] as i128 >= upv
                invariant
                    jlo <= jhi <= n,
                    wsum == win_sum(col@, ord@, jlo as int, jhi as int),
                    forall|s: int|
                        jhi <= s < n ==> col@[#[trigger] ord@[s] as int] as int >= f as int
                            + pv as int,
                    forall|s: int|
                        jlo <= s < jhi ==> col@[#[trigger] ord@[s] as int] as int >= f as int
                            + qv as int,
                decreases jhi - jlo,
            {
                proof {
                    lemma_win_sum_bound(col@, ord@, jlo as int, jhi as int);
                    lemma_prod_bounds(
                        jhi - jlo,
                        VALUE_LIMIT as int,
                        usize::MAX as int,
                        VALUE_LIMIT as int,
                    );
                }
                wsum = wsum - col[ord[jhi - 1]] as i128;
                jhi = jhi - 1;
            }
            proof {
                assert forall|s: int|
                    jlo <= s < jhi implies col@[#[trigger] ord@[s] as int] as int <= f as int
                    + pv as int by {
                    assert((col@[ord@[jhi - 1] as int] as i128) < upv);
                    if s < jhi - 1 {
                        assert(col@[ord@[s] as int] <= col@[ord@[jhi - 1] as int]);
                    }
                }
            }
            while jlo > 0 && col[ord[jlo - 1]] as i128 >= lowv
                invariant
                    jlo <= jhi <= n,
                    wsum == win_sum(col@, ord@, jlo as int, jhi as int),
                    forall|s: int|
                        jhi <= s < n ==> col@[#[trigger] ord@[s] as int] as int >= f as int
                            + pv as int,
                    forall|s: int|
                        jlo <= s < jhi ==> f as int + qv as int <= col@[
                            #[trigger] ord@[s] as int
                        ] as int <= f as int + pv as int,
                decreases jlo,
            {
                if col[ord[jlo - 1]] as i128 <= upv {
                    proof {
                        lemma_win_sum_lo(col@, ord@, jlo - 1, jhi as int);
                        lemma_win_sum_bound(col@, ord@, jlo as int, jhi as int);
                        lemma_prod_bounds(
                            jhi - jlo,
                            VALUE_LIMIT as int,
                            usize::MAX as int,
                            VALUE_LIMIT as int,
                        );
                    }
                    wsum = wsum + col[ord[jlo - 1]] as i128;
                    jlo = jlo - 1;
                } else {
                    proof {
                        if jlo < jhi {
                            assert(col@[ord@[jlo - 1] as int] <= col@[ord@[jlo as int] as int]);
                            assert(false);
                        }
                    }
                    jlo = jlo - 1;
                    jhi = jhi - 1;
                }
            }
            proof {
                assert forall|s: int|
                    0 <= s < jlo implies (col@[#[trigger] ord@[s] as int] as int) < f as int
                    + qv as int by {
                    assert((col@[ord@[jlo - 1] as int] as i128) < lowv);
                    if s < jlo - 1 {
                        assert(col@[ord@[s] as int] <= col@[ord@[jlo - 1] as int]);
                    }
                }
                lemma_win_sum_bound(col@, ord@, jlo as int, jhi as int);
                lemma_prod_bounds(
                    (n - jhi) as int,
                    dw as int,
                    usize::MAX as int,
                    VALUE_LIMIT as int,
                );
                lemma_prod_bounds(
                    jhi - jlo,
                    f as int + qv as int,
                    usize::MAX as int,
                    2 * VALUE_LIMIT as int,
                );
                lemma_prod_bounds(
                    jhi - jlo,
                    VALUE_LIMIT as int,
                    usize::MAX as int,
                    VALUE_LIMIT as int,
                );
                lemma_fast_neg_anchor(col@, ord@, qv, pv, f, jlo as int, jhi as int, n as int);
                lemma_sum_idx_complete(col@, ord@, neg_term(gcl, f as int));
                if jhi == n {
                    assert((n as int - jhi as int) * (dw as int) == 0) by (nonlinear_arith)
                        requires
                            n == jhi,
                    ;
                }
                if jlo == jhi {
                    assert((jhi as int - jlo as int) * (f as int + qv as int) == 0)
                        by (nonlinear_arith)
                        requires
                            jlo == jhi,
                    ;
                }
            }
            let val: i128 = ((n - jhi) as i128) * (dw as i128) + wsum - ((jhi - jlo) as i128) * (
            f as i128 + qv as i128);
            r.set(idx, val);
            t = tp;
        }
        proof {
            lemma_results_complete(col@, ord@, r@, gcl, false);
        }
        r
    }
}

/// Sorts the indices of `col` into ascending order of performance:
/// an argsort of one criterion's column.
pub fn argsort(col: &Vec<i64>) -> (ord: Vec<usize>)
    ensures
        is_asc_order(col@, ord@),
{
    broadcast use vstd::seq_lib::group_to_multiset_ensures;
    broadcast use vstd::multiset::group_multiset_axioms;

    let n = col.len();
    let mut ord: Vec<usize> = Vec::new();
    let mut z: usize = 0;
    while z < n
        invariant
            z <= n,
            ord@.len() == z as int,
            forall|s: int| 0 <= s < z ==> ord@[s] == s as usize,
        decreases n - z,
    {
        ord.push(z);
        z = z + 1;
    }
    assert(ord@ =~= ident_ord(col@.len()));
    if n < 2 {
        return ord;
    }
    let mut i: usize = 1;
    while i < n
        invariant
            1 <= i <= n,
            n == col@.len(),
            ord@.len() == n,
            forall|s: int| 0 <= s < n ==> (#[trigger] ord@[s] as int) < n,
            ord@.to_multiset() == ident_ord(col@.len()).to_multiset(),
            forall|s: int, t: int|
                0 <= s < t < i ==> col@[#[trigger] ord@[s] as int] <= col@[#[trigger] ord@[t] as int],
        decreases n - i,
    {
        let x = ord[i];
        let mut pos: usize = i;
        while pos > 0 && col[ord[pos - 1]] > col[x]
            invariant
                pos <= i < n,
                n == col@.len(),
                ord@.len() == n,
                x == ord@[i as int],
                (x as int) < n,
                forall|s: int| 0 <= s < n ==> (#[trigger] ord@[s] as int) < n,
                forall|s: int|
                    pos <= s < i ==> col@[#[trigger] ord@[s] as int] > col@[x as int],
            decreases pos,
        {
            pos = pos - 1;
        }
        let ghost old_ord = ord@;
        let xx = ord.remove(i);
        ord.insert(pos, xx);
        proof {
            broadcast use vstd::seq_lib::group_to_multiset_ensures;
            broadcast use vstd::multiset::group_multiset_axioms;

            assert(old_ord[i as int] == x);
            assert(old_ord.remove(i as int).to_multiset() =~= old_ord.to_multiset().remove(x));
            lemma_insert_multiset(old_ord.remove(i as int), pos as int, x);
            assert(old_ord.contains(x)) by {
                assert(old_ord[i as int] == x);
            }
            assert(old_ord.to_multiset().count(x) > 0);
            assert(ord@.to_multiset() =~= old_ord.to_multiset());
            // the new prefix of length i + 1 is sorted
            assert forall|s: int, t: int| 0 <= s < t < i + 1 implies col@[#[trigger] ord@[s] as int]
                <= col@[#[trigger] ord@[t] as int] by {
                let p = pos as int;
                let ii = i as int;
                assert(forall|u: int|
                    0 <= u < p ==> ord@[u] == old_ord[u]);
                assert(ord@[p] == x);
                assert(forall|u: int|
                    p < u <= ii ==> ord@[u] == old_ord[u - 1]);
                if t < p {
                    // both in the untouched, sorted region
                } else if t == p {
                    // s < pos: old prefix is sorted up to pos - 1 and
                    // col[old_ord[pos - 1]] <= col[x] by the scan's exit
                    assert(col@[old_ord[p - 1] as int] <= col@[x as int]);
                } else {
                    if s == p {
                        assert(col@[old_ord[t - 1] as int] > col@[x as int]);
                    } else if s < p {
                        assert(col@[old_ord[s] as int] <= col@[old_ord[t - 1] as int]);
                    } else {
                        assert(col@[old_ord[s - 1] as int] <= col@[old_ord[t - 1] as int]);
                    }
                }
            }
        }
        i = i + 1;
    }
    ord
}

/// Flow summands are intensities, so a partial flow sum lies between 0 and
/// `m` full intensities.
pub proof fn lemma_flow_sum_range(col: Seq<i64>, gc: GeneralizedCriterion, f: int, m: int)
    requires
        0 <= m,
    ensures
        0 <= sum_all(col, pos_term(gc, f), m) <= m * ramp_den(gc),
        0 <= sum_all(col, neg_term(gc, f), m) <= m * ramp_den(gc),
    decreases m,
{
    if m > 0 {
        lemma_flow_sum_range(col, gc, f, m - 1);
        let v = col[m - 1];
        assert(pos_term(gc, f)(v) == pref_num(gc, f - v as int));
        assert(neg_term(gc, f)(v) == pref_num(gc, v as int - f));
        lemma_pref_num_range(gc, f - v as int);
        lemma_pref_num_range(gc, v as int - f);
        assert((m - 1) * ramp_den(gc) + ramp_den(gc) == m * ramp_den(gc)) by (nonlinear_arith);
    } else {
        assert(m * ramp_den(gc) == 0) by (nonlinear_arith)
            requires
                m == 0,
        ;
    }
}

/// Negating every performance of a column exchanges the two flow summand
/// families: preferring `f` to `v` is preferring `-v` to `-f`.
proof fn lemma_flip_sums(
    col: Seq<i64>,
    neg_col: Seq<i64>,
    gc: GeneralizedCriterion,
    f: int,
    m: int,
)
    requires
        neg_col.len() == col.len(),
        forall|j: int| 0 <= j < col.len() ==> #[trigger] neg_col[j] as int == -(col[j] as int),
        0 <= m <= col.len(),
    ensures
        sum_all(neg_col, pos_term(gc, -f), m) == sum_all(col, neg_term(gc, f), m),
        sum_all(neg_col, neg_term(gc, -f), m) == sum_all(col, pos_term(gc, f), m),
    decreases m,
{
    if m > 0 {
        lemma_flip_sums(col, neg_col, gc, f, m - 1);
        let v = col[m - 1];
        let w = neg_col[m - 1];
        assert(pos_term(gc, -f)(w) == pref_num(gc, -f - w as int));
        assert(neg_term(gc, f)(v) == pref_num(gc, v as int - f));
        assert(-f - w as int == v as int - f);
        assert(neg_term(gc, -f)(w) == pref_num(gc, w as int - -f));
        assert(pos_term(gc, f)(v) == pref_num(gc, f - v as int));
        assert(w as int - -f == f - v as int);
    }
}

/// Flipping a criterion's optimization direction negates its column, and
/// that exchanges the criterion's positive and negative flow vectors: the
/// old negative flows become the new positive flows and vice versa.
pub proof fn lemma_direction_flip(
    col: Seq<i64>,
    neg_col: Seq<i64>,
    gc: GeneralizedCriterion,
    i: int,
)
    requires
        neg_col.len() == col.len(),
        forall|j: int| 0 <= j < col.len() ==> #[trigger] neg_col[j] as int == -(col[j] as int),
        0 <= i < col.len(),
    ensures
        pos_flow_num(neg_col, gc, i) == neg_flow_num(col, gc, i),
        neg_flow_num(neg_col, gc, i) == pos_flow_num(col, gc, i),
{
    let f = col[i] as int;
    assert(neg_col[i] as int == -f);
    lemma_flip_sums(col, neg_col, gc, f, col.len() as int);
}

/// Sum of the intensities of the first `m` differences of one row of a
/// difference matrix: the quadratic algorithm's positive-flow numerator.
pub open spec fn row_pos_num(row: Seq<i64>, gc: GeneralizedCriterion, m: int) -> int
    decreases m,
{
    if m <= 0 {
        0
    } else {
        row_pos_num(row, gc, m - 1) + pref_num(gc, row[m - 1] as int)
    }
}

/// Sum of the intensities of the first `m` negated differences of one row:
/// the quadratic algorithm's negative-flow numerator.
pub open spec fn row_neg_num(row: Seq<i64>, gc: GeneralizedCriterion, m: int) -> int
    decreases m,
{
    if m <= 0 {
        0
    } else {
        row_neg_num(row, gc, m - 1) + pref_num(gc, -(row[m - 1] as int))
    }
}

/// On the row of signed differences of alternative `i`, the quadratic
/// algorithm's row sums are exactly the flow numerators.
pub proof fn lemma_row_flows(col: Seq<i64>, row: Seq<i64>, gc: GeneralizedCriterion, i: int, m: int)
    requires
        row.len() == col.len(),
        0 <= i < col.len(),
        forall|j: int|
            0 <= j < col.len() ==> #[trigger] row[j] as int == col[i] as int - col[j] as int,
        0 <= m <= col.len(),
    ensures
        row_pos_num(row, gc, m) == sum_all(col, pos_term(gc, col[i] as int), m),
        row_neg_num(row, gc, m) == sum_all(col, neg_term(gc, col[i] as int), m),
    decreases m,
{
    let f = col[i] as int;
    if m > 0 {
        lemma_row_flows(col, row, gc, i, m - 1);
        let v = col[m - 1];
        assert(pos_term(gc, f)(v) == pref_num(gc, f - v as int));
        assert(neg_term(gc, f)(v) == pref_num(gc, v as int - f));
        assert(row[m - 1] as int == f - v as int);
    }
}

/// Row sums are intensities, so they lie between 0 and `m` full
/// intensities.
pub proof fn lemma_row_num_range(row: Seq<i64>, gc: GeneralizedCriterion, m: int)
    requires
        0 <= m,
    ensures
        0 <= row_pos_num(row, gc, m) <= m * ramp_den(gc),
        0 <= row_neg_num(row, gc, m) <= m * ramp_den(gc),
    decreases m,
{
    if m > 0 {
        lemma_row_num_range(row, gc, m - 1);
        lemma_pref_num_range(gc, row[m - 1] as int);
        lemma_pref_num_range(gc, -(row[m - 1] as int));
        assert((m - 1) * ramp_den(gc) + ramp_den(gc) == m * ramp_den(gc)) by (nonlinear_arith);
    } else {
        assert(m * ramp_den(gc) == 0) by (nonlinear_arith)
            requires
                m == 0,
        ;
    }
}

/// Positive and negative flow numerators of one criterion from its full
/// matrix of signed performance differences: the quadratic reference
/// algorithm, usable with every preference-function family.
#[verifier::loop_isolation(false)]
pub fn slow_flow_nums(dist: &Vec<Vec<i64>>, gc: &GeneralizedCriterion) -> (r: (Vec<i128>, Vec<
    i128,
>))
    requires
        gc.valid(),
        forall|i: int| 0 <= i < dist@.len() ==> #[trigger] dist@[i]@.len() == dist@.len(),
        forall|i: int, j: int|
            0 <= i < dist@.len() && 0 <= j < dist@.len() ==> -2 * VALUE_LIMIT
                <= #[trigger] dist@[i]@[j] <= 2 * VALUE_LIMIT,
    ensures
        r.0@.len() == dist@.len(),
        r.1@.len() == dist@.len(),
        forall|i: int|
            0 <= i < dist@.len() ==> #[trigger] r.0@[i] == row_pos_num(
                dist@[i]@,
                *gc,
                dist@.len() as int,
            ),
        forall|i: int|
            0 <= i < dist@.len() ==> #[trigger] r.1@[i] == row_neg_num(
                dist@[i]@,
                *gc,
                dist@.len() as int,
            ),
{
    let n = dist.len();
    let mut pos: Vec<i128> = Vec::new();
    let mut neg: Vec<i128> = Vec::new();
    let mut i: usize = 0;
    while i < n
        invariant
            i <= n,
            pos@.len() == i as int,
            neg@.len() == i as int,
            forall|u: int| 0 <= u < i ==> #[trigger] pos@[u] == row_pos_num(dist@[u]@, *gc, n as int),
            forall|u: int| 0 <= u < i ==> #[trigger] neg@[u] == row_neg_num(dist@[u]@, *gc, n as int),
        decreases n - i,
    {
        let row = &dist[i];
        let mut p: i128 = 0;
        let mut m: i128 = 0;
        let mut j: usize = 0;
        while j < n
            invariant
                j <= n,
                row@ == dist@[i as int]@,
                p == row_pos_num(row@, *gc, j as int),
                m == row_neg_num(row@, *gc, j as int),
            decreases n - j,
        {
            proof {
                lemma_row_num_range(row@, *gc, j as int);
                lemma_pref_num_range(*gc, row@[j as int] as int);
                lemma_pref_num_range(*gc, -(row@[j as int] as int));
                lemma_prod_bounds(
                    j as int,
                    ramp_den(*gc),
                    usize::MAX as int,
                    VALUE_LIMIT as int,
                );
            }
            let d = row[j];
            let fwd = gc.normalisation(d);
            let bwd = gc.normalisation(-d);
            p = p + fwd.num;
            m = m + bwd.num;
            j = j + 1;
        }
        pos.push(p);
        neg.push(m);
        i = i + 1;
    }
    (pos, neg)
}

} // verus!
