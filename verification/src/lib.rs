//! PROMETHEE II multi-criteria ranking over exact integer arithmetic.
//!
//! Alternatives are scored on several criteria; per-criterion preference
//! intensities are aggregated into positive, negative and net outranking
//! flows, which induce a total ranking. All quantities are exact rationals
//! represented as integer numerators over explicit denominators, so every
//! result is reproducible and free of rounding.

pub mod alternatives;
pub mod flows;
pub mod generalized_criterion;

use crate::alternatives::lemma_table_wf_facts;
use crate::alternatives::AlternativeTable;
use crate::flows::is_asc_order;
use crate::flows::neg_flow_num;
use crate::flows::pos_flow_num;
use crate::generalized_criterion::ramp_den;
use crate::generalized_criterion::GeneralizedCriterion;
use vstd::prelude::*;

verus! {

/// Largest magnitude accepted for a performance value or a threshold.
///
/// Keeping the inputs inside this range lets every intermediate value of the
/// flow computations fit in `i128` without overflow.
pub const VALUE_LIMIT: i64 = 0x4_0000_0000_0000;

/// An exact rational value: `num / den` with `den >= 1`.
///
/// Flow vectors share one denominator, so callers can compare flows by
/// comparing numerators; this type carries a single scalar result out.
#[derive(Debug, Clone, Copy, PartialEq, Eq, Structural)]
pub struct Ratio {
    /// Numerator.
    pub num: i128,
    /// Denominator (always at least 1).
    pub den: i128,
}

/// Everything that can be wrong with the inputs of a ranking problem.
///
/// Construction validates the whole model once; no partially built model
/// exists (a rejected input returns one of these instead).
#[derive(Debug, Clone, Copy, PartialEq, Eq, Structural)]
pub enum PrometheeError {
    /// The alternative list is empty.
    EmptyTable,
    /// Some alternative's performance vector has a different length
    /// than the first alternative's.
    InconsistentRow,
    /// A performance value or threshold lies outside `[-VALUE_LIMIT, VALUE_LIMIT]`.
    ValueOutOfRange,
    /// Flows divide by `n - 1`, so a model needs at least two alternatives.
    TooFewAlternatives,
    /// The number of preference functions differs from the criterion count.
    WrongCriteriaCount,
    /// The number of weights differs from the criterion count.
    WrongWeightsCount,
    /// All weights are zero, so they cannot be normalized.
    ZeroWeightSum,
    /// A threshold is negative, or a `Linear` function has `q > p`.
    InvalidThresholds,
    /// The common denominator of the aggregated flows would not fit in `i128`.
    DenominatorTooLarge,
    /// An alternative or criterion index is out of range.
    IndexOutOfRange,
    /// A preference-function family that this library deliberately
    /// does not implement.
    UnsupportedFunction,
    /// An optimization-direction name that is not recognized.
    UnknownDirection,
    /// A preference-function name that is not recognized at all.
    UnknownFunctionType,
}

/// Largest value accepted for the common denominator of the aggregated
/// flows (`weight sum * (n - 1) * product of ramp widths`). Keeping it
/// under this cap keeps every aggregation product inside `i128`.
pub const DEN_LIMIT: i128 = 0x1000000000000000000000000;

/// The outcome of solving a ranking problem: per-criterion and aggregated
/// positive/negative outranking flow vectors, as exact rationals.
///
/// Every aggregated flow is `positive_flows[i] / flow_den`; every
/// unicriterion flow is `unicrit_positive_flows[k][i] / unicrit_dens[k]`
/// (and likewise for the negative side). Net flows and the ranking are
/// derived on demand, never stored.
#[derive(Debug)]
pub struct Promethee2Result {
    /// Aggregated positive flow numerators, one per alternative.
    pub positive_flows: Vec<i128>,
    /// Positive flow numerators of each criterion alone, indexed `[k][i]`.
    pub unicrit_positive_flows: Vec<Vec<i128>>,
    /// Aggregated negative flow numerators, one per alternative.
    pub negative_flows: Vec<i128>,
    /// Negative flow numerators of each criterion alone, indexed `[k][i]`.
    pub unicrit_negative_flows: Vec<Vec<i128>>,
    /// Denominator of the unicriterion flows of each criterion:
    /// `ramp width * (n - 1)`.
    pub unicrit_dens: Vec<i128>,
    /// Denominator of the aggregated flows:
    /// `weight sum * (n - 1) * product of all ramp widths`.
    pub flow_den: i128,
}

impl Promethee2Result {
    /// Number of ranked alternatives.
    pub open spec fn spec_n(&self) -> int {
        self.positive_flows@.len() as int
    }

    /// Number of criteria.
    pub open spec fn spec_q(&self) -> int {
        self.unicrit_dens@.len() as int
    }

    /// Net flow numerator of alternative `i` (over `flow_den`).
    pub open spec fn spec_net(&self, i: int) -> int {
        self.positive_flows@[i] - self.negative_flows@[i]
    }

    /// A well-formed result: all vectors agree on `n` and `q`, every
    /// denominator is positive and capped, and every numerator lies within
    /// twice its denominator (flows never exceed `n / (n - 1) <= 2`).
    pub open spec fn wf(&self) -> bool {
        &&& self.negative_flows@.len() == self.spec_n()
        &&& self.unicrit_positive_flows@.len() == self.spec_q()
        &&& self.unicrit_negative_flows@.len() == self.spec_q()
        &&& forall|k: int|
            0 <= k < self.spec_q() ==> #[trigger] self.unicrit_positive_flows@[k]@.len()
                == self.spec_n()
        &&& forall|k: int|
            0 <= k < self.spec_q() ==> #[trigger] self.unicrit_negative_flows@[k]@.len()
                == self.spec_n()
        &&& 1 <= self.flow_den <= DEN_LIMIT
        &&& forall|k: int|
            0 <= k < self.spec_q() ==> 1 <= #[trigger] self.unicrit_dens@[k] <= DEN_LIMIT
        &&& forall|i: int|
            0 <= i < self.spec_n() ==> 0 <= #[trigger] self.positive_flows@[i] <= 2 * self.flow_den
        &&& forall|i: int|
            0 <= i < self.spec_n() ==> 0 <= #[trigger] self.negative_flows@[i] <= 2 * self.flow_den
        &&& forall|k: int, i: int|
            0 <= k < self.spec_q() && 0 <= i < self.spec_n() ==> 0
                <= #[trigger] self.unicrit_positive_flows@[k]@[i] <= 2 * self.unicrit_dens@[k]
        &&& forall|k: int, i: int|
            0 <= k < self.spec_q() && 0 <= i < self.spec_n() ==> 0
                <= #[trigger] self.unicrit_negative_flows@[k]@[i] <= 2 * self.unicrit_dens@[k]
    }

    /// The net flow numerators: for every alternative, exactly the positive
    /// flow numerator minus the negative one, over the shared `flow_den`.
    pub fn net_flows(&self) -> (r: Vec<i128>)
        requires
            self.wf(),
        ensures
            r@.len() == self.spec_n(),
            forall|i: int| 0 <= i < self.spec_n() ==> #[trigger] r@[i] == self.spec_net(i),
    {
        let n = self.positive_flows.len();
        let mut r: Vec<i128> = Vec::new();
        let mut i: usize = 0;
        while i < n
            invariant
                i <= n,
                self.wf(),
                n == self.spec_n(),
                r@.len() == i as int,
                forall|u: int| 0 <= u < i ==> #[trigger] r@[u] == self.spec_net(u),
            decreases n - i,
        {
            r.push(self.positive_flows[i] - self.negative_flows[i]);
            i = i + 1;
        }
        r
    }

    /// The net flow of alternative `ai` as an exact rational, if `ai` is a
    /// valid index: exactly `(positive - negative) / flow_den`.
    pub fn net_flow(&self, ai: usize) -> (r: Option<Ratio>)
        requires
            self.wf(),
        ensures
            ai < self.spec_n() ==> r == Some(
                Ratio { num: self.spec_net(ai as int) as i128, den: self.flow_den },
            ),
            ai >= self.spec_n() ==> r is None,
    {
        if ai >= self.positive_flows.len() {
            None
        } else {
            Some(Ratio { num: self.positive_flows[ai] - self.negative_flows[ai], den: self.flow_den })
        }
    }

    /// The net unicriterion flow numerators of criterion `k`, over
    /// `unicrit_dens[k]`.
    pub fn unicriterion_net_flows(&self, k: usize) -> (r: Vec<i128>)
        requires
            self.wf(),
            k < self.spec_q(),
        ensures
            r@.len() == self.spec_n(),
            forall|i: int|
                0 <= i < self.spec_n() ==> #[trigger] r@[i] == self.unicrit_positive_flows@[
                    k as int
                ]@[i] - self.unicrit_negative_flows@[k as int]@[i],
    {
        let n = self.positive_flows.len();
        let pk = &self.unicrit_positive_flows[k];
        let nk = &self.unicrit_negative_flows[k];
        let mut r: Vec<i128> = Vec::new();
        let mut i: usize = 0;
        while i < n
            invariant
                i <= n,
                self.wf(),
                k < self.spec_q(),
                n == self.spec_n(),
                pk@ == self.unicrit_positive_flows@[k as int]@,
                nk@ == self.unicrit_negative_flows@[k as int]@,
                r@.len() == i as int,
                forall|u: int|
                    0 <= u < i ==> #[trigger] r@[u] == self.unicrit_positive_flows@[k as int]@[u]
                        - self.unicrit_negative_flows@[k as int]@[u],
            decreases n - i,
        {
            r.push(pk[i] - nk[i]);
            i = i + 1;
        }
        r
    }

    /// The net unicriterion flow of alternative `ai` on criterion `k` as an
    /// exact rational, if `ai` is a valid index.
    pub fn unicriterion_net_flow(&self, k: usize, ai: usize) -> (r: Option<Ratio>)
        requires
            self.wf(),
            k < self.spec_q(),
        ensures
            ai < self.spec_n() ==> r == Some(
                Ratio {
                    num: (self.unicrit_positive_flows@[k as int]@[ai as int]
                        - self.unicrit_negative_flows@[k as int]@[ai as int]) as i128,
                    den: self.unicrit_dens@[k as int],
                },
            ),
            ai >= self.spec_n() ==> r is None,
    {
        if ai >= self.positive_flows.len() {
            None
        } else {
            Some(
                Ratio {
                    num: self.unicrit_positive_flows[k][ai] - self.unicrit_negative_flows[k][ai],
                    den: self.unicrit_dens[k],
                },
            )
        }
    }

    /// The alternatives ranked from best to worst: a permutation of
    /// `0..n`, non-increasing in net flow, with exactly tied alternatives
    /// kept in ascending index order. These clauses determine the ranking
    /// uniquely.
    pub fn ranked_alts(&self) -> (r: Vec<usize>)
        requires
            self.wf(),
        ensures
            r@.len() == self.spec_n(),
            forall|s: int| 0 <= s < r@.len() ==> (#[trigger] r@[s] as int) < self.spec_n(),
            forall|s: int, t: int| 0 <= s < t < r@.len() ==> r@[s] != r@[t],
            forall|s: int, t: int|
                0 <= s < t < r@.len() ==> self.spec_net(#[trigger] r@[s] as int) >= self.spec_net(
                    #[trigger] r@[t] as int,
                ),
            forall|s: int, t: int|
                0 <= s < t < r@.len() && self.spec_net(#[trigger] r@[s] as int) == self.spec_net(
                    #[trigger] r@[t] as int,
                ) ==> r@[s] < r@[t],
    {
        let net = self.net_flows();
        rank_order(&net)
    }

    /// Whether alternative `a1` strictly outranks `a2`: its net flow is
    /// strictly larger (equal net flows are incomparable).
    pub fn is_better(&self, a1: usize, a2: usize) -> (r: bool)
        requires
            self.wf(),
            a1 < self.spec_n(),
            a2 < self.spec_n(),
        ensures
            r == (self.spec_net(a1 as int) > self.spec_net(a2 as int)),
    {
        self.positive_flows[a1] - self.negative_flows[a1] > self.positive_flows[a2]
            - self.negative_flows[a2]
    }
}

/// Sorts the indices of `net` into descending order of value, breaking
/// exact ties by ascending index: the ranking induced by net flows.
#[verifier::loop_isolation(false)]
#[verifier::rlimit(100)]
fn rank_order(net: &Vec<i128>) -> (r: Vec<usize>)
    ensures
        r@.len() == net@.len(),
        forall|s: int| 0 <= s < r@.len() ==> (#[trigger] r@[s] as int) < net@.len(),
        forall|s: int, t: int| 0 <= s < t < r@.len() ==> r@[s] != r@[t],
        forall|s: int, t: int|
            0 <= s < t < r@.len() ==> net@[#[trigger] r@[s] as int] >= net@[#[trigger] r@[t] as int],
        forall|s: int, t: int|
            0 <= s < t < r@.len() && net@[#[trigger] r@[s] as int] == net@[
                #[trigger] r@[t] as int
            ] ==> r@[s] < r@[t],
{
    broadcast use vstd::seq_lib::group_to_multiset_ensures;
    broadcast use vstd::multiset::group_multiset_axioms;

    let n = net.len();
    let mut ord: Vec<usize> = Vec::new();
    let mut z: usize = 0;
    while z < n
        invariant
            z <= n,
            ord@.len() == z as int,
            forall|s: int| 0 <= s < z ==> ord@[s] == s as usize,
        decreases n - z,
    {
        ord.push(z);
        z = z + 1;
    }
    if n < 2 {
        return ord;
    }
    let mut i: usize = 1;
    while i < n
        invariant
            1 <= i <= n,
            ord@.len() == n,
            forall|s: int| 0 <= s < n ==> (#[trigger] ord@[s] as int) < n,
            forall|s: int, t: int| 0 <= s < t < n ==> ord@[s] != ord@[t],
            forall|s: int, t: int|
                0 <= s < t < i ==> net@[#[trigger] ord@[s] as int] >= net@[
                    #[trigger] ord@[t] as int
                ],
            forall|s: int, t: int|
                0 <= s < t < i && net@[#[trigger] ord@[s] as int] == net@[
                    #[trigger] ord@[t] as int
                ] ==> ord@[s] < ord@[t],
        decreases n - i,
    {
        let x = ord[i];
        let mut pos: usize = i;
        while pos > 0 && (net[ord[pos - 1]] < net[x] || (net[ord[pos - 1]] == net[x] && ord[pos
            - 1] > x))
            invariant
                pos <= i,
                x == ord@[i as int],
                forall|s: int|
                    pos <= s < i ==> net@[#[trigger] ord@[s] as int] < net@[x as int] || (net@[
                        #[trigger] ord@[s] as int
                    ] == net@[x as int] && (ord@[s] as int) > x as int),
            decreases pos,
        {
            pos = pos - 1;
        }
        let ghost old_ord = ord@;
        let xx = ord.remove(i);
        ord.insert(pos, xx);
        proof {
            assert(old_ord[i as int] == x);
            assert(old_ord.remove(i as int).to_multiset() =~= old_ord.to_multiset().remove(x));
            crate::flows::lemma_insert_multiset(old_ord.remove(i as int), pos as int, x);
            assert(old_ord.contains(x)) by {
                assert(old_ord[i as int] == x);
            }
            assert(old_ord.to_multiset().count(x) > 0);
            assert(ord@.to_multiset() =~= old_ord.to_multiset());
            let p = pos as int;
            let ii = i as int;
            assert(forall|u: int| 0 <= u < p ==> ord@[u] == old_ord[u]);
            assert(ord@[p] == x);
            assert(forall|u: int| p < u <= ii ==> ord@[u] == old_ord[u - 1]);
            // distinctness is preserved: the multiset is unchanged and the
            // old selectors were pairwise distinct
            assert(old_ord.no_duplicates());
            old_ord.lemma_multiset_has_no_duplicates();
            assert(forall|v: usize|
                ord@.to_multiset().contains(v) ==> ord@.to_multiset().count(v) == 1);
            ord@.lemma_multiset_has_no_duplicates_conv();
            assert forall|s: int, t: int| 0 <= s < t < n implies ord@[s] != ord@[t] by {
                assert(ord@.no_duplicates());
            }
            // the sorted prefix now extends one further
            assert forall|s: int, t: int|
                0 <= s < t < i + 1 implies (net@[#[trigger] ord@[s] as int] > net@[
                #[trigger] ord@[t] as int
            ] || (net@[ord@[s] as int] == net@[ord@[t] as int] && (ord@[s] as int) < (
            ord@[t] as int))) by {
                if t < p {
                } else if t == p {
                    assert(net@[old_ord[p - 1] as int] > net@[x as int] || (net@[old_ord[p
                        - 1] as int] == net@[x as int] && (old_ord[p - 1] as int) < x as int));
                } else {
                    if s == p {
                        assert(net@[old_ord[t - 1] as int] < net@[x as int] || (net@[old_ord[t
                            - 1] as int] == net@[x as int] && (old_ord[t - 1] as int)
                            > x as int));
                    } else if s < p {
                        assert(net@[old_ord[s] as int] >= net@[old_ord[t - 1] as int]);
                    } else {
                        assert(net@[old_ord[s - 1] as int] >= net@[old_ord[t - 1] as int]);
                    }
                }
            }
        }
        i = i + 1;
    }
    ord
}

/// Sum of the first `m` raw weights.
pub open spec fn weights_sum(ws: Seq<u64>, m: int) -> int
    decreases m,
{
    if m <= 0 {
        0
    } else {
        weights_sum(ws, m - 1) + ws[m - 1]
    }
}

/// Product of the ramp widths of the first `m` preference functions.
pub open spec fn prod_dens(gcs: Seq<GeneralizedCriterion>, m: int) -> int
    decreases m,
{
    if m <= 0 {
        1
    } else {
        prod_dens(gcs, m - 1) * ramp_den(gcs[m - 1])
    }
}

/// Product of the ramp widths of the preference functions from `a` on.
pub open spec fn prod_dens_from(gcs: Seq<GeneralizedCriterion>, a: int) -> int
    decreases gcs.len() - a,
{
    if a >= gcs.len() || a < 0 {
        1
    } else {
        ramp_den(gcs[a]) * prod_dens_from(gcs, a + 1)
    }
}

/// Product of the ramp widths of every preference function but the `k`-th:
/// the factor that brings criterion `k`'s flows onto the common
/// denominator.
pub open spec fn prod_except(gcs: Seq<GeneralizedCriterion>, k: int) -> int {
    prod_dens(gcs, k) * prod_dens_from(gcs, k + 1)
}

/// A partial weight sum is non-negative and bounded by `m` full-range
/// weights.
proof fn lemma_weights_sum_range(ws: Seq<u64>, m: int)
    requires
        0 <= m,
    ensures
        0 <= weights_sum(ws, m) <= m * (u64::MAX as int),
    decreases m,
{
    if m > 0 {
        lemma_weights_sum_range(ws, m - 1);
        assert((m - 1) * (u64::MAX as int) + u64::MAX == m * (u64::MAX as int))
            by (nonlinear_arith);
    } else {
        assert(m * (u64::MAX as int) == 0) by (nonlinear_arith)
            requires
                m == 0,
        ;
    }
}

/// Weight sums grow (weakly) with the number of summands.
proof fn lemma_weights_sum_mono(ws: Seq<u64>, m1: int, m2: int)
    requires
        0 <= m1 <= m2,
    ensures
        weights_sum(ws, m1) <= weights_sum(ws, m2),
    decreases m2 - m1,
{
    if m1 < m2 {
        lemma_weights_sum_mono(ws, m1, m2 - 1);
    }
}

/// Ramp-width products are at least 1.
proof fn lemma_prod_dens_pos(gcs: Seq<GeneralizedCriterion>, m: int)
    ensures
        prod_dens(gcs, m) >= 1,
    decreases m,
{
    if m > 0 {
        lemma_prod_dens_pos(gcs, m - 1);
        crate::generalized_criterion::lemma_pref_num_range(gcs[m - 1], 0);
        assert(prod_dens(gcs, m - 1) * ramp_den(gcs[m - 1]) >= 1) by (nonlinear_arith)
            requires
                prod_dens(gcs, m - 1) >= 1,
                ramp_den(gcs[m - 1]) >= 1,
        ;
    }
}

/// Suffix ramp-width products are at least 1.
proof fn lemma_prod_dens_from_pos(gcs: Seq<GeneralizedCriterion>, a: int)
    ensures
        prod_dens_from(gcs, a) >= 1,
    decreases gcs.len() - a,
{
    if 0 <= a < gcs.len() {
        lemma_prod_dens_from_pos(gcs, a + 1);
        crate::generalized_criterion::lemma_pref_num_range(gcs[a], 0);
        assert(ramp_den(gcs[a]) * prod_dens_from(gcs, a + 1) >= 1) by (nonlinear_arith)
            requires
                prod_dens_from(gcs, a + 1) >= 1,
                ramp_den(gcs[a]) >= 1,
        ;
    }
}

/// The full ramp-width product splits around any criterion `k`: prefix
/// times `k`'s own width times suffix.
proof fn lemma_prod_split_at(gcs: Seq<GeneralizedCriterion>, a: int)
    requires
        0 <= a <= gcs.len(),
    ensures
        prod_dens(gcs, gcs.len() as int) == prod_dens(gcs, a) * prod_dens_from(gcs, a),
    decreases gcs.len() - a,
{
    let n = gcs.len() as int;
    if a == n {
        assert(prod_dens_from(gcs, a) == 1);
        assert(prod_dens(gcs, n) * 1 == prod_dens(gcs, n)) by (nonlinear_arith);
    } else {
        lemma_prod_split_at(gcs, a + 1);
        assert(prod_dens(gcs, a + 1) == prod_dens(gcs, a) * ramp_den(gcs[a]));
        assert(prod_dens_from(gcs, a) == ramp_den(gcs[a]) * prod_dens_from(gcs, a + 1));
        assert((prod_dens(gcs, a) * ramp_den(gcs[a])) * prod_dens_from(gcs, a + 1) == prod_dens(
            gcs,
            a,
        ) * (ramp_den(gcs[a]) * prod_dens_from(gcs, a + 1))) by (nonlinear_arith);
    }
}

/// The full ramp-width product is each criterion's width times the product
/// of the others.
proof fn lemma_prod_except(gcs: Seq<GeneralizedCriterion>, k: int)
    requires
        0 <= k < gcs.len(),
    ensures
        prod_dens(gcs, gcs.len() as int) == prod_except(gcs, k) * ramp_den(gcs[k]),
        prod_except(gcs, k) >= 1,
{
    lemma_prod_split_at(gcs, k);
    lemma_prod_dens_pos(gcs, k);
    lemma_prod_dens_from_pos(gcs, k + 1);
    crate::generalized_criterion::lemma_pref_num_range(gcs[k], 0);
    assert(prod_dens_from(gcs, k) == ramp_den(gcs[k]) * prod_dens_from(gcs, k + 1));
    assert(prod_dens(gcs, k) * (ramp_den(gcs[k]) * prod_dens_from(gcs, k + 1)) == (prod_dens(
        gcs,
        k,
    ) * prod_dens_from(gcs, k + 1)) * ramp_den(gcs[k])) by (nonlinear_arith);
    assert(prod_dens(gcs, k) * prod_dens_from(gcs, k + 1) >= 1) by (nonlinear_arith)
        requires
            prod_dens(gcs, k) >= 1,
            prod_dens_from(gcs, k + 1) >= 1,
    ;
}

/// Capped multiplication: staying under `cap / d` before multiplying by
/// `d` keeps the product under `cap`, and exceeding it puts the product
/// over `cap`.
proof fn lemma_mul_cap(a: int, d: int, cap: int)
    requires
        0 <= a,
        1 <= d,
        0 <= cap,
    ensures
        a <= cap / d ==> a * d <= cap,
        a > cap / d ==> a * d > cap,
{
    vstd::arithmetic::div_mod::lemma_fundamental_div_mod(cap, d);
    assert(a <= cap / d ==> a * d <= (cap / d) * d) by (nonlinear_arith)
        requires
            1 <= d,
    ;
    assert(a > cap / d ==> a * d >= (cap / d) * d + d) by (nonlinear_arith)
        requires
            1 <= d,
    ;
    assert((cap / d) * d == d * (cap / d)) by (nonlinear_arith);
    vstd::arithmetic::div_mod::lemma_mod_bound(cap, d);
}

/// A ranking problem: the performance table, one preference function and
/// one raw weight per criterion, the cached ascending orders of the
/// linear-ramp criteria, and the precomputed exact denominators.
///
/// Weights are normalized exactly: criterion `k`'s normalized weight is
/// the rational `weights[k] / w_sum`, so the normalized weights sum to 1
/// by construction.
#[derive(Debug)]
pub struct PrometheeProblem {
    n: usize,
    q: usize,
    alt_table: AlternativeTable,
    argsorted_eval_matrix: Vec<Option<Vec<usize>>>,
    generalized_criteria: Vec<GeneralizedCriterion>,
    weights: Vec<u64>,
    w_sum: u128,
    den_prod: i128,
    agg_den: i128,
}

impl PrometheeProblem {
    /// The performance table.
    pub closed spec fn spec_table(&self) -> AlternativeTable {
        self.alt_table
    }

    /// Number of alternatives.
    pub closed spec fn spec_n(&self) -> int {
        self.n as int
    }

    /// Number of criteria.
    pub closed spec fn spec_q(&self) -> int {
        self.q as int
    }

    /// The preference functions, one per criterion.
    pub closed spec fn spec_gcs(&self) -> Seq<GeneralizedCriterion> {
        self.generalized_criteria@
    }

    /// The raw weights, one per criterion.
    pub closed spec fn spec_weights(&self) -> Seq<u64> {
        self.weights@
    }

    /// The exact sum of the raw weights: the denominator of every
    /// normalized weight.
    pub closed spec fn spec_w_sum(&self) -> int {
        self.w_sum as int
    }

    /// The common denominator of the aggregated flows:
    /// `w_sum * (n - 1) * product of ramp widths`.
    pub closed spec fn spec_agg_den(&self) -> int {
        self.agg_den as int
    }

    /// The column of criterion `k`.
    pub open spec fn spec_col(&self, k: int) -> Seq<i64> {
        self.spec_table().spec_column(k)
    }

    /// Numerator of the aggregated positive flow of alternative `i` over
    /// the first `m` criteria: the weighted sum of the unicriterion flow
    /// numerators, brought onto the common denominator.
    pub open spec fn agg_pos_num(&self, i: int, m: int) -> int
        decreases m,
    {
        if m <= 0 {
            0
        } else {
            self.agg_pos_num(i, m - 1) + self.spec_weights()[m - 1] * pos_flow_num(
                self.spec_col(m - 1),
                self.spec_gcs()[m - 1],
                i,
            ) * prod_except(self.spec_gcs(), m - 1)
        }
    }

    /// Numerator of the aggregated negative flow of alternative `i` over
    /// the first `m` criteria.
    pub open spec fn agg_neg_num(&self, i: int, m: int) -> int
        decreases m,
    {
        if m <= 0 {
            0
        } else {
            self.agg_neg_num(i, m - 1) + self.spec_weights()[m - 1] * neg_flow_num(
                self.spec_col(m - 1),
                self.spec_gcs()[m - 1],
                i,
            ) * prod_except(self.spec_gcs(), m - 1)
        }
    }

    /// A well-formed problem: a valid table with at least two
    /// alternatives, one valid preference function and one weight per
    /// criterion, a positive weight sum, a capped common denominator, and
    /// an ascending-order cache exactly for the linear-ramp criteria.
    pub closed spec fn wf(&self) -> bool {
        &&& self.alt_table.wf()
        &&& self.n as int == self.alt_table.spec_n()
        &&& self.n >= 2
        &&& self.q as int == self.alt_table.spec_q()
        &&& self.generalized_criteria@.len() == self.q as int
        &&& self.weights@.len() == self.q as int
        &&& forall|k: int|
            0 <= k < self.q as int ==> (#[trigger] self.generalized_criteria@[k]).valid()
        &&& self.w_sum as int == weights_sum(self.weights@, self.q as int)
        &&& self.w_sum >= 1
        &&& self.den_prod as int == prod_dens(self.generalized_criteria@, self.q as int)
        &&& self.agg_den as int == (self.w_sum as int) * (self.n - 1) * (self.den_prod as int)
        &&& 1 <= self.agg_den <= DEN_LIMIT
        &&& self.argsorted_eval_matrix@.len() == self.q as int
        &&& forall|k: int|
            0 <= k < self.q as int ==> ((#[trigger] self.argsorted_eval_matrix@[k]) is Some
                <==> self.generalized_criteria@[k].spec_uses_fast_path())
        &&& forall|k: int|
            0 <= k < self.q as int && self.generalized_criteria@[k].spec_uses_fast_path()
                ==> is_asc_order(self.spec_col(k), (#[trigger] self.argsorted_eval_matrix@[k])->0@)
    }

    /// Builds a ranking problem from a table, one preference function per
    /// criterion and one raw weight per criterion, validating everything
    /// once: no partially constructed problem exists. Ascending-order
    /// caches are built for every linear-ramp (`VShape`/`Linear`)
    /// criterion; the step families never need one.
    #[verifier::loop_isolation(false)]
    #[verifier::rlimit(100)]
    pub fn new(
        alt_table: AlternativeTable,
        generalized_criteria: Vec<GeneralizedCriterion>,
        weights: Vec<u64>,
    ) -> (r: Result<Self, PrometheeError>)
        requires
            alt_table.wf(),
        ensures
            generalized_criteria@.len() != alt_table.spec_q() ==> r == Err::<Self, _>(
                PrometheeError::WrongCriteriaCount,
            ),
            (generalized_criteria@.len() == alt_table.spec_q() && weights@.len()
                != alt_table.spec_q()) ==> r == Err::<Self, _>(PrometheeError::WrongWeightsCount),
            (generalized_criteria@.len() == alt_table.spec_q() && weights@.len()
                == alt_table.spec_q() && alt_table.spec_n() < 2) ==> r == Err::<Self, _>(
                PrometheeError::TooFewAlternatives,
            ),
            (generalized_criteria@.len() == alt_table.spec_q() && weights@.len()
                == alt_table.spec_q() && alt_table.spec_n() >= 2 && weights_sum(
                weights@,
                weights@.len() as int,
            ) == 0) ==> r == Err::<Self, _>(PrometheeError::ZeroWeightSum),
            (generalized_criteria@.len() == alt_table.spec_q() && weights@.len()
                == alt_table.spec_q() && alt_table.spec_n() >= 2 && weights_sum(
                weights@,
                weights@.len() as int,
            ) > 0 && (exists|k: int|
                0 <= k < generalized_criteria@.len()
                    && !(#[trigger] generalized_criteria@[k]).valid())) ==> r == Err::<Self, _>(
                PrometheeError::InvalidThresholds,
            ),
            (generalized_criteria@.len() == alt_table.spec_q() && weights@.len()
                == alt_table.spec_q() && alt_table.spec_n() >= 2 && weights_sum(
                weights@,
                weights@.len() as int,
            ) > 0 && (forall|k: int|
                0 <= k < generalized_criteria@.len() ==> (
                #[trigger] generalized_criteria@[k]).valid()) && weights_sum(
                weights@,
                weights@.len() as int,
            ) * (alt_table.spec_n() - 1) * prod_dens(
                generalized_criteria@,
                generalized_criteria@.len() as int,
            ) > DEN_LIMIT) ==> r == Err::<Self, _>(PrometheeError::DenominatorTooLarge),
            (generalized_criteria@.len() == alt_table.spec_q() && weights@.len()
                == alt_table.spec_q() && alt_table.spec_n() >= 2 && weights_sum(
                weights@,
                weights@.len() as int,
            ) > 0 && (forall|k: int|
                0 <= k < generalized_criteria@.len() ==> (
                #[trigger] generalized_criteria@[k]).valid()) && weights_sum(
                weights@,
                weights@.len() as int,
            ) * (alt_table.spec_n() - 1) * prod_dens(
                generalized_criteria@,
                generalized_criteria@.len() as int,
            ) <= DEN_LIMIT) ==> r is Ok,
            r is Ok ==> ({
                let p = r->Ok_0;
                &&& p.wf()
                &&& p.spec_table() == alt_table
                &&& p.spec_n() == alt_table.spec_n()
                &&& p.spec_q() == alt_table.spec_q()
                &&& p.spec_gcs() == generalized_criteria@
                &&& p.spec_weights() == weights@
                &&& p.spec_w_sum() == weights_sum(weights@, weights@.len() as int)
            }),
    {
        let n = alt_table.n();
        let q = alt_table.q();
        if generalized_criteria.len() != q {
            return Err(PrometheeError::WrongCriteriaCount);
        }
        if weights.len() != q {
            return Err(PrometheeError::WrongWeightsCount);
        }
        if n < 2 {
            return Err(PrometheeError::TooFewAlternatives);
        }
        let mut wsum: u128 = 0;
        let mut k: usize = 0;
        while k < q
            invariant
                k <= q,
                wsum == weights_sum(weights@, k as int),
            decreases q - k,
        {
            proof {
                lemma_weights_sum_range(weights@, k as int);
                lemma_prod_bounds_int(k as int, u64::MAX as int, usize::MAX as int, u64::MAX as int);
            }
            wsum = wsum + weights[k] as u128;
            k = k + 1;
        }
        if wsum == 0 {
            proof {
                lemma_weights_sum_range(weights@, q as int);
            }
            return Err(PrometheeError::ZeroWeightSum);
        }
        let mut k: usize = 0;
        while k < q
            invariant
                k <= q,
                forall|u: int| 0 <= u < k ==> (#[trigger] generalized_criteria@[u]).valid(),
            decreases q - k,
        {
            if !generalized_criteria[k].check_valid() {
                return Err(PrometheeError::InvalidThresholds);
            }
            k = k + 1;
        }
        // the common denominator, with a cap check before every multiply
        if wsum > DEN_LIMIT as u128 {
            proof {
                lemma_prod_dens_pos(generalized_criteria@, q as int);
                assert((wsum as int) * ((n - 1) as int) * prod_dens(
                    generalized_criteria@,
                    q as int,
                ) >= wsum as int) by (nonlinear_arith)
                    requires
                        wsum as int >= 1,
                        (n - 1) as int >= 1,
                        prod_dens(generalized_criteria@, q as int) >= 1,
                ;
            }
            return Err(PrometheeError::DenominatorTooLarge);
        }
        let mut acc: i128 = wsum as i128;
        let nm1: i128 = (n - 1) as i128;
        if acc > DEN_LIMIT / nm1 {
            proof {
                lemma_mul_cap(acc as int, nm1 as int, DEN_LIMIT as int);
                lemma_prod_dens_pos(generalized_criteria@, q as int);
                assert((wsum as int) * ((n - 1) as int) * prod_dens(
                    generalized_criteria@,
                    q as int,
                ) >= (wsum as int) * ((n - 1) as int)) by (nonlinear_arith)
                    requires
                        wsum as int >= 1,
                        (n - 1) as int >= 1,
                        prod_dens(generalized_criteria@, q as int) >= 1,
                ;
            }
            return Err(PrometheeError::DenominatorTooLarge);
        }
        proof {
            lemma_mul_cap(acc as int, nm1 as int, DEN_LIMIT as int);
        }
        let mut acc: i128 = acc * nm1;
        proof {
            assert((wsum as int) * (nm1 as int) >= 1) by (nonlinear_arith)
                requires
                    wsum as int >= 1,
                    nm1 as int >= 1,
            ;
            assert((wsum as int) * ((n - 1) as int) * 1 == (wsum as int) * ((n - 1) as int))
                by (nonlinear_arith);
        }
        let mut dp: i128 = 1;
        let mut k: usize = 0;
        while k < q
            invariant
                k <= q,
                1 <= dp,
                1 <= acc <= DEN_LIMIT,
                dp as int == prod_dens(generalized_criteria@, k as int),
                acc as int == (wsum as int) * ((n - 1) as int) * (dp as int),
                dp <= acc,
            decreases q - k,
        {
            let d = generalized_criteria[k].ramp_width();
            let d128 = d as i128;
            if acc > DEN_LIMIT / d128 {
                proof {
                    lemma_mul_cap(acc as int, d128 as int, DEN_LIMIT as int);
                    lemma_full_product_exceeds(
                        generalized_criteria@,
                        wsum as int,
                        (n - 1) as int,
                        k as int,
                        acc as int * d128 as int,
                    );
                }
                return Err(PrometheeError::DenominatorTooLarge);
            }
            proof {
                lemma_mul_cap(acc as int, d128 as int, DEN_LIMIT as int);
                assert(dp as int * d128 as int <= acc as int * d128 as int) by (nonlinear_arith)
                    requires
                        dp as int <= acc as int,
                        d128 as int >= 1,
                ;
                assert((dp as int) * (d128 as int) >= 1) by (nonlinear_arith)
                    requires
                        dp as int >= 1,
                        d128 as int >= 1,
                ;
                assert((wsum as int) * ((n - 1) as int) * (dp as int) * (d128 as int) == (
                wsum as int) * ((n - 1) as int) * ((dp as int) * (d128 as int)))
                    by (nonlinear_arith);
                assert((wsum as int) * ((n - 1) as int) * ((dp as int) * (d128 as int)) >= (
                dp as int) * (d128 as int)) by (nonlinear_arith)
                    requires
                        wsum as int >= 1,
                        (n - 1) as int >= 1,
                        (dp as int) * (d128 as int) >= 1,
                ;
            }
            acc = acc * d128;
            dp = dp * d128;
            k = k + 1;
        }
        // the ascending-order caches of the linear-ramp criteria
        proof {
            lemma_table_wf_facts(&alt_table);
        }
        let mut cache: Vec<Option<Vec<usize>>> = Vec::new();
        let mut k: usize = 0;
        while k < q
            invariant
                k <= q,
                cache@.len() == k as int,
                forall|u: int|
                    0 <= u < k as int ==> ((#[trigger] cache@[u]) is Some
                        <==> generalized_criteria@[u].spec_uses_fast_path()),
                forall|u: int|
                    0 <= u < k as int && generalized_criteria@[u].spec_uses_fast_path()
                        ==> is_asc_order(alt_table.spec_column(u), (#[trigger] cache@[u])->0@),
            decreases q - k,
        {
            if generalized_criteria[k].uses_fast_path() {
                let col = match alt_table.criterion(k) {
                    Some(c) => c,
                    None => Vec::new(),
                };
                cache.push(Some(crate::flows::argsort(&col)));
            } else {
                cache.push(None);
            }
            k = k + 1;
        }
        Ok(
            Self {
                n,
                q,
                alt_table,
                argsorted_eval_matrix: cache,
                generalized_criteria,
                weights,
                w_sum: wsum,
                den_prod: dp,
                agg_den: acc,
            },
        )
    }
}

impl PrometheeProblem {
    /// Number of alternatives.
    pub fn n(&self) -> (r: usize)
        requires
            self.wf(),
        ensures
            r == self.spec_n(),
    {
        self.n
    }

    /// Number of criteria.
    pub fn q(&self) -> (r: usize)
        requires
            self.wf(),
        ensures
            r == self.spec_q(),
    {
        self.q
    }

    /// The normalized weight of criterion `k` as an exact rational
    /// `weights[k] / w_sum`, if `k` is a valid criterion index.
    pub fn w(&self, k: usize) -> (r: Option<Ratio>)
        requires
            self.wf(),
        ensures
            k < self.spec_q() ==> r == Some(
                Ratio {
                    num: self.spec_weights()[k as int] as i128,
                    den: self.spec_w_sum() as i128,
                },
            ),
            k >= self.spec_q() ==> r is None,
    {
        if k < self.weights.len() {
            proof {
                lemma_w_sum_le_agg_den(self);
            }
            Some(Ratio { num: self.weights[k] as i128, den: self.w_sum as i128 })
        } else {
            None
        }
    }

    /// The preference function of criterion `k`, if any.
    pub fn pref_fun(&self, k: usize) -> (r: Option<GeneralizedCriterion>)
        requires
            self.wf(),
        ensures
            k < self.spec_q() ==> r == Some(self.spec_gcs()[k as int]),
            k >= self.spec_q() ==> r is None,
    {
        if k < self.generalized_criteria.len() {
            Some(self.generalized_criteria[k])
        } else {
            None
        }
    }

    /// The display name of alternative `i`, if any.
    pub fn alt_name(&self, i: usize) -> (r: Option<&str>)
        requires
            self.wf(),
        ensures
            i < self.spec_n() ==> r is Some && r->0@ == self.spec_table().spec_alts()[
                i as int
            ].spec_name(),
            i >= self.spec_n() ==> r is None,
    {
        proof {
            lemma_table_wf_facts(&self.alt_table);
        }
        self.alt_table.alt_name(i)
    }

    /// The display names of all alternatives.
    pub fn alt_names(&self) -> (r: Vec<String>)
        requires
            self.wf(),
        ensures
            r@.len() == self.spec_n(),
            forall|i: int|
                0 <= i < self.spec_n() ==> #[trigger] r@[i]@ == self.spec_table().spec_alts()[
                    i
                ].spec_name(),
    {
        proof {
            lemma_table_wf_facts(&self.alt_table);
        }
        self.alt_table.alt_names()
    }

    /// The display name of criterion `k`, if any.
    pub fn criterion_name(&self, k: usize) -> (r: Option<&str>)
        requires
            self.wf(),
        ensures
            k < self.spec_q() ==> r is Some && r->0@ == self.spec_table().spec_criteria_names()[
                k as int
            ],
            k >= self.spec_q() ==> r is None,
    {
        proof {
            lemma_table_wf_facts(&self.alt_table);
        }
        self.alt_table.criterion_name(k)
    }

    /// The display names of the criteria.
    pub fn criteria_names(&self) -> (r: &Vec<String>)
        requires
            self.wf(),
        ensures
            r@.map_values(|s: String| s@) == self.spec_table().spec_criteria_names(),
    {
        self.alt_table.criteria_names()
    }

    /// The performance of alternative `i` on criterion `k`, if both
    /// indices are valid. Note the argument order: criterion first.
    pub fn perf(&self, k: usize, i: usize) -> (r: Option<i64>)
        requires
            self.wf(),
        ensures
            (i < self.spec_n() && k < self.spec_q()) ==> r == Some(
                self.spec_table().spec_perf(i as int, k as int),
            ),
            !(i < self.spec_n() && k < self.spec_q()) ==> r is None,
    {
        proof {
            lemma_table_wf_facts(&self.alt_table);
        }
        self.alt_table.performance(i, k)
    }

    /// Positive unicriterion flow numerators of criterion `k` by the
    /// sliding-window algorithm, for a linear ramp with thresholds
    /// `q <= p` and the ascending order `argsorted_fks` of `k`'s column.
    pub fn fast_pos_unicriterion_flow(
        &self,
        k: usize,
        q: i64,
        p: i64,
        argsorted_fks: &Vec<usize>,
    ) -> (r: Vec<i128>)
        requires
            self.wf(),
            k < self.spec_q(),
            0 <= q <= p <= VALUE_LIMIT,
            is_asc_order(self.spec_col(k as int), argsorted_fks@),
        ensures
            r@.len() == self.spec_n(),
            forall|i: int|
                0 <= i < self.spec_n() ==> #[trigger] r@[i] == pos_flow_num(
                    self.spec_col(k as int),
                    GeneralizedCriterion::Linear { q, p },
                    i,
                ),
    {
        proof {
            lemma_col_bounded(&self.alt_table, k as int);
        }
        let col = match self.alt_table.criterion(k) {
            Some(c) => c,
            None => vstd::pervasive::unreached(),
        };
        crate::flows::fast_positive_flow_nums(&col, q, p, argsorted_fks)
    }

    /// Negative unicriterion flow numerators of criterion `k` by the
    /// sliding-window algorithm: the descending mirror of
    /// [`Self::fast_pos_unicriterion_flow`].
    pub fn fast_neg_unicriterion_flow(
        &self,
        k: usize,
        q: i64,
        p: i64,
        argsorted_fks: &Vec<usize>,
    ) -> (r: Vec<i128>)
        requires
            self.wf(),
            k < self.spec_q(),
            0 <= q <= p <= VALUE_LIMIT,
            is_asc_order(self.spec_col(k as int), argsorted_fks@),
        ensures
            r@.len() == self.spec_n(),
            forall|i: int|
                0 <= i < self.spec_n() ==> #[trigger] r@[i] == neg_flow_num(
                    self.spec_col(k as int),
                    GeneralizedCriterion::Linear { q, p },
                    i,
                ),
    {
        proof {
            lemma_col_bounded(&self.alt_table, k as int);
        }
        let col = match self.alt_table.criterion(k) {
            Some(c) => c,
            None => vstd::pervasive::unreached(),
        };
        crate::flows::fast_negative_flow_nums(&col, q, p, argsorted_fks)
    }

    /// Both unicriterion flow vectors of a linear-ramp criterion `k`,
    /// computed by the sliding-window algorithm over the cached ascending
    /// order. `None` exactly when `k` is out of range.
    pub fn fast_unicriterion_flows(&self, k: usize) -> (r: Option<(Vec<i128>, Vec<i128>)>)
        requires
            self.wf(),
            k < self.spec_q() ==> self.spec_gcs()[k as int].spec_uses_fast_path(),
        ensures
            k >= self.spec_q() ==> r is None,
            k < self.spec_q() ==> ({
                let (pos, neg) = r->0;
                &&& r is Some
                &&& pos@.len() == self.spec_n()
                &&& neg@.len() == self.spec_n()
                &&& forall|i: int|
                    0 <= i < self.spec_n() ==> #[trigger] pos@[i] == pos_flow_num(
                        self.spec_col(k as int),
                        self.spec_gcs()[k as int],
                        i,
                    )
                &&& forall|i: int|
                    0 <= i < self.spec_n() ==> #[trigger] neg@[i] == neg_flow_num(
                        self.spec_col(k as int),
                        self.spec_gcs()[k as int],
                        i,
                    )
            }),
    {
        if k >= self.q {
            return None;
        }
        let gc = self.generalized_criteria[k];
        let (qv, pv): (i64, i64) = match gc {
            GeneralizedCriterion::VShape { p } => (0, p),
            GeneralizedCriterion::Linear { q, p } => (q, p),
            _ => vstd::pervasive::unreached(),
        };
        let ord: &Vec<usize> = match &self.argsorted_eval_matrix[k] {
            Some(o) => o,
            None => vstd::pervasive::unreached(),
        };
        let pos = self.fast_pos_unicriterion_flow(k, qv, pv, ord);
        let neg = self.fast_neg_unicriterion_flow(k, qv, pv, ord);
        proof {
            if gc is VShape {
                let p = gc->VShape_p;
                assert forall|i: int| 0 <= i < self.spec_n() implies #[trigger] pos@[i]
                    == pos_flow_num(self.spec_col(k as int), gc, i) by {
                    crate::flows::lemma_vshape_as_linear(self.spec_col(k as int), p, i);
                }
                assert forall|i: int| 0 <= i < self.spec_n() implies #[trigger] neg@[i]
                    == neg_flow_num(self.spec_col(k as int), gc, i) by {
                    crate::flows::lemma_vshape_as_linear(self.spec_col(k as int), p, i);
                }
            }
        }
        Some((pos, neg))
    }

    /// Both unicriterion flow vectors of criterion `k` from a full matrix
    /// of signed performance differences: the quadratic reference
    /// algorithm, usable with every family.
    pub fn slow_unicriterion_flows(
        &self,
        dist_mat: &Vec<Vec<i64>>,
        generalized_criterion: &GeneralizedCriterion,
    ) -> (r: (Vec<i128>, Vec<i128>))
        requires
            generalized_criterion.valid(),
            forall|i: int|
                0 <= i < dist_mat@.len() ==> #[trigger] dist_mat@[i]@.len() == dist_mat@.len(),
            forall|i: int, j: int|
                0 <= i < dist_mat@.len() && 0 <= j < dist_mat@.len() ==> -2 * VALUE_LIMIT
                    <= #[trigger] dist_mat@[i]@[j] <= 2 * VALUE_LIMIT,
        ensures
            r.0@.len() == dist_mat@.len(),
            r.1@.len() == dist_mat@.len(),
            forall|i: int|
                0 <= i < dist_mat@.len() ==> #[trigger] r.0@[i] == crate::flows::row_pos_num(
                    dist_mat@[i]@,
                    *generalized_criterion,
                    dist_mat@.len() as int,
                ),
            forall|i: int|
                0 <= i < dist_mat@.len() ==> #[trigger] r.1@[i] == crate::flows::row_neg_num(
                    dist_mat@[i]@,
                    *generalized_criterion,
                    dist_mat@.len() as int,
                ),
    {
        crate::flows::slow_flow_nums(dist_mat, generalized_criterion)
    }

    /// Both unicriterion flow vectors of criterion `k`, dispatching to the
    /// sliding-window algorithm for the linear-ramp families and to the
    /// quadratic one for the step families.
    #[verifier::loop_isolation(false)]
    fn unicriterion_flows(&self, k: usize) -> (r: (Vec<i128>, Vec<i128>))
        requires
            self.wf(),
            k < self.spec_q(),
        ensures
            r.0@.len() == self.spec_n(),
            r.1@.len() == self.spec_n(),
            forall|i: int|
                0 <= i < self.spec_n() ==> #[trigger] r.0@[i] == pos_flow_num(
                    self.spec_col(k as int),
                    self.spec_gcs()[k as int],
                    i,
                ),
            forall|i: int|
                0 <= i < self.spec_n() ==> #[trigger] r.1@[i] == neg_flow_num(
                    self.spec_col(k as int),
                    self.spec_gcs()[k as int],
                    i,
                ),
    {
        let gc = self.generalized_criteria[k];
        if gc.uses_fast_path() {
            match self.fast_unicriterion_flows(k) {
                Some(t) => t,
                None => vstd::pervasive::unreached(),
            }
        } else {
            proof {
                lemma_col_bounded(&self.alt_table, k as int);
            }
            let col = match self.alt_table.criterion(k) {
                Some(c) => c,
                None => vstd::pervasive::unreached(),
            };
            let n = col.len();
            let mut dist: Vec<Vec<i64>> = Vec::new();
            let mut i: usize = 0;
            while i < n
                invariant
                    i <= n,
                    dist@.len() == i as int,
                    forall|u: int| 0 <= u < i ==> #[trigger] dist@[u]@.len() == n as int,
                    forall|u: int, j: int|
                        0 <= u < i && 0 <= j < n ==> #[trigger] dist@[u]@[j] as int == col@[
                            u
                        ] as int - col@[j] as int,
                decreases n - i,
            {
                let mut row: Vec<i64> = Vec::new();
                let mut j: usize = 0;
                while j < n
                    invariant
                        j <= n,
                        i < n,
                        row@.len() == j as int,
                        forall|v: int|
                            0 <= v < j ==> #[trigger] row@[v] as int == col@[i as int] as int
                                - col@[v] as int,
                    decreases n - j,
                {
                    row.push(col[i] - col[j]);
                    j = j + 1;
                }
                dist.push(row);
                i = i + 1;
            }
            let pair = self.slow_unicriterion_flows(&dist, &gc);
            proof {
                assert forall|i2: int| 0 <= i2 < self.spec_n() implies #[trigger] pair.0@[i2]
                    == pos_flow_num(self.spec_col(k as int), gc, i2) by {
                    crate::flows::lemma_row_flows(
                        self.spec_col(k as int),
                        dist@[i2]@,
                        gc,
                        i2,
                        self.spec_n(),
                    );
                }
                assert forall|i2: int| 0 <= i2 < self.spec_n() implies #[trigger] pair.1@[i2]
                    == neg_flow_num(self.spec_col(k as int), gc, i2) by {
                    crate::flows::lemma_row_flows(
                        self.spec_col(k as int),
                        dist@[i2]@,
                        gc,
                        i2,
                        self.spec_n(),
                    );
                }
            }
            pair
        }
    }
}

impl PrometheeProblem {
    /// Solves the ranking problem: computes every criterion's unicriterion
    /// flow vectors and accumulates them, weighted, into the aggregated
    /// positive and negative flows, in criterion order. Every numerator is
    /// exact; the denominators are `ramp width * (n - 1)` per criterion
    /// and the common `flow_den` for the aggregates.
    #[verifier::loop_isolation(false)]
    #[verifier::rlimit(100)]
    pub fn solve(&self) -> (r: Promethee2Result)
        requires
            self.wf(),
        ensures
            r.wf(),
            r.spec_n() == self.spec_n(),
            r.spec_q() == self.spec_q(),
            r.flow_den == self.spec_agg_den(),
            forall|k: int|
                0 <= k < self.spec_q() ==> #[trigger] r.unicrit_dens@[k] == ramp_den(
                    self.spec_gcs()[k],
                ) * (self.spec_n() - 1),
            forall|k: int, i: int|
                0 <= k < self.spec_q() && 0 <= i < self.spec_n()
                    ==> #[trigger] r.unicrit_positive_flows@[k]@[i] == pos_flow_num(
                    self.spec_col(k),
                    self.spec_gcs()[k],
                    i,
                ),
            forall|k: int, i: int|
                0 <= k < self.spec_q() && 0 <= i < self.spec_n()
                    ==> #[trigger] r.unicrit_negative_flows@[k]@[i] == neg_flow_num(
                    self.spec_col(k),
                    self.spec_gcs()[k],
                    i,
                ),
            forall|i: int|
                0 <= i < self.spec_n() ==> #[trigger] r.positive_flows@[i] == self.agg_pos_num(
                    i,
                    self.spec_q(),
                ),
            forall|i: int|
                0 <= i < self.spec_n() ==> #[trigger] r.negative_flows@[i] == self.agg_neg_num(
                    i,
                    self.spec_q(),
                ),
    {
        let n = self.n;
        let q = self.q;
        let nm1: i128 = (n - 1) as i128;
        let ghost gcs = self.spec_gcs();
        proof {
            lemma_prod_dens_pos(gcs, q as int);
        }
        // prefix products of the ramp widths
        let mut pre: Vec<i128> = Vec::new();
        let mut pacc: i128 = 1;
        let mut k: usize = 0;
        while k < q
            invariant
                k <= q,
                pre@.len() == k as int,
                pacc as int == prod_dens(gcs, k as int),
                1 <= pacc <= self.den_prod,
                forall|u: int|
                    0 <= u < k as int ==> #[trigger] pre@[u] as int == prod_dens(gcs, u) && 1
                        <= pre@[u] <= self.den_prod,
            decreases q - k,
        {
            pre.push(pacc);
            let d = self.generalized_criteria[k].ramp_width();
            proof {
                lemma_prod_dens_ge_prefix(gcs, k + 1 as int, q as int);
                assert(prod_dens(gcs, k as int + 1) == prod_dens(gcs, k as int) * ramp_den(
                    gcs[k as int],
                ));
                assert(pacc as int * d as int >= 1) by (nonlinear_arith)
                    requires
                        pacc as int >= 1,
                        d as int >= 1,
                ;
            }
            pacc = pacc * d as i128;
            k = k + 1;
        }
        // suffix products of the ramp widths
        let mut suf: Vec<i128> = Vec::new();
        let mut z: usize = 0;
        while z < q
            invariant
                z <= q,
                suf@.len() == z as int,
            decreases q - z,
        {
            suf.push(1);
            z = z + 1;
        }
        let mut sacc: i128 = 1;
        let mut kk: usize = q;
        while kk > 0
            invariant
                kk <= q,
                suf@.len() == q as int,
                sacc as int == prod_dens_from(gcs, kk as int),
                1 <= sacc <= self.den_prod,
                forall|u: int|
                    kk as int <= u < q as int ==> #[trigger] suf@[u] as int == prod_dens_from(
                        gcs,
                        u + 1,
                    ) && 1 <= suf@[u] <= self.den_prod,
            decreases kk,
        {
            kk = kk - 1;
            suf.set(kk, sacc);
            let d = self.generalized_criteria[kk].ramp_width();
            proof {
                assert(prod_dens_from(gcs, kk as int) == ramp_den(gcs[kk as int])
                    * prod_dens_from(gcs, kk as int + 1));
                lemma_prod_split_at(gcs, kk as int);
                lemma_prod_dens_pos(gcs, kk as int);
                lemma_prod_dens_from_pos(gcs, kk as int);
                assert(prod_dens_from(gcs, kk as int) <= self.den_prod) by (nonlinear_arith)
                    requires
                        self.den_prod as int == prod_dens(gcs, kk as int) * prod_dens_from(
                            gcs,
                            kk as int,
                        ),
                        prod_dens(gcs, kk as int) >= 1,
                        prod_dens_from(gcs, kk as int) >= 1,
                ;
                assert(d as int * sacc as int >= 1) by (nonlinear_arith)
                    requires
                        sacc as int >= 1,
                        d as int >= 1,
                ;
            }
            sacc = d as i128 * sacc;
        }
        // flow vectors
        let mut positive_flows: Vec<i128> = Vec::new();
        let mut negative_flows: Vec<i128> = Vec::new();
        let mut z: usize = 0;
        while z < n
            invariant
                z <= n,
                positive_flows@.len() == z as int,
                negative_flows@.len() == z as int,
                forall|u: int| 0 <= u < z as int ==> #[trigger] positive_flows@[u] == 0,
                forall|u: int| 0 <= u < z as int ==> #[trigger] negative_flows@[u] == 0,
            decreases n - z,
        {
            positive_flows.push(0);
            negative_flows.push(0);
            z = z + 1;
        }
        let mut upos: Vec<Vec<i128>> = Vec::new();
        let mut uneg: Vec<Vec<i128>> = Vec::new();
        let mut udens: Vec<i128> = Vec::new();
        let mut k: usize = 0;
        while k < q
            invariant
                k <= q,
                upos@.len() == k as int,
                uneg@.len() == k as int,
                udens@.len() == k as int,
                positive_flows@.len() == n as int,
                negative_flows@.len() == n as int,
                forall|u: int|
                    0 <= u < k as int ==> #[trigger] udens@[u] as int == ramp_den(gcs[u]) * (
                    n - 1),
                forall|u: int|
                    0 <= u < k as int ==> 1 <= #[trigger] udens@[u] <= self.agg_den,
                forall|u: int|
                    0 <= u < k as int ==> #[trigger] upos@[u]@.len() == n as int,
                forall|u: int|
                    0 <= u < k as int ==> #[trigger] uneg@[u]@.len() == n as int,
                forall|u: int, i2: int|
                    0 <= u < k as int && 0 <= i2 < n as int ==> #[trigger] upos@[u]@[i2]
                        == pos_flow_num(self.spec_col(u), gcs[u], i2),
                forall|u: int, i2: int|
                    0 <= u < k as int && 0 <= i2 < n as int ==> #[trigger] uneg@[u]@[i2]
                        == neg_flow_num(self.spec_col(u), gcs[u], i2),
                forall|i2: int|
                    0 <= i2 < n as int ==> #[trigger] positive_flows@[i2] == self.agg_pos_num(
                        i2,
                        k as int,
                    ),
                forall|i2: int|
                    0 <= i2 < n as int ==> #[trigger] negative_flows@[i2] == self.agg_neg_num(
                        i2,
                        k as int,
                    ),
            decreases q - k,
        {
            let (pk, nk) = self.unicriterion_flows(k);
            let d = self.generalized_criteria[k].ramp_width();
            proof {
                lemma_prod_except(gcs, k as int);
                assert(ramp_den(gcs[k as int]) * (n - 1) <= self.spec_agg_den())
                    by (nonlinear_arith)
                    requires
                        self.spec_agg_den() == self.spec_w_sum() * (n - 1) * prod_dens(
                            gcs,
                            q as int,
                        ),
                        prod_dens(gcs, q as int) == prod_except(gcs, k as int) * ramp_den(
                            gcs[k as int],
                        ),
                        self.spec_w_sum() >= 1,
                        prod_except(gcs, k as int) >= 1,
                        ramp_den(gcs[k as int]) >= 1,
                        n as int - 1 >= 1,
                ;
                assert(d as int * (n - 1) >= 1) by (nonlinear_arith)
                    requires
                        d as int >= 1,
                        n as int - 1 >= 1,
                ;
            }
            let ud: i128 = (d as i128) * nm1;
            udens.push(ud);
            let w = self.weights[k];
            let prek = pre[k];
            let sufk = suf[k];
            let mut i: usize = 0;
            while i < n
                invariant
                    i <= n,
                    k < q,
                    positive_flows@.len() == n as int,
                    negative_flows@.len() == n as int,
                    forall|u: int|
                        0 <= u < i as int ==> #[trigger] positive_flows@[u] == self.agg_pos_num(
                            u,
                            k as int + 1,
                        ),
                    forall|u: int|
                        i as int <= u < n as int ==> #[trigger] positive_flows@[u]
                            == self.agg_pos_num(u, k as int),
                    forall|u: int|
                        0 <= u < i as int ==> #[trigger] negative_flows@[u] == self.agg_neg_num(
                            u,
                            k as int + 1,
                        ),
                    forall|u: int|
                        i as int <= u < n as int ==> #[trigger] negative_flows@[u]
                            == self.agg_neg_num(u, k as int),
                decreases n - i,
            {
                proof {
                    let col = self.spec_col(k as int);
                    crate::flows::lemma_flow_sum_range(
                        col,
                        gcs[k as int],
                        col[i as int] as int,
                        col.len() as int,
                    );
                    lemma_agg_step(
                        self,
                        k as int,
                        prek as int,
                        sufk as int,
                        pk@[i as int] as int,
                        w as int,
                    );
                    lemma_agg_step(
                        self,
                        k as int,
                        prek as int,
                        sufk as int,
                        nk@[i as int] as int,
                        w as int,
                    );
                    lemma_agg_num_range(self, i as int, k as int);
                    lemma_agg_num_range(self, i as int, k as int + 1);
                }
                let t1: i128 = (w as i128) * pk[i];
                let t2: i128 = t1 * prek;
                let t3: i128 = t2 * sufk;
                let s1: i128 = (w as i128) * nk[i];
                let s2: i128 = s1 * prek;
                let s3: i128 = s2 * sufk;
                let vpos = positive_flows[i];
                positive_flows.set(i, vpos + t3);
                let vneg = negative_flows[i];
                negative_flows.set(i, vneg + s3);
                i = i + 1;
            }
            upos.push(pk);
            uneg.push(nk);
            k = k + 1;
        }
        let result = Promethee2Result {
            positive_flows,
            unicrit_positive_flows: upos,
            negative_flows,
            unicrit_negative_flows: uneg,
            unicrit_dens: udens,
            flow_den: self.agg_den,
        };
        proof {
            assert forall|i2: int|
                0 <= i2 < n as int implies 0 <= #[trigger] result.positive_flows@[i2] <= 2
                * result.flow_den by {
                lemma_agg_num_range(self, i2, q as int);
            }
            assert forall|i2: int|
                0 <= i2 < n as int implies 0 <= #[trigger] result.negative_flows@[i2] <= 2
                * result.flow_den by {
                lemma_agg_num_range(self, i2, q as int);
            }
            assert forall|u: int, i2: int|
                0 <= u < q as int && 0 <= i2 < n as int implies 0
                <= #[trigger] result.unicrit_positive_flows@[u]@[i2] <= 2
                * result.unicrit_dens@[u] by {
                let col = self.spec_col(u);
                crate::flows::lemma_flow_sum_range(col, gcs[u], col[i2] as int, col.len() as int);
                crate::generalized_criterion::lemma_pref_num_range(gcs[u], 0);
                assert((n as int) * ramp_den(gcs[u]) <= 2 * (ramp_den(gcs[u]) * (n - 1)))
                    by (nonlinear_arith)
                    requires
                        n as int >= 2,
                        ramp_den(gcs[u]) >= 1,
                ;
            }
            assert forall|u: int, i2: int|
                0 <= u < q as int && 0 <= i2 < n as int implies 0
                <= #[trigger] result.unicrit_negative_flows@[u]@[i2] <= 2
                * result.unicrit_dens@[u] by {
                let col = self.spec_col(u);
                crate::flows::lemma_flow_sum_range(col, gcs[u], col[i2] as int, col.len() as int);
                crate::generalized_criterion::lemma_pref_num_range(gcs[u], 0);
                assert((n as int) * ramp_den(gcs[u]) <= 2 * (ramp_den(gcs[u]) * (n - 1)))
                    by (nonlinear_arith)
                    requires
                        n as int >= 2,
                        ramp_den(gcs[u]) >= 1,
                ;
            }
        }
        result
    }
}

/// The non-decreasing order on performances, under which a column's
/// sorted form is unique.
pub open spec fn leq_i64() -> spec_fn(i64, i64) -> bool {
    |a: i64, b: i64| a <= b
}

/// The column sorted into non-decreasing order: the unique sorted
/// rearrangement of its values.
pub open spec fn spec_sorted(col: Seq<i64>) -> Seq<i64> {
    col.sort_by(leq_i64())
}

/// The smallest strictly positive gap between consecutive entries of the
/// first `m` entries of a sorted column, if any gap is positive.
pub open spec fn min_pos_gap(sc: Seq<i64>, m: int) -> Option<int>
    decreases m,
{
    if m <= 1 {
        None
    } else {
        let rest = min_pos_gap(sc, m - 1);
        let g = sc[m - 1] - sc[m - 2];
        if g > 0 && (rest is None || g < rest->0) {
            Some(g)
        } else {
            rest
        }
    }
}

impl PrometheeProblem {
    /// The performances of criterion `k`, sorted into non-decreasing
    /// order: a rearrangement of the column (same multiset of values).
    pub fn sorted_evals(&self, k: usize) -> (r: Vec<i64>)
        requires
            self.wf(),
            k < self.spec_q(),
        ensures
            r@.len() == self.spec_n(),
            forall|s: int, t: int| 0 <= s < t < r@.len() ==> r@[s] <= r@[t],
            r@.to_multiset() == self.spec_col(k as int).to_multiset(),
    {
        proof {
            lemma_col_bounded(&self.alt_table, k as int);
        }
        let col = match self.alt_table.criterion(k) {
            Some(c) => c,
            None => vstd::pervasive::unreached(),
        };
        match &self.argsorted_eval_matrix[k] {
            Some(o) => {
                proof {
                    crate::flows::lemma_map_ord_multiset(col@, o@);
                }
                gather(&col, o)
            },
            None => {
                let o = crate::flows::argsort(&col);
                proof {
                    crate::flows::lemma_map_ord_multiset(col@, o@);
                }
                gather(&col, &o)
            },
        }
    }

    /// The preference threshold of a `VShape` criterion `k`.
    pub fn get_parameter(&self, k: usize) -> (r: i64)
        requires
            self.wf(),
            k < self.spec_q(),
            self.spec_gcs()[k as int] is VShape,
        ensures
            r == self.spec_gcs()[k as int]->VShape_p,
    {
        match self.generalized_criteria[k] {
            GeneralizedCriterion::VShape { p } => p,
            _ => vstd::pervasive::unreached(),
        }
    }

    /// The smallest strictly positive gap between consecutive sorted
    /// performances of a `VShape` criterion `k`: the smallest threshold at
    /// which any two distinct performances still reach full preference.
    /// `None` when `k` is out of range, the criterion is not `VShape`, or
    /// all performances are equal.
    pub fn smallest_p_vshape(&self, k: usize) -> (r: Option<i64>)
        requires
            self.wf(),
        ensures
            (k >= self.spec_q() || !(self.spec_gcs()[k as int] is VShape)) ==> r is None,
            (k < self.spec_q() && self.spec_gcs()[k as int] is VShape) ==> ({
                let g = min_pos_gap(spec_sorted(self.spec_col(k as int)), self.spec_n());
                &&& (g is Some ==> r == Some(g->0 as i64))
                &&& (g is None ==> r is None)
            }),
    {
        if k >= self.q {
            return None;
        }
        let is_vshape = match self.generalized_criteria[k] {
            GeneralizedCriterion::VShape { .. } => true,
            _ => false,
        };
        if !is_vshape {
            return None;
        }
        let sc = self.sorted_evals(k);
        proof {
            lemma_col_bounded(&self.alt_table, k as int);
            lemma_rearranged_bounds(self.spec_col(k as int), sc@);
            let col = self.spec_col(k as int);
            col.lemma_sort_by_ensures(leq_i64());
            vstd::seq_lib::lemma_sorted_unique(sc@, spec_sorted(col), leq_i64());
            assert(vstd::relations::sorted_by(sc@, leq_i64())) by {
                assert forall|s: int, t: int|
                    0 <= s < t < sc@.len() implies leq_i64()(sc@[s], sc@[t]) by {
                    assert(sc@[s] <= sc@[t]);
                }
            }
        }
        let n = sc.len();
        let mut best: Option<i64> = None;
        let mut t: usize = 1;
        if n < 2 {
            return None;
        }
        while t < n
            invariant
                1 <= t <= n,
                n == sc@.len(),
                forall|s: int, u: int| 0 <= s < u < n ==> sc@[s] <= sc@[u],
                (best is Some <==> min_pos_gap(sc@, t as int) is Some),
                best is Some ==> best->0 as int == min_pos_gap(sc@, t as int)->0 && 0
                    < min_pos_gap(sc@, t as int)->0 <= 2 * VALUE_LIMIT,
                forall|u: int| 0 <= u < n ==> -VALUE_LIMIT <= #[trigger] sc@[u] <= VALUE_LIMIT,
            decreases n - t,
        {
            let g = sc[t] - sc[t - 1];
            proof {
                let rest = min_pos_gap(sc@, t as int);
                let gs = sc@[t as int] - sc@[t as int - 1];
                assert(min_pos_gap(sc@, t as int + 1) == (if gs > 0 && (rest is None || gs
                    < rest->0) {
                    Some(gs)
                } else {
                    rest
                }));
            }
            match best {
                Some(b) => if g > 0 && g < b {
                    best = Some(g);
                },
                None => if g > 0 {
                    best = Some(g);
                },
            }
            t = t + 1;
        }
        best
    }
}

impl PrometheeProblem {
    /// Shifts the performance of alternative `i` on criterion `k` by
    /// `shift` and recomputes exactly that criterion's ascending-order
    /// cache (the step families keep none). Rejects invalid indices and
    /// shifts that would leave the accepted range; on rejection the
    /// problem is unchanged.
    pub fn shift_eval(&mut self, k: usize, i: usize, shift: i64) -> (r: Result<
        (),
        PrometheeError,
    >)
        requires
            old(self).wf(),
        ensures
            final(self).wf(),
            (i >= old(self).spec_n() || k >= old(self).spec_q()) ==> (r == Err::<(), _>(
                PrometheeError::IndexOutOfRange,
            ) && final(self).spec_table() == old(self).spec_table()),
            (i < old(self).spec_n() && k < old(self).spec_q() && !(-VALUE_LIMIT <= old(self).spec_table().spec_perf(i as int, k as int) + shift <= VALUE_LIMIT)) ==> (r
                == Err::<(), _>(PrometheeError::ValueOutOfRange) && final(self).spec_table()
                == old(self).spec_table()),
            (i < old(self).spec_n() && k < old(self).spec_q() && -VALUE_LIMIT <= old(self).spec_table().spec_perf(i as int, k as int) + shift <= VALUE_LIMIT) ==> ({
                &&& r is Ok
                &&& final(self).spec_table().spec_alts()[i as int].spec_perfs() == old(self).spec_table().spec_alts()[i as int].spec_perfs().update(
                    k as int,
                    (old(self).spec_table().spec_perf(i as int, k as int) + shift) as i64,
                )
                &&& forall|u: int|
                    0 <= u < old(self).spec_n() && u != i ==> #[trigger] final(self).spec_table().spec_alts()[u] == old(self).spec_table().spec_alts()[u]
                &&& final(self).spec_table().spec_criteria_names() == old(self).spec_table().spec_criteria_names()
                &&& final(self).spec_table().spec_directions() == old(self).spec_table().spec_directions()
            }),
            final(self).spec_n() == old(self).spec_n(),
            final(self).spec_q() == old(self).spec_q(),
            final(self).spec_gcs() == old(self).spec_gcs(),
            final(self).spec_weights() == old(self).spec_weights(),
            final(self).spec_w_sum() == old(self).spec_w_sum(),
            final(self).spec_agg_den() == old(self).spec_agg_den(),
    {
        let rr = self.alt_table.shift_performance(i, k, shift);
        match rr {
            Err(e) => {
                proof {
                    assert(self.alt_table == old(self).alt_table);
                }
                Err(e)
            },
            Ok(()) => {
                let ghost mid = *self;
                proof {
                    lemma_shifted_columns(old(self), &mid, i as int, k as int, shift as int);
                }
                if self.generalized_criteria[k].uses_fast_path() {
                    proof {
                        lemma_col_bounded(&self.alt_table, k as int);
                    }
                    let col = match self.alt_table.criterion(k) {
                        Some(c) => c,
                        None => vstd::pervasive::unreached(),
                    };
                    let ord = crate::flows::argsort(&col);
                    self.argsorted_eval_matrix.set(k, Some(ord));
                }
                proof {
                    assert(self.alt_table == mid.alt_table);
                    assert forall|u: int|
                        0 <= u < self.q as int && u != k as int
                            && self.generalized_criteria@[u].spec_uses_fast_path() implies is_asc_order(
                        self.spec_col(u),
                        (#[trigger] self.argsorted_eval_matrix@[u])->0@,
                    ) by {
                        assert(self.argsorted_eval_matrix@[u] == old(
                            self,
                        ).argsorted_eval_matrix@[u]);
                        assert(is_asc_order(
                            old(self).spec_col(u),
                            old(self).argsorted_eval_matrix@[u]->0@,
                        ));
                        assert(mid.spec_col(u) == old(self).spec_col(u));
                        assert(self.spec_table().spec_column(u) == mid.spec_table().spec_column(
                            u,
                        ));
                    }
                }
                Ok(())
            },
        }
    }
}

/// After one performance of criterion `k` is shifted, every other
/// criterion's column is unchanged, so its cached ascending order stays
/// valid.
proof fn lemma_shifted_columns(
    older: &PrometheeProblem,
    newer: &PrometheeProblem,
    i: int,
    k: int,
    shift: int,
)
    requires
        older.wf(),
        newer.alt_table.wf(),
        newer.n == older.n,
        newer.q == older.q,
        newer.generalized_criteria == older.generalized_criteria,
        newer.weights == older.weights,
        newer.w_sum == older.w_sum,
        newer.den_prod == older.den_prod,
        newer.agg_den == older.agg_den,
        newer.argsorted_eval_matrix == older.argsorted_eval_matrix,
        newer.alt_table.spec_n() == older.alt_table.spec_n(),
        newer.alt_table.spec_q() == older.alt_table.spec_q(),
        0 <= i < older.spec_n(),
        0 <= k < older.spec_q(),
        newer.alt_table.spec_alts()[i].spec_perfs() == older.alt_table.spec_alts()[
            i
        ].spec_perfs().update(k, (older.alt_table.spec_perf(i, k) + shift) as i64),
        forall|u: int|
            0 <= u < older.spec_n() && u != i ==> #[trigger] newer.alt_table.spec_alts()[u]
                == older.alt_table.spec_alts()[u],
    ensures
        forall|u: int|
            0 <= u < older.spec_q() && u != k ==> #[trigger] newer.spec_col(u) == older.spec_col(
                u,
            ),
{
    lemma_table_wf_facts(&older.alt_table);
    lemma_table_wf_facts(&newer.alt_table);
    assert forall|u: int|
        0 <= u < older.spec_q() && u != k implies #[trigger] newer.spec_col(u) == older.spec_col(
            u,
        ) by {
        assert forall|j: int|
            0 <= j < older.spec_n() implies newer.spec_col(u)[j] == older.spec_col(u)[j] by {
            assert(newer.spec_col(u)[j] == newer.alt_table.spec_perf(j, u));
            assert(older.spec_col(u)[j] == older.alt_table.spec_perf(j, u));
            if j == i {
                assert(newer.alt_table.spec_perf(j, u) == newer.alt_table.spec_alts()[
                    j
                ].spec_perfs()[u]);
                assert(older.alt_table.spec_perf(j, u) == older.alt_table.spec_alts()[
                    j
                ].spec_perfs()[u]);
            } else {
                assert(newer.alt_table.spec_perf(j, u) == newer.alt_table.spec_alts()[
                    j
                ].spec_perfs()[u]);
                assert(older.alt_table.spec_perf(j, u) == older.alt_table.spec_alts()[
                    j
                ].spec_perfs()[u]);
            }
        }
        assert(newer.spec_col(u) =~= older.spec_col(u));
    }
}

/// The weights of a problem are normalized exactly: criterion `k`'s
/// normalized weight is the rational `weights[k] / w_sum`, and since
/// `w_sum` is exactly the sum of the raw weights, the normalized weights
/// of any accepted (positive) weight vector sum to exactly 1.
pub proof fn lemma_weights_normalized(p: &PrometheeProblem)
    requires
        p.wf(),
    ensures
        weights_sum(p.spec_weights(), p.spec_weights().len() as int) == p.spec_w_sum(),
        p.spec_w_sum() >= 1,
{
}

/// One weight never exceeds the sum of all weights.
proof fn lemma_weight_le_sum(ws: Seq<u64>, k: int)
    requires
        0 <= k < ws.len(),
    ensures
        ws[k] <= weights_sum(ws, ws.len() as int),
{
    lemma_weights_sum_range(ws, k);
    assert(weights_sum(ws, k + 1) == weights_sum(ws, k) + ws[k]);
    lemma_weights_sum_mono(ws, k + 1, ws.len() as int);
}

/// Bounds for one aggregation term `w * flow * prefix * suffix`: every
/// partial product stays within twice the common denominator, and the full
/// product is the term of the aggregate flow sum.
proof fn lemma_agg_step(p: &PrometheeProblem, k: int, pre: int, suf: int, fl: int, w: int)
    requires
        p.wf(),
        0 <= k < p.spec_q(),
        pre == prod_dens(p.spec_gcs(), k),
        suf == prod_dens_from(p.spec_gcs(), k + 1),
        w == p.spec_weights()[k] as int,
        0 <= fl <= p.spec_n() * ramp_den(p.spec_gcs()[k]),
    ensures
        0 <= w * fl <= 2 * p.spec_agg_den(),
        0 <= w * fl * pre <= 2 * p.spec_agg_den(),
        0 <= w * fl * pre * suf <= 2 * p.spec_agg_den(),
        w * fl * pre * suf == w * fl * prod_except(p.spec_gcs(), k),
{
    let gcs = p.spec_gcs();
    let q = p.spec_q();
    let d = ramp_den(gcs[k]);
    let s = weights_sum(p.spec_weights(), q);
    let nm1 = p.spec_n() - 1;
    let pd = prod_dens(gcs, q);
    let pe = prod_except(gcs, k);
    lemma_prod_except(gcs, k);
    lemma_weight_le_sum(p.spec_weights(), k);
    lemma_prod_dens_pos(gcs, k);
    lemma_prod_dens_from_pos(gcs, k + 1);
    crate::generalized_criterion::lemma_pref_num_range(gcs[k], 0);
    assert(p.spec_agg_den() == s * nm1 * pd);
    assert(fl <= 2 * nm1 * d) by (nonlinear_arith)
        requires
            fl <= (nm1 + 1) * d,
            1 <= nm1,
            1 <= d,
    ;
    assert(0 <= w * fl <= s * (2 * nm1 * d)) by (nonlinear_arith)
        requires
            0 <= w <= s,
            0 <= fl <= 2 * nm1 * d,
    ;
    assert(d <= pd) by (nonlinear_arith)
        requires
            pd == pe * d,
            1 <= pe,
            1 <= d,
    ;
    assert(s * (2 * nm1 * d) <= 2 * (s * nm1 * pd)) by (nonlinear_arith)
        requires
            d <= pd,
            1 <= s,
            1 <= nm1,
    ;
    assert(0 <= w * fl * pre <= s * (2 * nm1 * d) * pre) by (nonlinear_arith)
        requires
            0 <= w * fl <= s * (2 * nm1 * d),
            1 <= pre,
    ;
    assert(d * pre <= pd) by (nonlinear_arith)
        requires
            pd == (pre * suf) * d,
            1 <= suf,
            1 <= pre,
            1 <= d,
    ;
    assert(s * (2 * nm1 * d) * pre == 2 * (s * nm1 * (d * pre))) by (nonlinear_arith);
    assert(2 * (s * nm1 * (d * pre)) <= 2 * (s * nm1 * pd)) by (nonlinear_arith)
        requires
            d * pre <= pd,
            1 <= s,
            1 <= nm1,
    ;
    assert(0 <= w * fl * pre * suf <= s * (2 * nm1 * d) * pre * suf) by (nonlinear_arith)
        requires
            0 <= w * fl * pre <= s * (2 * nm1 * d) * pre,
            1 <= suf,
    ;
    assert(s * (2 * nm1 * d) * pre * suf == 2 * (s * nm1 * (d * (pre * suf))))
        by (nonlinear_arith);
    assert(d * (pre * suf) == pd) by (nonlinear_arith)
        requires
            pd == pe * d,
            pe == pre * suf,
    ;
    assert(w * fl * pre * suf == w * fl * (pre * suf)) by (nonlinear_arith);
    assert(pe == pre * suf);
}

/// Partial aggregate flow numerators are non-negative and bounded: by
/// twice the weights summed so far times the rest of the denominator, and
/// in particular by twice the common denominator.
proof fn lemma_agg_num_range(p: &PrometheeProblem, i: int, m: int)
    requires
        p.wf(),
        0 <= m <= p.spec_q(),
    ensures
        0 <= p.agg_pos_num(i, m) <= 2 * weights_sum(p.spec_weights(), m) * (p.spec_n() - 1)
            * prod_dens(p.spec_gcs(), p.spec_q()),
        0 <= p.agg_neg_num(i, m) <= 2 * weights_sum(p.spec_weights(), m) * (p.spec_n() - 1)
            * prod_dens(p.spec_gcs(), p.spec_q()),
        0 <= p.agg_pos_num(i, m) <= 2 * p.spec_agg_den(),
        0 <= p.agg_neg_num(i, m) <= 2 * p.spec_agg_den(),
    decreases m,
{
    let gcs = p.spec_gcs();
    let ws = p.spec_weights();
    let q = p.spec_q();
    let nm1 = p.spec_n() - 1;
    let pd = prod_dens(gcs, q);
    lemma_prod_dens_pos(gcs, q);
    lemma_weights_sum_range(ws, m);
    if m == 0 {
        assert(2 * weights_sum(ws, 0) * nm1 * pd == 0) by (nonlinear_arith)
            requires
                weights_sum(ws, 0) == 0,
        ;
    } else {
        lemma_agg_num_range(p, i, m - 1);
        let k = m - 1;
        let d = ramp_den(gcs[k]);
        let pe = prod_except(gcs, k);
        let w = ws[k] as int;
        let col = p.spec_col(k);
        let flp = pos_flow_num(col, gcs[k], i);
        let fln = neg_flow_num(col, gcs[k], i);
        crate::flows::lemma_flow_sum_range(col, gcs[k], col[i] as int, col.len() as int);
        assert(col.len() == p.spec_n());
        lemma_prod_except(gcs, k);
        crate::generalized_criterion::lemma_pref_num_range(gcs[k], 0);
        assert(0 <= w * flp * pe <= 2 * (w * nm1 * pd)) by (nonlinear_arith)
            requires
                0 <= w,
                0 <= flp <= (nm1 + 1) * d,
                pd == pe * d,
                1 <= pe,
                1 <= d,
                1 <= nm1,
        ;
        assert(0 <= w * fln * pe <= 2 * (w * nm1 * pd)) by (nonlinear_arith)
            requires
                0 <= w,
                0 <= fln <= (nm1 + 1) * d,
                pd == pe * d,
                1 <= pe,
                1 <= d,
                1 <= nm1,
        ;
        assert(2 * weights_sum(ws, m - 1) * nm1 * pd + 2 * (w * nm1 * pd) == 2 * weights_sum(
            ws,
            m,
        ) * nm1 * pd) by (nonlinear_arith)
            requires
                weights_sum(ws, m) == weights_sum(ws, m - 1) + w,
        ;
    }
    lemma_weights_sum_mono(ws, m, q);
    assert(2 * weights_sum(ws, m) * nm1 * pd <= 2 * weights_sum(ws, q) * nm1 * pd)
        by (nonlinear_arith)
        requires
            weights_sum(ws, m) <= weights_sum(ws, q),
            0 <= weights_sum(ws, m),
            1 <= nm1,
            1 <= pd,
    ;
    assert(p.spec_agg_den() == weights_sum(ws, q) * nm1 * pd);
    assert(2 * weights_sum(ws, q) * nm1 * pd == 2 * (weights_sum(ws, q) * nm1 * pd))
        by (nonlinear_arith);
    assert(2 * weights_sum(ws, m) * nm1 * pd == 2 * (weights_sum(ws, m) * nm1 * pd))
        by (nonlinear_arith);
}

/// The weight sum is bounded by the common denominator, so it fits in
/// `i128` whenever the problem is well formed.
proof fn lemma_w_sum_le_agg_den(p: &PrometheeProblem)
    requires
        p.wf(),
    ensures
        1 <= p.spec_w_sum() <= p.spec_agg_den(),
{
    lemma_prod_dens_pos(p.spec_gcs(), p.spec_q());
    assert(p.spec_w_sum() * (p.spec_n() - 1) * prod_dens(p.spec_gcs(), p.spec_q())
        >= p.spec_w_sum()) by (nonlinear_arith)
        requires
            p.spec_w_sum() >= 1,
            p.spec_n() - 1 >= 1,
            prod_dens(p.spec_gcs(), p.spec_q()) >= 1,
    ;
}

/// Reads the performances selected by an index list, in the list's order.
fn gather(col: &Vec<i64>, ord: &Vec<usize>) -> (r: Vec<i64>)
    requires
        is_asc_order(col@, ord@),
    ensures
        r@ == crate::flows::map_ord(col@, ord@),
        r@.len() == col@.len(),
        forall|s: int, t: int| 0 <= s < t < r@.len() ==> r@[s] <= r@[t],
{
    let m = ord.len();
    let mut out: Vec<i64> = Vec::new();
    let mut t: usize = 0;
    while t < m
        invariant
            t <= m,
            m == ord@.len(),
            is_asc_order(col@, ord@),
            out@.len() == t as int,
            forall|u: int| 0 <= u < t ==> #[trigger] out@[u] == col@[ord@[u] as int],
        decreases m - t,
    {
        out.push(col[ord[t]]);
        t = t + 1;
    }
    proof {
        assert(out@ =~= crate::flows::map_ord(col@, ord@));
    }
    out
}

/// A rearrangement of a bounded column is bounded.
proof fn lemma_rearranged_bounds(col: Seq<i64>, sc: Seq<i64>)
    requires
        crate::flows::col_bounded(col),
        sc.to_multiset() == col.to_multiset(),
    ensures
        forall|u: int| 0 <= u < sc.len() ==> -VALUE_LIMIT <= #[trigger] sc[u] <= VALUE_LIMIT,
{
    broadcast use vstd::seq_lib::group_to_multiset_ensures;
    broadcast use vstd::multiset::group_multiset_axioms;

    assert forall|u: int|
        0 <= u < sc.len() implies -VALUE_LIMIT <= #[trigger] sc[u] <= VALUE_LIMIT by {
        assert(sc.contains(sc[u]));
        assert(sc.to_multiset().count(sc[u]) > 0);
        assert(col.to_multiset().count(sc[u]) > 0);
        assert(col.contains(sc[u]));
        let j = choose|j: int| 0 <= j < col.len() && col[j] == sc[u];
        assert(-VALUE_LIMIT <= col[j] <= VALUE_LIMIT);
    }
}

/// A well-formed table's columns are bounded and have one entry per
/// alternative.
proof fn lemma_col_bounded(t: &AlternativeTable, k: int)
    requires
        t.wf(),
        0 <= k < t.spec_q(),
    ensures
        crate::flows::col_bounded(t.spec_column(k)),
        t.spec_column(k).len() == t.spec_n(),
{
    lemma_table_wf_facts(t);
    assert forall|j: int|
        0 <= j < t.spec_column(k).len() implies -VALUE_LIMIT <= #[trigger] t.spec_column(k)[j]
        <= VALUE_LIMIT by {
        assert(t.spec_column(k)[j] == t.spec_perf(j, k));
    }
}

/// Product bounds over `int`, shared by the overflow arguments.
proof fn lemma_prod_bounds_int(x: int, y: int, xb: int, yb: int)
    requires
        0 <= x <= xb,
        -yb <= y <= yb,
    ensures
        -(xb * yb) <= x * y <= xb * yb,
{
    assert(-(xb * yb) <= x * y <= xb * yb) by (nonlinear_arith)
        requires
            0 <= x <= xb,
            -yb <= y <= yb,
    ;
}

/// If a capped prefix of the denominator product already exceeds the cap,
/// the full denominator does too.
proof fn lemma_full_product_exceeds(
    gcs: Seq<GeneralizedCriterion>,
    s: int,
    nm1: int,
    k: int,
    partial: int,
)
    requires
        0 <= k < gcs.len(),
        1 <= s,
        1 <= nm1,
        partial == s * nm1 * prod_dens(gcs, k) * ramp_den(gcs[k]),
        partial > DEN_LIMIT,
    ensures
        s * nm1 * prod_dens(gcs, gcs.len() as int) > DEN_LIMIT,
{
    lemma_prod_dens_ge_prefix(gcs, k + 1, gcs.len() as int);
    assert(prod_dens(gcs, k + 1) == prod_dens(gcs, k) * ramp_den(gcs[k]));
    assert(s * nm1 * prod_dens(gcs, gcs.len() as int) >= s * nm1 * prod_dens(gcs, k + 1))
        by (nonlinear_arith)
        requires
            1 <= s,
            1 <= nm1,
            prod_dens(gcs, gcs.len() as int) >= prod_dens(gcs, k + 1),
    ;
    assert(s * nm1 * prod_dens(gcs, k + 1) == s * nm1 * prod_dens(gcs, k) * ramp_den(gcs[k]))
        by (nonlinear_arith)
        requires
            prod_dens(gcs, k + 1) == prod_dens(gcs, k) * ramp_den(gcs[k]),
    ;
}

/// The denominator product grows (weakly) with the number of criteria.
proof fn lemma_prod_dens_ge_prefix(gcs: Seq<GeneralizedCriterion>, m1: int, m2: int)
    requires
        0 <= m1 <= m2,
    ensures
        prod_dens(gcs, m2) >= prod_dens(gcs, m1),
        prod_dens(gcs, m1) >= 1,
    decreases m2 - m1,
{
    lemma_prod_dens_pos(gcs, m1);
    if m1 < m2 {
        lemma_prod_dens_ge_prefix(gcs, m1 + 1, m2);
        crate::generalized_criterion::lemma_pref_num_range(gcs[m1], 0);
        assert(prod_dens(gcs, m1 + 1) == prod_dens(gcs, m1) * ramp_den(gcs[m1]));
        assert(prod_dens(gcs, m1) * ramp_den(gcs[m1]) >= prod_dens(gcs, m1)) by (nonlinear_arith)
            requires
                prod_dens(gcs, m1) >= 1,
                ramp_den(gcs[m1]) >= 1,
        ;
    }
}

} // verus!
