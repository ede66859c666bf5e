//! Alternatives and the performance table: a non-empty rectangular matrix
//! of `n` alternatives by `q` criteria, with per-criterion display names
//! and optimization directions.
//!
//! Every performance stays within `[-VALUE_LIMIT, VALUE_LIMIT]`, so all
//! downstream flow arithmetic is exact. Flipping a criterion's direction
//! negates its column in place: everything downstream assumes a uniformly
//! maximized table, and this is the only place where that sign convention
//! is decided.

use crate::PrometheeError;
use crate::VALUE_LIMIT;
use std::str::FromStr;
use vstd::prelude::*;
use vstd::string::StrSliceExecFns;
use vstd::string::StringExecFns;

verus! {

/// The character of one decimal digit.
pub open spec fn digit_char(d: nat) -> char {
    if d == 0 {
        '0'
    } else if d == 1 {
        '1'
    } else if d == 2 {
        '2'
    } else if d == 3 {
        '3'
    } else if d == 4 {
        '4'
    } else if d == 5 {
        '5'
    } else if d == 6 {
        '6'
    } else if d == 7 {
        '7'
    } else if d == 8 {
        '8'
    } else {
        '9'
    }
}

/// The decimal digits of `n`, most significant first.
pub open spec fn dec_digits(n: nat) -> Seq<char>
    decreases n,
{
    if n < 10 {
        seq![digit_char(n)]
    } else {
        dec_digits(n / 10).push(digit_char(n % 10))
    }
}

/// The default display name of criterion `k` (0-based): `Criterion k+1`.
pub open spec fn default_criterion_name(k: int) -> Seq<char> {
    "Criterion "@ + dec_digits((k + 1) as nat)
}

/// The default display name of alternative `i` (0-based): `a_i+1`.
pub open spec fn default_alt_name(i: int) -> Seq<char> {
    "a_"@ + dec_digits((i + 1) as nat)
}

/// One decimal digit as a string slice.
fn digit_str(d: u64) -> (s: &'static str)
    requires
        d < 10,
    ensures
        s@ == seq![digit_char(d as nat)],
{
    proof {
        reveal_strlit("0");
        reveal_strlit("1");
        reveal_strlit("2");
        reveal_strlit("3");
        reveal_strlit("4");
        reveal_strlit("5");
        reveal_strlit("6");
        reveal_strlit("7");
        reveal_strlit("8");
        reveal_strlit("9");
    }
    match d {
        0 => "0",
        1 => "1",
        2 => "2",
        3 => "3",
        4 => "4",
        5 => "5",
        6 => "6",
        7 => "7",
        8 => "8",
        _ => "9",
    }
}

/// Renders `v` in decimal.
fn u64_to_string(v: u64) -> (s: String)
    ensures
        s@ == dec_digits(v as nat),
    decreases v,
{
    if v < 10 {
        digit_str(v).to_owned()
    } else {
        let mut s = u64_to_string(v / 10);
        s.append(digit_str(v % 10));
        s
    }
}

/// One candidate option: a display name and one performance per criterion,
/// index-aligned with the table's criterion order.
#[derive(Debug, Clone)]
pub struct Alternative {
    name: String,
    performances: Vec<i64>,
}

impl Alternative {
    /// The display name, as a sequence of characters.
    pub closed spec fn spec_name(&self) -> Seq<char> {
        self.name@
    }

    /// The performance vector.
    pub closed spec fn spec_perfs(&self) -> Seq<i64> {
        self.performances@
    }

    /// Builds an alternative from its name and performances.
    pub fn new(name: String, performances: Vec<i64>) -> (r: Self)
        ensures
            r.spec_name() == name@,
            r.spec_perfs() == performances@,
    {
        Self { name, performances }
    }

    /// The display name.
    pub fn name(&self) -> (r: &str)
        ensures
            r@ == self.spec_name(),
    {
        self.name.as_str()
    }

    /// All performances.
    pub fn perfs(&self) -> (r: &Vec<i64>)
        ensures
            r@ == self.spec_perfs(),
    {
        &self.performances
    }

    /// The performance on criterion `k`, if `k` is a valid criterion index.
    pub fn perf(&self, k: usize) -> (r: Option<i64>)
        ensures
            r == if k < self.spec_perfs().len() {
                Some(self.spec_perfs()[k as int])
            } else {
                None::<i64>
            },
    {
        if k < self.performances.len() {
            Some(self.performances[k])
        } else {
            None
        }
    }

    /// Renames the alternative.
    pub fn change_name(&mut self, name: String)
        ensures
            final(self).spec_name() == name@,
            final(self).spec_perfs() == old(self).spec_perfs(),
    {
        self.name = name;
    }

    /// Overwrites the performance on criterion `k`.
    pub fn change_perf(&mut self, k: usize, val: i64)
        requires
            k < old(self).spec_perfs().len(),
        ensures
            final(self).spec_perfs() == old(self).spec_perfs().update(k as int, val),
            final(self).spec_name() == old(self).spec_name(),
    {
        self.performances.set(k, val);
    }
}

/// Which way a criterion is optimized. A criterion recorded as `Min` has
/// had its column negated, so the computation itself always maximizes.
#[derive(Debug, Clone, Copy, PartialEq, Eq, Structural)]
pub enum OptimizationDirection {
    /// Smaller performances are better.
    Min,
    /// Larger performances are better.
    Max,
}

/// Parses an optimization direction from its display name.
pub fn parse_direction(s: &str) -> (r: Result<OptimizationDirection, PrometheeError>)
    ensures
        (s@ == "min"@ || s@ == "Min"@ || s@ == "MIN"@) ==> r == Ok::<_, PrometheeError>(
            OptimizationDirection::Min,
        ),
        (s@ == "max"@ || s@ == "Max"@ || s@ == "MAX"@) ==> r == Ok::<_, PrometheeError>(
            OptimizationDirection::Max,
        ),
        (s@ != "min"@ && s@ != "Min"@ && s@ != "MIN"@ && s@ != "max"@ && s@ != "Max"@ && s@
            != "MAX"@) ==> r == Err::<OptimizationDirection, _>(PrometheeError::UnknownDirection),
{
    proof {
        reveal_strlit("min");
        reveal_strlit("Min");
        reveal_strlit("MIN");
        reveal_strlit("max");
        reveal_strlit("Max");
        reveal_strlit("MAX");
        assert("min"@[0] == 'm');
        assert("Min"@[0] == 'M');
        assert("MIN"@[0] == 'M');
        assert("max"@[0] == 'm');
        assert("Max"@[0] == 'M');
        assert("MAX"@[0] == 'M');
        assert("min"@[1] == 'i');
        assert("Min"@[1] == 'i');
        assert("MIN"@[1] == 'I');
        assert("max"@[1] == 'a');
        assert("Max"@[1] == 'a');
        assert("MAX"@[1] == 'A');
    }
    if str_eq(s, "min") {
        Ok(OptimizationDirection::Min)
    } else if str_eq(s, "Min") {
        Ok(OptimizationDirection::Min)
    } else if str_eq(s, "MIN") {
        Ok(OptimizationDirection::Min)
    } else if str_eq(s, "max") {
        Ok(OptimizationDirection::Max)
    } else if str_eq(s, "Max") {
        Ok(OptimizationDirection::Max)
    } else if str_eq(s, "MAX") {
        Ok(OptimizationDirection::Max)
    } else {
        Err(PrometheeError::UnknownDirection)
    }
}

/// String equality via the standard library's `String` comparison.
fn str_eq(a: &str, b: &str) -> (r: bool)
    ensures
        r == (a@ == b@),
{
    let sa: String = a.to_owned();
    let sb: String = b.to_owned();
    sa == sb
}

impl FromStr for OptimizationDirection {
    type Err = String;

    fn from_str(s: &str) -> Result<Self, String> {
        match parse_direction(s) {
            Ok(d) => Ok(d),
            Err(_) => Err("invalid optimization direction".to_owned()),
        }
    }
}

/// A non-empty rectangular table of alternatives: the performance matrix,
/// with display names and an optimization direction per criterion.
#[derive(Debug)]
pub struct AlternativeTable {
    alternatives: Vec<Alternative>,
    criteria_names: Vec<String>,
    criteria_direction: Vec<OptimizationDirection>,
}

impl AlternativeTable {
    /// Number of alternatives.
    pub closed spec fn spec_n(&self) -> int {
        self.alternatives@.len() as int
    }

    /// Number of criteria.
    pub closed spec fn spec_q(&self) -> int {
        if self.alternatives@.len() > 0 {
            self.alternatives@[0].spec_perfs().len() as int
        } else {
            0
        }
    }

    /// The alternatives themselves.
    pub closed spec fn spec_alts(&self) -> Seq<Alternative> {
        self.alternatives@
    }

    /// Performance of alternative `i` on criterion `k`.
    pub closed spec fn spec_perf(&self, i: int, k: int) -> i64 {
        self.alternatives@[i].spec_perfs()[k]
    }

    /// The column of criterion `k`: all alternatives' performances on it.
    pub open spec fn spec_column(&self, k: int) -> Seq<i64> {
        Seq::new(self.spec_n() as nat, |i: int| self.spec_perf(i, k))
    }

    /// Display names of the criteria.
    pub closed spec fn spec_criteria_names(&self) -> Seq<Seq<char>> {
        self.criteria_names@.map_values(|s: String| s@)
    }

    /// Optimization directions of the criteria.
    pub closed spec fn spec_directions(&self) -> Seq<OptimizationDirection> {
        self.criteria_direction@
    }

    /// A well-formed table: non-empty, rectangular, with one name and one
    /// direction per criterion, and all performances in range.
    pub closed spec fn wf(&self) -> bool {
        &&& self.alternatives@.len() >= 1
        &&& forall|i: int|
            0 <= i < self.alternatives@.len() ==> (#[trigger] self.alternatives@[i]).performances@.len()
                == self.spec_q()
        &&& self.criteria_names@.len() == self.spec_q()
        &&& self.criteria_direction@.len() == self.spec_q()
        &&& forall|i: int, k: int|
            0 <= i < self.spec_n() && 0 <= k < self.spec_q() ==> -VALUE_LIMIT
                <= #[trigger] self.alternatives@[i].performances@[k] <= VALUE_LIMIT
    }

    /// Builds a table from alternatives, with default criterion names and
    /// every criterion maximized. Rejects an empty list, ragged performance
    /// vectors, and out-of-range performances.
    pub fn new(alternatives: Vec<Alternative>) -> (r: Result<Self, PrometheeError>)
        ensures
            alternatives@.len() == 0 ==> r == Err::<Self, _>(PrometheeError::EmptyTable),
            alternatives@.len() > 0 && (exists|i: int|
                0 <= i < alternatives@.len() && #[trigger] alternatives@[i].spec_perfs().len()
                    != alternatives@[0].spec_perfs().len()) ==> r == Err::<Self, _>(
                PrometheeError::InconsistentRow,
            ),
            alternatives@.len() > 0 && (forall|i: int|
                0 <= i < alternatives@.len() ==> #[trigger] alternatives@[i].spec_perfs().len()
                    == alternatives@[0].spec_perfs().len()) && (exists|i: int, k: int|
                0 <= i < alternatives@.len() && 0 <= k < alternatives@[0].spec_perfs().len() && !(
                -VALUE_LIMIT <= #[trigger] alternatives@[i].spec_perfs()[k] <= VALUE_LIMIT)) ==> r
                == Err::<Self, _>(PrometheeError::ValueOutOfRange),
            r is Ok ==> ({
                let t = r->Ok_0;
                &&& t.wf()
                &&& t.spec_n() == alternatives@.len()
                &&& t.spec_alts() == alternatives@
                &&& t.spec_q() == alternatives@[0].spec_perfs().len()
                &&& t.spec_criteria_names().len() == t.spec_q()
                &&& forall|k: int|
                    0 <= k < t.spec_q() ==> #[trigger] t.spec_criteria_names()[k]
                        == default_criterion_name(k)
                &&& forall|k: int|
                    0 <= k < t.spec_q() ==> #[trigger] t.spec_directions()[k]
                        == OptimizationDirection::Max
            }),
            r is Ok <==> (alternatives@.len() > 0 && (forall|i: int|
                0 <= i < alternatives@.len() ==> #[trigger] alternatives@[i].spec_perfs().len()
                    == alternatives@[0].spec_perfs().len()) && (forall|i: int, k: int|
                0 <= i < alternatives@.len() && 0 <= k < alternatives@[0].spec_perfs().len()
                    ==> -VALUE_LIMIT <= #[trigger] alternatives@[i].spec_perfs()[k]
                    <= VALUE_LIMIT)),
    {
        let n = alternatives.len();
        if n == 0 {
            return Err(PrometheeError::EmptyTable);
        }
        let q = alternatives[0].perfs().len();
        let mut i: usize = 0;
        while i < n
            invariant
                i <= n,
                1 <= n,
                n == alternatives@.len(),
                q == alternatives@[0].spec_perfs().len(),
                forall|u: int|
                    0 <= u < i ==> #[trigger] alternatives@[u].spec_perfs().len() == q as int,
            decreases n - i,
        {
            if alternatives[i].perfs().len() != q {
                return Err(PrometheeError::InconsistentRow);
            }
            i = i + 1;
        }
        let mut i: usize = 0;
        while i < n
            invariant
                i <= n,
                1 <= n,
                n == alternatives@.len(),
                q == alternatives@[0].spec_perfs().len(),
                forall|u: int|
                    0 <= u < n ==> #[trigger] alternatives@[u].spec_perfs().len() == q as int,
                forall|u: int, k: int|
                    0 <= u < i && 0 <= k < q ==> -VALUE_LIMIT <= #[trigger] alternatives@[u].spec_perfs()[k]
                        <= VALUE_LIMIT,
            decreases n - i,
        {
            let mut k: usize = 0;
            while k < q
                invariant
                    k <= q,
                    i < n,
                    1 <= n,
                    n == alternatives@.len(),
                    q == alternatives@[0].spec_perfs().len(),
                    forall|u: int|
                        0 <= u < n ==> #[trigger] alternatives@[u].spec_perfs().len() == q as int,
                    forall|kk: int|
                        0 <= kk < k ==> -VALUE_LIMIT <= #[trigger] alternatives@[i as int].spec_perfs()[kk]
                            <= VALUE_LIMIT,
                decreases q - k,
            {
                let v = alternatives[i].perfs()[k];
                if v < -VALUE_LIMIT || v > VALUE_LIMIT {
                    return Err(PrometheeError::ValueOutOfRange);
                }
                k = k + 1;
            }
            i = i + 1;
        }
        let mut criteria_names: Vec<String> = Vec::new();
        let mut k: usize = 0;
        while k < q
            invariant
                k <= q,
                criteria_names@.len() == k as int,
                forall|u: int|
                    0 <= u < k ==> #[trigger] criteria_names@[u]@ == default_criterion_name(u),
            decreases q - k,
        {
            let mut s = "Criterion ".to_owned();
            s.append(u64_to_string((k as u64) + 1).as_str());
            criteria_names.push(s);
            k = k + 1;
        }
        let mut criteria_direction: Vec<OptimizationDirection> = Vec::new();
        let mut k: usize = 0;
        while k < q
            invariant
                k <= q,
                criteria_direction@.len() == k as int,
                forall|u: int|
                    0 <= u < k ==> #[trigger] criteria_direction@[u] == OptimizationDirection::Max,
            decreases q - k,
        {
            criteria_direction.push(OptimizationDirection::Max);
            k = k + 1;
        }
        proof {
            assert forall|u: int|
                0 <= u < alternatives@.len() implies #[trigger] alternatives@[u].performances@.len()
                == q as int by {
                assert(alternatives@[u].spec_perfs().len() == q as int);
            }
            assert forall|u: int, kk: int|
                0 <= u < alternatives@.len() && 0 <= kk < q implies -VALUE_LIMIT
                <= #[trigger] alternatives@[u].performances@[kk] <= VALUE_LIMIT by {
                assert(-VALUE_LIMIT <= alternatives@[u].spec_perfs()[kk] <= VALUE_LIMIT);
            }
        }
        Ok(Self { alternatives, criteria_names, criteria_direction })
    }

    /// Builds a table from a performance matrix (one row per alternative),
    /// naming the alternatives `a_1`, `a_2`, and so on.
    pub fn from_matrix(matrix: Vec<Vec<i64>>) -> (r: Result<Self, PrometheeError>)
        ensures
            (matrix@.len() == 0 || (matrix@.len() > 0 && matrix@[0]@.len() == 0)) ==> r == Err::<
                Self,
                _,
            >(PrometheeError::EmptyTable),
            r is Ok ==> ({
                let t = r->Ok_0;
                &&& t.wf()
                &&& t.spec_n() == matrix@.len()
                &&& t.spec_q() == matrix@[0]@.len()
                &&& forall|i: int|
                    0 <= i < t.spec_n() ==> #[trigger] t.spec_alts()[i].spec_perfs()
                        == matrix@[i]@
                &&& forall|i: int|
                    0 <= i < t.spec_n() ==> #[trigger] t.spec_alts()[i].spec_name()
                        == default_alt_name(i)
                &&& forall|k: int|
                    0 <= k < t.spec_q() ==> #[trigger] t.spec_criteria_names()[k]
                        == default_criterion_name(k)
                &&& forall|k: int|
                    0 <= k < t.spec_q() ==> #[trigger] t.spec_directions()[k]
                        == OptimizationDirection::Max
            }),
            r is Ok <==> (matrix@.len() > 0 && matrix@[0]@.len() > 0 && (forall|i: int|
                0 <= i < matrix@.len() ==> #[trigger] matrix@[i]@.len() == matrix@[0]@.len()) && (
            forall|i: int, k: int|
                0 <= i < matrix@.len() && 0 <= k < matrix@[0]@.len() ==> -VALUE_LIMIT
                    <= #[trigger] matrix@[i]@[k] <= VALUE_LIMIT)),
    {
        let n = matrix.len();
        if n == 0 {
            return Err(PrometheeError::EmptyTable);
        }
        if matrix[0].len() == 0 {
            return Err(PrometheeError::EmptyTable);
        }
        let q = matrix[0].len();
        let mut i: usize = 0;
        while i < n
            invariant
                i <= n,
                1 <= n,
                1 <= q,
                n == matrix@.len(),
                q == matrix@[0]@.len(),
                forall|u: int| 0 <= u < i ==> #[trigger] matrix@[u]@.len() == q as int,
            decreases n - i,
        {
            if matrix[i].len() != q {
                return Err(PrometheeError::InconsistentRow);
            }
            i = i + 1;
        }
        let mut i: usize = 0;
        while i < n
            invariant
                i <= n,
                1 <= n,
                1 <= q,
                n == matrix@.len(),
                q == matrix@[0]@.len(),
                forall|u: int| 0 <= u < n ==> #[trigger] matrix@[u]@.len() == q as int,
                forall|u: int, kk: int|
                    0 <= u < i && 0 <= kk < q ==> -VALUE_LIMIT <= #[trigger] matrix@[u]@[kk]
                        <= VALUE_LIMIT,
            decreases n - i,
        {
            let mut k: usize = 0;
            while k < q
                invariant
                    k <= q,
                    i < n,
                    1 <= n,
                    1 <= q,
                    n == matrix@.len(),
                    q == matrix@[0]@.len(),
                    forall|u: int| 0 <= u < n ==> #[trigger] matrix@[u]@.len() == q as int,
                    forall|kk: int|
                        0 <= kk < k ==> -VALUE_LIMIT <= #[trigger] matrix@[i as int]@[kk]
                            <= VALUE_LIMIT,
                decreases q - k,
            {
                let v = matrix[i][k];
                if v < -VALUE_LIMIT || v > VALUE_LIMIT {
                    return Err(PrometheeError::ValueOutOfRange);
                }
                k = k + 1;
            }
            i = i + 1;
        }
        let mut alternatives: Vec<Alternative> = Vec::new();
        let mut i: usize = 0;
        while i < n
            invariant
                i <= n,
                n == matrix@.len(),
                alternatives@.len() == i as int,
                forall|u: int|
                    0 <= u < i ==> #[trigger] alternatives@[u].spec_perfs() == matrix@[u]@,
                forall|u: int|
                    0 <= u < i ==> #[trigger] alternatives@[u].spec_name() == default_alt_name(u),
            decreases n - i,
        {
            let mut nm = "a_".to_owned();
            nm.append(u64_to_string((i as u64) + 1).as_str());
            let row = copy_row(&matrix[i]);
            alternatives.push(Alternative::new(nm, row));
            i = i + 1;
        }
        proof {
            assert forall|u: int|
                0 <= u < alternatives@.len() implies #[trigger] alternatives@[u].spec_perfs().len()
                == alternatives@[0].spec_perfs().len() by {
                assert(alternatives@[u].spec_perfs() == matrix@[u]@);
                assert(alternatives@[0].spec_perfs() == matrix@[0]@);
            }
            assert forall|u: int, kk: int|
                0 <= u < alternatives@.len() && 0 <= kk < alternatives@[0].spec_perfs().len()
                implies -VALUE_LIMIT <= #[trigger] alternatives@[u].spec_perfs()[kk]
                <= VALUE_LIMIT by {
                assert(alternatives@[u].spec_perfs() == matrix@[u]@);
                assert(alternatives@[0].spec_perfs() == matrix@[0]@);
            }
        }
        Self::new(alternatives)
    }

    /// Replaces the recorded optimization directions (one per criterion).
    /// This only records the labels: it does not touch the performances.
    pub fn with_criteria_directions(self, criteria_direction: Vec<OptimizationDirection>) -> (r:
        Result<Self, PrometheeError>)
        requires
            self.wf(),
        ensures
            criteria_direction@.len() != self.spec_q() ==> r == Err::<Self, _>(
                PrometheeError::WrongCriteriaCount,
            ),
            criteria_direction@.len() == self.spec_q() ==> ({
                let t = r->Ok_0;
                &&& r is Ok
                &&& t.wf()
                &&& t.spec_alts() == self.spec_alts()
                &&& t.spec_n() == self.spec_n()
                &&& t.spec_q() == self.spec_q()
                &&& t.spec_criteria_names() == self.spec_criteria_names()
                &&& t.spec_directions() == criteria_direction@
            }),
    {
        if criteria_direction.len() != self.criteria_names.len() {
            return Err(PrometheeError::WrongCriteriaCount);
        }
        Ok(Self { criteria_direction, ..self })
    }

    /// Replaces the criterion display names (one per criterion).
    pub fn with_criteria_names(self, criteria_names: Vec<String>) -> (r: Result<
        Self,
        PrometheeError,
    >)
        requires
            self.wf(),
        ensures
            criteria_names@.len() != self.spec_q() ==> r == Err::<Self, _>(
                PrometheeError::WrongCriteriaCount,
            ),
            criteria_names@.len() == self.spec_q() ==> ({
                let t = r->Ok_0;
                &&& r is Ok
                &&& t.wf()
                &&& t.spec_alts() == self.spec_alts()
                &&& t.spec_n() == self.spec_n()
                &&& t.spec_q() == self.spec_q()
                &&& t.spec_criteria_names() == criteria_names@.map_values(|s: String| s@)
                &&& t.spec_directions() == self.spec_directions()
            }),
    {
        if criteria_names.len() != self.criteria_direction.len() {
            return Err(PrometheeError::WrongCriteriaCount);
        }
        Ok(Self { criteria_names, ..self })
    }

    /// Records a new optimization direction for criterion `k` without
    /// touching the performances.
    pub fn set_criterion_direction(&mut self, k: usize, direction: OptimizationDirection)
        requires
            old(self).wf(),
            k < old(self).spec_q(),
        ensures
            final(self).wf(),
            final(self).spec_alts() == old(self).spec_alts(),
            final(self).spec_criteria_names() == old(self).spec_criteria_names(),
            final(self).spec_directions() == old(self).spec_directions().update(
                k as int,
                direction,
            ),
            final(self).spec_n() == old(self).spec_n(),
            final(self).spec_q() == old(self).spec_q(),
    {
        self.criteria_direction.set(k, direction);
    }

    /// The recorded optimization direction of criterion `k`.
    pub fn criterion_direction(&self, k: usize) -> (r: OptimizationDirection)
        requires
            self.wf(),
            k < self.spec_q(),
        ensures
            r == self.spec_directions()[k as int],
    {
        self.criteria_direction[k]
    }

    /// The recorded optimization directions of all criteria.
    pub fn criteria_directions(&self) -> (r: &Vec<OptimizationDirection>)
        ensures
            r@ == self.spec_directions(),
    {
        &self.criteria_direction
    }

    /// Flips the optimization direction of criterion `k` and negates every
    /// performance on that column in place, so the table stays uniformly
    /// maximized. This is the table's one documented side effect.
    pub fn swap_criteria_direction(&mut self, k: usize)
        requires
            old(self).wf(),
            k < old(self).spec_q(),
        ensures
            final(self).wf(),
            final(self).spec_n() == old(self).spec_n(),
            final(self).spec_q() == old(self).spec_q(),
            final(self).spec_criteria_names() == old(self).spec_criteria_names(),
            final(self).spec_directions() == old(self).spec_directions().update(
                k as int,
                if old(self).spec_directions()[k as int] == OptimizationDirection::Min {
                    OptimizationDirection::Max
                } else {
                    OptimizationDirection::Min
                },
            ),
            forall|i: int|
                0 <= i < old(self).spec_n() ==> #[trigger] final(self).spec_alts()[i].spec_perfs()
                    == old(self).spec_alts()[i].spec_perfs().update(
                    k as int,
                    (-old(self).spec_perf(i, k as int)) as i64,
                ),
            forall|i: int|
                0 <= i < old(self).spec_n() ==> #[trigger] final(self).spec_alts()[i].spec_name()
                    == old(self).spec_alts()[i].spec_name(),
    {
        let flipped = match self.criteria_direction[k] {
            OptimizationDirection::Min => OptimizationDirection::Max,
            OptimizationDirection::Max => OptimizationDirection::Min,
        };
        self.criteria_direction.set(k, flipped);
        let n = self.alternatives.len();
        let mut i: usize = 0;
        while i < n
            invariant
                i <= n,
                n == old(self).spec_n(),
                k < old(self).spec_q(),
                old(self).wf(),
                self.alternatives@.len() == n as int,
                self.criteria_names@ == old(self).criteria_names@,
                self.criteria_direction@ == old(self).criteria_direction@.update(
                    k as int,
                    flipped,
                ),
                forall|u: int|
                    0 <= u < i ==> #[trigger] self.alternatives@[u].spec_perfs() == old(
                        self,
                    ).spec_alts()[u].spec_perfs().update(k as int, (-old(self).spec_perf(u, k as int)) as i64),
                forall|u: int|
                    i <= u < n ==> #[trigger] self.alternatives@[u] == old(self).spec_alts()[u],
                forall|u: int|
                    0 <= u < i ==> #[trigger] self.alternatives@[u].spec_name() == old(
                        self,
                    ).spec_alts()[u].spec_name(),
            decreases n - i,
        {
            proof {
                assert(self.alternatives@[i as int] == old(self).spec_alts()[i as int]);
                assert(old(self).alternatives@[i as int].performances@.len() == old(
                    self,
                ).spec_q());
                assert(-VALUE_LIMIT <= old(self).alternatives@[i as int].performances@[k as int]
                    <= VALUE_LIMIT);
            }
            let v = self.alternatives[i].performances[k];
            let nm = self.alternatives[i].name.clone();
            let mut row = copy_row(&self.alternatives[i].performances);
            row.set(k, -v);
            self.alternatives.set(i, Alternative { name: nm, performances: row });
            i = i + 1;
        }
        proof {
            assert forall|u: int|
                0 <= u < self.alternatives@.len() implies #[trigger] self.alternatives@[u].performances@.len()
                == self.spec_q() by {
                assert(old(self).alternatives@[u].performances@.len() == old(self).spec_q());
                assert(self.alternatives@[u].spec_perfs() == old(self).spec_alts()[
                    u
                ].spec_perfs().update(k as int, (-old(self).spec_perf(u, k as int)) as i64));
                assert(self.alternatives@[0].spec_perfs() == old(self).spec_alts()[
                    0
                ].spec_perfs().update(k as int, (-old(self).spec_perf(0, k as int)) as i64));
            }
            assert forall|u: int, kk: int|
                0 <= u < self.spec_n() && 0 <= kk < self.spec_q() implies -VALUE_LIMIT
                <= #[trigger] self.alternatives@[u].performances@[kk] <= VALUE_LIMIT by {
                assert(old(self).alternatives@[u].performances@.len() == old(self).spec_q());
                assert(-VALUE_LIMIT <= old(self).alternatives@[u].performances@[kk]
                    <= VALUE_LIMIT);
                assert(self.alternatives@[u].spec_perfs() == old(self).spec_alts()[
                    u
                ].spec_perfs().update(k as int, (-old(self).spec_perf(u, k as int)) as i64));
            }
        }
    }

    /// The alternative at index `i`, if any.
    pub fn alternative(&self, i: usize) -> (r: Option<&Alternative>)
        ensures
            i < self.spec_alts().len() ==> r == Some(&self.spec_alts()[i as int]),
            i >= self.spec_alts().len() ==> r is None,
    {
        if i < self.alternatives.len() {
            Some(&self.alternatives[i])
        } else {
            None
        }
    }

    /// All alternatives.
    pub fn alternatives(&self) -> (r: &Vec<Alternative>)
        ensures
            r@ == self.spec_alts(),
    {
        &self.alternatives
    }

    /// The display name of alternative `i`, if any.
    pub fn alt_name(&self, i: usize) -> (r: Option<&str>)
        ensures
            i < self.spec_alts().len() ==> r is Some && r->0@ == self.spec_alts()[
                i as int
            ].spec_name(),
            i >= self.spec_alts().len() ==> r is None,
    {
        if i < self.alternatives.len() {
            Some(self.alternatives[i].name())
        } else {
            None
        }
    }

    /// The display names of all alternatives.
    pub fn alt_names(&self) -> (r: Vec<String>)
        ensures
            r@.len() == self.spec_alts().len(),
            forall|i: int|
                0 <= i < r@.len() ==> #[trigger] r@[i]@ == self.spec_alts()[i].spec_name(),
    {
        let n = self.alternatives.len();
        let mut out: Vec<String> = Vec::new();
        let mut i: usize = 0;
        while i < n
            invariant
                i <= n,
                n == self.spec_alts().len(),
                out@.len() == i as int,
                forall|u: int|
                    0 <= u < i ==> #[trigger] out@[u]@ == self.spec_alts()[u].spec_name(),
            decreases n - i,
        {
            out.push(self.alternatives[i].name.clone());
            i = i + 1;
        }
        out
    }

    /// A copy of the column of criterion `k`, if `k` is a valid criterion
    /// index.
    pub fn criterion(&self, k: usize) -> (r: Option<Vec<i64>>)
        requires
            self.wf(),
        ensures
            k < self.spec_q() ==> r is Some && r->0@ == self.spec_column(k as int),
            k >= self.spec_q() ==> r is None,
    {
        if k >= self.alternatives[0].performances.len() {
            return None;
        }
        let n = self.alternatives.len();
        let mut out: Vec<i64> = Vec::new();
        let mut i: usize = 0;
        while i < n
            invariant
                i <= n,
                self.wf(),
                k < self.spec_q(),
                n == self.spec_n(),
                out@.len() == i as int,
                forall|u: int| 0 <= u < i ==> #[trigger] out@[u] == self.spec_perf(u, k as int),
            decreases n - i,
        {
            out.push(self.alternatives[i].performances[k]);
            i = i + 1;
        }
        proof {
            assert(out@ =~= self.spec_column(k as int));
        }
        Some(out)
    }

    /// Copies of all criterion columns, in order.
    pub fn criteria(&self) -> (r: Vec<Vec<i64>>)
        requires
            self.wf(),
        ensures
            r@.len() == self.spec_q(),
            forall|k: int| 0 <= k < self.spec_q() ==> #[trigger] r@[k]@ == self.spec_column(k),
    {
        let q = self.alternatives[0].performances.len();
        let mut out: Vec<Vec<i64>> = Vec::new();
        let mut k: usize = 0;
        while k < q
            invariant
                k <= q,
                self.wf(),
                q == self.spec_q(),
                out@.len() == k as int,
                forall|u: int| 0 <= u < k ==> #[trigger] out@[u]@ == self.spec_column(u),
            decreases q - k,
        {
            let col = match self.criterion(k) {
                Some(c) => c,
                None => Vec::new(),
            };
            out.push(col);
            k = k + 1;
        }
        out
    }

    /// The display names of the criteria.
    pub fn criteria_names(&self) -> (r: &Vec<String>)
        ensures
            r@.map_values(|s: String| s@) == self.spec_criteria_names(),
    {
        &self.criteria_names
    }

    /// The display name of criterion `k`, if any.
    pub fn criterion_name(&self, k: usize) -> (r: Option<&str>)
        ensures
            k < self.spec_criteria_names().len() ==> r is Some && r->0@
                == self.spec_criteria_names()[k as int],
            k >= self.spec_criteria_names().len() ==> r is None,
    {
        if k < self.criteria_names.len() {
            Some(self.criteria_names[k].as_str())
        } else {
            None
        }
    }

    /// The performance of alternative `i` on criterion `k`, if both
    /// indices are valid.
    pub fn performance(&self, i: usize, k: usize) -> (r: Option<i64>)
        ensures
            (i < self.spec_alts().len() && k < self.spec_alts()[i as int].spec_perfs().len()) ==> r
                == Some(self.spec_perf(i as int, k as int)),
            !(i < self.spec_alts().len() && k < self.spec_alts()[i as int].spec_perfs().len())
                ==> r is None,
    {
        if i < self.alternatives.len() {
            if k < self.alternatives[i].performances.len() {
                return Some(self.alternatives[i].performances[k]);
            }
        }
        None
    }

    /// Overwrites one performance. Rejects invalid indices and values
    /// outside the accepted range; on rejection the table is unchanged.
    pub fn set_performance(&mut self, i: usize, k: usize, val: i64) -> (r: Result<
        (),
        PrometheeError,
    >)
        requires
            old(self).wf(),
        ensures
            final(self).wf(),
            (i >= old(self).spec_n() || k >= old(self).spec_q()) ==> (r == Err::<(), _>(
                PrometheeError::IndexOutOfRange,
            ) && *final(self) == *old(self)),
            (i < old(self).spec_n() && k < old(self).spec_q() && !(-VALUE_LIMIT <= val
                <= VALUE_LIMIT)) ==> (r == Err::<(), _>(PrometheeError::ValueOutOfRange)
                && *final(self) == *old(self)),
            (i < old(self).spec_n() && k < old(self).spec_q() && -VALUE_LIMIT <= val
                <= VALUE_LIMIT) ==> ({
                &&& r is Ok
                &&& final(self).spec_n() == old(self).spec_n()
                &&& final(self).spec_q() == old(self).spec_q()
                &&& final(self).spec_criteria_names() == old(self).spec_criteria_names()
                &&& final(self).spec_directions() == old(self).spec_directions()
                &&& forall|u: int|
                    0 <= u < old(self).spec_n() && u != i ==> #[trigger] final(self).spec_alts()[u]
                        == old(self).spec_alts()[u]
                &&& final(self).spec_alts()[i as int].spec_perfs() == old(self).spec_alts()[
                    i as int
                ].spec_perfs().update(k as int, val)
                &&& final(self).spec_alts()[i as int].spec_name() == old(self).spec_alts()[
                    i as int
                ].spec_name()
            }),
    {
        if i >= self.alternatives.len() || k >= self.alternatives[0].performances.len() {
            return Err(PrometheeError::IndexOutOfRange);
        }
        if val < -VALUE_LIMIT || val > VALUE_LIMIT {
            return Err(PrometheeError::ValueOutOfRange);
        }
        let nm = self.alternatives[i].name.clone();
        let mut row = copy_row(&self.alternatives[i].performances);
        row.set(k, val);
        self.alternatives.set(i, Alternative { name: nm, performances: row });
        Ok(())
    }

    /// Shifts one performance by a delta. Rejects invalid indices and
    /// shifts that would leave the accepted range; on rejection the table
    /// is unchanged. Dependent caches must be recomputed by the caller.
    pub fn shift_performance(&mut self, i: usize, k: usize, shift: i64) -> (r: Result<
        (),
        PrometheeError,
    >)
        requires
            old(self).wf(),
        ensures
            final(self).wf(),
            (i >= old(self).spec_n() || k >= old(self).spec_q()) ==> (r == Err::<(), _>(
                PrometheeError::IndexOutOfRange,
            ) && *final(self) == *old(self)),
            (i < old(self).spec_n() && k < old(self).spec_q() && !(-VALUE_LIMIT <= old(
                self,
            ).spec_perf(i as int, k as int) + shift <= VALUE_LIMIT)) ==> (r == Err::<(), _>(
                PrometheeError::ValueOutOfRange,
            ) && *final(self) == *old(self)),
            (i < old(self).spec_n() && k < old(self).spec_q() && -VALUE_LIMIT <= old(
                self,
            ).spec_perf(i as int, k as int) + shift <= VALUE_LIMIT) ==> ({
                &&& r is Ok
                &&& final(self).spec_n() == old(self).spec_n()
                &&& final(self).spec_q() == old(self).spec_q()
                &&& final(self).spec_criteria_names() == old(self).spec_criteria_names()
                &&& final(self).spec_directions() == old(self).spec_directions()
                &&& forall|u: int|
                    0 <= u < old(self).spec_n() && u != i ==> #[trigger] final(self).spec_alts()[u]
                        == old(self).spec_alts()[u]
                &&& final(self).spec_alts()[i as int].spec_perfs() == old(self).spec_alts()[
                    i as int
                ].spec_perfs().update(k as int, (old(self).spec_perf(i as int, k as int)
                    + shift) as i64)
                &&& final(self).spec_alts()[i as int].spec_name() == old(self).spec_alts()[
                    i as int
                ].spec_name()
            }),
    {
        if i >= self.alternatives.len() || k >= self.alternatives[0].performances.len() {
            return Err(PrometheeError::IndexOutOfRange);
        }
        let cur = self.alternatives[i].performances[k];
        let nv: i128 = cur as i128 + shift as i128;
        if nv < -VALUE_LIMIT as i128 || nv > VALUE_LIMIT as i128 {
            return Err(PrometheeError::ValueOutOfRange);
        }
        let nm = self.alternatives[i].name.clone();
        let mut row = copy_row(&self.alternatives[i].performances);
        row.set(k, nv as i64);
        self.alternatives.set(i, Alternative { name: nm, performances: row });
        Ok(())
    }

    /// Number of alternatives.
    pub fn n(&self) -> (r: usize)
        ensures
            r == self.spec_n(),
    {
        self.alternatives.len()
    }

    /// Number of criteria.
    pub fn q(&self) -> (r: usize)
        requires
            self.wf(),
        ensures
            r == self.spec_q(),
    {
        self.alternatives[0].performances.len()
    }
}

/// What a well-formed table guarantees, exported for reasoning outside
/// this module: shape facts and the performance bounds.
pub proof fn lemma_table_wf_facts(t: &AlternativeTable)
    requires
        t.wf(),
    ensures
        t.spec_n() >= 1,
        t.spec_alts().len() == t.spec_n(),
        t.spec_criteria_names().len() == t.spec_q(),
        t.spec_directions().len() == t.spec_q(),
        t.spec_q() == t.spec_alts()[0].spec_perfs().len(),
        forall|i: int|
            0 <= i < t.spec_n() ==> (#[trigger] t.spec_alts()[i].spec_perfs()).len()
                == t.spec_q(),
        forall|i: int, k: int|
            0 <= i < t.spec_n() && 0 <= k < t.spec_q() ==> -VALUE_LIMIT <= #[trigger] t.spec_perf(
                i,
                k,
            ) <= VALUE_LIMIT,
        forall|i: int, k: int|
            0 <= i < t.spec_n() && 0 <= k < t.spec_q() ==> #[trigger] t.spec_perf(i, k)
                == t.spec_alts()[i].spec_perfs()[k],
{
    assert forall|i: int|
        0 <= i < t.spec_n() implies (#[trigger] t.spec_alts()[i].spec_perfs()).len()
        == t.spec_q() by {
        assert(t.alternatives@[i].performances@.len() == t.spec_q());
    }
    assert forall|i: int, k: int|
        0 <= i < t.spec_n() && 0 <= k < t.spec_q() implies -VALUE_LIMIT <= #[trigger] t.spec_perf(
            i,
            k,
        ) <= VALUE_LIMIT by {
        assert(-VALUE_LIMIT <= t.alternatives@[i].performances@[k] <= VALUE_LIMIT);
    }
}

/// Copies a performance row element by element.
fn copy_row(src: &Vec<i64>) -> (r: Vec<i64>)
    ensures
        r@ == src@,
{
    let n = src.len();
    let mut out: Vec<i64> = Vec::new();
    let mut j: usize = 0;
    while j < n
        invariant
            j <= n,
            n == src@.len(),
            out@.len() == j as int,
            forall|u: int| 0 <= u < j ==> #[trigger] out@[u] == src@[u],
        decreases n - j,
    {
        out.push(src[j]);
        j = j + 1;
    }
    proof {
        assert(out@ =~= src@);
    }
    out
}

} // verus!
