//! Preference functions: the four families that turn a performance
//! difference into a preference intensity in `[0, 1]`.
//!
//! An intensity is an exact rational: its numerator is returned over the
//! family's fixed denominator [`ramp_den`], so downstream sums stay exact.

use crate::PrometheeError;
use crate::Ratio;
use crate::VALUE_LIMIT;
use vstd::prelude::*;

verus! {

/// A preference function: maps a performance difference `d = f(a) - f(b)`
/// to an intensity in `[0, 1]`.
///
/// - `Usual`: 1 if `d > 0`, else 0.
/// - `UShape { p }`: 0 below `p`, 1 at or above `p`.
/// - `VShape { p }`: linear ramp from 0 at `d = 0` to 1 at `d = p`,
///   clamped outside `[0, p]`.
/// - `Linear { q, p }`: 0 below the indifference threshold `q`, a linear
///   ramp between `q` and the preference threshold `p`, 1 at or above `p`.
#[derive(Debug, Clone, Copy, PartialEq, Eq, Structural)]
pub enum GeneralizedCriterion {
    /// Step at threshold `p`.
    UShape {
        /// Preference threshold.
        p: i64,
    },
    /// Ramp from 0 to `p`.
    VShape {
        /// Preference threshold.
        p: i64,
    },
    /// Ramp from `q` to `p` (requires `q <= p` to be valid).
    Linear {
        /// Indifference threshold.
        q: i64,
        /// Preference threshold.
        p: i64,
    },
    /// Strict step at 0.
    Usual,
}

/// Numerator of the intensity of a `Linear` ramp with thresholds
/// `qv <= pv`, for difference `d`; the denominator is `pv - qv`,
/// or 1 when the ramp is degenerate (`pv <= qv`, a pure step at `qv`).
pub open spec fn lin_num(qv: int, pv: int, d: int) -> int {
    if d < qv {
        0
    } else if d < pv {
        d - qv
    } else if pv > qv {
        pv - qv
    } else {
        1
    }
}

/// The fixed denominator under which a family's intensities are expressed:
/// the width of its linear ramp, or 1 for the step families and for
/// degenerate ramps.
pub open spec fn ramp_den(gc: GeneralizedCriterion) -> int {
    match gc {
        GeneralizedCriterion::VShape { p } => if p > 0 {
            p as int
        } else {
            1
        },
        GeneralizedCriterion::Linear { q, p } => if p > q {
            p - q
        } else {
            1
        },
        _ => 1,
    }
}

/// Numerator of the intensity of `gc` for difference `d`, over
/// denominator [`ramp_den`]`(gc)`.
pub open spec fn pref_num(gc: GeneralizedCriterion, d: int) -> int {
    match gc {
        GeneralizedCriterion::Usual => if d > 0 {
            1
        } else {
            0
        },
        GeneralizedCriterion::UShape { p } => if d >= p {
            1
        } else {
            0
        },
        GeneralizedCriterion::VShape { p } => lin_num(0, p as int, d),
        GeneralizedCriterion::Linear { q, p } => lin_num(q as int, p as int, d),
    }
}

/// Sign of a difference: -1, 0 or 1.
pub open spec fn sign(d: int) -> int {
    if d > 0 {
        1
    } else if d < 0 {
        -1
    } else {
        0
    }
}

/// Magnitude of a difference.
pub open spec fn abs_val(d: int) -> int {
    if d < 0 {
        -d
    } else {
        d
    }
}

impl GeneralizedCriterion {
    /// A usable preference function: thresholds are non-negative, within
    /// machine range, and a `Linear` ramp is ordered (`q <= p`).
    pub open spec fn valid(self) -> bool {
        match self {
            GeneralizedCriterion::Usual => true,
            GeneralizedCriterion::UShape { p } => 0 <= p <= VALUE_LIMIT,
            GeneralizedCriterion::VShape { p } => 0 <= p <= VALUE_LIMIT,
            GeneralizedCriterion::Linear { q, p } => 0 <= q <= p <= VALUE_LIMIT,
        }
    }

    /// Whether this family is served by the sliding-window algorithm
    /// (families whose intensity is a linear ramp); the step families take
    /// the quadratic path instead.
    pub open spec fn spec_uses_fast_path(&self) -> bool {
        match *self {
            GeneralizedCriterion::VShape { .. } => true,
            GeneralizedCriterion::Linear { .. } => true,
            _ => false,
        }
    }

    /// Executable twin of [`Self::spec_uses_fast_path`].
    #[verifier::when_used_as_spec(spec_uses_fast_path)]
    pub fn uses_fast_path(&self) -> (r: bool)
        ensures
            r == self.spec_uses_fast_path(),
    {
        match *self {
            GeneralizedCriterion::VShape { .. } => true,
            GeneralizedCriterion::Linear { .. } => true,
            _ => false,
        }
    }

    /// Executable twin of [`Self::valid`].
    pub fn check_valid(&self) -> (r: bool)
        ensures
            r == self.valid(),
    {
        match *self {
            GeneralizedCriterion::Usual => true,
            GeneralizedCriterion::UShape { p } => 0 <= p && p <= VALUE_LIMIT,
            GeneralizedCriterion::VShape { p } => 0 <= p && p <= VALUE_LIMIT,
            GeneralizedCriterion::Linear { q, p } => 0 <= q && q <= p && p <= VALUE_LIMIT,
        }
    }

    /// The width of the family's linear ramp: executable twin of
    /// [`ramp_den`].
    pub fn ramp_width(&self) -> (r: i64)
        requires
            self.valid(),
        ensures
            r as int == ramp_den(*self),
            1 <= r <= VALUE_LIMIT,
    {
        match *self {
            GeneralizedCriterion::VShape { p } => if p > 0 {
                p
            } else {
                1
            },
            GeneralizedCriterion::Linear { q, p } => if p > q {
                p - q
            } else {
                1
            },
            _ => 1,
        }
    }

    /// One-directional intensity of the raw difference `d_ij`, as an exact
    /// rational over [`ramp_den`].
    pub fn normalisation(&self, d_ij: i64) -> (r: Ratio)
        ensures
            r.num == pref_num(*self, d_ij as int),
            r.den == ramp_den(*self),
    {
        match *self {
            GeneralizedCriterion::Usual => Ratio { num: if d_ij > 0 { 1 } else { 0 }, den: 1 },
            GeneralizedCriterion::UShape { p } => Ratio {
                num: if d_ij >= p { 1 } else { 0 },
                den: 1,
            },
            GeneralizedCriterion::VShape { p } => normalize_v_shape(p, d_ij as i128),
            GeneralizedCriterion::Linear { q, p } => normalize_linear(q, p, d_ij as i128),
        }
    }

    /// Signed intensity `sign(d) * normalisation(|d|)`, so a single pass over
    /// a difference yields both directions at once.
    pub fn sym_normalisation(&self, d_ij: i64) -> (r: Ratio)
        ensures
            r.num == sign(d_ij as int) * pref_num(*self, abs_val(d_ij as int)),
            r.den == ramp_den(*self),
    {
        let a: i128 = if d_ij < 0 {
            -(d_ij as i128)
        } else {
            d_ij as i128
        };
        let m: Ratio = match *self {
            GeneralizedCriterion::Usual => Ratio { num: if a > 0 { 1 } else { 0 }, den: 1 },
            GeneralizedCriterion::UShape { p } => Ratio {
                num: if a >= p as i128 { 1 } else { 0 },
                den: 1,
            },
            GeneralizedCriterion::VShape { p } => normalize_v_shape(p, a),
            GeneralizedCriterion::Linear { q, p } => normalize_linear(q, p, a),
        };
        proof {
            let s = sign(d_ij as int);
            let v = pref_num(*self, abs_val(d_ij as int));
            vstd::arithmetic::mul::lemma_mul_basics(v);
            vstd::arithmetic::mul::lemma_mul_unary_negation(1, v);
            assert(s == 1 ==> s * v == v);
            assert(s == -1 ==> s * v == -v);
            assert(s == 0 ==> s * v == 0);
        }
        if d_ij > 0 {
            m
        } else if d_ij < 0 {
            Ratio { num: -m.num, den: m.den }
        } else {
            Ratio { num: 0, den: m.den }
        }
    }
}

/// Intensity of a `Linear` ramp with thresholds `qv`, `pv` for difference
/// `d`, as an exact rational.
pub fn normalize_linear(qv: i64, pv: i64, d: i128) -> (r: Ratio)
    requires
        -0x1_0000_0000_0000_0000 <= d <= 0x1_0000_0000_0000_0000,
    ensures
        r.num == lin_num(qv as int, pv as int, d as int),
        r.den == if pv > qv {
            pv - qv
        } else {
            1
        },
{
    let den: i128 = if pv > qv {
        pv as i128 - qv as i128
    } else {
        1
    };
    if d < qv as i128 {
        Ratio { num: 0, den }
    } else if d < pv as i128 {
        Ratio { num: d - qv as i128, den }
    } else if pv > qv {
        Ratio { num: den, den }
    } else {
        Ratio { num: 1, den }
    }
}

/// Intensity of a `VShape` ramp with threshold `pv` for difference `d`:
/// the same ramp as `Linear` with indifference threshold 0.
pub fn normalize_v_shape(pv: i64, d: i128) -> (r: Ratio)
    requires
        -0x1_0000_0000_0000_0000 <= d <= 0x1_0000_0000_0000_0000,
    ensures
        r.num == lin_num(0, pv as int, d as int),
        r.den == if pv > 0 {
            pv as int
        } else {
            1
        },
{
    normalize_linear(0, pv, d)
}

/// Intensities never leave `[0, 1]`: the numerator stays within the
/// denominator, and the denominator of a valid family stays within
/// machine range.
pub proof fn lemma_pref_num_range(gc: GeneralizedCriterion, d: int)
    ensures
        0 <= pref_num(gc, d) <= ramp_den(gc),
        1 <= ramp_den(gc),
        gc.valid() ==> ramp_den(gc) <= VALUE_LIMIT,
{
}

/// String equality via the standard library's `String` comparison.
fn str_eq(a: &str, b: &str) -> (r: bool)
    ensures
        r == (a@ == b@),
{
    let sa: String = a.to_owned();
    let sb: String = b.to_owned();
    sa == sb
}

/// Builds a preference function from its displayed family name and its
/// thresholds. `Level` and `Gaussian` are recognized names of families this
/// library does not implement; anything else is unknown. A `Linear` request
/// with a negative threshold or `q > p` is rejected.
pub fn from_params(ftype: &str, q: i64, p: i64) -> (r: Result<
    GeneralizedCriterion,
    PrometheeError,
>)
    ensures
        ftype@ == "Usual"@ ==> r == Ok::<_, PrometheeError>(GeneralizedCriterion::Usual),
        ftype@ == "U-Shape"@ ==> r == if 0 <= p {
            Ok::<_, PrometheeError>(GeneralizedCriterion::UShape { p })
        } else {
            Err(PrometheeError::InvalidThresholds)
        },
        ftype@ == "V-Shape"@ ==> r == if 0 <= p {
            Ok::<_, PrometheeError>(GeneralizedCriterion::VShape { p })
        } else {
            Err(PrometheeError::InvalidThresholds)
        },
        ftype@ == "Linear"@ ==> r == if 0 <= q <= p {
            Ok::<_, PrometheeError>(GeneralizedCriterion::Linear { q, p })
        } else {
            Err(PrometheeError::InvalidThresholds)
        },
        (ftype@ == "Level"@ || ftype@ == "Gaussian"@) ==> r == Err::<GeneralizedCriterion, _>(
            PrometheeError::UnsupportedFunction,
        ),
        (ftype@ != "Usual"@ && ftype@ != "U-Shape"@ && ftype@ != "V-Shape"@ && ftype@ != "Linear"@
            && ftype@ != "Level"@ && ftype@ != "Gaussian"@) ==> r == Err::<
            GeneralizedCriterion,
            _,
        >(PrometheeError::UnknownFunctionType),
{
    proof {
        reveal_strlit("Usual");
        reveal_strlit("U-Shape");
        reveal_strlit("V-Shape");
        reveal_strlit("Linear");
        reveal_strlit("Level");
        reveal_strlit("Gaussian");
        assert("Usual"@.len() == 5);
        assert("U-Shape"@.len() == 7);
        assert("V-Shape"@.len() == 7);
        assert("Linear"@.len() == 6);
        assert("Level"@.len() == 5);
        assert("Gaussian"@.len() == 8);
        assert("Usual"@[0] == 'U');
        assert("Level"@[0] == 'L');
        assert("U-Shape"@[0] == 'U');
        assert("V-Shape"@[0] == 'V');
    }
    if str_eq(ftype, "Usual") {
        Ok(GeneralizedCriterion::Usual)
    } else if str_eq(ftype, "U-Shape") {
        if 0 <= p {
            Ok(GeneralizedCriterion::UShape { p })
        } else {
            Err(PrometheeError::InvalidThresholds)
        }
    } else if str_eq(ftype, "V-Shape") {
        if 0 <= p {
            Ok(GeneralizedCriterion::VShape { p })
        } else {
            Err(PrometheeError::InvalidThresholds)
        }
    } else if str_eq(ftype, "Linear") {
        if 0 <= q && q <= p {
            Ok(GeneralizedCriterion::Linear { q, p })
        } else {
            Err(PrometheeError::InvalidThresholds)
        }
    } else if str_eq(ftype, "Level") || str_eq(ftype, "Gaussian") {
        Err(PrometheeError::UnsupportedFunction)
    } else {
        Err(PrometheeError::UnknownFunctionType)
    }
}

} // verus!
