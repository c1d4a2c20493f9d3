//! Scalar mappings on the unit interval.
//!
//! A mapping is one of a closed family of real-valued functions on `[0, 1]`,
//! used both as a kernel core and as a growth function.  Arguments and
//! results are Q32 scalars; evaluation outside the domain fails fast rather
//! than clamping, since it signals a distance-normalization bug upstream.

use crate::fixed::{
    exp_neg_spec, exp_neg_wide, fx_mul, fx_mul_spec, fx_pow, fx_pow_spec, lemma_exp_neg_bounds,
    lemma_fx_pow_bounds, SCALE,
};
use crate::LeniaError;
use vstd::prelude::*;

verus! {

/// Largest accepted `alpha` for the Gaussian core (`255.0` in Q32), so that
/// the exponent product stays representable.
pub const ALPHA_LIMIT: u64 = 0xFF_0000_0000;

/// Smallest accepted `sigma` (`2^-16` in Q32), so that `sigma^2` does not
/// underflow to zero in Q32.
pub const SIGMA_MIN: u64 = 0x1_0000;

/// The closed family of predefined scalar mappings.  `alpha`, `mu` and
/// `sigma` are Q32 scalars.
#[derive(Clone, Copy, Debug, PartialEq, Eq, Structural)]
pub enum MappingType {
    /// `exp(alpha - alpha / (4 x (1 - x)))`, zero at the domain edges.
    GaussianCore { alpha: u64 },
    /// `(4 x (1 - x))^alpha`, zero at the edges, peak at `x = 0.5`.
    PolynomialCore { alpha: u64 },
    /// `1` on `[0.25, 0.75]`, else `0`.
    StepCore,
    /// `exp(-(x - mu)^2 / (2 sigma^2))`, unimodal with range `(0, 1]`.
    GaussianGrowth { mu: u64, sigma: u64 },
    /// `(1 - (x - mu)^2 / (9 sigma^2))^alpha` where `|x - mu| <= 3 sigma`,
    /// else `0`.
    PolynomialGrowth { mu: u64, sigma: u64, alpha: u64 },
    /// `1` where `|x - mu| <= sigma`, else `0`.
    StepGrowth { mu: u64, sigma: u64 },
}

impl MappingType {
    /// The parameters are within the range that Q32 evaluation represents.
    pub open spec fn wf(self) -> bool {
        match self {
            MappingType::GaussianCore { alpha } => alpha <= ALPHA_LIMIT,
            MappingType::PolynomialCore { alpha: _ } => true,
            MappingType::StepCore => true,
            MappingType::GaussianGrowth { mu, sigma } => mu <= SCALE && SIGMA_MIN <= sigma
                <= SCALE,
            MappingType::PolynomialGrowth { mu, sigma, alpha: _ } => mu <= SCALE && SIGMA_MIN
                <= sigma <= SCALE,
            MappingType::StepGrowth { mu, sigma } => mu <= SCALE && sigma <= SCALE,
        }
    }
}

/// `|x - mu|`.
pub open spec fn abs_diff_spec(x: int, mu: int) -> int {
    if x >= mu {
        x - mu
    } else {
        mu - x
    }
}

/// The bump `4 x (1 - x)`, which carries `[0, 1]` onto `[0, 1]`.
pub open spec fn bump_spec(x: int) -> int {
    4 * fx_mul_spec(x, SCALE - x)
}

/// `1 / b` in Q32 for `b` in `(0, 1]`.
pub open spec fn recip_spec(b: int) -> int {
    ((SCALE as int) * (SCALE as int)) / b
}

/// The Gaussian core `exp(alpha - alpha / (4 x (1 - x)))`; the limit value
/// zero is taken where the bump vanishes.
pub open spec fn gaussian_core_spec(alpha: int, x: int) -> int {
    let b = bump_spec(x);
    if b == 0 {
        0
    } else {
        exp_neg_spec((alpha * (recip_spec(b) - SCALE)) / (SCALE as int))
    }
}

/// The step core: `1` on `[0.25, 0.75]`, else `0`.
pub open spec fn step_core_spec(x: int) -> int {
    if (SCALE as int) / 4 <= x <= 3 * ((SCALE as int) / 4) {
        SCALE as int
    } else {
        0
    }
}

/// The Gaussian growth `exp(-(x - mu)^2 / (2 sigma^2))`.
pub open spec fn gaussian_growth_spec(mu: int, sigma: int, x: int) -> int {
    let d = abs_diff_spec(x, mu);
    let den = 2 * fx_mul_spec(sigma, sigma);
    exp_neg_spec((fx_mul_spec(d, d) * (SCALE as int)) / den)
}

/// The polynomial growth: `(1 - (x - mu)^2 / (9 sigma^2))^alpha` inside the
/// band `|x - mu| <= 3 sigma`, else `0`.
pub open spec fn polynomial_growth_spec(mu: int, sigma: int, alpha: int, x: int) -> int {
    let d = abs_diff_spec(x, mu);
    if d > 3 * sigma {
        0
    } else {
        let den = 9 * fx_mul_spec(sigma, sigma);
        let ratio = (fx_mul_spec(d, d) * (SCALE as int)) / den;
        let inner = if ratio >= SCALE {
            0
        } else {
            SCALE - ratio
        };
        fx_pow_spec(inner, alpha)
    }
}

/// The step growth: `1` inside the band `|x - mu| <= sigma`, else `0`.
pub open spec fn step_growth_spec(mu: int, sigma: int, x: int) -> int {
    if abs_diff_spec(x, mu) <= sigma {
        SCALE as int
    } else {
        0
    }
}

/// The value of a mapping at `x`, as an exact function of the raw scalars.
pub open spec fn eval_spec(ty: MappingType, x: int) -> int {
    match ty {
        MappingType::GaussianCore { alpha } => gaussian_core_spec(alpha as int, x),
        MappingType::PolynomialCore { alpha } => fx_pow_spec(bump_spec(x), alpha as int),
        MappingType::StepCore => step_core_spec(x),
        MappingType::GaussianGrowth { mu, sigma } => gaussian_growth_spec(
            mu as int,
            sigma as int,
            x,
        ),
        MappingType::PolynomialGrowth { mu, sigma, alpha } => polynomial_growth_spec(
            mu as int,
            sigma as int,
            alpha as int,
            x,
        ),
        MappingType::StepGrowth { mu, sigma } => step_growth_spec(mu as int, sigma as int, x),
    }
}

/// Every predefined mapping is defined over the whole domain `[0, 1]` and
/// its value stays within `[0, 1]`.
pub proof fn lemma_eval_bounded(ty: MappingType, x: int)
    requires
        0 <= x <= SCALE,
    ensures
        0 <= eval_spec(ty, x) <= SCALE,
{
    match ty {
        MappingType::GaussianCore { alpha } => {
            let b = bump_spec(x);
            if b != 0 {
                lemma_exp_neg_bounds((alpha * (recip_spec(b) - SCALE)) / (SCALE as int));
            }
        },
        MappingType::PolynomialCore { alpha } => {
            lemma_fx_pow_bounds(bump_spec(x), alpha as int);
        },
        MappingType::StepCore => {},
        MappingType::GaussianGrowth { mu, sigma } => {
            let d = abs_diff_spec(x, mu as int);
            let den = 2 * fx_mul_spec(sigma as int, sigma as int);
            lemma_exp_neg_bounds((fx_mul_spec(d, d) * (SCALE as int)) / den);
        },
        MappingType::PolynomialGrowth { mu, sigma, alpha } => {
            let d = abs_diff_spec(x, mu as int);
            if !(d > 3 * sigma) {
                let den = 9 * fx_mul_spec(sigma as int, sigma as int);
                let ratio = (fx_mul_spec(d, d) * (SCALE as int)) / den;
                let inner = if ratio >= SCALE {
                    0
                } else {
                    (SCALE - ratio) as int
                };
                lemma_fx_pow_bounds(inner, alpha as int);
            }
        },
        MappingType::StepGrowth { mu: _, sigma: _ } => {},
    }
}

/// A scalar mapping: one of the predefined variants, validated once at
/// construction and immutable thereafter.
#[derive(Clone, Copy, Debug, PartialEq, Eq, Structural)]
pub struct Mapping {
    /// The validated variant.
    pub ty: MappingType,
}

impl Mapping {
    /// The wrapped variant has representable parameters.
    pub open spec fn wf(self) -> bool {
        self.ty.wf()
    }

    /// Builds a mapping of the given variant, rejecting parameters outside
    /// the representable range.
    pub fn from_type(ty: MappingType) -> (r: Result<Mapping, LeniaError>)
        ensures
            match r {
                Ok(m) => ty.wf() && m == (Mapping { ty }),
                Err(e) => !ty.wf() && e == LeniaError::InvalidMappingParameters,
            },
    {
        let ok = match ty {
            MappingType::GaussianCore { alpha } => alpha <= ALPHA_LIMIT,
            MappingType::PolynomialCore { alpha: _ } => true,
            MappingType::StepCore => true,
            MappingType::GaussianGrowth { mu, sigma } => mu <= SCALE && SIGMA_MIN <= sigma
                && sigma <= SCALE,
            MappingType::PolynomialGrowth { mu, sigma, alpha: _ } => mu <= SCALE && SIGMA_MIN
                <= sigma && sigma <= SCALE,
            MappingType::StepGrowth { mu, sigma } => mu <= SCALE && sigma <= SCALE,
        };
        if ok {
            Ok(Mapping { ty })
        } else {
            Err(LeniaError::InvalidMappingParameters)
        }
    }

    /// Evaluates the mapping at the Q32 argument `x`, failing fast outside
    /// the `[0, 1]` domain.
    pub fn eval(&self, x: u64) -> (r: Result<u64, LeniaError>)
        requires
            self.wf(),
        ensures
            match r {
                Ok(v) => x <= SCALE && v == eval_spec(self.ty, x as int) && v <= SCALE,
                Err(e) => x > SCALE && e == LeniaError::OutOfDomain,
            },
    {
        if x > SCALE {
            return Err(LeniaError::OutOfDomain);
        }
        let v = match self.ty {
            MappingType::GaussianCore { alpha } => {
                let b = bump(x);
                if b == 0 {
                    0
                } else {
                    let inv: u128 = ((SCALE as u128) * (SCALE as u128)) / (b as u128);
                    proof {
                        assert(inv >= SCALE) by (nonlinear_arith)
                            requires
                                inv == ((SCALE as int) * (SCALE as int)) / (b as int),
                                1 <= b <= SCALE,
                        ;
                        assert((alpha as int) * (inv - SCALE) <= u128::MAX) by (nonlinear_arith)
                            requires
                                0 <= alpha <= ALPHA_LIMIT as int,
                                SCALE <= inv <= (SCALE as int) * (SCALE as int),
                        ;
                    }
                    let t: u128 = ((alpha as u128) * (inv - SCALE as u128)) / (SCALE as u128);
                    exp_neg_wide(t)
                }
            },
            MappingType::PolynomialCore { alpha } => fx_pow(bump(x), alpha),
            MappingType::StepCore => {
                if SCALE / 4 <= x && x <= 3 * (SCALE / 4) {
                    SCALE
                } else {
                    0
                }
            },
            MappingType::GaussianGrowth { mu, sigma } => {
                let d = abs_diff(x, mu);
                let d2 = square(d);
                let den: u64 = 2 * square(sigma);
                proof {
                    lemma_square_positive(sigma);
                }
                let t: u128 = ((d2 as u128) * (SCALE as u128)) / (den as u128);
                exp_neg_wide(t)
            },
            MappingType::PolynomialGrowth { mu, sigma, alpha } => {
                let d = abs_diff(x, mu);
                if d > 3 * sigma {
                    0
                } else {
                    let d2 = square(d);
                    let den: u64 = 9 * square(sigma);
                    proof {
                        lemma_square_positive(sigma);
                    }
                    let ratio: u128 = ((d2 as u128) * (SCALE as u128)) / (den as u128);
                    let inner: u64 = if ratio >= SCALE as u128 {
                        0
                    } else {
                        SCALE - (ratio as u64)
                    };
                    fx_pow(inner, alpha)
                }
            },
            MappingType::StepGrowth { mu, sigma } => {
                if abs_diff(x, mu) <= sigma {
                    SCALE
                } else {
                    0
                }
            },
        };
        Ok(v)
    }
}

/// Evaluates the bump `4 x (1 - x)` for `x` in `[0, 1]`.
fn bump(x: u64) -> (r: u64)
    requires
        x <= SCALE,
    ensures
        r == bump_spec(x as int),
        r <= SCALE,
{
    proof {
        assert(x * (SCALE - x) <= (SCALE as int) * (SCALE as int)) by (nonlinear_arith)
            requires
                0 <= x <= SCALE as int,
        ;
        assert(4 * ((x * (SCALE - x)) / (SCALE as int)) <= SCALE as int) by (nonlinear_arith)
            requires
                0 <= x <= SCALE as int,
        ;
    }
    let m = fx_mul(x, SCALE - x);
    4 * m
}

/// Evaluates `|x - mu|` on raw scalars.
fn abs_diff(x: u64, mu: u64) -> (r: u64)
    ensures
        r == abs_diff_spec(x as int, mu as int),
{
    if x >= mu {
        x - mu
    } else {
        mu - x
    }
}

/// Squares a Q32 scalar in `[0, 1]`.
fn square(s: u64) -> (r: u64)
    requires
        s <= SCALE,
    ensures
        r == fx_mul_spec(s as int, s as int),
        r <= SCALE,
{
    proof {
        assert(s * s <= (SCALE as int) * (SCALE as int)) by (nonlinear_arith)
            requires
                0 <= s <= SCALE as int,
        ;
        assert((s * s) / (SCALE as int) <= SCALE as int) by (nonlinear_arith)
            requires
                0 <= s * s <= (SCALE as int) * (SCALE as int),
        ;
    }
    fx_mul(s, s)
}

/// The square of a scalar at least `2^-16` does not underflow to zero.
proof fn lemma_square_positive(s: u64)
    requires
        s >= SIGMA_MIN,
    ensures
        fx_mul_spec(s as int, s as int) >= 1,
{
    assert((s as int) * (s as int) / (SCALE as int) >= 1) by (nonlinear_arith)
        requires
            s as int >= SIGMA_MIN as int,
            SIGMA_MIN as int * SIGMA_MIN as int == SCALE as int,
    ;
}

} // verus!
