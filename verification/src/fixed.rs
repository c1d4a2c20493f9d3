//! Unsigned Q32 fixed-point arithmetic.
//!
//! A raw `u64` value `v` stands for the real number `v / 2^32`.  Every
//! executable routine here is pinned to an exact integer specification;
//! transcendental functions are defined by explicit range reduction and
//! finite series recurrences over the integers.

use vstd::arithmetic::power2::pow2;
use vstd::bits::lemma_u64_shr_is_div;
use vstd::prelude::*;

verus! {

/// Raw representation of `1.0`.
pub const SCALE: u64 = 0x1_0000_0000;

/// Raw representation of `0.5`.
pub const HALF: u64 = 0x8000_0000;

/// Raw representation of `ln 2`, rounded toward zero.
pub const LN2: u64 = 0xB172_17F7;

/// Number of terms taken of the alternating series for `exp(-r)`.
pub const EXP_TERMS: u64 = 16;

/// Number of terms taken of the series for `atanh(u)`.
pub const ATANH_TERMS: u64 = 12;

/// Arguments at least this large drive `exp(-t)` to zero in Q32.
pub const EXP_UNDERFLOW: u64 = 64 * LN2;

/// Product of two Q32 values, rounded toward zero.
pub open spec fn fx_mul_spec(a: int, b: int) -> int {
    (a * b) / (SCALE as int)
}

/// Quotient of two Q32 values, rounded toward zero.
pub open spec fn fx_div_spec(a: int, b: int) -> int {
    (a * (SCALE as int)) / b
}

/// Multiplies two Q32 scalars.
pub fn fx_mul(a: u64, b: u64) -> (r: u64)
    requires
        a * b <= u64::MAX * (SCALE as int),
    ensures
        r == fx_mul_spec(a as int, b as int),
{
    let wide: u128 = (a as u128) * (b as u128);
    (wide / (SCALE as u128)) as u64
}

/// Divides two Q32 scalars.
pub fn fx_div(a: u64, b: u64) -> (r: u64)
    requires
        b >= 1,
        fx_div_spec(a as int, b as int) <= u64::MAX,
    ensures
        r == fx_div_spec(a as int, b as int),
{
    let wide: u128 = (a as u128) * (SCALE as u128);
    (wide / (b as u128)) as u64
}

/// True when `r` is the integer square root of `n`.
pub open spec fn is_sqrt(n: int, r: int) -> bool {
    0 <= r && r * r <= n < (r + 1) * (r + 1)
}

/// The integer square root of `n`.
pub open spec fn sqrt_floor(n: int) -> int {
    choose|r: int| is_sqrt(n, r)
}

/// At most one integer is the square root of `n`.
pub proof fn lemma_sqrt_unique(n: int, r1: int, r2: int)
    requires
        is_sqrt(n, r1),
        is_sqrt(n, r2),
    ensures
        r1 == r2,
{
    assert(r1 == r2) by (nonlinear_arith)
        requires
            0 <= r1,
            r1 * r1 <= n < (r1 + 1) * (r1 + 1),
            0 <= r2,
            r2 * r2 <= n < (r2 + 1) * (r2 + 1),
    ;
}

/// Integer square root by bisection.
pub fn isqrt(n: u128) -> (r: u128)
    requires
        n < 0x4000_0000_0000_0000_0000_0000_0000_0000,
    ensures
        is_sqrt(n as int, r as int),
        r == sqrt_floor(n as int),
        r < 0x8000_0000_0000_0000,
{
    let mut lo: u128 = 0;
    let mut hi: u128 = 0x8000_0000_0000_0000;
    while lo + 1 < hi
        invariant
            lo < hi <= 0x8000_0000_0000_0000,
            lo * lo <= n,
            n < hi * hi,
        decreases hi - lo,
    {
        let mid: u128 = lo + (hi - lo) / 2;
        proof {
            assert(mid * mid <= 0x4000_0000_0000_0000_0000_0000_0000_0000) by (nonlinear_arith)
                requires
                    0 <= mid <= 0x8000_0000_0000_0000u128,
            ;
        }
        if mid * mid <= n {
            lo = mid;
        } else {
            hi = mid;
        }
    }
    proof {
        assert(is_sqrt(n as int, lo as int));
        assert(is_sqrt(n as int, sqrt_floor(n as int)));
        lemma_sqrt_unique(n as int, lo as int, sqrt_floor(n as int));
    }
    lo
}

/// Horner form of the alternating series for `exp(-r)`, `r` in Q32:
/// `S_k = 1 - (r / (k + 1)) * S_{k + 1}`, truncated after `EXP_TERMS` terms.
pub open spec fn exp_series(r: int, k: nat) -> int
    decreases (EXP_TERMS as int) - k,
{
    if k >= EXP_TERMS {
        SCALE as int
    } else {
        SCALE - fx_mul_spec(r, exp_series(r, (k + 1) as nat)) / ((k + 1) as int)
    }
}

/// The series stays within `[0, 1]` for arguments in `[0, 1]`.
pub proof fn lemma_exp_series_bounds(r: int, k: nat)
    requires
        0 <= r <= SCALE,
    ensures
        0 <= exp_series(r, k) <= SCALE,
    decreases (EXP_TERMS as int) - k,
{
    if k < EXP_TERMS {
        lemma_exp_series_bounds(r, (k + 1) as nat);
        let s = exp_series(r, (k + 1) as nat);
        assert(0 <= r * s <= (SCALE as int) * (SCALE as int)) by (nonlinear_arith)
            requires
                0 <= r <= SCALE as int,
                0 <= s <= SCALE as int,
        ;
        assert(0 <= fx_mul_spec(r, s) <= SCALE as int) by (nonlinear_arith)
            requires
                0 <= r * s <= (SCALE as int) * (SCALE as int),
        ;
        assert(0 <= fx_mul_spec(r, s) / ((k + 1) as int) <= SCALE as int) by (nonlinear_arith)
            requires
                0 <= fx_mul_spec(r, s) <= SCALE as int,
                k + 1 >= 1,
        ;
    }
}

/// `exp(-t)` for a non-negative Q32 argument: range reduction by `ln 2`
/// followed by the truncated series and a binary shift.
pub open spec fn exp_neg_spec(t: int) -> int {
    let m = t / (LN2 as int);
    let r = t % (LN2 as int);
    if m >= 64 {
        0
    } else {
        exp_series(r, 0) / (pow2(m as nat) as int)
    }
}

/// The result of `exp(-t)` never exceeds `1.0`.
pub proof fn lemma_exp_neg_bounds(t: int)
    ensures
        0 <= exp_neg_spec(t) <= SCALE,
{
    let m = t / (LN2 as int);
    let r = t % (LN2 as int);
    if m < 64 {
        lemma_exp_series_bounds(r, 0);
        vstd::arithmetic::power2::lemma_pow2_pos(m as nat);
        assert(0 <= exp_series(r, 0) / (pow2(m as nat) as int) <= SCALE as int)
            by (nonlinear_arith)
            requires
                0 <= exp_series(r, 0) <= SCALE as int,
                pow2(m as nat) >= 1,
        ;
    }
}

/// Evaluates `exp(-t)` for a Q32 argument `t`.
pub fn exp_neg(t: u64) -> (r: u64)
    ensures
        r == exp_neg_spec(t as int),
        r <= SCALE,
{
    let m: u64 = t / LN2;
    if m >= 64 {
        proof {
            lemma_exp_neg_bounds(t as int);
        }
        0
    } else {
        let rr: u64 = t % LN2;
        let mut s: u64 = SCALE;
        let mut k: u64 = EXP_TERMS;
        while k > 0
            invariant
                k <= EXP_TERMS,
                rr < LN2,
                s == exp_series(rr as int, k as nat),
                s <= SCALE,
            decreases k,
        {
            k = k - 1;
            proof {
                assert(rr * s <= (SCALE as int) * (SCALE as int)) by (nonlinear_arith)
                    requires
                        0 <= rr <= SCALE as int,
                        0 <= s <= SCALE as int,
                ;
            }
            let p: u64 = fx_mul(rr, s);
            proof {
                assert(p <= SCALE) by (nonlinear_arith)
                    requires
                        p == (rr * s) / (SCALE as int),
                        0 <= rr * s <= (SCALE as int) * (SCALE as int),
                ;
            }
            let q: u64 = p / (k + 1);
            s = SCALE - q;
        }
        proof {
            lemma_u64_shr_is_div(s, m);
            vstd::arithmetic::power2::lemma_pow2_pos(m as nat);
            assert(s as int / (pow2(m as nat) as int) <= s as int) by (nonlinear_arith)
                requires
                    s >= 0,
                    pow2(m as nat) >= 1,
            ;
        }
        s >> m
    }
}

/// Evaluates `exp(-t)` for a wide argument, saturating to zero where the
/// result underflows Q32.
pub fn exp_neg_wide(t: u128) -> (r: u64)
    ensures
        r == exp_neg_spec(t as int),
        r <= SCALE,
{
    if t >= EXP_UNDERFLOW as u128 {
        proof {
            vstd::arithmetic::div_mod::lemma_div_is_ordered(
                EXP_UNDERFLOW as int,
                t as int,
                LN2 as int,
            );
            assert((64 * (LN2 as int)) / (LN2 as int) == 64) by (nonlinear_arith);
        }
        0
    } else {
        exp_neg(t as u64)
    }
}

/// True when shifting `b` left by `e` lands in `[0.5, 1.0)`.
pub open spec fn is_norm(b: int, e: int) -> bool {
    0 <= e <= 31 && HALF <= b * (pow2(e as nat) as int) < SCALE
}

/// The normalizing shift of `b`.
pub open spec fn norm_exp(b: int) -> int {
    choose|e: int| is_norm(b, e)
}

/// At most one shift normalizes `b`.
pub proof fn lemma_norm_unique(b: int, e1: int, e2: int)
    requires
        is_norm(b, e1),
        is_norm(b, e2),
    ensures
        e1 == e2,
{
    if e1 != e2 {
        let (lo, hi) = if e1 < e2 {
            (e1, e2)
        } else {
            (e2, e1)
        };
        vstd::arithmetic::power2::lemma_pow2_adds(lo as nat, (hi - lo) as nat);
        vstd::arithmetic::power2::lemma_pow2_strictly_increases(0, (hi - lo) as nat);
        vstd::arithmetic::power2::lemma_pow2_pos(lo as nat);
        vstd::arithmetic::power2::lemma2_to64();
        assert(b >= 0) by (nonlinear_arith)
            requires
                b * (pow2(lo as nat) as int) >= HALF as int,
                pow2(lo as nat) >= 1,
                HALF >= 1,
        ;
        assert(b * (pow2(hi as nat) as int) >= 2 * (HALF as int)) by (nonlinear_arith)
            requires
                b * (pow2(lo as nat) as int) >= HALF as int,
                pow2(hi as nat) == pow2(lo as nat) * pow2((hi - lo) as nat),
                pow2((hi - lo) as nat) >= 2,
                b >= 0,
        ;
    }
}

/// Horner form of the series `atanh(u) / u = sum of u^(2n) / (2n + 1)`,
/// truncated after `ATANH_TERMS` terms; `t` stands for `u^2`.
pub open spec fn atanh_series(t: int, k: nat) -> int
    decreases (ATANH_TERMS as int) - k,
{
    if k >= ATANH_TERMS {
        0
    } else {
        (SCALE as int) / ((2 * k + 1) as int) + fx_mul_spec(t, atanh_series(t, (k + 1) as nat))
    }
}

/// `-ln c` for `c` in `[0.5, 1.0)`, via `ln c = 2 atanh((c - 1)/(c + 1))`.
pub open spec fn neg_ln_frac_spec(c: int) -> int {
    let u = fx_div_spec(SCALE - c, SCALE + c);
    2 * fx_mul_spec(u, atanh_series(fx_mul_spec(u, u), 0))
}

/// `-ln b` for `b` in `(0, 1]`: normalize into `[0.5, 1.0)`, then
/// `-ln b = e ln 2 - ln c`.
pub open spec fn neg_ln_spec(b: int) -> int {
    if b >= SCALE {
        0
    } else {
        let e = norm_exp(b);
        e * (LN2 as int) + neg_ln_frac_spec(b * (pow2(e as nat) as int))
    }
}

/// Evaluates `-ln b` for a Q32 argument `b` in `(0, 1]`.
pub fn neg_ln(b: u64) -> (r: u64)
    requires
        1 <= b <= SCALE,
    ensures
        r == neg_ln_spec(b as int),
        r < 0x20_0000_0000,
{
    if b >= SCALE {
        return 0;
    }
    let mut cc: u64 = b;
    let mut e: u64 = 0;
    proof {
        vstd::arithmetic::power2::lemma2_to64();
    }
    while cc < HALF
        invariant
            1 <= b < SCALE,
            e <= 31,
            cc as int == (b as int) * (pow2(e as nat) as int),
            1 <= cc < SCALE,
        decreases SCALE - cc,
    {
        proof {
            vstd::arithmetic::power2::lemma2_to64();
            if e >= 31 {
                if e > 31 {
                    vstd::arithmetic::power2::lemma_pow2_strictly_increases(31, e as nat);
                }
                assert(cc as int >= pow2(31) as int) by (nonlinear_arith)
                    requires
                        cc as int == (b as int) * (pow2(e as nat) as int),
                        b >= 1,
                        pow2(e as nat) >= pow2(31),
                ;
            }
            vstd::arithmetic::power2::lemma_pow2_adds(e as nat, 1);
            assert((b as int) * (pow2((e + 1) as nat) as int) == 2 * (cc as int))
                by (nonlinear_arith)
                requires
                    cc as int == (b as int) * (pow2(e as nat) as int),
                    pow2((e + 1) as nat) == pow2(e as nat) * pow2(1),
                    pow2(1) == 2,
            ;
        }
        cc = cc * 2;
        e = e + 1;
    }
    proof {
        assert(is_norm(b as int, e as int));
        assert(is_norm(b as int, norm_exp(b as int)));
        lemma_norm_unique(b as int, e as int, norm_exp(b as int));
    }
    let u: u64 = fx_div(SCALE - cc, SCALE + cc);
    proof {
        assert(fx_div_spec((SCALE - cc) as int, (SCALE + cc) as int) <= (SCALE - cc) as int)
            by (nonlinear_arith)
            requires
                0 <= (SCALE - cc) as int,
                (SCALE + cc) as int >= SCALE as int,
                SCALE >= 1,
                fx_div_spec((SCALE - cc) as int, (SCALE + cc) as int)
                    == ((SCALE - cc) as int * (SCALE as int)) / ((SCALE + cc) as int),
        ;
    }
    proof {
        assert(u * u <= (HALF as int) * (HALF as int)) by (nonlinear_arith)
            requires
                0 <= u <= (HALF as int),
        ;
    }
    let tq: u64 = fx_mul(u, u);
    proof {
        assert(fx_mul_spec(u as int, u as int) <= (SCALE as int) / 4) by (nonlinear_arith)
            requires
                0 <= u <= (HALF as int),
                2 * (HALF as int) == SCALE as int,
                fx_mul_spec(u as int, u as int) == ((u as int) * (u as int)) / (SCALE as int),
        ;
    }
    let mut s: u64 = 0;
    let mut k: u64 = ATANH_TERMS;
    while k > 0
        invariant
            k <= ATANH_TERMS,
            0 <= tq <= (SCALE as int) / 4,
            s == atanh_series(tq as int, k as nat),
            s <= 2 * SCALE,
        decreases k,
    {
        k = k - 1;
        proof {
            assert(tq * s <= (SCALE as int) * (SCALE as int)) by (nonlinear_arith)
                requires
                    0 <= tq <= (SCALE as int) / 4,
                    0 <= s <= 2 * (SCALE as int),
            ;
        }
        let p: u64 = fx_mul(tq, s);
        proof {
            assert(p <= (SCALE as int) / 2) by (nonlinear_arith)
                requires
                    p == (tq * s) / (SCALE as int),
                    0 <= tq <= (SCALE as int) / 4,
                    0 <= s <= 2 * (SCALE as int),
                    tq * s <= (SCALE as int) * (SCALE as int),
            ;
        }
        s = SCALE / (2 * k + 1) + p;
    }
    proof {
        assert(u * s <= (SCALE as int) * (SCALE as int)) by (nonlinear_arith)
            requires
                0 <= u <= (HALF as int),
                0 <= s <= 2 * (SCALE as int),
                2 * (HALF as int) == SCALE as int,
        ;
    }
    let w: u64 = fx_mul(u, s);
    proof {
        assert(w <= SCALE) by (nonlinear_arith)
            requires
                w == (u * s) / (SCALE as int),
                u * s <= (SCALE as int) * (SCALE as int),
        ;
    }
    e * LN2 + 2 * w
}

/// `b` raised to the power `a`, both in Q32, for `b` in `[0, 1]`:
/// `b^a = exp(-a * (-ln b))`, with `0^0 = 1` and `0^a = 0` otherwise.
pub open spec fn fx_pow_spec(b: int, a: int) -> int {
    if a == 0 {
        SCALE as int
    } else if b == 0 {
        0
    } else {
        exp_neg_spec((a * neg_ln_spec(b)) / (SCALE as int))
    }
}

/// The result of the power function never exceeds `1.0`.
pub proof fn lemma_fx_pow_bounds(b: int, a: int)
    ensures
        0 <= fx_pow_spec(b, a) <= SCALE,
{
    if a != 0 && b != 0 {
        lemma_exp_neg_bounds((a * neg_ln_spec(b)) / (SCALE as int));
    }
}

/// Evaluates `b^a` for Q32 arguments, `b` in `[0, 1]`.
pub fn fx_pow(b: u64, a: u64) -> (r: u64)
    requires
        b <= SCALE,
    ensures
        r == fx_pow_spec(b as int, a as int),
        r <= SCALE,
{
    if a == 0 {
        SCALE
    } else if b == 0 {
        0
    } else {
        let nl: u64 = neg_ln(b);
        proof {
            assert((a as int) * (nl as int) <= u128::MAX) by (nonlinear_arith)
                requires
                    0 <= a <= u64::MAX,
                    0 <= nl < 0x20_0000_0000,
            ;
        }
        let t: u128 = (a as u128) * (nl as u128) / (SCALE as u128);
        exp_neg_wide(t)
    }
}

} // verus!
