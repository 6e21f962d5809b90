//! Fixed-point elementary functions: exponential, logarithm, square root,
//! trigonometric functions, hyperbolic tangent and the error function.
//!
//! Each function is a total, deterministic algorithm over the saturating
//! fixed-point operations — a truncated power series, with a power-of-two
//! normalization for the logarithm — and its specification is that algorithm
//! itself, evaluated exactly.

use vstd::prelude::*;

use crate::fixed::{
    add_fx, div_fx, div_int_fx, fx_add, fx_div, fx_div_int, fx_mul, fx_neg, fx_sub, mul_fx,
    neg_fx, sat64, sub_fx, SCALE,
};

verus! {

/// Number of power-series terms used by the exponential.
pub const EXP_TERMS: u64 = 30;

/// Number of power-series terms used by sine and cosine.
pub const TRIG_TERMS: u64 = 10;

/// Number of power-series terms used by the error function.
pub const ERF_TERMS: u64 = 12;

/// Number of odd-power terms used by the logarithm's series.
pub const LOG_TERMS: u64 = 8;

/// ln 2 in fixed-point units.
pub const LN2: i64 = 693_147;

/// 2 / sqrt(pi) in fixed-point units.
pub const TWO_OVER_SQRT_PI: i64 = 1_128_379;

/// Saturating plain integer product (no fixed-point rescale).
pub open spec fn fx_scale_int(k: i64, c: i64) -> i64 {
    sat64(k * c)
}

pub fn scale_int_fx(k: i64, c: i64) -> (r: i64)
    ensures
        r == fx_scale_int(k, c),
{
    match k.checked_mul(c) {
        Some(v) => v,
        None => {
            proof {
                if (k < 0) == (c < 0) {
                    assert(k * c >= 0) by (nonlinear_arith)
                        requires
                            (k < 0) == (c < 0),
                    ;
                } else {
                    assert(k * c <= 0) by (nonlinear_arith)
                        requires
                            (k < 0) != (c < 0),
                    ;
                }
            }
            if (k < 0) == (c < 0) {
                i64::MAX
            } else {
                i64::MIN
            }
        },
    }
}

/// Term `k` of the exponential series: `x^k / k!` evaluated in fixed point.
pub open spec fn exp_term(x: i64, k: int) -> i64
    decreases k,
{
    if k <= 0 {
        SCALE
    } else {
        fx_div_int(fx_mul(exp_term(x, k - 1), x), k as i64)
    }
}

/// Sum of the first `k` terms of the exponential series.
pub open spec fn exp_sum(x: i64, k: int) -> i64
    decreases k,
{
    if k <= 0 {
        0
    } else {
        fx_add(exp_sum(x, k - 1), exp_term(x, k - 1))
    }
}

/// The fixed-point exponential: the truncated power series.
pub open spec fn exp_fx(x: i64) -> i64 {
    exp_sum(x, EXP_TERMS as int)
}

pub fn exp_fx_e(x: i64) -> (r: i64)
    ensures
        r == exp_fx(x),
{
    let mut term: i64 = SCALE;
    let mut acc: i64 = 0;
    let mut k: u64 = 0;
    while k < EXP_TERMS
        invariant
            0 <= k <= EXP_TERMS,
            term == exp_term(x, k as int),
            acc == exp_sum(x, k as int),
        decreases EXP_TERMS - k,
    {
        acc = add_fx(acc, term);
        term = div_int_fx(mul_fx(term, x), (k + 1) as i64);
        k += 1;
    }
    acc
}

/// Number of halvings that bring a value below 2.0.
pub open spec fn log_halvings(x: int) -> int
    decreases x,
{
    if x < 2 * SCALE {
        0
    } else {
        1 + log_halvings(x / 2)
    }
}

/// The value after those halvings.
pub open spec fn log_reduce(x: int) -> int
    decreases x,
{
    if x < 2 * SCALE {
        x
    } else {
        log_reduce(x / 2)
    }
}

/// Number of doublings that bring a positive value up to at least 1.0.
pub open spec fn log_doublings(x: int) -> int
    decreases 2 * SCALE - x,
{
    if x >= SCALE || x <= 0 {
        0
    } else {
        1 + log_doublings(2 * x)
    }
}

/// The value after those doublings.
pub open spec fn log_raise(x: int) -> int
    decreases 2 * SCALE - x,
{
    if x >= SCALE || x <= 0 {
        x
    } else {
        log_raise(2 * x)
    }
}

/// Odd power `z^(2k+1)` of the logarithm series, in fixed point.
pub open spec fn log_pow(z: i64, k: int) -> i64
    decreases k,
{
    if k <= 0 {
        z
    } else {
        fx_mul(log_pow(z, k - 1), fx_mul(z, z))
    }
}

/// Sum of the first `k` terms `z^(2j+1) / (2j+1)` of the series for
/// `artanh z`.
pub open spec fn log_series(z: i64, k: int) -> i64
    decreases k,
{
    if k <= 0 {
        0
    } else {
        fx_add(log_series(z, k - 1), fx_div_int(log_pow(z, k - 1), (2 * k - 1) as i64))
    }
}

/// Logarithm of a value in `[1.0, 2.0)` via `2 artanh((x-1)/(x+1))`.
pub open spec fn log_core(x: i64) -> i64 {
    let z = fx_div(fx_sub(x, SCALE), fx_add(x, SCALE));
    let s = log_series(z, LOG_TERMS as int);
    fx_add(s, s)
}

/// The fixed-point natural logarithm; zero for arguments at or below zero.
pub open spec fn log_fx(x: i64) -> i64 {
    if x <= 0 {
        0
    } else if x >= SCALE {
        let k = log_halvings(x as int);
        fx_add(fx_scale_int(k as i64, LN2), log_core(log_reduce(x as int) as i64))
    } else {
        let k = log_doublings(x as int);
        fx_sub(log_core(log_raise(x as int) as i64), fx_scale_int(k as i64, LN2))
    }
}

pub fn log_fx_e(x: i64) -> (r: i64)
    ensures
        r == log_fx(x),
{
    if x <= 0 {
        return 0;
    }
    let mut v: i64 = x;
    let mut k: i64 = 0;
    let mut doubled = false;
    if x >= SCALE {
        proof {
            vstd::arithmetic::power2::lemma2_to64();
            assert((x as int) * vstd::arithmetic::power2::pow2(0) == x) by (nonlinear_arith)
                requires
                    vstd::arithmetic::power2::pow2(0) == 1,
            ;
        }
        while v >= 2 * SCALE
            invariant
                v >= 1,
                0 <= k <= 63,
                x >= 1,
                k + log_halvings(v as int) == log_halvings(x as int),
                log_reduce(v as int) == log_reduce(x as int),
                (v as int) * vstd::arithmetic::power2::pow2(k as nat) <= x,
            decreases v,
        {
            proof {
                let p = vstd::arithmetic::power2::pow2(k as nat);
                vstd::arithmetic::power2::lemma_pow2_unfold((k + 1) as nat);
                vstd::arithmetic::power2::lemma_pow2_pos(k as nat);
                assert((v as int / 2) * (2 * p) <= (v as int) * p) by (nonlinear_arith)
                    requires
                        p >= 1,
                        v >= 2,
                ;
                // k stays below 63: two to the k is at most x
                if k + 1 > 63 {
                    vstd::arithmetic::power2::lemma_pow2_strictly_increases(63, (k + 1) as nat);
                    vstd::arithmetic::power2::lemma2_to64_rest();
                    assert((v as int / 2) >= 1);
                    assert((v as int / 2) * vstd::arithmetic::power2::pow2((k + 1) as nat) >= vstd::arithmetic::power2::pow2((k + 1) as nat)) by (nonlinear_arith)
                        requires
                            (v as int / 2) >= 1,
                            vstd::arithmetic::power2::pow2((k + 1) as nat) >= 1,
                    ;
                }
            }
            v = v / 2;
            k += 1;
        }
    } else {
        doubled = true;
        proof {
            vstd::arithmetic::power2::lemma2_to64();
            assert((x as int) * vstd::arithmetic::power2::pow2(0) == x) by (nonlinear_arith)
                requires
                    vstd::arithmetic::power2::pow2(0) == 1,
            ;
        }
        while v < SCALE
            invariant
                1 <= v < 2 * SCALE,
                0 <= k <= 21,
                k + log_doublings(v as int) == log_doublings(x as int),
                log_raise(v as int) == log_raise(x as int),
                (v as int) == (x as int) * vstd::arithmetic::power2::pow2(k as nat),
                x >= 1,
            decreases 2 * SCALE - v,
        {
            proof {
                let p = vstd::arithmetic::power2::pow2(k as nat);
                vstd::arithmetic::power2::lemma_pow2_unfold((k + 1) as nat);
                vstd::arithmetic::power2::lemma_pow2_pos(k as nat);
                assert(2 * ((x as int) * p) == (x as int) * (2 * p)) by (nonlinear_arith);
                // k stays small: two to the k is at most v, which is below 1.0
                if k + 1 > 21 {
                    vstd::arithmetic::power2::lemma_pow2_strictly_increases(21, (k + 1) as nat);
                    vstd::arithmetic::power2::lemma2_to64();
                    assert(2 * (v as int) >= vstd::arithmetic::power2::pow2((k + 1) as nat))
                        by (nonlinear_arith)
                        requires
                            x >= 1,
                            2 * (v as int) == (x as int) * vstd::arithmetic::power2::pow2(
                                (k + 1) as nat,
                            ),
                            vstd::arithmetic::power2::pow2((k + 1) as nat) >= 1,
                    ;
                }
            }
            v = v * 2;
            k += 1;
        }
    }
    // series for the reduced value
    let z = div_fx(sub_fx(v, SCALE), add_fx(v, SCALE));
    let z2 = mul_fx(z, z);
    let mut p: i64 = z;
    let mut s: i64 = 0;
    let mut j: u64 = 0;
    while j < LOG_TERMS
        invariant
            0 <= j <= LOG_TERMS,
            z2 == fx_mul(z, z),
            p == log_pow(z, j as int),
            s == log_series(z, j as int),
        decreases LOG_TERMS - j,
    {
        s = add_fx(s, div_int_fx(p, (2 * j + 1) as i64));
        p = mul_fx(p, z2);
        j += 1;
    }
    let core = add_fx(s, s);
    if doubled {
        sub_fx(core, scale_int_fx(k, LN2))
    } else {
        add_fx(scale_int_fx(k, LN2), core)
    }
}

/// The fixed-point logarithm of one plus the argument.
pub open spec fn log1p_fx(x: i64) -> i64 {
    log_fx(fx_add(x, SCALE))
}

pub fn log1p_fx_e(x: i64) -> (r: i64)
    ensures
        r == log1p_fx(x),
{
    log_fx_e(add_fx(x, SCALE))
}

/// Floor square root by bisection on `[lo, hi)`.
pub open spec fn isqrt_rec(n: int, lo: int, hi: int) -> int
    decreases hi - lo,
{
    if hi - lo <= 1 {
        lo
    } else {
        let mid = (lo + hi) / 2;
        if mid * mid <= n {
            isqrt_rec(n, mid, hi)
        } else {
            isqrt_rec(n, lo, mid)
        }
    }
}

/// The fixed-point square root: floor of the square root of `x * SCALE`;
/// zero for negative arguments.
pub open spec fn sqrt_fx(x: i64) -> i64 {
    if x <= 0 {
        0
    } else {
        sat64(isqrt_rec(x * SCALE, 0, x * SCALE + 1))
    }
}

pub fn sqrt_fx_e(x: i64) -> (r: i64)
    ensures
        r == sqrt_fx(x),
{
    if x <= 0 {
        return 0;
    }
    proof {
        assert((x as int) * (SCALE as int) <= (i64::MAX as int) * (SCALE as int))
            by (nonlinear_arith)
            requires
                1 <= x <= i64::MAX,
                SCALE == 1_000_000,
        ;
    }
    let n: u128 = (x as u128) * (SCALE as u128);
    let mut lo: u128 = 0;
    let mut hi: u128 = n + 1;
    while hi - lo > 1
        invariant
            0 <= lo < hi,
            hi <= n + 1,
            n == x * SCALE,
            x >= 1,
            isqrt_rec(n as int, lo as int, hi as int) == isqrt_rec(n as int, 0, n as int + 1),
        decreases hi - lo,
    {
        let mid = lo + (hi - lo) / 2;
        let q = n / mid;
        proof {
            assert(mid == (lo + hi) / 2 && mid >= 1) by (nonlinear_arith)
                requires
                    mid == lo + (hi - lo) / 2,
                    0 <= lo,
                    hi - lo > 1,
            ;
            vstd::arithmetic::div_mod::lemma_fundamental_div_mod(n as int, mid as int);
        }
        if mid <= q {
            // mid * mid <= n exactly when mid <= n / mid for positive mid
            proof {
                assert(mid * mid <= n) by (nonlinear_arith)
                    requires
                        mid >= 1,
                        mid <= (n as int) / (mid as int),
                        n == (mid as int) * ((n as int) / (mid as int)) + (n as int) % (
                        mid as int),
                        0 <= (n as int) % (mid as int),
                ;
            }
            lo = mid;
        } else {
            proof {
                assert(mid * mid > n) by (nonlinear_arith)
                    requires
                        mid >= 1,
                        mid > (n as int) / (mid as int),
                        n == (mid as int) * ((n as int) / (mid as int)) + (n as int) % (
                        mid as int),
                        (n as int) % (mid as int) < mid,
                ;
            }
            hi = mid;
        }
    }
    proof {
        assert(lo <= n) by (nonlinear_arith)
            requires
                lo < hi,
                hi <= n + 1,
        ;
        assert(lo == isqrt_rec(n as int, 0, n as int + 1));
        assert(n <= i64::MAX * (SCALE as int)) by (nonlinear_arith)
            requires
                n == x * SCALE,
                x <= i64::MAX,
                SCALE > 0,
        ;
    }
    if lo > i64::MAX as u128 {
        i64::MAX
    } else {
        lo as i64
    }
}

/// Term `k` of the sine series.
pub open spec fn sin_term(x: i64, k: int) -> i64
    decreases k,
{
    if k <= 0 {
        x
    } else {
        fx_neg(
            fx_div_int(fx_mul(sin_term(x, k - 1), fx_mul(x, x)), ((2 * k) * (2 * k + 1)) as i64),
        )
    }
}

/// Sum of the first `k` terms of the sine series.
pub open spec fn sin_sum(x: i64, k: int) -> i64
    decreases k,
{
    if k <= 0 {
        0
    } else {
        fx_add(sin_sum(x, k - 1), sin_term(x, k - 1))
    }
}

/// The fixed-point sine: the truncated power series.
pub open spec fn sin_fx(x: i64) -> i64 {
    sin_sum(x, TRIG_TERMS as int)
}

pub fn sin_fx_e(x: i64) -> (r: i64)
    ensures
        r == sin_fx(x),
{
    let x2 = mul_fx(x, x);
    let mut term: i64 = x;
    let mut acc: i64 = 0;
    let mut k: u64 = 0;
    while k < TRIG_TERMS
        invariant
            0 <= k <= TRIG_TERMS,
            x2 == fx_mul(x, x),
            term == sin_term(x, k as int),
            acc == sin_sum(x, k as int),
        decreases TRIG_TERMS - k,
    {
        acc = add_fx(acc, term);
        proof {
            assert((2 * ((k + 1) as int)) * (2 * ((k + 1) as int) + 1) <= 1000)
                by (nonlinear_arith)
                requires
                    k < 10,
            ;
        }
        term = neg_fx(div_int_fx(mul_fx(term, x2), ((2 * (k + 1)) * (2 * (k + 1) + 1)) as i64));
        k += 1;
    }
    acc
}

/// Term `k` of the cosine series.
pub open spec fn cos_term(x: i64, k: int) -> i64
    decreases k,
{
    if k <= 0 {
        SCALE
    } else {
        fx_neg(
            fx_div_int(fx_mul(cos_term(x, k - 1), fx_mul(x, x)), ((2 * k - 1) * (2 * k)) as i64),
        )
    }
}

/// Sum of the first `k` terms of the cosine series.
pub open spec fn cos_sum(x: i64, k: int) -> i64
    decreases k,
{
    if k <= 0 {
        0
    } else {
        fx_add(cos_sum(x, k - 1), cos_term(x, k - 1))
    }
}

/// The fixed-point cosine: the truncated power series.
pub open spec fn cos_fx(x: i64) -> i64 {
    cos_sum(x, TRIG_TERMS as int)
}

pub fn cos_fx_e(x: i64) -> (r: i64)
    ensures
        r == cos_fx(x),
{
    let x2 = mul_fx(x, x);
    let mut term: i64 = SCALE;
    let mut acc: i64 = 0;
    let mut k: u64 = 0;
    while k < TRIG_TERMS
        invariant
            0 <= k <= TRIG_TERMS,
            x2 == fx_mul(x, x),
            term == cos_term(x, k as int),
            acc == cos_sum(x, k as int),
        decreases TRIG_TERMS - k,
    {
        acc = add_fx(acc, term);
        proof {
            assert((2 * ((k + 1) as int) - 1) * (2 * ((k + 1) as int)) <= 1000)
                by (nonlinear_arith)
                requires
                    k < 10,
            ;
        }
        term = neg_fx(
            div_int_fx(mul_fx(term, x2), ((2 * (k + 1) - 1) * (2 * (k + 1))) as i64),
        );
        k += 1;
    }
    acc
}

/// The fixed-point hyperbolic tangent, via the exponential.
pub open spec fn tanh_fx(x: i64) -> i64 {
    let e = exp_fx(fx_add(x, x));
    fx_div(fx_sub(e, SCALE), fx_add(e, SCALE))
}

pub fn tanh_fx_e(x: i64) -> (r: i64)
    ensures
        r == tanh_fx(x),
{
    let e = exp_fx_e(add_fx(x, x));
    div_fx(sub_fx(e, SCALE), add_fx(e, SCALE))
}

/// Term `k` of the error-function series.
pub open spec fn erf_term(x: i64, k: int) -> i64
    decreases k,
{
    if k <= 0 {
        x
    } else {
        fx_neg(
            fx_div_int(
                fx_scale_int(fx_mul(erf_term(x, k - 1), fx_mul(x, x)), (2 * k - 1) as i64),
                (k * (2 * k + 1)) as i64,
            ),
        )
    }
}

/// Sum of the first `k` terms of the error-function series.
pub open spec fn erf_sum(x: i64, k: int) -> i64
    decreases k,
{
    if k <= 0 {
        0
    } else {
        fx_add(erf_sum(x, k - 1), erf_term(x, k - 1))
    }
}

/// The fixed-point error function: `2/sqrt(pi)` times the truncated series.
pub open spec fn erf_fx(x: i64) -> i64 {
    fx_mul(TWO_OVER_SQRT_PI, erf_sum(x, ERF_TERMS as int))
}

pub fn erf_fx_e(x: i64) -> (r: i64)
    ensures
        r == erf_fx(x),
{
    let x2 = mul_fx(x, x);
    let mut term: i64 = x;
    let mut acc: i64 = 0;
    let mut k: u64 = 0;
    while k < ERF_TERMS
        invariant
            0 <= k <= ERF_TERMS,
            x2 == fx_mul(x, x),
            term == erf_term(x, k as int),
            acc == erf_sum(x, k as int),
        decreases ERF_TERMS - k,
    {
        acc = add_fx(acc, term);
        proof {
            assert(((k + 1) as int) * (2 * ((k + 1) as int) + 1) <= 1000) by (nonlinear_arith)
                requires
                    k < 12,
            ;
        }
        term = neg_fx(
            div_int_fx(
                scale_int_fx(mul_fx(term, x2), (2 * (k + 1) - 1) as i64),
                ((k + 1) * (2 * (k + 1) + 1)) as i64,
            ),
        );
        k += 1;
    }
    mul_fx(TWO_OVER_SQRT_PI, acc)
}

/// The fixed-point power function: via exponential and logarithm for
/// positive bases; the zero exponent gives one, other bases give zero.
pub open spec fn powf_fx(x: i64, p: i64) -> i64 {
    if p == 0 {
        SCALE
    } else if x <= 0 {
        0
    } else {
        exp_fx(fx_mul(p, log_fx(x)))
    }
}

pub fn powf_fx_e(x: i64, p: i64) -> (r: i64)
    ensures
        r == powf_fx(x, p),
{
    if p == 0 {
        SCALE
    } else if x <= 0 {
        0
    } else {
        exp_fx_e(mul_fx(p, log_fx_e(x)))
    }
}

} // verus!
