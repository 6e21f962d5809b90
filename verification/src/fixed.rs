//! Fixed-point scalar arithmetic: the element type of every tensor.
//!
//! A value is an `i64` interpreted as `v / SCALE`. All operations saturate at
//! the `i64` bounds, and multiplicative operations truncate toward zero, so
//! each operation is a total function with an exact specification.

use vstd::prelude::*;

verus! {

/// Number of fixed-point units in 1.0.
pub const SCALE: i64 = 1_000_000;

/// Clamp an unbounded integer into the `i64` range.
pub open spec fn sat64(x: int) -> i64 {
    if x > i64::MAX {
        i64::MAX
    } else if x < i64::MIN {
        i64::MIN
    } else {
        x as i64
    }
}

/// Magnitude of an integer.
pub open spec fn abs_int(a: int) -> int {
    if a >= 0 {
        a
    } else {
        -a
    }
}

/// Division truncated toward zero, for a positive divisor.
pub open spec fn tdiv(a: int, b: int) -> int
    recommends
        b > 0,
{
    if a >= 0 {
        a / b
    } else {
        -((-a) / b)
    }
}

/// Division truncated toward zero, for any nonzero divisor.
pub open spec fn tdiv_s(a: int, b: int) -> int
    recommends
        b != 0,
{
    if (a >= 0) == (b > 0) {
        abs_int(a) / abs_int(b)
    } else {
        -(abs_int(a) / abs_int(b))
    }
}

pub open spec fn fx_add(a: i64, b: i64) -> i64 {
    sat64(a + b)
}

pub open spec fn fx_sub(a: i64, b: i64) -> i64 {
    sat64(a - b)
}

pub open spec fn fx_neg(a: i64) -> i64 {
    sat64(-a)
}

/// Fixed-point product: `(a * b) / SCALE`, truncated, then saturated.
pub open spec fn fx_mul(a: i64, b: i64) -> i64 {
    sat64(tdiv_s(a * b, SCALE as int))
}

/// Fixed-point quotient: `(a * SCALE) / b`, truncated, then saturated.
/// Division by zero is defined as zero.
pub open spec fn fx_div(a: i64, b: i64) -> i64 {
    if b == 0 {
        0
    } else {
        sat64(tdiv_s(a * SCALE, b as int))
    }
}

/// Division of a fixed-point value by a plain integer count (used by mean and
/// average pooling). Division by zero is defined as zero.
pub open spec fn fx_div_int(a: i64, n: i64) -> i64 {
    if n == 0 {
        0
    } else {
        sat64(tdiv_s(a as int, n as int))
    }
}

pub fn add_fx(a: i64, b: i64) -> (r: i64)
    ensures
        r == fx_add(a, b),
{
    match a.checked_add(b) {
        Some(v) => v,
        None => if b > 0 {
            i64::MAX
        } else {
            i64::MIN
        },
    }
}

pub fn sub_fx(a: i64, b: i64) -> (r: i64)
    ensures
        r == fx_sub(a, b),
{
    match a.checked_sub(b) {
        Some(v) => v,
        None => if b < 0 {
            i64::MAX
        } else {
            i64::MIN
        },
    }
}

pub fn neg_fx(a: i64) -> (r: i64)
    ensures
        r == fx_neg(a),
{
    if a == i64::MIN {
        i64::MAX
    } else {
        -a
    }
}

/// Magnitude of an `i64`, widened so that `i64::MIN` is representable.
pub fn abs_fx(a: i64) -> (r: u64)
    ensures
        r == abs_int(a as int),
{
    if a >= 0 {
        a as u64
    } else {
        (-(a as i128)) as u64
    }
}

/// Rebuild a saturated signed value from a sign and a magnitude.
fn from_sign_mag(neg: bool, m: u128) -> (r: i64)
    ensures
        r == sat64(if neg { -(m as int) } else { m as int }),
{
    if neg {
        if m >= 0x8000_0000_0000_0000u128 {
            i64::MIN
        } else {
            -((m as i128) as i64)
        }
    } else {
        if m > (i64::MAX as u128) {
            i64::MAX
        } else {
            m as i64
        }
    }
}

proof fn lemma_mul_sign_mag(a: int, b: int)
    ensures
        abs_int(a * b) == abs_int(a) * abs_int(b),
        (a * b >= 0) == (a == 0 || b == 0 || ((a >= 0) == (b >= 0))),
{
    if a == 0 || b == 0 {
        assert(a * b == 0 && abs_int(a) * abs_int(b) == 0) by (nonlinear_arith)
            requires
                a == 0 || b == 0,
        ;
    } else if a > 0 && b > 0 {
        assert(a * b > 0) by (nonlinear_arith)
            requires
                a > 0 && b > 0,
        ;
    } else if a < 0 && b < 0 {
        assert(a * b > 0 && a * b == (-a) * (-b)) by (nonlinear_arith)
            requires
                a < 0 && b < 0,
        ;
    } else if a > 0 && b < 0 {
        assert(a * b < 0 && -(a * b) == a * (-b)) by (nonlinear_arith)
            requires
                a > 0 && b < 0,
        ;
    } else {
        assert(a * b < 0 && -(a * b) == (-a) * b) by (nonlinear_arith)
            requires
                a < 0 && b > 0,
        ;
    }
}

pub fn mul_fx(a: i64, b: i64) -> (r: i64)
    ensures
        r == fx_mul(a, b),
{
    let neg = (a < 0) != (b < 0);
    let ma = abs_fx(a) as u128;
    let mb = abs_fx(b) as u128;
    proof {
        assert(ma * mb <= 0x8000_0000_0000_0000u128 * 0x8000_0000_0000_0000u128)
            by (nonlinear_arith)
            requires
                ma <= 0x8000_0000_0000_0000u128,
                mb <= 0x8000_0000_0000_0000u128,
        ;
    }
    let q = (ma * mb) / (SCALE as u128);
    proof {
        lemma_mul_sign_mag(a as int, b as int);
        assert(ma * mb == abs_int((a as int) * (b as int))) by (nonlinear_arith)
            requires
                ma == abs_int(a as int),
                mb == abs_int(b as int),
                abs_int((a as int) * (b as int)) == abs_int(a as int) * abs_int(b as int),
        ;
        assert(q == abs_int(a * b) / (SCALE as int));
        if a * b == 0 {
            assert(abs_int(a * b) == 0);
            assert(q == 0);
        }
    }
    if q == 0 {
        0
    } else {
        from_sign_mag(neg, q)
    }
}

pub fn div_fx(a: i64, b: i64) -> (r: i64)
    ensures
        r == fx_div(a, b),
{
    if b == 0 {
        return 0;
    }
    let neg = (a < 0) != (b < 0);
    let ma = abs_fx(a) as u128;
    let mb = abs_fx(b) as u128;
    let q = (ma * (SCALE as u128)) / mb;
    proof {
        lemma_mul_sign_mag(a as int, SCALE as int);
        assert(ma * (SCALE as u128) == abs_int((a as int) * (SCALE as int))) by (nonlinear_arith)
            requires
                ma == abs_int(a as int),
                abs_int((a as int) * (SCALE as int)) == abs_int(a as int) * (SCALE as int),
        ;
        assert(q == abs_int(a * SCALE) / abs_int(b as int));
        assert((a * SCALE >= 0) == (a >= 0));
        if a * SCALE == 0 {
            assert(abs_int(a * SCALE) == 0);
            assert(q == 0);
        }
    }
    if q == 0 {
        0
    } else {
        from_sign_mag(neg, q)
    }
}

pub fn div_int_fx(a: i64, n: i64) -> (r: i64)
    ensures
        r == fx_div_int(a, n),
{
    if n == 0 {
        return 0;
    }
    let neg = (a < 0) != (n < 0);
    let ma = abs_fx(a) as u128;
    let mn = abs_fx(n) as u128;
    let q = ma / mn;
    proof {
        assert(q == abs_int(a as int) / abs_int(n as int));
        if a == 0 {
            assert(q == 0);
        }
    }
    if q == 0 {
        0
    } else {
        from_sign_mag(neg, q)
    }
}

/// Multiplying by the fixed-point unit is the identity.
pub proof fn lemma_fx_mul_unit(x: i64)
    ensures
        fx_mul(SCALE, x) == x,
        fx_mul(x, SCALE) == x,
{
    let s = SCALE as int;
    let m = abs_int(x as int);
    lemma_mul_sign_mag(x as int, s);
    lemma_mul_sign_mag(s, x as int);
    vstd::arithmetic::div_mod::lemma_div_multiples_vanish(m, s);
    assert(m * s == s * m) by (nonlinear_arith);
    assert(abs_int((x as int) * s) / abs_int(s) == m);
    assert(abs_int(s * (x as int)) / abs_int(s) == m);
}

/// Fixed-point addition is commutative.
pub proof fn lemma_fx_add_comm(a: i64, b: i64)
    ensures
        fx_add(a, b) == fx_add(b, a),
{
}


} // verus!
