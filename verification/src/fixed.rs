//! Fixed-point scalar arithmetic.
//!
//! An `i64` value `v` stands for the real number `v / SCALE`. Products and
//! quotients are rounded toward zero, so negating an operand exactly negates
//! the result; the spec functions below are written in sign-magnitude form so
//! that every division in them has nonnegative operands.

use vstd::prelude::*;
use vstd::arithmetic::div_mod::lemma_div_by_multiple;
use vstd::arithmetic::div_mod::lemma_div_is_ordered;
use vstd::arithmetic::div_mod::lemma_div_is_ordered_by_denominator;
use vstd::arithmetic::div_mod::lemma_div_pos_is_pos;
use vstd::arithmetic::mul::lemma_mul_upper_bound;

verus! {

/// Number of fixed-point units in one whole unit.
pub const SCALE: i64 = 65536;

/// The magnitude of `a`.
pub open spec fn mag(a: int) -> int {
    if a < 0 {
        -a
    } else {
        a
    }
}

/// Fixed-point product of `a` and `b`, rounded toward zero.
pub open spec fn mul_scale(a: int, b: int) -> int {
    let m = (mag(a) * mag(b)) / SCALE as int;
    if (a < 0) == (b < 0) {
        m
    } else {
        -m
    }
}

/// Fixed-point quotient `a / b`, rounded toward zero. Meaningful for `b > 0`.
pub open spec fn div_scale(a: int, b: int) -> int
    recommends
        b > 0,
{
    let m = (mag(a) * SCALE as int) / b;
    if a < 0 {
        -m
    } else {
        m
    }
}

/// Rounding toward zero makes the scaled product odd in each argument.
pub proof fn lemma_mul_scale_neg(a: int, b: int)
    ensures
        mul_scale(-a, b) == -mul_scale(a, b),
        mul_scale(a, -b) == -mul_scale(a, b),
{
    assert(mag(-a) * mag(b) == mag(a) * mag(b));
    assert(mag(a) * mag(-b) == mag(a) * mag(b));
    if a == 0 || b == 0 {
        assert(mag(a) * mag(b) == 0) by (nonlinear_arith)
            requires
                mag(a) == 0 || mag(b) == 0,
        ;
        assert(mag(a) * mag(b) / SCALE as int == 0);
    }
}

/// The magnitude of a scaled product is monotone in the magnitudes of its
/// arguments.
pub proof fn lemma_mul_scale_bound(a: int, b: int, ca: int, cb: int)
    requires
        mag(a) <= ca,
        mag(b) <= cb,
    ensures
        mag(mul_scale(a, b)) <= (ca * cb) / SCALE as int,
{
    lemma_mul_upper_bound(mag(a), ca, mag(b), cb);
    lemma_div_is_ordered(mag(a) * mag(b), ca * cb, SCALE as int);
    lemma_div_pos_is_pos(mag(a) * mag(b), SCALE as int);
}

/// Rounding toward zero makes the scaled quotient odd in its numerator.
pub proof fn lemma_div_scale_neg(a: int, b: int)
    requires
        b > 0,
    ensures
        div_scale(-a, b) == -div_scale(a, b),
{
    assert(mag(-a) == mag(a));
}

/// The magnitude of a scaled quotient is monotone in the magnitude of the
/// numerator and antitone in the denominator.
pub proof fn lemma_div_scale_bound(a: int, b: int, ca: int, cb: int)
    requires
        mag(a) <= ca,
        0 < cb <= b,
    ensures
        mag(div_scale(a, b)) <= (ca * SCALE as int) / cb,
{
    lemma_mul_upper_bound(mag(a), ca, SCALE as int, SCALE as int);
    lemma_div_is_ordered(mag(a) * SCALE as int, ca * SCALE as int, b);
    lemma_div_is_ordered_by_denominator(ca * SCALE as int, cb, b);
    lemma_div_pos_is_pos(mag(a) * SCALE as int, b);
}

/// Scaling zero, or by zero, gives zero.
pub proof fn lemma_scale_zero(a: int, b: int)
    requires
        b > 0,
    ensures
        mul_scale(a, 0) == 0,
        mul_scale(0, a) == 0,
        div_scale(0, b) == 0,
{
    assert(mag(a) * mag(0) == 0 && mag(0) * mag(a) == 0 && mag(0) * SCALE as int == 0)
        by (nonlinear_arith)
        requires
            mag(0) == 0,
    ;
    assert(0int / SCALE as int == 0);
    assert(0int / b == 0);
}

/// Scaling by one whole unit changes nothing.
pub proof fn lemma_scale_identity(a: int)
    ensures
        mul_scale(a, SCALE as int) == a,
        div_scale(a, SCALE as int) == a,
{
    lemma_div_by_multiple(mag(a), SCALE as int);
    assert(mag(SCALE as int) == SCALE as int);
}

/// Scaled products and quotients of nonnegative values are nonnegative.
pub proof fn lemma_scale_nonneg(a: int, b: int)
    requires
        a >= 0,
        b >= 0,
    ensures
        mul_scale(a, b) >= 0,
        b > 0 ==> div_scale(a, b) >= 0,
{
    assert(mag(a) * mag(b) >= 0) by (nonlinear_arith)
        requires
            mag(a) >= 0,
            mag(b) >= 0,
    ;
    lemma_div_pos_is_pos(mag(a) * mag(b), SCALE as int);
    assert(mag(a) * SCALE as int >= 0) by (nonlinear_arith)
        requires
            mag(a) >= 0,
    ;
    if b > 0 {
        lemma_div_pos_is_pos(mag(a) * SCALE as int, b);
    }
}

/// Fixed-point product, rounded toward zero.
pub fn fp_mul(a: i64, b: i64) -> (r: i64)
    requires
        mag(a as int) * mag(b as int) / SCALE as int <= i64::MAX,
    ensures
        r == mul_scale(a as int, b as int),
{
    let neg: bool = (a < 0) != (b < 0);
    let am: u128 = if a < 0 {
        (-(a as i128)) as u128
    } else {
        a as u128
    };
    let bm: u128 = if b < 0 {
        (-(b as i128)) as u128
    } else {
        b as u128
    };
    let m: u128 = (am * bm) / (SCALE as u128);
    proof {
        assert(am == mag(a as int));
        assert(bm == mag(b as int));
        assert(m == mag(a as int) * mag(b as int) / SCALE as int);
    }
    if neg {
        -(m as i64)
    } else {
        m as i64
    }
}

/// Fixed-point quotient, rounded toward zero; the divisor must be positive.
pub fn fp_div(a: i64, b: i64) -> (r: i64)
    requires
        b >= 1,
        mag(a as int) * SCALE as int / b as int <= i64::MAX,
    ensures
        r == div_scale(a as int, b as int),
{
    let am: u128 = if a < 0 {
        (-(a as i128)) as u128
    } else {
        a as u128
    };
    let m: u128 = (am * (SCALE as u128)) / (b as u128);
    proof {
        assert(am == mag(a as int));
        assert(m == mag(a as int) * SCALE as int / b as int);
    }
    if a < 0 {
        -(m as i64)
    } else {
        m as i64
    }
}

/// The integer square root, rounded down; 0 for negative arguments.
pub open spec fn sqrt_floor(n: int) -> int
    decreases n,
{
    if n <= 0 {
        0
    } else {
        let r = sqrt_floor(n - 1);
        if (r + 1) * (r + 1) <= n {
            r + 1
        } else {
            r
        }
    }
}

/// `sqrt_floor(n)` is the unique `r >= 0` with `r * r <= n < (r + 1) * (r + 1)`.
pub proof fn lemma_sqrt_floor_bounds(n: int)
    requires
        n >= 0,
    ensures
        0 <= sqrt_floor(n),
        sqrt_floor(n) * sqrt_floor(n) <= n,
        n < (sqrt_floor(n) + 1) * (sqrt_floor(n) + 1),
    decreases n,
{
    if n == 0 {
    } else {
        lemma_sqrt_floor_bounds(n - 1);
        let r = sqrt_floor(n - 1);
        if (r + 1) * (r + 1) <= n {
            assert(n <= (r + 1) * (r + 1)) by {
                assert(n - 1 < (r + 1) * (r + 1));
            }
            assert(n < (r + 2) * (r + 2)) by (nonlinear_arith)
                requires
                    n == (r + 1) * (r + 1),
                    r >= 0,
            ;
        }
    }
}

/// Any `r` meeting the square-root characterization equals `sqrt_floor(n)`.
pub proof fn lemma_sqrt_floor_unique(n: int, r: int)
    requires
        n >= 0,
        r >= 0,
        r * r <= n,
        n < (r + 1) * (r + 1),
    ensures
        r == sqrt_floor(n),
{
    lemma_sqrt_floor_bounds(n);
    let s = sqrt_floor(n);
    assert(r == s) by (nonlinear_arith)
        requires
            r >= 0,
            s >= 0,
            r * r <= n,
            n < (r + 1) * (r + 1),
            s * s <= n,
            n < (s + 1) * (s + 1),
    ;
}

/// The integer square root, by binary search.
pub fn isqrt(n: u64) -> (r: u64)
    ensures
        r == sqrt_floor(n as int),
{
    if n == 0 {
        proof {
            lemma_sqrt_floor_unique(n as int, 0);
        }
        return 0;
    }
    let mut lo: u64 = 0;
    let mut hi: u64 = 0x1_0000_0000;
    while lo + 1 < hi
        invariant
            lo < hi <= 0x1_0000_0000,
            (lo as int) * (lo as int) <= n,
            n < (hi as int) * (hi as int),
        decreases hi - lo,
    {
        let mid: u64 = lo + (hi - lo) / 2;
        proof {
            assert((mid as int) * (mid as int) <= 0x1_0000_0000_0000_0000) by (nonlinear_arith)
                requires
                    0 <= mid <= 0x1_0000_0000,
            ;
        }
        if (mid as u128) * (mid as u128) <= n as u128 {
            lo = mid;
        } else {
            hi = mid;
        }
    }
    proof {
        lemma_sqrt_floor_unique(n as int, lo as int);
    }
    lo
}

} // verus!
