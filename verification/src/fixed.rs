//! Fixed-point scalars.
//!
//! A scalar is an `i64` holding a real number scaled by `SCALE` (2^16).
//! Multiplication and division truncate toward zero, as the spec functions
//! `fmul` and `fdiv` describe exactly; square roots round down (`fsqrt`).

use vstd::prelude::*;
use vstd::arithmetic::div_mod::lemma_div_is_ordered;
use vstd::arithmetic::div_mod::lemma_div_is_ordered_by_denominator;
use vstd::arithmetic::div_mod::lemma_div_nonincreasing;
use vstd::arithmetic::div_mod::lemma_div_pos_is_pos;

verus! {

/// The fixed-point unit: representations are scaled by this factor.
pub const SCALE: i64 = 65536;

/// Truncating division of `a` by a positive `b` (rounds toward zero).
pub open spec fn tdiv(a: int, b: int) -> int
    recommends
        b > 0,
{
    if a >= 0 {
        a / b
    } else {
        -((-a) / b)
    }
}

/// Fixed-point product: `a * b` rescaled, truncated toward zero.
pub open spec fn fmul(a: int, b: int) -> int {
    tdiv(a * b, SCALE as int)
}

/// Fixed-point quotient: `a / b` rescaled, truncated toward zero.
pub open spec fn fdiv(a: int, b: int) -> int
    recommends
        b > 0,
{
    tdiv(a * (SCALE as int), b)
}

/// Integer square root, rounded down.
pub open spec fn isqrt(n: int) -> int
    recommends
        n >= 0,
    decreases n,
{
    if n <= 0 {
        0
    } else {
        let p = isqrt(n - 1);
        if (p + 1) * (p + 1) <= n {
            p + 1
        } else {
            p
        }
    }
}

/// Fixed-point square root: `sqrt(a / SCALE) * SCALE`, rounded down.
pub open spec fn fsqrt(a: int) -> int
    recommends
        a >= 0,
{
    isqrt(a * (SCALE as int))
}

pub proof fn lemma_isqrt_bounds(n: int)
    requires
        n >= 0,
    ensures
        0 <= isqrt(n),
        isqrt(n) * isqrt(n) <= n,
        n < (isqrt(n) + 1) * (isqrt(n) + 1),
    decreases n,
{
    if n > 0 {
        lemma_isqrt_bounds(n - 1);
        let p = isqrt(n - 1);
        if (p + 1) * (p + 1) <= n {
            assert(n < (p + 2) * (p + 2)) by (nonlinear_arith)
                requires
                    p >= 0,
                    n - 1 < (p + 1) * (p + 1),
            ;
        }
    }
}

pub proof fn lemma_isqrt_unique(n: int, r: int)
    requires
        n >= 0,
        r >= 0,
        r * r <= n,
        n < (r + 1) * (r + 1),
    ensures
        r == isqrt(n),
{
    lemma_isqrt_bounds(n);
    let s = isqrt(n);
    assert(r == s) by (nonlinear_arith)
        requires
            r >= 0,
            s >= 0,
            r * r <= n,
            n < (r + 1) * (r + 1),
            s * s <= n,
            n < (s + 1) * (s + 1),
    ;
}

/// Any `r` whose square stays below `n` bounds `isqrt(n)` from below.
pub proof fn lemma_isqrt_ge(n: int, r: int)
    requires
        n >= 0,
        r >= 0,
        r * r <= n,
    ensures
        isqrt(n) >= r,
{
    lemma_isqrt_bounds(n);
    let s = isqrt(n);
    assert(s >= r) by (nonlinear_arith)
        requires
            s >= 0,
            r >= 0,
            r * r <= n,
            n < (s + 1) * (s + 1),
    ;
}

/// Truncating division shrinks magnitudes: `|tdiv(a, b)| <= |a|` for `b >= 1`.
pub proof fn lemma_tdiv_abs(a: int, b: int)
    requires
        b >= 1,
    ensures
        a >= 0 ==> 0 <= tdiv(a, b) <= a,
        a < 0 ==> a <= tdiv(a, b) <= 0,
{
    if a >= 0 {
        lemma_div_pos_is_pos(a, b);
        lemma_div_nonincreasing(a, b);
    } else {
        lemma_div_pos_is_pos(-a, b);
        lemma_div_nonincreasing(-a, b);
    }
}

/// Truncating division by a positive divisor is monotone in the dividend.
pub proof fn lemma_tdiv_monotone(a: int, b: int, d: int)
    requires
        a <= b,
        d >= 1,
    ensures
        tdiv(a, d) <= tdiv(b, d),
{
    if a >= 0 {
        lemma_div_is_ordered(a, b, d);
    } else if b >= 0 {
        lemma_div_pos_is_pos(-a, d);
        lemma_div_pos_is_pos(b, d);
    } else {
        lemma_div_is_ordered(-b, -a, d);
    }
}

/// Magnitude bound for a fixed-point product: if `|a| <= ca` and
/// `|b| <= cb` then `|fmul(a, b)| <= ca * cb / SCALE`.
pub proof fn lemma_fmul_bound(a: int, b: int, ca: int, cb: int)
    requires
        -ca <= a <= ca,
        -cb <= b <= cb,
        ca >= 0,
        cb >= 0,
    ensures
        -((ca * cb) / (SCALE as int)) <= fmul(a, b) <= (ca * cb) / (SCALE as int),
{
    let s = SCALE as int;
    assert(-(ca * cb) <= a * b <= ca * cb) by (nonlinear_arith)
        requires
            -ca <= a <= ca,
            -cb <= b <= cb,
            ca >= 0,
            cb >= 0,
    ;
    lemma_div_pos_is_pos(ca * cb, s);
    if a * b >= 0 {
        lemma_div_is_ordered(a * b, ca * cb, s);
        lemma_div_pos_is_pos(a * b, s);
    } else {
        lemma_div_is_ordered(-(a * b), ca * cb, s);
        lemma_div_pos_is_pos(-(a * b), s);
    }
}

/// Multiplying by the fixed-point unit changes nothing.
pub proof fn lemma_fmul_one(x: int)
    ensures
        fmul(x, SCALE as int) == x,
        fmul(SCALE as int, x) == x,
{
    let s = SCALE as int;
    assert(x * s == s * x) by (nonlinear_arith);
    if x >= 0 {
        assert(x * s >= 0 && (x * s) / s == x) by (nonlinear_arith)
            requires
                s == 65536,
                x >= 0,
        ;
    } else {
        assert(x * s < 0 && -(x * s) == (-x) * s && ((-x) * s) / s == -x) by (nonlinear_arith)
            requires
                s == 65536,
                x < 0,
        ;
    }
}

/// Dividing by at least one unit does not grow magnitudes.
pub proof fn lemma_fdiv_le(a: int, b: int, cap: int)
    requires
        b >= SCALE as int,
        -cap <= a <= cap,
        0 <= cap,
    ensures
        -cap <= fdiv(a, b) <= cap,
{
    let s = SCALE as int;
    if a >= 0 {
        assert(a * s >= 0) by (nonlinear_arith)
            requires
                a >= 0,
                s > 0,
        ;
        lemma_div_is_ordered_by_denominator(a * s, s, b);
        assert((a * s) / s == a) by (nonlinear_arith)
            requires
                s == 65536,
                a >= 0,
        ;
        lemma_div_pos_is_pos(a * s, b);
    } else {
        assert(-(a * s) == (-a) * s && (-a) * s >= 0) by (nonlinear_arith)
            requires
                a < 0,
                s > 0,
        ;
        lemma_div_is_ordered_by_denominator((-a) * s, s, b);
        assert(((-a) * s) / s == -a) by (nonlinear_arith)
            requires
                s == 65536,
                a < 0,
        ;
        lemma_div_pos_is_pos((-a) * s, b);
    }
}

/// A fixed-point product of factors from `[0, SCALE]` stays in `[0, SCALE]`.
pub proof fn lemma_fmul_unit(a: int, b: int)
    requires
        0 <= a <= SCALE as int,
        0 <= b <= SCALE as int,
    ensures
        0 <= fmul(a, b) <= SCALE as int,
        fmul(a, b) <= a,
        fmul(a, b) <= b,
{
    let s = SCALE as int;
    assert(0 <= a * b <= a * s && a * b <= b * s) by (nonlinear_arith)
        requires
            0 <= a <= s,
            0 <= b <= s,
    ;
    lemma_div_pos_is_pos(a * b, s);
    lemma_div_is_ordered(a * b, a * s, s);
    lemma_div_is_ordered(a * b, b * s, s);
    assert((a * s) / s == a) by (nonlinear_arith)
        requires
            s > 0,
    ;
    assert((b * s) / s == b) by (nonlinear_arith)
        requires
            s > 0,
    ;
}

/// Fixed-point multiplication flips sign with either factor.
pub proof fn lemma_fmul_neg(a: int, b: int)
    ensures
        fmul(-a, b) == -fmul(a, b),
        fmul(a, -b) == -fmul(a, b),
{
    assert((-a) * b == -(a * b)) by (nonlinear_arith);
    assert(a * (-b) == -(a * b)) by (nonlinear_arith);
}

/// Truncating division of `a` by a positive `b`, exactly `tdiv`.
pub fn div_trunc(a: i64, b: i64) -> (r: i64)
    requires
        b >= 1,
        a > i64::MIN,
    ensures
        r == tdiv(a as int, b as int),
{
    if a >= 0 {
        let q: u64 = (a as u64) / (b as u64);
        proof {
            lemma_div_pos_is_pos(a as int, b as int);
            lemma_div_nonincreasing(a as int, b as int);
        }
        q as i64
    } else {
        let m: u64 = (-a) as u64;
        let q: u64 = m / (b as u64);
        proof {
            lemma_div_pos_is_pos(m as int, b as int);
            lemma_div_nonincreasing(m as int, b as int);
        }
        -(q as i64)
    }
}

/// Fixed-point product of two scalars, exactly `fmul`.
pub fn mul_fixed(a: i64, b: i64) -> (r: i64)
    requires
        -(i64::MAX as int + 1) * (SCALE as int) < (a as int) * (b as int),
        (a as int) * (b as int) < (i64::MAX as int + 1) * (SCALE as int),
    ensures
        r == fmul(a as int, b as int),
{
    let s = 65536u128;
    let neg: bool = (a < 0) != (b < 0);
    let ma: u64 = if a >= 0 {
        a as u64
    } else {
        (-(a as i128)) as u64
    };
    let mb: u64 = if b >= 0 {
        b as u64
    } else {
        (-(b as i128)) as u64
    };
    proof {
        assert((ma as int) * (mb as int) == if (a as int) * (b as int) >= 0 {
            (a as int) * (b as int)
        } else {
            -((a as int) * (b as int))
        }) by (nonlinear_arith)
            requires
                ma as int == if a as int >= 0 { a as int } else { -(a as int) },
                mb as int == if b as int >= 0 { b as int } else { -(b as int) },
        ;
    }
    let p: u128 = (ma as u128) * (mb as u128);
    let q: u128 = p / s;
    proof {
        lemma_div_is_ordered(p as int, (i64::MAX as int + 1) * (SCALE as int) - 1, s as int);
        assert(((i64::MAX as int + 1) * (SCALE as int) - 1) / (s as int) < i64::MAX as int + 1);
        lemma_div_pos_is_pos(p as int, s as int);
    }
    if neg {
        proof {
            if (a as int) * (b as int) >= 0 {
                assert((a as int) * (b as int) == 0) by (nonlinear_arith)
                    requires
                        (a < 0) != (b < 0),
                        (a as int) * (b as int) >= 0,
                ;
            }
        }
        -(q as i64)
    } else {
        proof {
            assert((a as int) * (b as int) >= 0) by (nonlinear_arith)
                requires
                    (a < 0) == (b < 0),
            ;
        }
        q as i64
    }
}

/// Fixed-point quotient of a scalar by a positive scalar, exactly `fdiv`.
pub fn div_fixed(a: i64, b: i64) -> (r: i64)
    requires
        b >= 1,
        -0x4000_0000_0000 <= a as int <= 0x4000_0000_0000,
    ensures
        r == fdiv(a as int, b as int),
{
    let neg: bool = a < 0;
    let ma: u64 = if a >= 0 {
        a as u64
    } else {
        (-a) as u64
    };
    let p: u128 = (ma as u128) * 65536;
    let q: u128 = p / (b as u128);
    proof {
        let s = SCALE as int;
        assert((ma as int) * s == if a as int >= 0 { (a as int) * s } else { -((a as int) * s) })
            by (nonlinear_arith)
            requires
                s > 0,
                ma as int == if a as int >= 0 { a as int } else { -(a as int) },
        ;
        lemma_div_nonincreasing(p as int, b as int);
        lemma_div_pos_is_pos(p as int, b as int);
    }
    if neg {
        -(q as i64)
    } else {
        q as i64
    }
}

/// Fixed-point square root of a nonnegative scalar, exactly `fsqrt`.
pub fn sqrt_fixed(a: i64) -> (r: i64)
    requires
        a >= 0,
    ensures
        r == fsqrt(a as int),
        r >= 0,
{
    let n: u128 = (a as u128) * 65536;
    let mut lo: u128 = 0;
    let mut hi: u128 = 0x100_0000_0000;
    proof {
        assert(n as int <= (i64::MAX as int) * 65536);
        assert((n as int) < 0x100_0000_0000 * 0x100_0000_0000);
    }
    while lo + 1 < hi
        invariant
            lo < hi,
            hi <= 0x100_0000_0000,
            (lo as int) * (lo as int) <= n as int,
            (n as int) < (hi as int) * (hi as int),
        decreases hi - lo,
    {
        let mid: u128 = lo + (hi - lo) / 2;
        assert(lo < mid < hi);
        proof {
            assert((mid as int) * (mid as int) <= 0x100_0000_0000 * 0x100_0000_0000)
                by (nonlinear_arith)
                requires
                    0 <= mid as int <= 0x100_0000_0000,
            ;
        }
        if mid * mid <= n {
            lo = mid;
        } else {
            hi = mid;
        }
    }
    proof {
        assert((n as int) < ((lo as int) + 1) * ((lo as int) + 1));
        lemma_isqrt_unique(n as int, lo as int);
        assert((lo as int) * (lo as int) <= n as int);
        assert((lo as int) < 0x100_0000_0000) by (nonlinear_arith)
            requires
                (lo as int) * (lo as int) <= n as int,
                (n as int) < 0x100_0000_0000 * 0x100_0000_0000,
                (lo as int) >= 0,
        ;
    }
    lo as i64
}

/// Clamp a scalar into an inclusive range.
pub fn clamp_i64(v: i64, lo: i64, hi: i64) -> (r: i64)
    requires
        lo <= hi,
    ensures
        r == if v < lo { lo } else if v > hi { hi } else { v },
        lo <= r <= hi,
{
    if v < lo {
        lo
    } else if v > hi {
        hi
    } else {
        v
    }
}

} // verus!
