//! Fixed-point scalar support: scale constants, truncating division,
//! and an integer square root.

use vstd::prelude::*;

verus! {

/// Number of raw units per 1.0 of value: every scalar in this library
/// is an `i128` holding `value * SCALE`.
pub const SCALE: i128 = 4096;

/// Largest magnitude accepted for a raw data cell.
pub const MAX_RAW: i128 = 2097152;

/// Largest number of observations (rows) accepted.
pub const MAX_ROWS: usize = 1024;

/// Largest number of variables (columns) accepted.
pub const MAX_COLS: usize = 1024;

/// Quotient of `a / b` rounded toward zero, as Rust's `/` computes it.
pub open spec fn tdiv(a: int, b: int) -> int {
    if a >= 0 {
        a / b
    } else {
        -((-a) / b)
    }
}

/// Truncating division on raw scalars.
pub fn div_trunc(a: i128, b: i128) -> (r: i128)
    requires
        b > 0,
        a > i128::MIN,
    ensures
        r == tdiv(a as int, b as int),
{
    a / b
}

/// Largest magnitude an elimination step will multiply: operands are
/// rejected beyond this, so products stay well inside `i128`.
pub const SAFE: i128 = 0x800_0000_0000_0000;

/// Residual tolerance for an acceptable approximate inverse, in raw
/// units (`TOL / SCALE` of 1.0).
pub const TOL: i128 = 64;

/// Magnitude of an integer.
pub open spec fn abs_i(a: int) -> int {
    if a < 0 {
        -a
    } else {
        a
    }
}

/// Quotient rounded toward zero for any nonzero divisor, as Rust's
/// `/` computes it.
pub open spec fn tdiv_any(a: int, b: int) -> int {
    if b >= 0 {
        tdiv(a, b)
    } else {
        -tdiv(a, -b)
    }
}

/// Truncating division by a nonzero divisor of either sign.  The
/// quotient never exceeds the dividend in magnitude.
pub fn sdiv(a: i128, b: i128) -> (r: i128)
    requires
        b != 0,
        -0x4000_0000_0000_0000_0000_0000_0000_0000 <= a
            <= 0x4000_0000_0000_0000_0000_0000_0000_0000,
        -0x4000_0000_0000_0000_0000_0000_0000_0000 <= b
            <= 0x4000_0000_0000_0000_0000_0000_0000_0000,
    ensures
        r == tdiv_any(a as int, b as int),
        -abs_i(a as int) <= r <= abs_i(a as int),
{
    proof {
        let ua = abs_i(a as int);
        let ub = abs_i(b as int);
        vstd::arithmetic::div_mod::lemma_div_pos_is_pos(ua, ub);
        vstd::arithmetic::div_mod::lemma_div_is_ordered_by_denominator(ua, 1, ub);
        vstd::arithmetic::div_mod::lemma_div_by_self(1);
        assert(ua / 1 == ua) by (nonlinear_arith);
        assert(0 <= ua / ub <= ua);
    }
    if b > 0 {
        if a >= 0 {
            a / b
        } else {
            -((-a) / b)
        }
    } else {
        if a >= 0 {
            -(a / (-b))
        } else {
            (-a) / (-b)
        }
    }
}

/// Floor of the square root of a nonnegative integer.
pub open spec fn sqf(n: int) -> int
    decreases n,
{
    if n <= 0 {
        0
    } else if (sqf(n - 1) + 1) * (sqf(n - 1) + 1) <= n {
        sqf(n - 1) + 1
    } else {
        sqf(n - 1)
    }
}

/// `sqf(n)` is the unique nonnegative `r` with `r^2 <= n < (r+1)^2`.
pub proof fn lemma_sqf_bounds(n: int)
    requires
        n >= 0,
    ensures
        sqf(n) >= 0,
        sqf(n) * sqf(n) <= n,
        n < (sqf(n) + 1) * (sqf(n) + 1),
    decreases n,
{
    if n == 0 {
    } else {
        lemma_sqf_bounds(n - 1);
        let p = sqf(n - 1);
        if (p + 1) * (p + 1) <= n {
            assert(n - 1 < (p + 1) * (p + 1));
            assert(n == (p + 1) * (p + 1));
            assert(n < (p + 2) * (p + 2)) by (nonlinear_arith)
                requires p >= 0 && n == (p + 1) * (p + 1);
        }
    }
}

/// Any `r` meeting the square-root characterization equals `sqf(n)`.
pub proof fn lemma_sqf_is(n: int, r: int)
    requires
        n >= 0,
        r >= 0,
        r * r <= n,
        n < (r + 1) * (r + 1),
    ensures
        r == sqf(n),
{
    lemma_sqf_bounds(n);
    let s = sqf(n);
    assert(r == s) by (nonlinear_arith)
        requires
            r >= 0 && s >= 0 && r * r <= n && n < (r + 1) * (r + 1) && s * s <= n && n < (s + 1)
                * (s + 1);
}

/// The floor square root of a perfect square is exact.
pub proof fn lemma_sqf_square(a: int)
    requires
        a >= 0,
    ensures
        sqf(a * a) == a,
{
    assert(a * a >= 0) by (nonlinear_arith)
        requires a >= 0;
    assert(a * a < (a + 1) * (a + 1)) by (nonlinear_arith)
        requires a >= 0;
    lemma_sqf_is(a * a, a);
}

/// Integer square root by bisection.
pub fn isqrt(n: i128) -> (r: i128)
    requires
        0 <= n <= 0x4000_0000_0000_0000_0000_0000_0000_0000,
    ensures
        r == sqf(n as int),
        r >= 0,
        r * r <= n,
        n < (r + 1) * (r + 1),
{
    let mut lo: i128 = 0;
    let mut hi: i128 = 0x8000_0000_0000_0001;
    proof {
        assert((hi as int) * (hi as int) > n as int) by (nonlinear_arith)
            requires hi == 0x8000_0000_0000_0001i128 && n <= 0x4000_0000_0000_0000_0000_0000_0000_0000;
    }
    while lo + 1 < hi
        invariant
            0 <= lo < hi <= 0x8000_0000_0000_0001,
            (lo as int) * (lo as int) <= n as int,
            (n as int) < (hi as int) * (hi as int),
            n <= 0x4000_0000_0000_0000_0000_0000_0000_0000,
        decreases hi - lo,
    {
        let mid: i128 = lo + (hi - lo) / 2;
        assert(lo < mid < hi);
        proof {
            assert((mid as int) * (mid as int) <= 0x4000_0000_0000_0001_0000_0000_0000_0001)
                by (nonlinear_arith)
                requires 0 <= mid <= 0x8000_0000_0000_0001i128;
        }
        if mid * mid <= n {
            lo = mid;
        } else {
            hi = mid;
        }
    }
    proof {
        lemma_sqf_is(n as int, lo as int);
    }
    lo
}

/// Clamp a raw scalar into the unit interval `[-SCALE, SCALE]`.
pub open spec fn clamp_unit(x: int) -> int {
    if x > SCALE {
        SCALE as int
    } else if x < -SCALE {
        -(SCALE as int)
    } else {
        x
    }
}

/// Clamp a raw scalar into `[-SCALE, SCALE]`.
pub fn clamp_to_unit(x: i128) -> (r: i128)
    ensures
        r == clamp_unit(x as int),
{
    if x > SCALE {
        SCALE
    } else if x < -SCALE {
        -SCALE
    } else {
        x
    }
}

} // verus!
