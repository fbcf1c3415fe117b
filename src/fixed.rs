//! Signed fixed-point scalars.
//!
//! A scalar is an `i64` holding `value * ONE`. Every operation saturates its
//! result into `[-LIMIT, LIMIT]`, so chains of operations never overflow and
//! an "infinite" quantity is represented by `LIMIT`.
use vstd::prelude::*;

verus! {

/// The raw value of `1.0`.
pub const ONE: i64 = 65536;

/// The largest magnitude of a raw value (`2^24` in scalar units).
pub const LIMIT: i64 = 1099511627776;

/// The raw value of pi, rounded to nearest.
pub const PI: i64 = 205887;

/// Saturates an exact result into the representable range.
pub open spec fn clip(v: int) -> int {
    if v > LIMIT {
        LIMIT as int
    } else if v < -LIMIT {
        -LIMIT
    } else {
        v
    }
}

/// A raw value in the representable range.
pub open spec fn in_range(v: int) -> bool {
    -LIMIT <= v <= LIMIT
}

/// Division rounding toward negative infinity.
pub open spec fn floor_div(n: int, d: int) -> int {
    if d > 0 {
        n / d
    } else {
        (-n) / (-d)
    }
}

/// Product of two scalars, rounded down.
pub open spec fn fx_mul(a: int, b: int) -> int {
    clip((a * b) / (ONE as int))
}

/// Quotient of two scalars, rounded down; division by zero saturates with
/// the sign of the dividend.
pub open spec fn fx_div(a: int, b: int) -> int {
    if b == 0 {
        if a >= 0 {
            LIMIT as int
        } else {
            -LIMIT
        }
    } else {
        clip(floor_div(a * ONE, b))
    }
}

/// `r` is the integer square root of `n`.
pub open spec fn is_isqrt(n: int, r: int) -> bool {
    0 <= r && r * r <= n < (r + 1) * (r + 1)
}

/// The integer square root of a non-negative integer.
pub open spec fn isqrt(n: int) -> int {
    choose|r: int| is_isqrt(n, r)
}

/// Square root of a non-negative scalar, rounded down.
pub open spec fn fx_sqrt(a: int) -> int {
    isqrt(a * ONE)
}

/// The integer square root is unique.
pub proof fn lemma_isqrt_unique(n: int, r: int)
    requires
        is_isqrt(n, r),
    ensures
        isqrt(n) == r,
{
    assert(is_isqrt(n, isqrt(n)));
    let s = isqrt(n);
    if s < r {
        assert((s + 1) * (s + 1) <= r * r) by (nonlinear_arith)
            requires
                0 <= s < r,
        ;
    } else if r < s {
        assert((r + 1) * (r + 1) <= s * s) by (nonlinear_arith)
            requires
                0 <= r < s,
        ;
    }
}

/// Rounds a quotient down, for any non-zero divisor.
pub fn div_floor(n: i128, d: i128) -> (r: i128)
    requires
        d != 0,
        -0x1000_0000_0000_0000_0000_0000_0000 <= n <= 0x1000_0000_0000_0000_0000_0000_0000,
        -0x1000_0000_0000_0000_0000_0000_0000 <= d <= 0x1000_0000_0000_0000_0000_0000_0000,
    ensures
        r == floor_div(n as int, d as int),
{
    let (nn, dd) = if d > 0 {
        (n, d)
    } else {
        (-n, -d)
    };
    if nn >= 0 {
        let q = (nn as u128) / (dd as u128);
        q as i128
    } else {
        let m = ((-nn - 1) as u128) / (dd as u128);
        proof {
            let a = nn as int;
            let b = dd as int;
            let k = (-a - 1) / b;
            assert(m == k);
            assert(a / b == -k - 1) by {
                let t = (-a - 1) % b;
                vstd::arithmetic::div_mod::lemma_fundamental_div_mod(-a - 1, b);
                vstd::arithmetic::div_mod::lemma_mod_pos_bound(-a - 1, b);
                assert(a == b * (-k - 1) + (b - 1 - t)) by (nonlinear_arith)
                    requires
                        -a - 1 == b * k + t,
                ;
                vstd::arithmetic::div_mod::lemma_fundamental_div_mod_converse(
                    a,
                    b,
                    -k - 1,
                    b - 1 - t,
                );
            }
        }
        -(m as i128) - 1
    }
}

/// Whether a raw value is in the representable range.
pub fn is_in_range(v: i64) -> (r: bool)
    ensures
        r == in_range(v as int),
{
    -LIMIT <= v && v <= LIMIT
}

/// Saturates an `i128` into the representable range.
pub fn clip_wide(v: i128) -> (r: i64)
    ensures
        r == clip(v as int),
{
    if v > LIMIT as i128 {
        LIMIT
    } else if v < -(LIMIT as i128) {
        -LIMIT
    } else {
        v as i64
    }
}

/// Product of two scalars.
pub fn mul(a: i64, b: i64) -> (r: i64)
    requires
        in_range(a as int),
        in_range(b as int),
    ensures
        r == fx_mul(a as int, b as int),
        in_range(r as int),
{
    assert(-0x1_0000_0000_0000_0000_0000 <= (a as int) * (b as int) <= 0x1_0000_0000_0000_0000_0000)
        by (nonlinear_arith)
        requires
            in_range(a as int),
            in_range(b as int),
    ;
    let p = (a as i128) * (b as i128);
    clip_wide(div_floor(p, ONE as i128))
}

/// Quotient of two scalars.
pub fn div(a: i64, b: i64) -> (r: i64)
    requires
        in_range(a as int),
        in_range(b as int),
    ensures
        r == fx_div(a as int, b as int),
        in_range(r as int),
{
    if b == 0 {
        if a >= 0 {
            LIMIT
        } else {
            -LIMIT
        }
    } else {
        clip_wide(div_floor((a as i128) * (ONE as i128), b as i128))
    }
}

/// Integer square root by bisection.
pub fn sqrt_wide(n: u128) -> (r: u128)
    requires
        n <= 0x400_0000_0000_0000_0000_0000_0000_0000,
    ensures
        is_isqrt(n as int, r as int),
        r <= 0x2000_0000_0000_0000,
{
    let mut lo: u128 = 0;
    let mut hi: u128 = 0x2000_0000_0000_0001;
    assert(n < (hi as int) * (hi as int)) by (nonlinear_arith)
        requires
            hi == 0x2000_0000_0000_0001,
            n <= 0x400_0000_0000_0000_0000_0000_0000_0000,
    ;
    while hi - lo > 1
        invariant
            lo < hi <= 0x2000_0000_0000_0001,
            (lo as int) * (lo as int) <= n,
            n < (hi as int) * (hi as int),
        decreases hi - lo,
    {
        let mid = lo + (hi - lo) / 2;
        assert((mid as int) * (mid as int) <= 0x2000_0000_0000_0001 * 0x2000_0000_0000_0001)
            by (nonlinear_arith)
            requires
                mid <= 0x2000_0000_0000_0001,
        ;
        if mid * mid <= n {
            lo = mid;
        } else {
            hi = mid;
        }
    }
    assert(hi == lo + 1);
    proof {
        lemma_isqrt_unique(n as int, lo as int);
    }
    lo
}

/// Square root of a non-negative scalar.
pub fn sqrt(a: i64) -> (r: i64)
    requires
        0 <= a <= LIMIT,
    ensures
        r == fx_sqrt(a as int),
        0 <= r <= LIMIT,
{
    assert((a as int) * (ONE as int) <= 0x100_0000_0000_0000) by (nonlinear_arith)
        requires
            0 <= a <= LIMIT,
    ;
    let n = (a as u128) * (ONE as u128);
    let s = sqrt_wide(n);
    proof {
        lemma_isqrt_unique(n as int, s as int);
        if s > LIMIT {
            assert((s as int) * (s as int) > n) by (nonlinear_arith)
                requires
                    s > LIMIT,
                    n <= 0x100_0000_0000_0000,
            ;
        }
    }
    s as i64
}

/// A lower bound on the integer square root.
pub proof fn lemma_isqrt_ge(n: int, m: int)
    requires
        0 <= m,
        m * m <= n,
    ensures
        m <= isqrt(n),
        is_isqrt(n, isqrt(n)),
{
    lemma_isqrt_exists(n);
    let s = isqrt(n);
    if s < m {
        assert((s + 1) * (s + 1) <= m * m) by (nonlinear_arith)
            requires
                0 <= s < m,
        ;
    }
}

/// Every non-negative integer has an integer square root.
pub proof fn lemma_isqrt_exists(n: int)
    requires
        0 <= n,
    ensures
        is_isqrt(n, isqrt(n)),
    decreases n,
{
    if n == 0 {
        assert(is_isqrt(0, 0));
    } else {
        lemma_isqrt_exists(n - 1);
        let r = isqrt(n - 1);
        if (r + 1) * (r + 1) <= n {
            assert(n < (r + 2) * (r + 2)) by (nonlinear_arith)
                requires
                    n - 1 < (r + 1) * (r + 1),
                    r >= 0,
            ;
            assert(is_isqrt(n, r + 1));
        } else {
            assert(is_isqrt(n, r));
        }
    }
}

/// Division rounding to the nearest integer, halves away from zero, so that
/// `round_div(-n, d) == -round_div(n, d)`.
pub open spec fn round_div(n: int, d: int) -> int {
    if n >= 0 {
        (2 * n + d) / (2 * d)
    } else {
        -((-2 * n + d) / (2 * d))
    }
}

/// The nearest integer to `n / d`, for a divisor of either sign; the result
/// is unchanged when both operands change sign.
pub open spec fn ratio(n: int, d: int) -> int {
    if d > 0 {
        round_div(n, d)
    } else {
        round_div(-n, -d)
    }
}

/// Rounding halves away from zero is odd: negating the dividend negates
/// the result.
pub proof fn lemma_round_div_neg(n: int, d: int)
    requires
        d > 0,
    ensures
        round_div(-n, d) == -round_div(n, d),
{
    if n == 0 {
        vstd::arithmetic::div_mod::lemma_fundamental_div_mod_converse(d, 2 * d, 0, d);
    }
}

/// Rounds a quotient to the nearest integer, halves away from zero.
pub fn div_round(n: i128, d: i128) -> (r: i128)
    requires
        0 < d <= 0x1000_0000_0000_0000_0000_0000_0000,
        -0x1000_0000_0000_0000_0000_0000_0000 <= n <= 0x1000_0000_0000_0000_0000_0000_0000,
    ensures
        r == round_div(n as int, d as int),
{
    if n >= 0 {
        ((2 * (n as u128) + (d as u128)) / (2 * (d as u128))) as i128
    } else {
        -(((2 * ((-n) as u128) + (d as u128)) / (2 * (d as u128))) as i128)
    }
}

/// The nearest integer to `n / d`, for a non-zero divisor of either sign.
pub fn div_ratio(n: i128, d: i128) -> (r: i128)
    requires
        d != 0,
        -0x1000_0000_0000_0000_0000_0000_0000 <= d <= 0x1000_0000_0000_0000_0000_0000_0000,
        -0x1000_0000_0000_0000_0000_0000_0000 <= n <= 0x1000_0000_0000_0000_0000_0000_0000,
    ensures
        r == ratio(n as int, d as int),
{
    if d > 0 {
        div_round(n, d)
    } else {
        div_round(-n, -d)
    }
}

} // verus!
