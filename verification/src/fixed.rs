//! Fixed-point arithmetic shared by the whole crate.
//!
//! Fractions are never stored as such. A coordinate, a size, a zoom factor or
//! an importance is a whole number of millionths: `UNIT` stands for one.

use vstd::prelude::*;

verus! {

/// The number that stands for one whole: quantities are counted in millionths.
pub const UNIT: u32 = 1_000_000;

/// The quotient `n / d` rounded to the nearest whole number, a half rounding
/// upward. Meant for `n >= 0` and `d > 0`.
pub open spec fn round_div(n: int, d: int) -> int {
    (2 * n + d) / (2 * d)
}

/// The least whole number whose square is at least `n`.
pub open spec fn is_ceil_sqrt(n: int, r: int) -> bool {
    &&& 0 <= r
    &&& n <= r * r
    &&& r == 0 || (r - 1) * (r - 1) < n
}

/// `v` brought into the range from `lo` to `hi`.
pub open spec fn clamp_int(v: int, lo: int, hi: int) -> int {
    if v < lo {
        lo
    } else if v > hi {
        hi
    } else {
        v
    }
}

/// The distance between two numbers.
pub open spec fn gap(a: int, b: int) -> int {
    if a >= b {
        a - b
    } else {
        b - a
    }
}

/// The square root of `n`, rounded upward.
pub open spec fn ceil_sqrt_of(n: int) -> int {
    choose|r: int| is_ceil_sqrt(n, r)
}

/// The number that lies `s` parts of `unit` on the way from `a` to `b`. The
/// way gone is rounded to the nearest whole number. With `s` beyond `unit`
/// the result lies beyond `b`.
pub open spec fn mix(a: int, b: int, s: int, unit: int) -> int {
    if b >= a {
        a + round_div((b - a) * s, unit)
    } else {
        a - round_div((a - b) * s, unit)
    }
}

/// Only one number is the rounded-up square root of `n`.
pub proof fn lemma_ceil_sqrt_unique(n: int, a: int, b: int)
    requires
        is_ceil_sqrt(n, a),
        is_ceil_sqrt(n, b),
    ensures
        a == b,
{
    if a < b {
        assert(a * a <= (b - 1) * (b - 1)) by (nonlinear_arith)
            requires
                0 <= a <= b - 1,
        ;
    } else if b < a {
        assert(b * b <= (a - 1) * (a - 1)) by (nonlinear_arith)
            requires
                0 <= b <= a - 1,
        ;
    }
}

/// Every number from zero on has a rounded-up square root.
pub proof fn lemma_ceil_sqrt_exists(n: int)
    requires
        0 <= n,
    ensures
        is_ceil_sqrt(n, ceil_sqrt_of(n)),
    decreases n,
{
    if n == 0 {
        assert(is_ceil_sqrt(0, 0));
    } else {
        lemma_ceil_sqrt_exists(n - 1);
        let r = ceil_sqrt_of(n - 1);
        if r * r >= n {
            assert(is_ceil_sqrt(n, r));
        } else {
            assert((r + 1) * (r + 1) >= n && (r + 1 - 1) * (r + 1 - 1) < n) by (nonlinear_arith)
                requires
                    0 <= r,
                    n - 1 <= r * r < n,
            ;
            assert(is_ceil_sqrt(n, r + 1));
        }
    }
}

/// A number that is the rounded-up square root of `n` is `ceil_sqrt_of(n)`.
pub proof fn lemma_ceil_sqrt_of(n: int, r: int)
    requires
        is_ceil_sqrt(n, r),
    ensures
        ceil_sqrt_of(n) == r,
{
    lemma_ceil_sqrt_unique(n, ceil_sqrt_of(n), r);
}

/// The rounded quotient lies within half a divisor of the exact one.
pub proof fn lemma_round_div_bounds(n: int, d: int)
    requires
        0 <= n,
        0 < d,
    ensures
        0 <= round_div(n, d),
        2 * round_div(n, d) * d <= 2 * n + d,
        2 * n + d < 2 * (round_div(n, d) + 1) * d,
{
    let q = round_div(n, d);
    let m = 2 * n + d;
    let e = 2 * d;
    assert(q == m / e);
    assert(0 <= q && q * e <= m && m < (q + 1) * e) by (nonlinear_arith)
        requires
            0 <= m,
            0 < e,
            q == m / e,
    ;
    assert(2 * q * d == q * e) by (nonlinear_arith)
        requires
            e == 2 * d,
    ;
    assert(2 * (q + 1) * d == (q + 1) * e) by (nonlinear_arith)
        requires
            e == 2 * d,
    ;
}

/// Any whole number within half a divisor of the exact quotient is the
/// rounded quotient.
pub proof fn lemma_round_div_unique(n: int, d: int, q: int)
    requires
        0 < d,
        2 * q * d <= 2 * n + d,
        2 * n + d < 2 * (q + 1) * d,
    ensures
        round_div(n, d) == q,
{
    let m = 2 * n + d;
    let e = 2 * d;
    assert(q * e == 2 * q * d) by (nonlinear_arith)
        requires
            e == 2 * d,
    ;
    assert((q + 1) * e == 2 * (q + 1) * d) by (nonlinear_arith)
        requires
            e == 2 * d,
    ;
    assert(m / e == q) by (nonlinear_arith)
        requires
            0 < e,
            q * e <= m,
            m < (q + 1) * e,
    ;
}

/// Rounding keeps the order of the dividends.
pub proof fn lemma_round_div_monotonic(a: int, b: int, d: int)
    requires
        0 <= a <= b,
        0 < d,
    ensures
        round_div(a, d) <= round_div(b, d),
{
    let x = 2 * a + d;
    let y = 2 * b + d;
    let e = 2 * d;
    assert(x / e <= y / e) by (nonlinear_arith)
        requires
            0 <= x <= y,
            0 < e,
    ;
}

/// Dividing a multiple of the divisor is exact.
pub proof fn lemma_round_div_exact(q: int, d: int)
    requires
        0 <= q,
        0 < d,
    ensures
        round_div(q * d, d) == q,
{
    assert(2 * q * d <= 2 * (q * d) + d && 2 * (q * d) + d < 2 * (q + 1) * d)
        by (nonlinear_arith)
        requires
            0 < d,
    ;
    lemma_round_div_unique(q * d, d, q);
}

/// Divides and rounds to the nearest whole number, a half rounding upward.
pub fn div_round(n: u128, d: u128) -> (q: u128)
    requires
        0 < d,
        2 * n + d <= u128::MAX,
        2 * d <= u128::MAX,
    ensures
        q == round_div(n as int, d as int),
{
    (2 * n + d) / (2 * d)
}

/// Brings a signed value into the range from zero to `hi`.
pub fn clamp_to(v: i64, hi: u32) -> (r: u32)
    ensures
        r == clamp_int(v as int, 0, hi as int),
{
    if v < 0 {
        0
    } else if v > hi as i64 {
        hi
    } else {
        v as u32
    }
}

/// The distance between two numbers.
pub fn gap_of(a: u32, b: u32) -> (g: u32)
    ensures
        g == gap(a as int, b as int),
{
    if a >= b {
        a - b
    } else {
        b - a
    }
}

/// The square root of `n`, rounded upward.
pub fn ceil_sqrt(n: u128) -> (r: u64)
    requires
        n <= 0x4_0000_0000_0000_0000,
    ensures
        r == ceil_sqrt_of(n as int),
        is_ceil_sqrt(n as int, r as int),
        r <= 0x2_0000_0000,
{
    proof {
        if n == 0 {
            lemma_ceil_sqrt_of(0, 0);
        }
    }
    if n == 0 {
        return 0;
    }
    let mut lo: u64 = 0;
    let mut hi: u64 = 0x2_0000_0000;
    assert(hi * hi == 0x4_0000_0000_0000_0000) by (nonlinear_arith)
        requires
            hi == 0x2_0000_0000,
    ;
    while hi - lo > 1
        invariant
            0 < n <= 0x4_0000_0000_0000_0000,
            lo < hi <= 0x2_0000_0000,
            lo * lo < n,
            n <= hi * hi,
        decreases hi - lo,
    {
        let mid: u64 = lo + (hi - lo) / 2;
        assert(mid * mid <= 0x4_0000_0000_0000_0000) by (nonlinear_arith)
            requires
                mid <= 0x2_0000_0000,
        ;
        let sq: u128 = (mid as u128) * (mid as u128);
        if sq >= n {
            hi = mid;
        } else {
            lo = mid;
        }
    }
    assert(hi - 1 == lo);
    proof {
        lemma_ceil_sqrt_of(n as int, hi as int);
    }
    hi
}

} // verus!
