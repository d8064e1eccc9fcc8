//! Saturating fixed-point arithmetic on `i64`.
//!
//! A raw value `v` stands for the number `v / ONE`. Every operation rounds
//! toward zero and saturates at the ends of the `i64` range, so none of them
//! can overflow or fail.

use vstd::prelude::*;

verus! {

/// Raw units that make up the number one.
pub const ONE: i64 = 1_000_000;

/// The number one half.
pub const HALF: i64 = 500_000;

/// The nearest `i64` to `v`.
pub open spec fn clamp(v: int) -> i64 {
    if v < i64::MIN as int {
        i64::MIN
    } else if v > i64::MAX as int {
        i64::MAX
    } else {
        v as i64
    }
}

/// The absolute value of `v`.
pub open spec fn magnitude(v: int) -> int {
    if v < 0 {
        -v
    } else {
        v
    }
}

/// The quotient `n / d` rounded toward zero (zero where `d` is zero).
pub open spec fn trunc_div(n: int, d: int) -> int {
    if d == 0 {
        0
    } else if (n < 0) == (d < 0) {
        magnitude(n) / magnitude(d)
    } else {
        -(magnitude(n) / magnitude(d))
    }
}

/// The sum, saturated.
pub open spec fn spec_plus(a: i64, b: i64) -> i64 {
    clamp(a + b)
}

/// The difference, saturated.
pub open spec fn spec_minus(a: i64, b: i64) -> i64 {
    clamp(a - b)
}

/// The opposite, saturated: the opposite of the least value is the greatest.
pub open spec fn spec_negate(a: i64) -> i64 {
    clamp(-a)
}

/// The fixed-point product: the raw product divided by `ONE`.
pub open spec fn spec_times(a: i64, b: i64) -> i64 {
    clamp(trunc_div(a * b, ONE as int))
}

/// The fixed-point quotient. Dividing by zero saturates toward the sign of
/// the numerator, and zero over zero is zero.
pub open spec fn spec_over(a: i64, b: i64) -> i64 {
    if b == 0 {
        if a > 0 {
            i64::MAX
        } else if a < 0 {
            i64::MIN
        } else {
            0
        }
    } else {
        clamp(trunc_div(a * ONE, b as int))
    }
}

/// `count` copies of `a` added up.
pub open spec fn spec_repeat(a: i64, count: usize) -> i64 {
    clamp(a * count)
}

/// `r` is the integer square root of `n`, rounded down.
pub open spec fn is_floor_root(n: int, r: int) -> bool {
    0 <= r && r * r <= n && n < (r + 1) * (r + 1)
}

/// The integer square root of `n`, rounded down.
pub open spec fn floor_root(n: int) -> int {
    choose|r: int| is_floor_root(n, r)
}

/// A number has at most one rounded-down square root.
pub proof fn lemma_floor_root_unique(n: int, r1: int, r2: int)
    requires
        is_floor_root(n, r1),
        is_floor_root(n, r2),
    ensures
        r1 == r2,
{
    if r1 < r2 {
        assert((r1 + 1) * (r1 + 1) <= r2 * r2) by (nonlinear_arith)
            requires
                0 <= r1 + 1 <= r2,
        ;
    } else if r2 < r1 {
        assert((r2 + 1) * (r2 + 1) <= r1 * r1) by (nonlinear_arith)
            requires
                0 <= r2 + 1 <= r1,
        ;
    }
}

/// A product with a zero factor is zero.
pub proof fn lemma_times_zero(a: i64)
    ensures
        spec_times(a, 0) == 0,
        spec_times(0, a) == 0,
{
    assert(a * 0 == 0 && 0 * a == 0) by (nonlinear_arith);
}

/// Zero divided by anything is zero.
pub proof fn lemma_zero_over(b: i64)
    ensures
        spec_over(0, b) == 0,
{
    assert(0 * ONE == 0);
    if b != 0 {
        assert(0int / magnitude(b as int) == 0) by (nonlinear_arith)
            requires
                magnitude(b as int) > 0,
        ;
    }
}

/// Narrows a wide intermediate result, saturating at the ends of `i64`.
pub fn narrow(v: i128) -> (r: i64)
    ensures
        r == clamp(v as int),
{
    if v < i64::MIN as i128 {
        i64::MIN
    } else if v > i64::MAX as i128 {
        i64::MAX
    } else {
        v as i64
    }
}

/// Adds two numbers.
pub fn plus(a: i64, b: i64) -> (r: i64)
    ensures
        r == spec_plus(a, b),
{
    narrow(a as i128 + b as i128)
}

/// Subtracts `b` from `a`.
pub fn minus(a: i64, b: i64) -> (r: i64)
    ensures
        r == spec_minus(a, b),
{
    narrow(a as i128 - b as i128)
}

/// Changes the sign of `a`.
pub fn negate(a: i64) -> (r: i64)
    ensures
        r == spec_negate(a),
{
    narrow(-(a as i128))
}

/// Multiplies two fixed-point numbers.
pub fn times(a: i64, b: i64) -> (r: i64)
    ensures
        r == spec_times(a, b),
{
    assert(-0x4000_0000_0000_0000_0000_0000_0000_0000 <= a * b
        <= 0x4000_0000_0000_0000_0000_0000_0000_0000) by (nonlinear_arith)
        requires
            -0x8000_0000_0000_0000 <= a <= 0x8000_0000_0000_0000,
            -0x8000_0000_0000_0000 <= b <= 0x8000_0000_0000_0000,
    ;
    let wide: i128 = (a as i128) * (b as i128);
    narrow(wide / (ONE as i128))
}

/// The absolute value of `a`, widened so that it always fits.
pub fn wide_magnitude(a: i64) -> (m: u128)
    ensures
        m == magnitude(a as int),
{
    if a < 0 {
        (-(a as i128)) as u128
    } else {
        a as u128
    }
}

/// Divides the fixed-point number `a` by `b`.
pub fn over(a: i64, b: i64) -> (r: i64)
    ensures
        r == spec_over(a, b),
{
    if b == 0 {
        if a > 0 {
            i64::MAX
        } else if a < 0 {
            i64::MIN
        } else {
            0
        }
    } else {
        let num: u128 = wide_magnitude(a) * 1_000_000;
        let den: u128 = wide_magnitude(b);
        let q: i128 = (num / den) as i128;
        assert(num == magnitude(a * ONE));
        if (a < 0) == (b < 0) {
            narrow(q)
        } else {
            narrow(-q)
        }
    }
}

/// Multiplies `a` by a whole number.
pub fn repeat(a: i64, count: usize) -> (r: i64)
    ensures
        r == spec_repeat(a, count),
{
    assert(-0x8000_0000_0000_0000_0000_0000_0000_0000 <= a * count
        <= 0x8000_0000_0000_0000_0000_0000_0000_0000 - 1) by (nonlinear_arith)
        requires
            -0x8000_0000_0000_0000 <= a <= 0x8000_0000_0000_0000,
            0 <= count <= 0xffff_ffff_ffff_ffff,
    ;
    let wide: i128 = (a as i128) * (count as i128);
    narrow(wide)
}

/// The integer square root of `n`, rounded down, found by bisection.
pub fn root(n: u128) -> (r: u64)
    ensures
        is_floor_root(n as int, r as int),
        r == floor_root(n as int),
{
    let mut lo: u128 = 0;
    let mut hi: u128 = 0x1_0000_0000_0000_0000;
    assert(hi * hi > n) by (nonlinear_arith)
        requires
            hi == 0x1_0000_0000_0000_0000,
            n <= 0xffff_ffff_ffff_ffff_ffff_ffff_ffff_ffff,
    ;
    while hi - lo > 1
        invariant
            lo < hi <= 0x1_0000_0000_0000_0000,
            lo * lo <= n,
            n < hi * hi,
        decreases hi - lo,
    {
        let mid: u128 = lo + (hi - lo) / 2;
        assert(mid * mid <= 0xffff_ffff_ffff_ffff_ffff_ffff_ffff_ffff) by (nonlinear_arith)
            requires
                0 <= mid <= 0xffff_ffff_ffff_ffff,
        ;
        if mid * mid <= n {
            lo = mid;
        } else {
            hi = mid;
        }
    }
    proof {
        assert(hi == lo + 1);
        assert(is_floor_root(n as int, lo as int));
        lemma_floor_root_unique(n as int, lo as int, floor_root(n as int));
    }
    lo as u64
}

} // verus!
