//! Two-dimensional fixed-point vectors and the plane geometry built on them.

use vstd::prelude::*;
use crate::fixed;

verus! {

/// A point or displacement in the plane, in fixed-point coordinates.
#[derive(Clone, Copy, PartialEq, Eq, Structural, Debug)]
pub struct Vec2 {
    pub x: i64,
    pub y: i64,
}

impl Vec2 {
    /// The origin.
    pub open spec fn spec_zero() -> Vec2 {
        Vec2 { x: 0, y: 0 }
    }

    /// The sum, coordinate by coordinate.
    pub open spec fn spec_plus(self, other: Vec2) -> Vec2 {
        Vec2 { x: fixed::spec_plus(self.x, other.x), y: fixed::spec_plus(self.y, other.y) }
    }

    /// The difference, coordinate by coordinate.
    pub open spec fn spec_minus(self, other: Vec2) -> Vec2 {
        Vec2 { x: fixed::spec_minus(self.x, other.x), y: fixed::spec_minus(self.y, other.y) }
    }

    /// The opposite vector.
    pub open spec fn spec_negated(self) -> Vec2 {
        Vec2 { x: fixed::spec_negate(self.x), y: fixed::spec_negate(self.y) }
    }

    /// Both coordinates multiplied by the fixed-point number `k`.
    pub open spec fn spec_times(self, k: i64) -> Vec2 {
        Vec2 { x: fixed::spec_times(self.x, k), y: fixed::spec_times(self.y, k) }
    }

    /// Both coordinates divided by the fixed-point number `k`.
    pub open spec fn spec_over(self, k: i64) -> Vec2 {
        Vec2 { x: fixed::spec_over(self.x, k), y: fixed::spec_over(self.y, k) }
    }

    /// The Euclidean length, rounded down to a raw unit.
    pub open spec fn spec_length(self) -> i64 {
        fixed::clamp(fixed::floor_root(self.x * self.x + self.y * self.y))
    }

    /// The vector scaled to unit length, or zero where its length is zero.
    pub open spec fn spec_normalize_or_zero(self) -> Vec2 {
        if self.spec_length() == 0 {
            Vec2::spec_zero()
        } else {
            self.spec_over(self.spec_length())
        }
    }

    /// The vector with the given raw coordinates.
    pub fn new(x: i64, y: i64) -> (r: Vec2)
        ensures
            r == (Vec2 { x, y }),
    {
        Vec2 { x, y }
    }

    /// The origin.
    pub fn zero() -> (r: Vec2)
        ensures
            r == Vec2::spec_zero(),
    {
        Vec2 { x: 0, y: 0 }
    }

    /// Adds `other`.
    pub fn plus(self, other: Vec2) -> (r: Vec2)
        ensures
            r == self.spec_plus(other),
    {
        Vec2 { x: fixed::plus(self.x, other.x), y: fixed::plus(self.y, other.y) }
    }

    /// Subtracts `other`.
    pub fn minus(self, other: Vec2) -> (r: Vec2)
        ensures
            r == self.spec_minus(other),
    {
        Vec2 { x: fixed::minus(self.x, other.x), y: fixed::minus(self.y, other.y) }
    }

    /// The opposite vector.
    pub fn negated(self) -> (r: Vec2)
        ensures
            r == self.spec_negated(),
    {
        Vec2 { x: fixed::negate(self.x), y: fixed::negate(self.y) }
    }

    /// Scales by the fixed-point number `k`.
    pub fn times(self, k: i64) -> (r: Vec2)
        ensures
            r == self.spec_times(k),
    {
        Vec2 { x: fixed::times(self.x, k), y: fixed::times(self.y, k) }
    }

    /// Divides by the fixed-point number `k`.
    pub fn over(self, k: i64) -> (r: Vec2)
        ensures
            r == self.spec_over(k),
    {
        Vec2 { x: fixed::over(self.x, k), y: fixed::over(self.y, k) }
    }

    /// The Euclidean length, rounded down to a raw unit.
    pub fn length(self) -> (r: i64)
        ensures
            r == self.spec_length(),
    {
        let xm: u128 = fixed::wide_magnitude(self.x);
        let ym: u128 = fixed::wide_magnitude(self.y);
        assert(xm * xm == self.x * self.x && xm * xm <= 0x4000_0000_0000_0000_0000_0000_0000_0000)
            by (nonlinear_arith)
            requires
                xm == fixed::magnitude(self.x as int),
                xm <= 0x8000_0000_0000_0000,
        ;
        assert(ym * ym == self.y * self.y && ym * ym <= 0x4000_0000_0000_0000_0000_0000_0000_0000)
            by (nonlinear_arith)
            requires
                ym == fixed::magnitude(self.y as int),
                ym <= 0x8000_0000_0000_0000,
        ;
        let r: u64 = fixed::root(xm * xm + ym * ym);
        if r > 0x7fff_ffff_ffff_ffff {
            i64::MAX
        } else {
            r as i64
        }
    }

    /// The vector scaled to unit length, or zero where its length is zero.
    pub fn normalize_or_zero(self) -> (r: Vec2)
        ensures
            r == self.spec_normalize_or_zero(),
    {
        let len: i64 = self.length();
        if len == 0 {
            Vec2::zero()
        } else {
            self.over(len)
        }
    }
}

/// Whether the turn from `a` through `b` to `c` is counter-clockwise: the
/// cross product of `b - a` and `c - a` is positive. The comparison is exact.
pub open spec fn spec_ccw(a: Vec2, b: Vec2, c: Vec2) -> bool {
    (c.y - a.y) * (b.x - a.x) > (b.y - a.y) * (c.x - a.x)
}

/// Whether segment `a`–`b` crosses segment `c`–`d`, by four orientation
/// tests: `c` and `d` see `a` and `b` on different sides, and `a` and `b`
/// see `c` and `d` on different sides.
pub open spec fn spec_segments_cross(a: Vec2, b: Vec2, c: Vec2, d: Vec2) -> bool {
    spec_ccw(a, c, d) != spec_ccw(b, c, d) && spec_ccw(a, b, c) != spec_ccw(a, b, d)
}

/// The difference `p - q` as a sign and a magnitude.
fn span(p: i64, q: i64) -> (r: (bool, u128))
    ensures
        r.0 == (p - q < 0),
        r.1 == fixed::magnitude(p - q),
        r.1 <= 0xffff_ffff_ffff_ffff,
{
    let d: i128 = p as i128 - q as i128;
    if d < 0 {
        (true, (-d) as u128)
    } else {
        (false, d as u128)
    }
}

/// The product `(p - q) * (s - t)` as a sign and a magnitude.
fn span_product(p: i64, q: i64, s: i64, t: i64) -> (r: (bool, u128))
    ensures
        (if r.0 { -(r.1 as int) } else { r.1 as int }) == (p - q) * (s - t),
{
    let (n1, m1) = span(p, q);
    let (n2, m2) = span(s, t);
    assert(m1 * m2 <= 0xffff_ffff_ffff_ffff_ffff_ffff_ffff_ffff) by (nonlinear_arith)
        requires
            0 <= m1 <= 0xffff_ffff_ffff_ffff,
            0 <= m2 <= 0xffff_ffff_ffff_ffff,
    ;
    assert((if n1 != n2 { -(m1 * m2) } else { m1 * m2 }) == (p - q) * (s - t))
        by (nonlinear_arith)
        requires
            n1 == (p - q < 0),
            n2 == (s - t < 0),
            m1 == fixed::magnitude(p - q),
            m2 == fixed::magnitude(s - t),
    ;
    (n1 != n2, m1 * m2)
}

/// Whether the turn from `a` through `b` to `c` is counter-clockwise.
pub fn ccw(a: Vec2, b: Vec2, c: Vec2) -> (r: bool)
    ensures
        r == spec_ccw(a, b, c),
{
    let (ln, lm) = span_product(c.y, a.y, b.x, a.x);
    let (rn, rm) = span_product(b.y, a.y, c.x, a.x);
    if ln {
        rn && lm < rm
    } else if rn {
        lm > 0 || rm > 0
    } else {
        lm > rm
    }
}

/// Whether segment `a`–`b` crosses segment `c`–`d`.
pub fn segments_cross(a: Vec2, b: Vec2, c: Vec2, d: Vec2) -> (r: bool)
    ensures
        r == spec_segments_cross(a, b, c, d),
{
    ccw(a, c, d) != ccw(b, c, d) && ccw(a, b, c) != ccw(a, b, d)
}

} // verus!
