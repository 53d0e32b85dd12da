//! Fixed-point arithmetic shared by the engine.
//!
//! One unit (a second, a frame width, full progress, a magnification of one)
//! is `UNIT` steps. Products of two fixed-point values are divided back by
//! `UNIT` with floor division.

use vstd::prelude::*;

verus! {

/// Steps in one unit: times are microseconds, coordinates are millionths.
pub const UNIT: i64 = 1_000_000;

/// A point in fixed-point coordinates.
#[derive(Debug, Clone, Copy, PartialEq, Eq, Structural)]
pub struct XY {
    pub x: i64,
    pub y: i64,
}

impl XY {
    pub fn new(x: i64, y: i64) -> (r: XY)
        ensures
            r.x == x,
            r.y == y,
    {
        XY { x, y }
    }

    /// Both coordinates lie in `[0, UNIT]`.
    pub open spec fn in_frame(&self) -> bool {
        0 <= self.x <= UNIT && 0 <= self.y <= UNIT
    }
}

/// `a + (b - a) * f` with `f` a fraction in `[0, UNIT]`, rounded down.
pub open spec fn lerp_spec(a: int, b: int, f: int) -> int {
    (a * (UNIT - f) + b * f) / (UNIT as int)
}

/// `x` clamped to `[0, UNIT]`.
pub open spec fn clamp_unit_spec(x: int) -> int {
    if x < 0 {
        0
    } else if x > UNIT {
        UNIT as int
    } else {
        x
    }
}

pub open spec fn min_int(a: int, b: int) -> int {
    if a <= b {
        a
    } else {
        b
    }
}

pub open spec fn max_int(a: int, b: int) -> int {
    if a <= b {
        b
    } else {
        a
    }
}

proof fn lemma_floor_div_bounds(n: int, d: int)
    requires
        d > 0,
    ensures
        n >= 0 ==> 0 <= n / d <= n,
        n < 0 ==> n <= n / d < 0,
{
    if n >= 0 {
        assert(0 <= n / d <= n) by (nonlinear_arith)
            requires
                n >= 0,
                d > 0,
        ;
    } else {
        assert(n <= n / d < 0) by (nonlinear_arith)
            requires
                n < 0,
                d > 0,
        ;
    }
}

/// Floor division by a positive divisor.
pub fn floor_div(n: i128, d: i128) -> (r: i128)
    requires
        d > 0,
    ensures
        r == n / d,
{
    proof {
        lemma_floor_div_bounds(n as int, d as int);
    }
    n.checked_div_euclid(d).unwrap()
}

/// The blend of two values lies between them.
pub proof fn lemma_lerp_between(a: int, b: int, f: int)
    requires
        0 <= f <= UNIT,
    ensures
        min_int(a, b) <= lerp_spec(a, b, f) <= max_int(a, b),
        f == 0 ==> lerp_spec(a, b, f) == a,
        f == UNIT ==> lerp_spec(a, b, f) == b,
        a == b ==> lerp_spec(a, b, f) == a,
{
    let u = UNIT as int;
    let lo = min_int(a, b);
    let hi = max_int(a, b);
    let n = a * (u - f) + b * f;
    assert(lo * u <= n <= hi * u) by (nonlinear_arith)
        requires
            lo <= a <= hi,
            lo <= b <= hi,
            0 <= f <= u,
            n == a * (u - f) + b * f,
    ;
    assert(lo <= n / u <= hi) by (nonlinear_arith)
        requires
            lo * u <= n <= hi * u,
            u > 0,
    ;
    if f == 0 {
        assert(n == a * u) by (nonlinear_arith)
            requires
                f == 0,
                n == a * (u - f) + b * f,
        ;
        assert((a * u) / u == a) by (nonlinear_arith)
            requires
                u > 0,
        ;
    }
    if f == u {
        assert(n == b * u) by (nonlinear_arith)
            requires
                f == u,
                n == a * (u - f) + b * f,
        ;
        assert((b * u) / u == b) by (nonlinear_arith)
            requires
                u > 0,
        ;
    }
}

/// Blend from `a` towards `b` by the fraction `f` (in steps of `UNIT`).
pub fn lerp(a: i64, b: i64, f: i64) -> (r: i64)
    requires
        0 <= f <= UNIT,
    ensures
        r == lerp_spec(a as int, b as int, f as int),
        min_int(a as int, b as int) <= r <= max_int(a as int, b as int),
{
    proof {
        lemma_lerp_between(a as int, b as int, f as int);
    }
    let a2 = a as i128;
    let b2 = b as i128;
    let f2 = f as i128;
    assert(-0x8000_0000_0000_0000 * 0x100000 <= a2 * (UNIT - f2) <= 0x8000_0000_0000_0000 * 0x100000) by (nonlinear_arith)
        requires
            0 <= f2 <= UNIT,
            -0x8000_0000_0000_0000 <= a2 < 0x8000_0000_0000_0000,
    ;
    assert(-0x8000_0000_0000_0000 * 0x100000 <= b2 * f2 <= 0x8000_0000_0000_0000 * 0x100000) by (nonlinear_arith)
        requires
            0 <= f2 <= UNIT,
            -0x8000_0000_0000_0000 <= b2 < 0x8000_0000_0000_0000,
    ;
    let pa = a2 * (UNIT as i128 - f2);
    let pb = b2 * f2;
    floor_div(pa + pb, UNIT as i128) as i64
}

/// `x` clamped to `[0, UNIT]`.
pub fn clamp_unit(x: i128) -> (r: i64)
    ensures
        r == clamp_unit_spec(x as int),
{
    if x < 0 {
        0
    } else if x > UNIT as i128 {
        UNIT
    } else {
        x as i64
    }
}

} // verus!
