//! Fixed-point numeric model.
//!
//! The simulation state is held in integers: positions, velocities, radii and
//! masses carry `MILLI` steps per pixel unit, unit-interval random draws and
//! direction components carry `UNIT` steps per 1.0, and the clock runs in
//! microseconds. Division rounds toward zero (`tdiv`), as Rust's `/` does.

use vstd::prelude::*;

verus! {

/// Fixed-point scale of a unit interval: a draw `u` with `0 <= u < UNIT`
/// stands for the real number `u / UNIT` in `[0, 1)`.
pub const UNIT: i64 = 1_000_000;

/// Fixed-point scale of kinematic quantities: `MILLI` steps per pixel unit.
pub const MILLI: i64 = 1000;

/// Acceleration constant in pixel units per second squared. Tuned for looks;
/// the integrator scales it by the body's mass.
pub const G: i64 = 500;

/// Positions are clamped to this magnitude (milli units); far beyond any screen.
pub const P_MAX: i64 = 0x2000_0000_0000_0000;

/// Velocities are clamped to this magnitude (milli units per second).
pub const V_MAX: i64 = 2_000_000_000;

/// Largest admissible mass (milli units).
pub const M_MAX: i64 = 1_000_000;

/// Largest admissible visual radius (milli units).
pub const R_MAX: i64 = 1_000_000_000;

/// Largest admissible explosion force base (milli units per second).
pub const F_MAX: i64 = 1_000_000;

/// Largest time step of one frame (microseconds).
pub const DT_MAX: u64 = 1_000_000;

/// Largest admissible clock value (microseconds); about 285 years.
pub const T_MAX: u64 = 0x20_0000_0000_0000;

/// Microseconds per second: the clock's scale.
pub const US_PER_S: i64 = 1_000_000;

/// Hue values (centi-degrees) stay within this magnitude; far beyond what a
/// session at the largest clock value and frequency can reach.
pub const HUE_MAX: i64 = 1_000_000_000_000_000;

/// Truncating (round-toward-zero) division, the meaning of `/` on machine
/// integers, lifted to `int`.
pub open spec fn tdiv(a: int, d: int) -> int {
    if a >= 0 {
        a / d
    } else {
        -((-a) / d)
    }
}

/// Clamp `a` into `[lo, hi]`.
pub open spec fn clamp(a: int, lo: int, hi: int) -> int {
    if a < lo {
        lo
    } else if a > hi {
        hi
    } else {
        a
    }
}

pub proof fn lemma_div_ordered(a: int, b: int, d: int)
    requires
        0 <= a <= b,
        0 < d,
    ensures
        0 <= a / d <= b / d,
        a / d <= a,
{
    vstd::arithmetic::div_mod::lemma_div_pos_is_pos(a, d);
    vstd::arithmetic::div_mod::lemma_div_is_ordered(a, b, d);
    vstd::arithmetic::div_mod::lemma_div_is_ordered_by_denominator(a, 1, d);
}

pub proof fn lemma_tdiv_bound(a: int, m: int, d: int)
    requires
        -m <= a <= m,
        0 <= m,
        0 < d,
    ensures
        -m <= -(m / d) <= tdiv(a, d) <= m / d <= m,
{
    if a >= 0 {
        lemma_div_ordered(a, m, d);
    } else {
        lemma_div_ordered(-a, m, d);
    }
}

/// Truncating division of `a` by a positive divisor.
pub fn div_trunc(a: i64, d: i64) -> (r: i64)
    requires
        d > 0,
        a > i64::MIN,
    ensures
        r == tdiv(a as int, d as int),
{
    proof {
        lemma_tdiv_bound(a as int, if a >= 0 { a as int } else { -a as int }, d as int);
    }
    if a >= 0 {
        a / d
    } else {
        -((-a) / d)
    }
}

/// A product of magnitude-bounded factors is magnitude-bounded.
pub proof fn lemma_mul_abs_bound(a: int, b: int, ma: int, mb: int)
    requires
        -ma <= a <= ma,
        -mb <= b <= mb,
        0 <= ma,
        0 <= mb,
    ensures
        -(ma * mb) <= a * b <= ma * mb,
{
    assert(-(ma * mb) <= a * b <= ma * mb) by (nonlinear_arith)
        requires
            -ma <= a <= ma,
            -mb <= b <= mb,
            0 <= ma,
            0 <= mb,
    ;
}

/// Truncating division of a 128-bit value by a positive divisor.
pub fn div_trunc_i128(a: i128, d: i128) -> (r: i128)
    requires
        d > 0,
        a > i128::MIN,
    ensures
        r == tdiv(a as int, d as int),
{
    proof {
        lemma_tdiv_bound(a as int, if a >= 0 { a as int } else { -a as int }, d as int);
    }
    if a >= 0 {
        a / d
    } else {
        -((-a) / d)
    }
}

/// `v * dt / US_PER_S`, truncated: the distance covered in `dt` microseconds
/// at `v` milli units per second, and likewise a velocity gained from an
/// acceleration. Bounded by the magnitude of `v` itself.
pub fn scale_by_dt(v: i64, dt: u64) -> (r: i64)
    requires
        -V_MAX <= v <= V_MAX,
        dt <= DT_MAX,
    ensures
        r == tdiv(v * dt, US_PER_S as int),
        -V_MAX <= r <= V_MAX,
{
    proof {
        lemma_mul_abs_bound(v as int, dt as int, V_MAX as int, DT_MAX as int);
        lemma_tdiv_bound(v * dt, (V_MAX * DT_MAX) as int, US_PER_S as int);
    }
    let p: i128 = (v as i128) * (dt as i128);
    let q = div_trunc_i128(p, US_PER_S as i128);
    q as i64
}

/// Whether `r` is the floor of the square root of `n`.
pub open spec fn is_isqrt(n: int, r: int) -> bool {
    0 <= r && r * r <= n < (r + 1) * (r + 1)
}

/// The floor of the square root of a non-negative value.
pub open spec fn sqrt_floor(n: int) -> int {
    choose|r: int| is_isqrt(n, r)
}

/// The floor of a square root is unique.
pub proof fn lemma_isqrt_unique(n: int, a: int, b: int)
    requires
        is_isqrt(n, a),
        is_isqrt(n, b),
    ensures
        a == b,
{
    assert(a == b) by (nonlinear_arith)
        requires
            0 <= a,
            0 <= b,
            a * a <= n,
            n < (a + 1) * (a + 1),
            b * b <= n,
            n < (b + 1) * (b + 1),
    ;
}

/// Integer square root by bisection.
pub fn isqrt64(n: u64) -> (r: u64)
    ensures
        is_isqrt(n as int, r as int),
        r == sqrt_floor(n as int),
        r <= 0xFFFF_FFFF,
{
    let mut lo: u64 = 0;
    let mut hi: u64 = 0xFFFF_FFFF;
    assert((0xFFFF_FFFFu64 + 1) * (0xFFFF_FFFFu64 + 1) > n as int) by (nonlinear_arith);
    while lo < hi
        invariant
            lo <= hi <= 0xFFFF_FFFF,
            lo * lo <= n,
            n < (hi + 1) * (hi + 1),
        decreases hi - lo,
    {
        let mid = lo + (hi - lo + 1) / 2;
        assert(lo < mid <= hi);
        assert(mid * mid <= 0xFFFF_FFFFu64 * 0xFFFF_FFFFu64) by (nonlinear_arith)
            requires
                mid <= 0xFFFF_FFFFu64,
        ;
        if mid * mid <= n {
            lo = mid;
        } else {
            hi = mid - 1;
        }
    }
    proof {
        lemma_isqrt_unique(n as int, lo as int, sqrt_floor(n as int));
    }
    lo
}

/// Clamp `a` into `[lo, hi]`.
pub fn clamp_i64(a: i64, lo: i64, hi: i64) -> (r: i64)
    requires
        lo <= hi,
    ensures
        r == clamp(a as int, lo as int, hi as int),
{
    if a < lo {
        lo
    } else if a > hi {
        hi
    } else {
        a
    }
}

} // verus!
