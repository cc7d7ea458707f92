//! Camera transforms and the easing curve used by time-suspending camera
//! motions.
//!
//! The action stack owns only the *scheduling* of a camera motion: capturing
//! the source transform, counting its remaining time down, and snapping to
//! the destination when the time is spent.  The rendering collaborator reads
//! the eased progress parameter each tick and performs the actual
//! interpolation.  Coordinates are fixed-point integers (thousandths of a
//! scene unit), so a transform can be compared exactly.

use vstd::prelude::*;

verus! {

/// A position in the scene, in thousandths of a scene unit.
#[derive(Clone, Copy, Debug, PartialEq, Eq, Structural)]
pub struct Position {
    pub x: i64,
    pub y: i64,
    pub z: i64,
}

/// An orientation, as a quaternion scaled by one thousand.
#[derive(Clone, Copy, Debug, PartialEq, Eq, Structural)]
pub struct Rotation {
    pub x: i64,
    pub y: i64,
    pub z: i64,
    pub w: i64,
}

/// A camera transform: where the camera sits and where it looks.
#[derive(Clone, Copy, Debug, PartialEq, Eq, Structural)]
pub struct Transform {
    pub position: Position,
    pub rotation: Rotation,
}

/// The eased progress parameter runs from 0 to this value.
pub const EASE_SCALE: u64 = 10000;

/// Largest total time (in milliseconds) a camera motion may be given.
pub const MAX_MOTION_TIME: u64 = 0xFFFF_FFFF;

/// Ease-in-out progress through a motion: 0 at the start, `EASE_SCALE` at the
/// end, accelerating through the first half and decelerating through the
/// second.
pub open spec fn spec_ease(elapsed: int, total: int) -> int {
    if total <= 0 {
        EASE_SCALE as int
    } else if 2 * elapsed <= total {
        2 * elapsed * elapsed * (EASE_SCALE as int) / (total * total)
    } else {
        EASE_SCALE - 2 * (total - elapsed) * (total - elapsed) * (EASE_SCALE as int) / (total
            * total)
    }
}

/// The eased progress parameter for a motion of length `total` of which
/// `elapsed` has passed.
pub fn ease_param(elapsed: u64, total: u64) -> (r: u64)
    requires
        elapsed <= total,
        total <= MAX_MOTION_TIME,
    ensures
        r == spec_ease(elapsed as int, total as int),
        r <= EASE_SCALE,
{
    if total == 0 {
        return EASE_SCALE;
    }
    proof {
        lemma_ease_bounds(elapsed as int, total as int);
    }
    let e = elapsed as u128;
    let t = total as u128;
    proof {
        assert(e * e <= 0xFFFF_FFFFu128 * 0xFFFF_FFFFu128) by (nonlinear_arith)
            requires
                e <= 0xFFFF_FFFFu128,
        ;
        assert(t * t <= 0xFFFF_FFFFu128 * 0xFFFF_FFFFu128) by (nonlinear_arith)
            requires
                t <= 0xFFFF_FFFFu128,
        ;
        assert((t - e) * (t - e) <= 0xFFFF_FFFFu128 * 0xFFFF_FFFFu128) by (nonlinear_arith)
            requires
                e <= t <= 0xFFFF_FFFFu128,
        ;
        assert(t * t >= 1) by (nonlinear_arith)
            requires
                t >= 1,
        ;
    }
    let den = t * t;
    if 2 * e <= t {
        let sq = e * e;
        proof {
            assert(2 * (e * e) * (EASE_SCALE as int) == 2 * e * e * (EASE_SCALE as int))
                by (nonlinear_arith);
        }
        (2 * sq * (EASE_SCALE as u128) / den) as u64
    } else {
        let d = t - e;
        let sq = d * d;
        proof {
            assert(2 * (d * d) * (EASE_SCALE as int) == 2 * d * d * (EASE_SCALE as int))
                by (nonlinear_arith);
        }
        (EASE_SCALE as u128 - 2 * sq * (EASE_SCALE as u128) / den) as u64
    }
}

/// The eased parameter stays within `[0, EASE_SCALE]` for any elapsed time
/// within the motion.
pub proof fn lemma_ease_bounds(elapsed: int, total: int)
    requires
        0 <= elapsed <= total,
    ensures
        0 <= spec_ease(elapsed, total) <= EASE_SCALE,
{
    if total <= 0 {
    } else if 2 * elapsed <= total {
        lemma_half_ease_bounds(elapsed, total);
    } else {
        lemma_half_ease_bounds(total - elapsed, total);
    }
}

/// The eased parameter never decreases as elapsed time grows.
pub proof fn lemma_ease_monotone(e1: int, e2: int, total: int)
    requires
        0 <= e1 <= e2 <= total,
    ensures
        spec_ease(e1, total) <= spec_ease(e2, total),
{
    let s = EASE_SCALE as int;
    let t = total;
    if t <= 0 {
    } else if 2 * e2 <= t {
        // Both points lie on the accelerating half.
        assert(t * t >= 1) by (nonlinear_arith)
            requires
                t >= 1,
        ;
        assert(2 * e1 * e1 * s <= 2 * e2 * e2 * s) by (nonlinear_arith)
            requires
                0 <= e1 <= e2,
                s == 10000,
        ;
        vstd::arithmetic::div_mod::lemma_div_is_ordered(
            2 * e1 * e1 * s,
            2 * e2 * e2 * s,
            t * t,
        );
    } else if 2 * e1 > t {
        // Both points lie on the decelerating half.
        let d1 = t - e1;
        let d2 = t - e2;
        assert(t * t >= 1) by (nonlinear_arith)
            requires
                t >= 1,
        ;
        assert(2 * d2 * d2 * s <= 2 * d1 * d1 * s) by (nonlinear_arith)
            requires
                0 <= d2 <= d1,
                s == 10000,
        ;
        vstd::arithmetic::div_mod::lemma_div_is_ordered(
            2 * d2 * d2 * s,
            2 * d1 * d1 * s,
            t * t,
        );
    } else {
        // `e1` is on the accelerating half, `e2` on the decelerating one:
        // the first half never exceeds the midpoint of the scale and the
        // second half never falls to it.
        lemma_half_ease_bounds(e1, t);
        let d2 = t - e2;
        assert(t * t >= 1) by (nonlinear_arith)
            requires
                t >= 1,
        ;
        assert(2 * d2 * d2 * s < (t * t) * (s / 2)) by (nonlinear_arith)
            requires
                0 <= 2 * d2 <= t - 1,
                t >= 1,
                s == 10000,
        ;
        vstd::arithmetic::div_mod::lemma_multiply_divide_lt(2 * d2 * d2 * s, t * t, s / 2);
    }
}

/// For the half-curve numerator: if `2d <= t` then the quadratic term stays
/// within the first half of the scale.
proof fn lemma_half_ease_bounds(d: int, t: int)
    requires
        0 <= d,
        2 * d <= t,
        t >= 1,
    ensures
        0 <= 2 * d * d * (EASE_SCALE as int) / (t * t) <= EASE_SCALE as int / 2,
{
    let s = EASE_SCALE as int;
    assert(0 <= 2 * d * d * s) by (nonlinear_arith)
        requires
            0 <= d,
            s == 10000,
    ;
    assert(t * t > 0) by (nonlinear_arith)
        requires
            t >= 1,
    ;
    assert(0 <= 2 * d * d * s / (t * t)) by {
        vstd::arithmetic::div_mod::lemma_div_pos_is_pos(2 * d * d * s, t * t);
    }
    assert(4 * d * d <= t * t) by (nonlinear_arith)
        requires
            0 <= 2 * d <= t,
    ;
    assert(2 * d * d * s <= t * t * (s / 2)) by (nonlinear_arith)
        requires
            4 * d * d <= t * t,
            s == 10000,
    ;
    assert(2 * d * d * s / (t * t) <= t * t * (s / 2) / (t * t)) by {
        vstd::arithmetic::div_mod::lemma_div_is_ordered(2 * d * d * s, t * t * (s / 2), t * t);
    }
    assert(t * t * (s / 2) / (t * t) == s / 2) by {
        vstd::arithmetic::div_mod::lemma_div_by_multiple(s / 2, t * t);
    }
}

} // verus!
