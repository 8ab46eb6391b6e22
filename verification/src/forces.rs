//! The force-law library: pure functions computing one force contribution
//! from two particles' state and a law strength.
//!
//! Sign convention: for the radial family, the contribution applied to the
//! source points along `source - target` scaled by a positive strength, so a
//! positive strength repels and a negative strength attracts; the caller
//! chooses the sign. For the spring family, a positive strength pulls the
//! source toward the target.

use vstd::prelude::*;
use vstd::arithmetic::div_mod::lemma_div_is_ordered;
use vstd::arithmetic::div_mod::lemma_div_is_ordered_by_denominator;
use vstd::arithmetic::div_mod::lemma_div_multiples_vanish_quotient;
use vstd::arithmetic::div_mod::lemma_div_by_multiple;
use vstd::arithmetic::div_mod::lemma_div_pos_is_pos;
use crate::fixed::SCALE;
use crate::fixed::div_scale;
use crate::fixed::fp_div;
use crate::fixed::fp_mul;
use crate::fixed::isqrt;
use crate::fixed::lemma_div_scale_bound;
use crate::fixed::lemma_mul_scale_bound;
use crate::fixed::lemma_mul_scale_neg;
use crate::fixed::lemma_sqrt_floor_bounds;
use crate::fixed::mag;
use crate::fixed::mul_scale;
use crate::fixed::sqrt_floor;
use crate::particle::COORD_LIMIT;
use crate::particle::FORCE_LIMIT;
use crate::vec3::V3i;
use crate::vec3::Vec3;
use crate::vec3::v3i_bounded;
use crate::vec3::v3i_neg;
use crate::vec3::v3i_zero;
use crate::vec3::vec3_bounded;

verus! {

/// How a radial force falls off with distance.
#[derive(Clone, Copy, Debug, PartialEq, Eq, Structural)]
pub enum Falloff {
    /// Magnitude proportional to `1 / distance`.
    InverseLinear,
    /// Magnitude proportional to `1 / distance^2`.
    InverseSquare,
}

/// Squared distance between two positions, in squared fixed-point units.
pub open spec fn dist2(sp: Vec3, tp: Vec3) -> int {
    let dx = sp.x - tp.x;
    let dy = sp.y - tp.y;
    let dz = sp.z - tp.z;
    dx * dx + dy * dy + dz * dz
}

/// The squared distance, raised to the minimum-radius floor `r2` when the
/// particles are closer than that: the guard against the zero-distance
/// singularity.
pub open spec fn clamped2(n2: int, r2: int) -> int {
    if n2 < r2 {
        r2
    } else {
        n2
    }
}

/// One component of a radial contribution: `strength` times the unit vector
/// component `d / distance`, times the falloff in the clamped squared
/// distance, rounded toward zero.
pub open spec fn radial_axis(s: int, d: int, n2c: int, falloff: Falloff) -> int {
    let m = match falloff {
        Falloff::InverseSquare => (mag(s) * mag(d) * SCALE as int * SCALE as int) / (n2c
            * sqrt_floor(n2c)),
        Falloff::InverseLinear => (mag(s) * mag(d) * SCALE as int) / n2c,
    };
    if (s < 0) != (d < 0) {
        -m
    } else {
        m
    }
}

/// The radial contribution applied to a particle at `sp` from one at `tp`.
pub open spec fn radial_force(s: int, r2: int, falloff: Falloff, sp: Vec3, tp: Vec3) -> V3i {
    let n2c = clamped2(dist2(sp, tp), r2);
    V3i {
        x: radial_axis(s, sp.x - tp.x, n2c, falloff),
        y: radial_axis(s, sp.y - tp.y, n2c, falloff),
        z: radial_axis(s, sp.z - tp.z, n2c, falloff),
    }
}

/// A bound on the magnitude of every component of a radial contribution with
/// strength `s` and minimum-radius floor `r2`.
pub open spec fn radial_bound(s: int, r2: int, falloff: Falloff) -> int {
    match falloff {
        Falloff::InverseSquare => (mag(s) * SCALE as int * SCALE as int) / r2,
        Falloff::InverseLinear => mag(s) * SCALE as int,
    }
}

/// The minimum-radius clamp keeps every radial component finite: its
/// magnitude never exceeds the value the falloff takes at the clamp floor.
pub proof fn lemma_radial_axis_bound(s: int, d: int, n2c: int, r2: int, falloff: Falloff)
    requires
        1 <= r2 <= n2c,
        mag(d) * mag(d) <= n2c,
    ensures
        0 <= mag(radial_axis(s, d, n2c, falloff)),
        mag(radial_axis(s, d, n2c, falloff)) <= radial_bound(s, r2, falloff),
{
    lemma_sqrt_floor_bounds(n2c);
    let q = sqrt_floor(n2c);
    assert(q >= 1) by (nonlinear_arith)
        requires
            q >= 0,
            n2c >= 1,
            n2c < (q + 1) * (q + 1),
    ;
    assert(mag(d) <= q) by (nonlinear_arith)
        requires
            mag(d) >= 0,
            q >= 0,
            mag(d) * mag(d) <= n2c,
            n2c < (q + 1) * (q + 1),
    ;
    match falloff {
        Falloff::InverseSquare => {
            let num = mag(s) * mag(d) * SCALE as int * SCALE as int;
            let cap = mag(s) * SCALE as int * SCALE as int;
            let den = n2c * q;
            assert(num >= 0 && den >= 1 && cap >= 0 && num <= q * cap && den == q * n2c)
                by (nonlinear_arith)
                requires
                    mag(s) >= 0,
                    0 <= mag(d) <= q,
                    n2c >= 1,
                    q >= 1,
                    num == mag(s) * mag(d) * SCALE as int * SCALE as int,
                    cap == mag(s) * SCALE as int * SCALE as int,
                    den == n2c * q,
            ;
            lemma_div_pos_is_pos(num, den);
            lemma_div_is_ordered(num, q * cap, den);
            lemma_div_multiples_vanish_quotient(q, cap, n2c);
            lemma_div_is_ordered_by_denominator(cap, r2, n2c);
            lemma_div_pos_is_pos(cap, r2);
        },
        Falloff::InverseLinear => {
            let num = mag(s) * mag(d) * SCALE as int;
            let cap = mag(s) * SCALE as int;
            assert(num >= 0 && cap >= 0 && mag(d) <= n2c && num <= cap * n2c) by (nonlinear_arith)
                requires
                    mag(s) >= 0,
                    mag(d) >= 0,
                    mag(d) * mag(d) <= n2c,
                    n2c >= 1,
                    num == mag(s) * mag(d) * SCALE as int,
                    cap == mag(s) * SCALE as int,
            ;
            lemma_div_pos_is_pos(num, n2c);
            lemma_div_is_ordered(num, cap * n2c, n2c);
            lemma_div_by_multiple(cap, n2c);
        },
    }
}

/// Every component of a radial contribution between in-range positions is
/// bounded by `radial_bound`.
pub proof fn lemma_radial_force_bound(s: int, r2: int, falloff: Falloff, sp: Vec3, tp: Vec3)
    requires
        r2 >= 1,
        vec3_bounded(sp, COORD_LIMIT as int),
        vec3_bounded(tp, COORD_LIMIT as int),
    ensures
        v3i_bounded(radial_force(s, r2, falloff, sp, tp), radial_bound(s, r2, falloff)),
        radial_bound(s, r2, falloff) >= 0,
{
    let n2 = dist2(sp, tp);
    let n2c = clamped2(n2, r2);
    assert(mag(sp.x - tp.x) * mag(sp.x - tp.x) <= n2 && mag(sp.y - tp.y) * mag(sp.y - tp.y) <= n2
        && mag(sp.z - tp.z) * mag(sp.z - tp.z) <= n2) by (nonlinear_arith)
        requires
            n2 == (sp.x - tp.x) * (sp.x - tp.x) + (sp.y - tp.y) * (sp.y - tp.y) + (sp.z - tp.z) * (
            sp.z - tp.z),
    ;
    lemma_radial_axis_bound(s, sp.x - tp.x, n2c, r2, falloff);
    lemma_radial_axis_bound(s, sp.y - tp.y, n2c, r2, falloff);
    lemma_radial_axis_bound(s, sp.z - tp.z, n2c, r2, falloff);
}

/// The radial bound is monotone in the magnitude of the strength.
pub proof fn lemma_radial_bound_mono(s1: int, s2: int, r2: int, falloff: Falloff)
    requires
        r2 >= 1,
        mag(s1) <= mag(s2),
    ensures
        radial_bound(s1, r2, falloff) <= radial_bound(s2, r2, falloff),
{
    assert(mag(s1) * SCALE as int * SCALE as int <= mag(s2) * SCALE as int * SCALE as int && mag(
        s1,
    ) * SCALE as int <= mag(s2) * SCALE as int) by (nonlinear_arith)
        requires
            0 <= mag(s1) <= mag(s2),
    ;
    lemma_div_is_ordered(mag(s1) * SCALE as int * SCALE as int, mag(s2) * SCALE as int
        * SCALE as int, r2);
}

/// A cap on the charge-scaled strength of a law, over all in-range charges.
pub open spec fn charge_cap(s: int) -> int {
    ((mag(s) * crate::particle::CHARGE_LIMIT as int) / SCALE as int
        * crate::particle::CHARGE_LIMIT as int) / SCALE as int
}

/// The charge-scaled strength of a law never exceeds its cap.
pub proof fn lemma_charge_scaled_cap(s: int, qs: int, qt: int)
    requires
        mag(qs) <= crate::particle::CHARGE_LIMIT,
        mag(qt) <= crate::particle::CHARGE_LIMIT,
    ensures
        0 <= charge_cap(s),
        mag(charge_scaled(s, qs, qt)) <= charge_cap(s),
{
    let q = crate::particle::CHARGE_LIMIT as int;
    lemma_mul_scale_bound(s, qs, mag(s), q);
    let m1 = (mag(s) * q) / SCALE as int;
    lemma_mul_scale_bound(mul_scale(s, qs), qt, m1, q);
    assert(mag(s) * q >= 0) by (nonlinear_arith)
        requires
            mag(s) >= 0,
            q >= 0,
    ;
    lemma_div_pos_is_pos(mag(s) * q, SCALE as int);
    assert(m1 * q >= 0) by (nonlinear_arith)
        requires
            m1 >= 0,
            q >= 0,
    ;
    lemma_div_pos_is_pos(m1 * q, SCALE as int);
}

/// Two particles at or inside the clamp radius feel exactly the force the
/// formula gives at the clamp floor itself; in particular it stays bounded.
pub proof fn lemma_radial_clamped(s: int, r2: int, falloff: Falloff, sp: Vec3, tp: Vec3)
    requires
        r2 >= 1,
        dist2(sp, tp) <= r2,
    ensures
        radial_force(s, r2, falloff, sp, tp) == (V3i {
            x: radial_axis(s, sp.x - tp.x, r2, falloff),
            y: radial_axis(s, sp.y - tp.y, r2, falloff),
            z: radial_axis(s, sp.z - tp.z, r2, falloff),
        }),
{
}

/// Two particles at the same position exchange no radial force at all: the
/// clamped formula returns the zero vector, not a division by zero.
pub proof fn lemma_radial_coincident(s: int, r2: int, falloff: Falloff, p: Vec3)
    requires
        r2 >= 1,
    ensures
        radial_force(s, r2, falloff, p, p) == v3i_zero(),
{
    lemma_sqrt_floor_bounds(r2);
    let q = sqrt_floor(r2);
    assert(q >= 1) by (nonlinear_arith)
        requires
            q >= 0,
            r2 >= 1,
            r2 < (q + 1) * (q + 1),
    ;
    assert(mag(s) * 0 == 0) by (nonlinear_arith);
    assert(r2 * q >= 1) by (nonlinear_arith)
        requires
            r2 >= 1,
            q >= 1,
    ;
    assert(0int / (r2 * q) == 0);
    assert(0int / r2 == 0);
}

/// One component of the radial contribution, computed exactly.
fn radial_axis_exec(strength: i64, d: i64, n2c: u64, r2: u64, falloff: Falloff) -> (r: i64)
    requires
        1 <= r2 <= n2c,
        mag(d as int) * mag(d as int) <= n2c,
        radial_bound(strength as int, r2 as int, falloff) <= FORCE_LIMIT,
    ensures
        r == radial_axis(strength as int, d as int, n2c as int, falloff),
        mag(r as int) <= radial_bound(strength as int, r2 as int, falloff),
{
    proof {
        lemma_radial_axis_bound(strength as int, d as int, n2c as int, r2 as int, falloff);
    }
    let sm: u128 = if strength < 0 {
        (-(strength as i128)) as u128
    } else {
        strength as u128
    };
    let dm: u128 = if d < 0 {
        (-(d as i128)) as u128
    } else {
        d as u128
    };
    proof {
        assert(sm == mag(strength as int));
        assert(dm == mag(d as int));
        assert(dm * dm <= n2c) by (nonlinear_arith)
            requires
                dm == mag(d as int),
                mag(d as int) * mag(d as int) <= n2c,
        ;
        assert(dm <= 0x1_0000_0000) by (nonlinear_arith)
            requires
                dm * dm <= n2c,
                n2c <= u64::MAX,
                dm >= 0,
        ;
        assert(sm * dm <= 0x8000_0000_0000_0000 * 0x1_0000_0000) by (nonlinear_arith)
            requires
                sm <= 0x8000_0000_0000_0000,
                dm <= 0x1_0000_0000,
        ;
    }
    let m: u128 = match falloff {
        Falloff::InverseSquare => {
            let dc: u64 = isqrt(n2c);
            proof {
                lemma_sqrt_floor_bounds(n2c as int);
                assert(1 <= dc <= 0x1_0000_0000) by (nonlinear_arith)
                    requires
                        dc >= 0,
                        n2c >= 1,
                        dc * dc <= n2c,
                        n2c <= u64::MAX,
                        n2c < (dc + 1) * (dc + 1),
                ;
                assert(1 <= (n2c as int) * (dc as int) <= 0xFFFF_FFFF_FFFF_FFFF
                    * 0x1_0000_0000) by (nonlinear_arith)
                    requires
                        1 <= n2c <= 0xFFFF_FFFF_FFFF_FFFF,
                        1 <= dc <= 0x1_0000_0000,
                ;
            }
            let den: u128 = (n2c as u128) * (dc as u128);
            let num: u128 = sm * dm * (SCALE as u128) * (SCALE as u128);
            num / den
        },
        Falloff::InverseLinear => {
            let num: u128 = sm * dm * (SCALE as u128);
            num / (n2c as u128)
        },
    };
    proof {
        assert(m == mag(radial_axis(strength as int, d as int, n2c as int, falloff)));
        assert(m <= FORCE_LIMIT);
    }
    if (strength < 0) != (d < 0) {
        -(m as i64)
    } else {
        m as i64
    }
}

/// The radial contribution applied to a particle at `src` from one at `tgt`,
/// with the minimum-radius clamp `min_radius2` (in squared fixed-point units).
pub fn radial(strength: i64, min_radius2: i64, falloff: Falloff, src: &Vec3, tgt: &Vec3) -> (f:
    Vec3)
    requires
        min_radius2 >= 1,
        vec3_bounded(*src, COORD_LIMIT as int),
        vec3_bounded(*tgt, COORD_LIMIT as int),
        radial_bound(strength as int, min_radius2 as int, falloff) <= FORCE_LIMIT,
    ensures
        f.x == radial_force(strength as int, min_radius2 as int, falloff, *src, *tgt).x,
        f.y == radial_force(strength as int, min_radius2 as int, falloff, *src, *tgt).y,
        f.z == radial_force(strength as int, min_radius2 as int, falloff, *src, *tgt).z,
        vec3_bounded(f, radial_bound(strength as int, min_radius2 as int, falloff)),
{
    let dx: i64 = src.x - tgt.x;
    let dy: i64 = src.y - tgt.y;
    let dz: i64 = src.z - tgt.z;
    proof {
        assert((dx as int) * (dx as int) + (dy as int) * (dy as int) + (dz as int) * (dz as int)
            <= 3 * (2 * COORD_LIMIT as int) * (2 * COORD_LIMIT as int) && (dx as int) * (dx as int)
            >= 0 && (dy as int) * (dy as int) >= 0 && (dz as int) * (dz as int) >= 0 && (dx as int)
            * (dx as int) >= mag(dx as int) * mag(dx as int) && (dy as int) * (dy as int) >= mag(
            dy as int,
        ) * mag(dy as int) && (dz as int) * (dz as int) >= mag(dz as int) * mag(dz as int))
            by (nonlinear_arith)
            requires
                mag(dx as int) <= 2 * COORD_LIMIT as int,
                mag(dy as int) <= 2 * COORD_LIMIT as int,
                mag(dz as int) <= 2 * COORD_LIMIT as int,
        ;
    }
    let n2: u64 = ((dx as i128) * (dx as i128) + (dy as i128) * (dy as i128) + (dz as i128) * (dz
        as i128)) as u64;
    let r2: u64 = min_radius2 as u64;
    let n2c: u64 = if n2 < r2 {
        r2
    } else {
        n2
    };
    proof {
        assert(n2c == clamped2(dist2(*src, *tgt), min_radius2 as int));
    }
    let fx = radial_axis_exec(strength, dx, n2c, r2, falloff);
    let fy = radial_axis_exec(strength, dy, n2c, r2, falloff);
    let fz = radial_axis_exec(strength, dz, n2c, r2, falloff);
    Vec3 { x: fx, y: fy, z: fz }
}

/// The spring (Hookean, rest length zero) contribution applied to a particle
/// at `sp` toward one at `tp`.
pub open spec fn spring_force(s: int, sp: Vec3, tp: Vec3) -> V3i {
    V3i {
        x: mul_scale(s, tp.x - sp.x),
        y: mul_scale(s, tp.y - sp.y),
        z: mul_scale(s, tp.z - sp.z),
    }
}

/// A bound on the magnitude of every component of a spring contribution.
pub open spec fn spring_bound(s: int) -> int {
    (mag(s) * (2 * COORD_LIMIT as int)) / SCALE as int
}

/// Every component of a spring contribution between in-range positions is
/// bounded by `spring_bound`.
pub proof fn lemma_spring_force_bound(s: int, sp: Vec3, tp: Vec3)
    requires
        vec3_bounded(sp, COORD_LIMIT as int),
        vec3_bounded(tp, COORD_LIMIT as int),
    ensures
        v3i_bounded(spring_force(s, sp, tp), spring_bound(s)),
        spring_bound(s) >= 0,
{
    lemma_mul_scale_bound(s, tp.x - sp.x, mag(s), 2 * COORD_LIMIT as int);
    lemma_mul_scale_bound(s, tp.y - sp.y, mag(s), 2 * COORD_LIMIT as int);
    lemma_mul_scale_bound(s, tp.z - sp.z, mag(s), 2 * COORD_LIMIT as int);
    assert(mag(s) * (2 * COORD_LIMIT as int) >= 0) by (nonlinear_arith)
        requires
            mag(s) >= 0,
    ;
    lemma_div_pos_is_pos(mag(s) * (2 * COORD_LIMIT as int), SCALE as int);
}

/// Equal and opposite: swapping the two ends of a spring exactly negates the
/// contribution.
pub proof fn lemma_spring_antisymmetric(s: int, a: Vec3, b: Vec3)
    ensures
        spring_force(s, a, b) == v3i_neg(spring_force(s, b, a)),
{
    lemma_mul_scale_neg(s, b.x - a.x);
    lemma_mul_scale_neg(s, b.y - a.y);
    lemma_mul_scale_neg(s, b.z - a.z);
    assert(a.x - b.x == -(b.x - a.x));
    assert(a.y - b.y == -(b.y - a.y));
    assert(a.z - b.z == -(b.z - a.z));
}

/// The spring contribution, computed exactly.
pub fn spring(strength: i64, src: &Vec3, tgt: &Vec3) -> (f: Vec3)
    requires
        vec3_bounded(*src, COORD_LIMIT as int),
        vec3_bounded(*tgt, COORD_LIMIT as int),
        spring_bound(strength as int) <= FORCE_LIMIT,
    ensures
        f.x == spring_force(strength as int, *src, *tgt).x,
        f.y == spring_force(strength as int, *src, *tgt).y,
        f.z == spring_force(strength as int, *src, *tgt).z,
        vec3_bounded(f, spring_bound(strength as int)),
{
    proof {
        lemma_spring_fits(strength as int, *src, *tgt);
    }
    let fx = fp_mul(strength, tgt.x - src.x);
    let fy = fp_mul(strength, tgt.y - src.y);
    let fz = fp_mul(strength, tgt.z - src.z);
    Vec3 { x: fx, y: fy, z: fz }
}

/// The spring product fits the executable range whenever its bound does.
proof fn lemma_spring_fits(s: int, sp: Vec3, tp: Vec3)
    requires
        vec3_bounded(sp, COORD_LIMIT as int),
        vec3_bounded(tp, COORD_LIMIT as int),
        spring_bound(s) <= FORCE_LIMIT,
    ensures
        mag(s) * mag(tp.x - sp.x) / SCALE as int <= FORCE_LIMIT,
        mag(s) * mag(tp.y - sp.y) / SCALE as int <= FORCE_LIMIT,
        mag(s) * mag(tp.z - sp.z) / SCALE as int <= FORCE_LIMIT,
        mag(mul_scale(s, tp.x - sp.x)) <= spring_bound(s),
        mag(mul_scale(s, tp.y - sp.y)) <= spring_bound(s),
        mag(mul_scale(s, tp.z - sp.z)) <= spring_bound(s),
{
    lemma_mul_scale_bound(s, tp.x - sp.x, mag(s), 2 * COORD_LIMIT as int);
    lemma_mul_scale_bound(s, tp.y - sp.y, mag(s), 2 * COORD_LIMIT as int);
    lemma_mul_scale_bound(s, tp.z - sp.z, mag(s), 2 * COORD_LIMIT as int);
    assert(mag(s) * mag(tp.x - sp.x) <= mag(s) * (2 * COORD_LIMIT as int)) by (nonlinear_arith)
        requires
            mag(s) >= 0,
            mag(tp.x - sp.x) <= 2 * COORD_LIMIT as int,
    ;
    assert(mag(s) * mag(tp.y - sp.y) <= mag(s) * (2 * COORD_LIMIT as int)) by (nonlinear_arith)
        requires
            mag(s) >= 0,
            mag(tp.y - sp.y) <= 2 * COORD_LIMIT as int,
    ;
    assert(mag(s) * mag(tp.z - sp.z) <= mag(s) * (2 * COORD_LIMIT as int)) by (nonlinear_arith)
        requires
            mag(s) >= 0,
            mag(tp.z - sp.z) <= 2 * COORD_LIMIT as int,
    ;
    lemma_div_is_ordered(mag(s) * mag(tp.x - sp.x), mag(s) * (2 * COORD_LIMIT as int),
        SCALE as int);
    lemma_div_is_ordered(mag(s) * mag(tp.y - sp.y), mag(s) * (2 * COORD_LIMIT as int),
        SCALE as int);
    lemma_div_is_ordered(mag(s) * mag(tp.z - sp.z), mag(s) * (2 * COORD_LIMIT as int),
        SCALE as int);
}

/// The drag contribution: minus the velocity over the drag coefficient.
pub open spec fn drag_force(c: int, vel: Vec3) -> V3i {
    V3i { x: -div_scale(vel.x as int, c), y: -div_scale(vel.y as int, c), z: -div_scale(
        vel.z as int,
        c,
    ) }
}

/// Drag opposes motion and never exceeds the velocity itself (for a
/// coefficient of at least one whole unit): each component of the
/// contribution has the opposite sign of the matching velocity component and
/// no larger magnitude.
pub proof fn lemma_drag_opposes(c: int, vel: Vec3)
    requires
        c >= SCALE,
        vec3_bounded(vel, COORD_LIMIT as int),
    ensures
        v3i_bounded(drag_force(c, vel), COORD_LIMIT as int),
        vel.x > 0 ==> -vel.x <= drag_force(c, vel).x <= 0,
        vel.x < 0 ==> 0 <= drag_force(c, vel).x <= -vel.x,
        vel.x == 0 ==> drag_force(c, vel).x == 0,
        vel.y > 0 ==> -vel.y <= drag_force(c, vel).y <= 0,
        vel.y < 0 ==> 0 <= drag_force(c, vel).y <= -vel.y,
        vel.y == 0 ==> drag_force(c, vel).y == 0,
        vel.z > 0 ==> -vel.z <= drag_force(c, vel).z <= 0,
        vel.z < 0 ==> 0 <= drag_force(c, vel).z <= -vel.z,
        vel.z == 0 ==> drag_force(c, vel).z == 0,
{
    lemma_drag_axis(c, vel.x as int);
    lemma_drag_axis(c, vel.y as int);
    lemma_drag_axis(c, vel.z as int);
}

/// One axis of the drag property.
proof fn lemma_drag_axis(c: int, v: int)
    requires
        c >= SCALE,
    ensures
        0 <= mag(div_scale(v, c)) <= mag(v),
        v > 0 ==> 0 <= div_scale(v, c) <= v,
        v < 0 ==> v <= div_scale(v, c) <= 0,
        v == 0 ==> div_scale(v, c) == 0,
{
    lemma_div_scale_bound(v, c, mag(v), SCALE as int);
    lemma_div_by_multiple(mag(v), SCALE as int);
    assert(mag(v) * SCALE as int == SCALE as int * mag(v)) by (nonlinear_arith);
    lemma_div_pos_is_pos(mag(v) * SCALE as int, c);
    if v == 0 {
        assert(mag(v) * SCALE as int == 0) by (nonlinear_arith)
            requires
                mag(v) == 0,
        ;
        assert(0int / c == 0);
    }
}

/// The drag contribution, computed exactly.
pub fn drag(coefficient: i64, vel: &Vec3) -> (f: Vec3)
    requires
        coefficient >= SCALE,
        vec3_bounded(*vel, COORD_LIMIT as int),
    ensures
        f.x == drag_force(coefficient as int, *vel).x,
        f.y == drag_force(coefficient as int, *vel).y,
        f.z == drag_force(coefficient as int, *vel).z,
        vec3_bounded(f, COORD_LIMIT as int),
{
    proof {
        lemma_drag_opposes(coefficient as int, *vel);
        lemma_drag_axis(coefficient as int, vel.x as int);
        lemma_drag_axis(coefficient as int, vel.y as int);
        lemma_drag_axis(coefficient as int, vel.z as int);
        lemma_drag_fits(coefficient as int, *vel);
    }
    let fx = -fp_div(vel.x, coefficient);
    let fy = -fp_div(vel.y, coefficient);
    let fz = -fp_div(vel.z, coefficient);
    Vec3 { x: fx, y: fy, z: fz }
}

/// The drag quotient fits the executable range.
proof fn lemma_drag_fits(c: int, vel: Vec3)
    requires
        c >= SCALE,
        vec3_bounded(vel, COORD_LIMIT as int),
    ensures
        mag(vel.x as int) * SCALE as int / c <= i64::MAX,
        mag(vel.y as int) * SCALE as int / c <= i64::MAX,
        mag(vel.z as int) * SCALE as int / c <= i64::MAX,
{
    lemma_drag_fits_axis(c, vel.x as int);
    lemma_drag_fits_axis(c, vel.y as int);
    lemma_drag_fits_axis(c, vel.z as int);
}

/// One axis of the drag fit.
proof fn lemma_drag_fits_axis(c: int, v: int)
    requires
        c >= SCALE,
        mag(v) <= COORD_LIMIT,
    ensures
        mag(v) * SCALE as int / c <= i64::MAX,
{
    assert(mag(v) * SCALE as int <= COORD_LIMIT as int * SCALE as int) by (nonlinear_arith)
        requires
            0 <= mag(v) <= COORD_LIMIT,
    ;
    lemma_div_is_ordered(mag(v) * SCALE as int, COORD_LIMIT as int * SCALE as int, c);
    lemma_div_is_ordered_by_denominator(COORD_LIMIT as int * SCALE as int, SCALE as int, c);
}

/// The strength of a charge-weighted radial law between two particular
/// charges: the law strength scaled by the product of the charges.
pub open spec fn charge_scaled(s: int, q_src: int, q_tgt: int) -> int {
    mul_scale(mul_scale(s, q_src), q_tgt)
}

/// The charge-scaled strength, computed exactly.
pub fn charge_strength(strength: i64, q_src: i64, q_tgt: i64) -> (r: i64)
    requires
        mag(strength as int) <= FORCE_LIMIT,
        mag(q_src as int) <= crate::particle::CHARGE_LIMIT,
        mag(q_tgt as int) <= crate::particle::CHARGE_LIMIT,
    ensures
        r == charge_scaled(strength as int, q_src as int, q_tgt as int),
{
    proof {
        lemma_charge_fits(strength as int, q_src as int, q_tgt as int);
    }
    fp_mul(fp_mul(strength, q_src), q_tgt)
}

/// The charge products fit the executable range.
proof fn lemma_charge_fits(s: int, qs: int, qt: int)
    requires
        mag(s) <= FORCE_LIMIT,
        mag(qs) <= crate::particle::CHARGE_LIMIT,
        mag(qt) <= crate::particle::CHARGE_LIMIT,
    ensures
        mag(s) * mag(qs) / SCALE as int <= i64::MAX,
        mag(mul_scale(s, qs)) <= 0x1_0000_0000_0000,
        mag(mul_scale(s, qs)) * mag(qt) / SCALE as int <= i64::MAX,
{
    lemma_mul_scale_bound(s, qs, FORCE_LIMIT as int, crate::particle::CHARGE_LIMIT as int);
    assert(mag(s) * mag(qs) <= FORCE_LIMIT as int * crate::particle::CHARGE_LIMIT as int)
        by (nonlinear_arith)
        requires
            0 <= mag(s) <= FORCE_LIMIT,
            0 <= mag(qs) <= crate::particle::CHARGE_LIMIT,
    ;
    lemma_div_is_ordered(mag(s) * mag(qs), FORCE_LIMIT as int * crate::particle::CHARGE_LIMIT as int,
        SCALE as int);
    assert(FORCE_LIMIT as int * crate::particle::CHARGE_LIMIT as int / SCALE as int
        == 0x1_0000_0000_0000) by (nonlinear_arith);
    lemma_mul_scale_bound(mul_scale(s, qs), qt, 0x1_0000_0000_0000,
        crate::particle::CHARGE_LIMIT as int);
    assert(mag(mul_scale(s, qs)) * mag(qt) <= 0x1_0000_0000_0000 * crate::particle::CHARGE_LIMIT
        as int) by (nonlinear_arith)
        requires
            0 <= mag(mul_scale(s, qs)) <= 0x1_0000_0000_0000,
            0 <= mag(qt) <= crate::particle::CHARGE_LIMIT,
    ;
    lemma_div_is_ordered(mag(mul_scale(s, qs)) * mag(qt), 0x1_0000_0000_0000
        * crate::particle::CHARGE_LIMIT as int, SCALE as int);
    assert(0x1_0000_0000_0000 * crate::particle::CHARGE_LIMIT as int / SCALE as int
        <= i64::MAX) by (nonlinear_arith);
}

} // verus!
