//! The unit of simulation: position, velocity, a pending-force accumulator,
//! inertia and charge, together with the representable-range bounds that the
//! rest of the core maintains, and the semi-implicit Euler integrator.

use vstd::prelude::*;
use vstd::arithmetic::div_mod::lemma_div_nonincreasing;
use crate::SimError;
use crate::fixed::SCALE;
use crate::fixed::div_scale;
use crate::fixed::fp_div;
use crate::fixed::fp_mul;
use crate::fixed::lemma_div_scale_bound;
use crate::fixed::lemma_mul_scale_bound;
use crate::fixed::mag;
use crate::fixed::mul_scale;
use crate::vec3::Vec3;
use crate::vec3::vec3_bounded;
use crate::vec3::vec3_within;

verus! {

/// Largest representable magnitude of a position or velocity component.
pub const COORD_LIMIT: i64 = 0x4000_0000;

/// Largest representable magnitude of a charge.
pub const CHARGE_LIMIT: i64 = 0x10_0000;

/// Largest magnitude the pending-force accumulator may reach; configurations
/// are admitted only if a full step's contributions stay within it.
pub const FORCE_LIMIT: i64 = 0x1000_0000_0000;

/// A point particle. The accumulator holds *force*; the integrator divides by
/// `inertia` exactly once, when the particle is advanced.
#[derive(Clone, Copy, Debug, PartialEq, Eq, Structural)]
pub struct Particle {
    pub position: Vec3,
    pub velocity: Vec3,
    pub pending_acceleration: Vec3,
    pub inertia: i64,
    pub charge: i64,
}

impl Particle {
    /// The particle's state is within the representable range, and its inertia
    /// is positive (at least one fixed-point unit).
    pub open spec fn wf(self) -> bool {
        &&& vec3_bounded(self.position, COORD_LIMIT as int)
        &&& vec3_bounded(self.velocity, COORD_LIMIT as int)
        &&& vec3_bounded(self.pending_acceleration, FORCE_LIMIT as int)
        &&& self.inertia >= 1
        &&& mag(self.charge as int) <= CHARGE_LIMIT
    }

    /// Create a particle with an empty accumulator, rejecting non-positive
    /// inertia and out-of-range state at construction time.
    pub fn new(position: Vec3, velocity: Vec3, inertia: i64, charge: i64) -> (r: Result<
        Particle,
        SimError,
    >)
        ensures
            inertia < 1 ==> r == Err::<Particle, SimError>(SimError::NonPositiveInertia),
            inertia >= 1 && !(vec3_bounded(position, COORD_LIMIT as int) && vec3_bounded(
                velocity,
                COORD_LIMIT as int,
            ) && mag(charge as int) <= CHARGE_LIMIT) ==> r == Err::<Particle, SimError>(
                SimError::OutOfBounds,
            ),
            inertia >= 1 && vec3_bounded(position, COORD_LIMIT as int) && vec3_bounded(
                velocity,
                COORD_LIMIT as int,
            ) && mag(charge as int) <= CHARGE_LIMIT ==> r == Ok::<Particle, SimError>(
                Particle {
                    position,
                    velocity,
                    pending_acceleration: Vec3 { x: 0, y: 0, z: 0 },
                    inertia,
                    charge,
                },
            ),
            r is Ok ==> r->Ok_0.wf(),
    {
        if inertia < 1 {
            return Err(SimError::NonPositiveInertia);
        }
        if !(vec3_within(&position, COORD_LIMIT) && vec3_within(&velocity, COORD_LIMIT)
            && -CHARGE_LIMIT <= charge && charge <= CHARGE_LIMIT) {
            return Err(SimError::OutOfBounds);
        }
        Ok(
            Particle {
                position,
                velocity,
                pending_acceleration: Vec3 { x: 0, y: 0, z: 0 },
                inertia,
                charge,
            },
        )
    }
}

/// One semi-implicit Euler step of a single particle: the effective
/// acceleration is the accumulated force divided by inertia; the velocity
/// advances by `acceleration * dt`; the position advances by the *updated*
/// velocity times `dt`; the accumulator is reset to zero.
pub open spec fn advanced(pre: Particle, dt: int, post: Particle) -> bool {
    let ax = div_scale(pre.pending_acceleration.x as int, pre.inertia as int);
    let ay = div_scale(pre.pending_acceleration.y as int, pre.inertia as int);
    let az = div_scale(pre.pending_acceleration.z as int, pre.inertia as int);
    let vx = pre.velocity.x + mul_scale(ax, dt);
    let vy = pre.velocity.y + mul_scale(ay, dt);
    let vz = pre.velocity.z + mul_scale(az, dt);
    &&& post.velocity.x == vx
    &&& post.velocity.y == vy
    &&& post.velocity.z == vz
    &&& post.position.x == pre.position.x + mul_scale(vx, dt)
    &&& post.position.y == pre.position.y + mul_scale(vy, dt)
    &&& post.position.z == pre.position.z + mul_scale(vz, dt)
    &&& post.pending_acceleration.x == 0
    &&& post.pending_acceleration.y == 0
    &&& post.pending_acceleration.z == 0
    &&& post.inertia == pre.inertia
    &&& post.charge == pre.charge
}

impl Particle {
    /// Add one force contribution to the pending accumulator.
    pub fn impulse(&mut self, f: &Vec3)
        requires
            i64::MIN <= old(self).pending_acceleration.x + f.x <= i64::MAX,
            i64::MIN <= old(self).pending_acceleration.y + f.y <= i64::MAX,
            i64::MIN <= old(self).pending_acceleration.z + f.z <= i64::MAX,
        ensures
            final(self).pending_acceleration.x == old(self).pending_acceleration.x + f.x,
            final(self).pending_acceleration.y == old(self).pending_acceleration.y + f.y,
            final(self).pending_acceleration.z == old(self).pending_acceleration.z + f.z,
            final(self).position == old(self).position,
            final(self).velocity == old(self).velocity,
            final(self).inertia == old(self).inertia,
            final(self).charge == old(self).charge,
    {
        self.pending_acceleration = Vec3 {
            x: self.pending_acceleration.x + f.x,
            y: self.pending_acceleration.y + f.y,
            z: self.pending_acceleration.z + f.z,
        };
    }

    /// Advance this particle's kinematic state by one time step and reset the
    /// accumulator.
    pub fn advance(&mut self, dt: i64)
        requires
            old(self).wf(),
            1 <= dt <= SCALE,
        ensures
            advanced(*old(self), dt as int, *final(self)),
    {
        proof {
            lemma_advance_fits(*self, dt as int);
        }
        let ax = fp_div(self.pending_acceleration.x, self.inertia);
        let ay = fp_div(self.pending_acceleration.y, self.inertia);
        let az = fp_div(self.pending_acceleration.z, self.inertia);
        let vx = self.velocity.x + fp_mul(ax, dt);
        let vy = self.velocity.y + fp_mul(ay, dt);
        let vz = self.velocity.z + fp_mul(az, dt);
        let px = self.position.x + fp_mul(vx, dt);
        let py = self.position.y + fp_mul(vy, dt);
        let pz = self.position.z + fp_mul(vz, dt);
        self.position = Vec3 { x: px, y: py, z: pz };
        self.velocity = Vec3 { x: vx, y: vy, z: vz };
        self.pending_acceleration = Vec3 { x: 0, y: 0, z: 0 };
    }
}

/// The integrator's update as a function of the previous state. Wherever
/// some state satisfies `advanced`, it is this one.
pub open spec fn integrated(pre: Particle, dt: int) -> Particle {
    let ax = div_scale(pre.pending_acceleration.x as int, pre.inertia as int);
    let ay = div_scale(pre.pending_acceleration.y as int, pre.inertia as int);
    let az = div_scale(pre.pending_acceleration.z as int, pre.inertia as int);
    let vx = pre.velocity.x + mul_scale(ax, dt);
    let vy = pre.velocity.y + mul_scale(ay, dt);
    let vz = pre.velocity.z + mul_scale(az, dt);
    Particle {
        position: Vec3 {
            x: (pre.position.x + mul_scale(vx, dt)) as i64,
            y: (pre.position.y + mul_scale(vy, dt)) as i64,
            z: (pre.position.z + mul_scale(vz, dt)) as i64,
        },
        velocity: Vec3 { x: vx as i64, y: vy as i64, z: vz as i64 },
        pending_acceleration: Vec3 { x: 0, y: 0, z: 0 },
        inertia: pre.inertia,
        charge: pre.charge,
    }
}

/// `advanced` admits exactly one state: `integrated`.
pub proof fn lemma_advanced_is_integrated(pre: Particle, dt: int, post: Particle)
    requires
        advanced(pre, dt, post),
    ensures
        post == integrated(pre, dt),
{
    let q = integrated(pre, dt);
    assert(post.velocity == q.velocity);
    assert(post.position == q.position);
    assert(post.pending_acceleration == q.pending_acceleration);
}

/// The intermediate values of one integration step of a well-formed particle
/// stay far inside the `i64` range.
proof fn lemma_axis_fits(f: int, inertia: int, v: int, dt: int)
    requires
        mag(f) <= FORCE_LIMIT,
        inertia >= 1,
        mag(v) <= COORD_LIMIT,
        1 <= dt <= SCALE,
    ensures
        mag(f) * SCALE as int / inertia <= 0x1000_0000_0000_0000,
        mag(div_scale(f, inertia)) <= 0x1000_0000_0000_0000,
        mag(mul_scale(div_scale(f, inertia), dt)) <= 0x1000_0000_0000_0000,
        mag(v + mul_scale(div_scale(f, inertia), dt)) <= 0x2000_0000_0000_0000,
        mag(mul_scale(v + mul_scale(div_scale(f, inertia), dt), dt)) <= 0x2000_0000_0000_0000,
{
    lemma_div_nonincreasing(mag(f) * SCALE as int, inertia);
    assert(mag(f) * SCALE as int <= FORCE_LIMIT * SCALE as int) by (nonlinear_arith)
        requires
            0 <= mag(f) <= FORCE_LIMIT,
    ;
    lemma_div_scale_bound(f, inertia, FORCE_LIMIT as int, 1);
    let a = div_scale(f, inertia);
    lemma_mul_scale_bound(a, dt, FORCE_LIMIT as int * SCALE as int, SCALE as int);
    assert(FORCE_LIMIT as int * SCALE as int * SCALE as int / SCALE as int == FORCE_LIMIT as int
        * SCALE as int) by (nonlinear_arith);
    let w = v + mul_scale(a, dt);
    lemma_mul_scale_bound(w, dt, 0x2000_0000_0000_0000, SCALE as int);
    assert(0x2000_0000_0000_0000 * SCALE as int / SCALE as int == 0x2000_0000_0000_0000)
        by (nonlinear_arith);
}

/// All three axes of one integration step fit the executable range.
proof fn lemma_advance_fits(p: Particle, dt: int)
    requires
        p.wf(),
        1 <= dt <= SCALE,
    ensures
        mag(p.pending_acceleration.x as int) * SCALE as int / p.inertia as int <= i64::MAX,
        mag(p.pending_acceleration.y as int) * SCALE as int / p.inertia as int <= i64::MAX,
        mag(p.pending_acceleration.z as int) * SCALE as int / p.inertia as int <= i64::MAX,
        mag(div_scale(p.pending_acceleration.x as int, p.inertia as int)) * mag(dt) / SCALE as int
            <= i64::MAX,
        mag(div_scale(p.pending_acceleration.y as int, p.inertia as int)) * mag(dt) / SCALE as int
            <= i64::MAX,
        mag(div_scale(p.pending_acceleration.z as int, p.inertia as int)) * mag(dt) / SCALE as int
            <= i64::MAX,
        mag(p.velocity.x + mul_scale(div_scale(p.pending_acceleration.x as int, p.inertia as int), dt))
            <= 0x2000_0000_0000_0000,
        mag(p.velocity.y + mul_scale(div_scale(p.pending_acceleration.y as int, p.inertia as int), dt))
            <= 0x2000_0000_0000_0000,
        mag(p.velocity.z + mul_scale(div_scale(p.pending_acceleration.z as int, p.inertia as int), dt))
            <= 0x2000_0000_0000_0000,
        mag(p.velocity.x + mul_scale(div_scale(p.pending_acceleration.x as int, p.inertia as int), dt))
            * mag(dt) / SCALE as int <= i64::MAX,
        mag(p.velocity.y + mul_scale(div_scale(p.pending_acceleration.y as int, p.inertia as int), dt))
            * mag(dt) / SCALE as int <= i64::MAX,
        mag(p.velocity.z + mul_scale(div_scale(p.pending_acceleration.z as int, p.inertia as int), dt))
            * mag(dt) / SCALE as int <= i64::MAX,
        mag(mul_scale(p.velocity.x + mul_scale(div_scale(p.pending_acceleration.x as int, p.inertia as int), dt), dt))
            <= 0x2000_0000_0000_0000,
        mag(mul_scale(p.velocity.y + mul_scale(div_scale(p.pending_acceleration.y as int, p.inertia as int), dt), dt))
            <= 0x2000_0000_0000_0000,
        mag(mul_scale(p.velocity.z + mul_scale(div_scale(p.pending_acceleration.z as int, p.inertia as int), dt), dt))
            <= 0x2000_0000_0000_0000,
{
    lemma_axis_fits(p.pending_acceleration.x as int, p.inertia as int, p.velocity.x as int, dt);
    lemma_axis_fits(p.pending_acceleration.y as int, p.inertia as int, p.velocity.y as int, dt);
    lemma_axis_fits(p.pending_acceleration.z as int, p.inertia as int, p.velocity.z as int, dt);
    lemma_mul_scale_bound(div_scale(p.pending_acceleration.x as int, p.inertia as int), dt,
        0x1000_0000_0000_0000, SCALE as int);
    lemma_mul_scale_bound(div_scale(p.pending_acceleration.y as int, p.inertia as int), dt,
        0x1000_0000_0000_0000, SCALE as int);
    lemma_mul_scale_bound(div_scale(p.pending_acceleration.z as int, p.inertia as int), dt,
        0x1000_0000_0000_0000, SCALE as int);
    assert(0x1000_0000_0000_0000 * SCALE as int / SCALE as int == 0x1000_0000_0000_0000)
        by (nonlinear_arith);
}

} // verus!
