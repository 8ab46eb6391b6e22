//! A verified core for a point-particle simulation: a fixed-size ensemble of
//! particles under pairwise radial forces (inverse-distance or inverse-square
//! with a minimum-radius clamp), charge-weighted radial forces, ring-neighbor
//! spring coupling and velocity drag, advanced by a semi-implicit Euler
//! integrator, with the per-step force evaluation split over a fixed number of
//! workers by a disjoint partition of the index range.
//!
//! All physical quantities are fixed-point numbers: an `i64` value `v` stands
//! for the real number `v / SCALE`. Force laws accumulate *force*; the
//! integrator divides by a particle's inertia exactly once.

use vstd::prelude::*;

pub mod fixed;
pub mod vec3;
pub mod particle;
pub mod forces;
pub mod topology;
pub mod partition;
pub mod engine;

verus! {

/// Everything that can be rejected or can fail in the simulation core.
#[derive(Clone, Copy, Debug, PartialEq, Eq, Structural)]
pub enum SimError {
    /// A particle was created with inertia below the smallest positive
    /// fixed-point value.
    NonPositiveInertia,
    /// A particle was created with a position, velocity or charge beyond the
    /// representable range of the simulation.
    OutOfBounds,
    /// A force-law configuration was rejected: a parameter out of range, or
    /// strengths so large that an accumulated force could leave the
    /// representable range.
    InvalidConfig,
    /// A time step drove some particle's position or velocity beyond the
    /// representable range; the step was not committed.
    Diverged,
}

} // verus!
