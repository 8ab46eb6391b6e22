//! Three-component fixed-point vectors, and their unbounded spec-level
//! counterpart used to state sums of force contributions.

use vstd::prelude::*;
use crate::fixed::mag;

verus! {

/// A world-space vector; each component is a fixed-point number.
#[derive(Clone, Copy, Debug, PartialEq, Eq, Structural)]
pub struct Vec3 {
    pub x: i64,
    pub y: i64,
    pub z: i64,
}

impl Vec3 {
    /// The vector with the given components.
    pub fn new(x: i64, y: i64, z: i64) -> (v: Vec3)
        ensures
            v.x == x && v.y == y && v.z == z,
    {
        Vec3 { x, y, z }
    }

    /// The zero vector.
    pub fn origin() -> (v: Vec3)
        ensures
            v.x == 0 && v.y == 0 && v.z == 0,
    {
        Vec3 { x: 0, y: 0, z: 0 }
    }
}

/// A vector of unbounded integers: the spec-level value of a sum of
/// contributions before it is known to fit the executable range.
pub struct V3i {
    pub x: int,
    pub y: int,
    pub z: int,
}

/// The zero spec vector.
pub open spec fn v3i_zero() -> V3i {
    V3i { x: 0, y: 0, z: 0 }
}

/// Componentwise sum.
pub open spec fn v3i_add(a: V3i, b: V3i) -> V3i {
    V3i { x: a.x + b.x, y: a.y + b.y, z: a.z + b.z }
}

/// Componentwise negation.
pub open spec fn v3i_neg(a: V3i) -> V3i {
    V3i { x: -a.x, y: -a.y, z: -a.z }
}

/// Every component of `v` has magnitude at most `c`.
pub open spec fn v3i_bounded(v: V3i, c: int) -> bool {
    mag(v.x) <= c && mag(v.y) <= c && mag(v.z) <= c
}

/// Every component of the executable vector `v` has magnitude at most `c`.
pub open spec fn vec3_bounded(v: Vec3, c: int) -> bool {
    mag(v.x as int) <= c && mag(v.y as int) <= c && mag(v.z as int) <= c
}

/// Runtime check for `vec3_bounded`.
pub fn vec3_within(v: &Vec3, c: i64) -> (b: bool)
    requires
        c >= 0,
    ensures
        b == vec3_bounded(*v, c as int),
{
    -c <= v.x && v.x <= c && -c <= v.y && v.y <= c && -c <= v.z && v.z <= c
}

} // verus!
