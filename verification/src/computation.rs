//! The shading context: per-hit geometric quantities precomputed for
//! the lighting model.

use vstd::prelude::*;

verus! {

use crate::vec3::Vec3;

/// Precomputed shading data for one hit: the ray parameter, the index
/// of the hit object, the world-space hit point, the eye vector, the
/// (possibly flipped) surface normal, whether the ray started inside
/// the object, and the bias-shifted point shadow rays start from.
#[derive(Debug, Clone, Copy, PartialEq)]
pub struct Computation {
    pub t: i128,
    pub object: usize,
    pub point: Vec3,
    pub eyev: Vec3,
    pub normalv: Vec3,
    pub inside: bool,
    pub over_point: Vec3,
}

impl Computation {
    /// Builds a shading context with the inside flag cleared.
    pub fn new(t: i128, object: usize, point: Vec3, eyev: Vec3, normalv: Vec3, over_point: Vec3)
        -> (c: Computation)
        ensures
            c.t == t,
            c.object == object,
            c.point == point,
            c.eyev == eyev,
            c.normalv == normalv,
            c.inside == false,
            c.over_point == over_point,
    {
        Computation { t, object, point, eyev, normalv, inside: false, over_point }
    }
}

} // verus!
