//! Rays: an origin point and a direction vector. A direction is not
//! forced to unit length at construction, but the intersection engine
//! treats it as roughly unit length (see its preconditions).

use vstd::prelude::*;

verus! {

use crate::fixed::POINT_CAP;
use crate::fixed::SCALE;
use crate::fixed::fmul_spec;
use crate::fixed::iabs;
use crate::fixed::lemma_fmul_bound;
use crate::vec3::VEC_CAP;
use crate::vec3::Vec3;
use crate::vec3::dot_spec;
use crate::vec3::vadd_spec;
use crate::vec3::vmax;
use crate::vec3::vscale_spec;

/// A half-line through the scene: origin plus parameter times direction.
#[derive(Debug, Clone, Copy, PartialEq)]
pub struct Ray {
    pub origin: Vec3,
    pub dir: Vec3,
}

/// Well-formed ray: the origin within the range the intersection engine
/// accepts, and a direction of roughly unit length (between one half
/// and two units), which every normalized direction satisfies. A
/// zero-length or far-from-unit direction is a caller invariant
/// violation, not a handled case.
pub open spec fn ray_wf(r: Ray) -> bool {
    &&& vmax(r.origin) <= POINT_CAP as int
    &&& (SCALE as int) / 2 <= dot_spec(r.dir, r.dir) <= 4 * SCALE as int
}

/// The point a ray reaches at parameter `t`.
pub open spec fn point_at_spec(r: Ray, t: int) -> Vec3 {
    vadd_spec(r.origin, vscale_spec(r.dir, t))
}

impl Ray {
    /// Builds a ray from an origin and a direction.
    pub fn new(origin: Vec3, dir: Vec3) -> (r: Ray)
        ensures
            r.origin == origin,
            r.dir == dir,
    {
        Ray { origin, dir }
    }

    /// The point this ray reaches at parameter `t`.
    pub fn point_at(&self, t: i128) -> (r: Vec3)
        requires
            vmax(self.origin) <= VEC_CAP as int,
            vmax(self.dir) <= 4 * SCALE as int,
            iabs(t as int) <= VEC_CAP as int / 10,
        ensures
            r == point_at_spec(*self, t as int),
            r.x == self.origin.x + fmul_spec(self.dir.x as int, t as int),
            r.y == self.origin.y + fmul_spec(self.dir.y as int, t as int),
            r.z == self.origin.z + fmul_spec(self.dir.z as int, t as int),
            vmax(r) <= vmax(self.origin) + 4 * iabs(t as int) + 1,
    {
        proof {
            lemma_fmul_bound(self.dir.x as int, t as int, 4 * SCALE as int, iabs(t as int));
            lemma_fmul_bound(self.dir.y as int, t as int, 4 * SCALE as int, iabs(t as int));
            lemma_fmul_bound(self.dir.z as int, t as int, 4 * SCALE as int, iabs(t as int));
            lemma_scaled_bound(self.dir.x as int, t as int);
            lemma_scaled_bound(self.dir.y as int, t as int);
            lemma_scaled_bound(self.dir.z as int, t as int);
        }
        let step = self.dir.scale(t);
        self.origin.add(&step)
    }
}

/// Scaling a direction component by a parameter keeps it within four
/// times the parameter's magnitude, plus one for rounding.
proof fn lemma_scaled_bound(d: int, t: int)
    requires
        iabs(d) <= 4 * SCALE as int,
        iabs(fmul_spec(d, t)) * (SCALE as int) <= 4 * (SCALE as int) * iabs(t),
    ensures
        iabs(fmul_spec(d, t)) <= 4 * iabs(t) + 1,
{
    assert(iabs(fmul_spec(d, t)) <= 4 * iabs(t) + 1) by (nonlinear_arith)
        requires
            iabs(fmul_spec(d, t)) * (SCALE as int) <= 4 * (SCALE as int) * iabs(t),
            SCALE as int > 0,
            iabs(fmul_spec(d, t)) >= 0,
            iabs(t) >= 0,
    ;
}

} // verus!
