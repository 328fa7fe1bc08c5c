//! Affine placement of objects and the camera: a linear part held as
//! three rows (a rotation, possibly with scale folded in) plus a
//! translation, mapping object space to world space. The renderer only
//! ever walks it backwards (world to object) or pushes normals forward,
//! so the rows are applied as a transposed matrix for points and
//! directly for normals (the inverse-transpose rule).

use vstd::prelude::*;

verus! {

use crate::fixed::COORD_CAP;
use crate::fixed::SCALE;
use crate::fixed::iabs;
use crate::vec3::VEC_CAP;
use crate::vec3::Vec3;
use crate::vec3::dot_spec;
use crate::vec3::lemma_dot_bound;
use crate::vec3::vmax;
use crate::vec3::vsub_spec;

/// An object-to-world placement: rows of the linear part, then the
/// translation. The identity has rows of unit length; a caller that sets
/// a placement keeps the rows within two units (`twf`), which every
/// rotation and modest scale satisfies.
#[derive(Debug, Clone, Copy, PartialEq)]
pub struct Transform {
    pub r0: Vec3,
    pub r1: Vec3,
    pub r2: Vec3,
    pub t: Vec3,
}

/// Well-formed placement: rows within two units, translation within
/// scene range. The renderer's preconditions ask for this of every
/// object and camera placement.
pub open spec fn twf(m: Transform) -> bool {
    &&& vmax(m.r0) <= 2 * SCALE as int
    &&& vmax(m.r1) <= 2 * SCALE as int
    &&& vmax(m.r2) <= 2 * SCALE as int
    &&& vmax(m.t) <= COORD_CAP as int
}

/// The first column of the linear part.
pub open spec fn col0(m: Transform) -> Vec3 {
    Vec3 { x: m.r0.x, y: m.r1.x, z: m.r2.x }
}

/// The second column of the linear part.
pub open spec fn col1(m: Transform) -> Vec3 {
    Vec3 { x: m.r0.y, y: m.r1.y, z: m.r2.y }
}

/// The third column of the linear part.
pub open spec fn col2(m: Transform) -> Vec3 {
    Vec3 { x: m.r0.z, y: m.r1.z, z: m.r2.z }
}

/// A world point pulled back into object space: the transposed linear
/// part applied to the point minus the translation.
pub open spec fn inv_point_spec(m: Transform, p: Vec3) -> Vec3 {
    let q = vsub_spec(p, m.t);
    Vec3 {
        x: dot_spec(col0(m), q) as i128,
        y: dot_spec(col1(m), q) as i128,
        z: dot_spec(col2(m), q) as i128,
    }
}

/// An object-space direction pushed forward by the linear part: the
/// inverse-transpose rule for surface normals.
pub open spec fn fwd_vector_spec(m: Transform, v: Vec3) -> Vec3 {
    Vec3 {
        x: dot_spec(m.r0, v) as i128,
        y: dot_spec(m.r1, v) as i128,
        z: dot_spec(m.r2, v) as i128,
    }
}

/// The identity placement, as a value.
pub open spec fn identity_spec() -> Transform {
    Transform {
        r0: Vec3 { x: SCALE as i128, y: 0, z: 0 },
        r1: Vec3 { x: 0, y: SCALE as i128, z: 0 },
        r2: Vec3 { x: 0, y: 0, z: SCALE as i128 },
        t: Vec3 { x: 0, y: 0, z: 0 },
    }
}

impl Transform {
    /// The identity placement.
    pub fn identity() -> (r: Transform)
        ensures
            r == identity_spec(),
            twf(r),
    {
        Transform {
            r0: Vec3 { x: SCALE, y: 0, z: 0 },
            r1: Vec3 { x: 0, y: SCALE, z: 0 },
            r2: Vec3 { x: 0, y: 0, z: SCALE },
            t: Vec3 { x: 0, y: 0, z: 0 },
        }
    }

    /// Builds a placement from the rows of its linear part and its
    /// translation.
    pub fn new(r0: Vec3, r1: Vec3, r2: Vec3, t: Vec3) -> (r: Transform)
        ensures
            r == (Transform { r0, r1, r2, t }),
    {
        Transform { r0, r1, r2, t }
    }

    /// The placement followed by one more translation.
    pub fn append_translation(&self, v: &Vec3) -> (r: Transform)
        requires
            vmax(self.t) + vmax(*v) <= 4 * COORD_CAP as int,
        ensures
            r.r0 == self.r0 && r.r1 == self.r1 && r.r2 == self.r2,
            r.t.x == self.t.x + v.x,
            r.t.y == self.t.y + v.y,
            r.t.z == self.t.z + v.z,
    {
        Transform {
            r0: self.r0,
            r1: self.r1,
            r2: self.r2,
            t: Vec3 { x: self.t.x + v.x, y: self.t.y + v.y, z: self.t.z + v.z },
        }
    }

    /// Pulls a world point back into object space.
    pub fn inverse_point(&self, p: &Vec3) -> (r: Vec3)
        requires
            twf(*self),
            vmax(*p) <= VEC_CAP as int / 2,
        ensures
            r == inv_point_spec(*self, *p),
            vmax(r) <= 6 * (vmax(*p) + vmax(self.t)) + 3,
    {
        let q = p.sub(&self.t);
        let c0 = Vec3 { x: self.r0.x, y: self.r1.x, z: self.r2.x };
        let c1 = Vec3 { x: self.r0.y, y: self.r1.y, z: self.r2.y };
        let c2 = Vec3 { x: self.r0.z, y: self.r1.z, z: self.r2.z };
        proof {
            let qb = vmax(*p) + vmax(self.t);
            assert(vmax(q) <= qb);
            lemma_dot_bound(col0(*self), q, 2 * SCALE as int, qb);
            lemma_dot_bound(col1(*self), q, 2 * SCALE as int, qb);
            lemma_dot_bound(col2(*self), q, 2 * SCALE as int, qb);
            lemma_transform_component(dot_spec(col0(*self), q), qb);
            lemma_transform_component(dot_spec(col1(*self), q), qb);
            lemma_transform_component(dot_spec(col2(*self), q), qb);
        }
        Vec3 { x: c0.dot(&q), y: c1.dot(&q), z: c2.dot(&q) }
    }

    /// Pushes an object-space normal direction forward into world space.
    pub fn forward_vector(&self, v: &Vec3) -> (r: Vec3)
        requires
            twf(*self),
            vmax(*v) <= VEC_CAP as int / 2,
        ensures
            r == fwd_vector_spec(*self, *v),
            vmax(r) <= 6 * vmax(*v) + 3,
    {
        proof {
            let vb = vmax(*v);
            lemma_dot_bound(self.r0, *v, 2 * SCALE as int, vb);
            lemma_dot_bound(self.r1, *v, 2 * SCALE as int, vb);
            lemma_dot_bound(self.r2, *v, 2 * SCALE as int, vb);
            lemma_transform_component(dot_spec(self.r0, *v), vb);
            lemma_transform_component(dot_spec(self.r1, *v), vb);
            lemma_transform_component(dot_spec(self.r2, *v), vb);
        }
        Vec3 { x: self.r0.dot(v), y: self.r1.dot(v), z: self.r2.dot(v) }
    }
}

/// A transformed component is within six times the input bound.
proof fn lemma_transform_component(d: int, vb: int)
    requires
        0 <= vb,
        iabs(d) * (SCALE as int) <= 3 * ((2 * SCALE as int) * vb),
    ensures
        iabs(d) <= 6 * vb + 1,
{
    assert(iabs(d) <= 6 * vb + 1) by (nonlinear_arith)
        requires
            iabs(d) * (SCALE as int) <= 3 * ((2 * SCALE as int) * vb),
            SCALE as int > 0,
            iabs(d) >= 0,
            vb >= 0,
    ;
}

} // verus!
