//! Spheres: the only renderable primitive. A sphere is a center, a
//! radius, an object-to-world placement, a separate (unused by the
//! intersection formula, as in the algebraic design) scale component,
//! and a material.

use vstd::prelude::*;

verus! {

use crate::fixed::COORD_CAP;
use crate::fixed::SCALE;
use crate::materials::Material;
use crate::materials::default_material_spec;
use crate::materials::mwf;
use crate::transform::Transform;
use crate::transform::identity_spec;
use crate::transform::twf;
use crate::vec3::Vec3;
use crate::vec3::vmax;

/// A renderable sphere.
#[derive(Debug, Clone, PartialEq)]
pub struct Sphere {
    pub center: Vec3,
    pub radius: i128,
    pub transform: Transform,
    pub scale: Vec3,
    pub material: Material,
}

/// Well-formed sphere: center and radius within scene range, placement
/// and material well formed.
pub open spec fn swf(s: Sphere) -> bool {
    &&& vmax(s.center) <= COORD_CAP as int
    &&& 0 <= s.radius as int <= COORD_CAP as int
    &&& twf(s.transform)
    &&& mwf(s.material)
}

impl Sphere {
    /// A sphere with the given center and radius, identity placement
    /// and default material.
    pub fn new(center: Vec3, radius: i128) -> (r: Sphere)
        ensures
            r.center == center,
            r.radius == radius,
            r.transform == identity_spec(),
            r.scale == (Vec3 { x: SCALE, y: SCALE, z: SCALE }),
            r.material == default_material_spec(),
            vmax(center) <= COORD_CAP as int && 0 <= radius <= COORD_CAP ==> swf(r),
    {
        Sphere {
            center,
            radius,
            transform: Transform::identity(),
            scale: Vec3 { x: SCALE, y: SCALE, z: SCALE },
            material: Material::default(),
        }
    }
}

impl Default for Sphere {
    /// The unit sphere at the origin with the default material.
    fn default() -> (r: Sphere)
        ensures
            r.center == (Vec3 { x: 0, y: 0, z: 0 }),
            r.radius == SCALE,
            r.transform == identity_spec(),
            r.scale == (Vec3 { x: SCALE, y: SCALE, z: SCALE }),
            r.material == default_material_spec(),
            swf(r),
    {
        Sphere {
            center: Vec3 { x: 0, y: 0, z: 0 },
            radius: SCALE,
            transform: Transform::identity(),
            scale: Vec3 { x: SCALE, y: SCALE, z: SCALE },
            material: Material::default(),
        }
    }
}

} // verus!
