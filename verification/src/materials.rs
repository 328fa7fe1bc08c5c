//! Per-object shading parameters for the Phong model.

use vstd::prelude::*;

verus! {

use crate::fixed::COORD_CAP;
use crate::fixed::SCALE;
use crate::pattern::Pattern;
use crate::pattern::pat_a;
use crate::pattern::pat_b;
use crate::ray_rgb::RayRgb;
use crate::ray_rgb::cmax;

/// Shading parameters: base color, an optional stripe pattern, the
/// ambient, diffuse and specular coefficients and the shininess
/// exponent.
#[derive(Debug, Clone, Copy, PartialEq)]
pub struct Material {
    pub color: RayRgb,
    pub pattern: Option<Pattern>,
    pub ambient: i128,
    pub diffuse: i128,
    pub specular: i128,
    pub shininess: usize,
}

/// Well-formed material: every channel and coefficient within scene
/// range.
pub open spec fn mwf(m: Material) -> bool {
    &&& cmax(m.color) <= COORD_CAP as int
    &&& -COORD_CAP as int <= m.ambient as int <= COORD_CAP as int
    &&& -COORD_CAP as int <= m.diffuse as int <= COORD_CAP as int
    &&& -COORD_CAP as int <= m.specular as int <= COORD_CAP as int
    &&& match m.pattern {
        Some(p) => cmax(pat_a(p)) <= COORD_CAP as int && cmax(pat_b(p)) <= COORD_CAP as int,
        None => true,
    }
}

/// The default material, as a value: white, ambient 0.1, diffuse 0.9,
/// specular 0.9, shininess 200, no pattern.
pub open spec fn default_material_spec() -> Material {
    Material {
        color: RayRgb { r: SCALE as i128, g: SCALE as i128, b: SCALE as i128 },
        pattern: None,
        ambient: 10_000_000,
        diffuse: 90_000_000,
        specular: 90_000_000,
        shininess: 200,
    }
}

impl Material {
    /// A material with the given base color and default parameters.
    pub fn new(color: RayRgb) -> (r: Material)
        ensures
            r.color == color,
            r.pattern is None,
            r.ambient == 10_000_000,
            r.diffuse == 90_000_000,
            r.specular == 90_000_000,
            r.shininess == 200,
    {
        Material {
            color,
            pattern: None,
            ambient: 10_000_000,
            diffuse: 90_000_000,
            specular: 90_000_000,
            shininess: 200,
        }
    }
}

impl Default for Material {
    /// White, ambient 0.1, diffuse 0.9, specular 0.9, shininess 200, no
    /// pattern.
    fn default() -> (r: Material)
        ensures
            r == default_material_spec(),
            mwf(r),
    {
        Material {
            color: RayRgb::white(),
            pattern: None,
            ambient: 10_000_000,
            diffuse: 90_000_000,
            specular: 90_000_000,
            shininess: 200,
        }
    }
}

} // verus!
