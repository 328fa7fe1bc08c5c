//! Point lights and the Phong lighting model.

use vstd::prelude::*;

verus! {

use crate::fixed::COORD_CAP;
use crate::fixed::POINT_CAP;
use crate::fixed::SCALE;
use crate::fixed::fmul;
use crate::fixed::fmul_spec;
use crate::fixed::fpow;
use crate::fixed::fpow_spec;
use crate::fixed::iabs;
use crate::fixed::lemma_fmul_bound;
use crate::intersections::reflect;
use crate::intersections::reflect_spec;
use crate::materials::Material;
use crate::materials::mwf;
use crate::pattern::Pattern;
use crate::pattern::lemma_stripe_cases;
use crate::pattern::stripe_spec;
use crate::ray_rgb::RayRgb;
use crate::ray_rgb::cmax;
use crate::ray_rgb::cmul_spec;
use crate::ray_rgb::cmuli_spec;
use crate::ray_rgb::lemma_mul_int_cap;
use crate::sphere::Sphere;
use crate::sphere::swf;
use crate::transform::inv_point_spec;
use crate::vec3::Vec3;
use crate::vec3::dot_spec;
use crate::vec3::lemma_dot_bound;
use crate::vec3::boost_spec;
use crate::vec3::normalize_spec;
use crate::vec3::vmax;
use crate::vec3::vneg_spec;
use crate::vec3::vsub_spec;

/// A point light: a position, a color, and a positive integer intensity
/// multiplier.
#[derive(Debug, Clone, Copy, PartialEq)]
pub struct PointLight {
    pub color: RayRgb,
    pub position: Vec3,
    pub intensity: usize,
}

/// Well-formed light: position and color within scene range, intensity
/// a modest multiplier.
pub open spec fn lwf(l: PointLight) -> bool {
    &&& cmax(l.color) <= COORD_CAP as int
    &&& vmax(l.position) <= COORD_CAP as int
    &&& l.intensity <= 10_000
}

impl PointLight {
    /// A light of intensity one.
    pub fn new(color: RayRgb, position: Vec3) -> (r: PointLight)
        ensures
            r.color == color,
            r.position == position,
            r.intensity == 1,
    {
        PointLight { color, position, intensity: 1 }
    }
}

/// The pattern color an object shows at a world point: the stripe rule
/// applied to the point pulled back into the object's space.
pub open spec fn stripe_at_object_spec(p: Pattern, object: Sphere, world_point: Vec3) -> RayRgb {
    stripe_spec(p, inv_point_spec(object.transform, world_point))
}

/// Evaluates an object's stripe pattern at a world point.
pub fn stripe_at_object(pattern: &Pattern, object: &Sphere, world_point: Vec3) -> (c: RayRgb)
    requires
        swf(*object),
        vmax(world_point) <= POINT_CAP as int,
    ensures
        c == stripe_at_object_spec(*pattern, *object, world_point),
{
    let op = object.transform.inverse_point(&world_point);
    pattern.stripe_at(&op)
}

/// The Phong model, exactly as `lighting` computes it: the pattern-aware
/// base color times intensity, the ambient share always, and, outside
/// shadow and with the light on the normal's side, the diffuse share and
/// a scalar specular highlight added per channel.
pub open spec fn lighting_spec(
    m: Material,
    l: PointLight,
    point: Vec3,
    eyev: Vec3,
    normalv: Vec3,
    in_shadow: bool,
    object: Sphere,
) -> RayRgb {
    let base = match m.pattern {
        Some(p) => stripe_at_object_spec(p, object, point),
        None => m.color,
    };
    let effective = cmuli_spec(base, l.intensity as int);
    let ambient = cmul_spec(effective, m.ambient as int);
    if in_shadow {
        ambient
    } else {
        let lightv = normalize_spec(boost_spec(vsub_spec(l.position, point)));
        let ldn = dot_spec(lightv, normalv);
        if ldn < 0 {
            ambient
        } else {
            let diffuse = cmul_spec(cmul_spec(effective, m.diffuse as int), ldn);
            let reflectv = reflect_spec(vneg_spec(lightv), normalv);
            let rde = dot_spec(reflectv, eyev);
            let specular: int = if rde <= 0 {
                0
            } else {
                let basep = if rde > SCALE as int {
                    SCALE as int
                } else {
                    rde
                };
                fmul_spec(
                    fmul_spec(l.intensity as int * SCALE as int, m.specular as int),
                    fpow_spec(basep, m.shininess as nat),
                )
            };
            RayRgb {
                r: (ambient.r + diffuse.r + specular) as i128,
                g: (ambient.g + diffuse.g + specular) as i128,
                b: (ambient.b + diffuse.b + specular) as i128,
            }
        }
    }
}

/// Evaluates the Phong model for one light at one shaded point. The
/// specular exponent's base is clamped to one: with unit-length vectors
/// it can exceed one only by fixed-point rounding.
#[verifier::rlimit(100)]
pub fn lighting(
    material: &Material,
    light: &PointLight,
    point: Vec3,
    eyev: Vec3,
    normalv: Vec3,
    in_shadow: bool,
    object: &Sphere,
) -> (c: RayRgb)
    requires
        mwf(*material),
        lwf(*light),
        swf(*object),
        vmax(point) <= POINT_CAP as int,
        vmax(eyev) <= 3 * SCALE as int,
        vmax(normalv) <= 3 * SCALE as int,
    ensures
        c == lighting_spec(*material, *light, point, eyev, normalv, in_shadow, *object),
        cmax(c) <= 10_000_000_000_000_000_000_000,
{
    let effective_color: RayRgb;
    if material.pattern.is_some() {
        let pat = material.pattern.as_ref().unwrap();
        let base = stripe_at_object(pat, object, point);
        proof {
            lemma_stripe_cases(*pat, inv_point_spec(object.transform, point));
            lemma_mul_int_cap(base, light.intensity as int);
        }
        effective_color = base.mul_int(light.intensity);
    } else {
        proof {
            lemma_mul_int_cap(material.color, light.intensity as int);
        }
        effective_color = material.color.mul_int(light.intensity);
    }
    let ambient = effective_color.mul_fx(material.ambient);
    proof {
        lemma_light_scale(effective_color, material.ambient as int);
    }
    if in_shadow {
        return ambient;
    }
    let lv = light.position.sub(&point);
    let lb = lv.boost();
    let lightv = lb.normalize();
    let light_dot_normal = lightv.dot(&normalv);
    proof {
        lemma_dot_bound(lightv, normalv, 3 * SCALE as int, 3 * SCALE as int);
        lemma_unit_dot(light_dot_normal as int);
    }
    if light_dot_normal < 0 {
        return ambient;
    }
    let d1 = effective_color.mul_fx(material.diffuse);
    proof {
        lemma_light_scale(effective_color, material.diffuse as int);
    }
    let diffuse = d1.mul_fx(light_dot_normal);
    proof {
        lemma_diffuse_cap(d1, light_dot_normal as int);
    }
    let neg_lightv = lightv.neg();
    let reflectv = reflect(&neg_lightv, &normalv);
    let reflect_dot_eye = reflectv.dot(&eyev);
    let specular: i128;
    if reflect_dot_eye <= 0 {
        specular = 0;
    } else {
        let basep = if reflect_dot_eye > SCALE {
            SCALE
        } else {
            reflect_dot_eye
        };
        let factor = fpow(basep, material.shininess);
        proof {
            assert(-crate::fixed::PROD_CAP as int <= ((light.intensity as int) * (SCALE as int))
                * (material.specular as int) <= crate::fixed::PROD_CAP as int)
                by (nonlinear_arith)
                requires
                    0 <= light.intensity as int <= 10_000,
                    -COORD_CAP as int <= material.specular as int <= COORD_CAP as int,
                    SCALE as int == 100_000_000,
                    COORD_CAP as int == 1_000_000_000_000,
            ;
        }
        let s1 = fmul((light.intensity as i128) * SCALE, material.specular);
        proof {
            lemma_fmul_bound(
                (light.intensity as i128) * SCALE as int,
                material.specular as int,
                10_000 * SCALE as int,
                COORD_CAP as int,
            );
            lemma_spec_cap(s1 as int);
            lemma_fmul_bound(s1 as int, factor as int, 10_000_000_000_000_000, SCALE as int);
            lemma_spec_cap2(fmul_spec(s1 as int, factor as int));
        }
        specular = fmul(s1, factor);
    }
    RayRgb {
        r: ambient.r + diffuse.r + specular,
        g: ambient.g + diffuse.g + specular,
        b: ambient.b + diffuse.b + specular,
    }
}

/// A color with channels within 1e16, scaled by a coefficient within
/// scene range, stays within 1e20 per channel.
proof fn lemma_light_scale(c: RayRgb, k: int)
    requires
        cmax(c) <= 10_000_000_000_000_000,
        -COORD_CAP as int <= k <= COORD_CAP as int,
    ensures
        cmax(cmul_spec(c, k)) <= 100_000_000_000_000_000_000,
{
    lemma_fmul_bound(c.r as int, k, 10_000_000_000_000_000, COORD_CAP as int);
    lemma_fmul_bound(c.g as int, k, 10_000_000_000_000_000, COORD_CAP as int);
    lemma_fmul_bound(c.b as int, k, 10_000_000_000_000_000, COORD_CAP as int);
    assert forall|q: int|
        iabs(q) * (SCALE as int) <= 10_000_000_000_000_000 * (COORD_CAP as int) implies iabs(q)
        <= 100_000_000_000_000_000_000 by {
        assert(iabs(q) <= 100_000_000_000_000_000_000) by (nonlinear_arith)
            requires
                iabs(q) * (SCALE as int) <= 10_000_000_000_000_000 * (COORD_CAP as int),
                SCALE as int == 100_000_000,
                COORD_CAP as int == 1_000_000_000_000,
                iabs(q) >= 0,
        ;
    };
}

/// A dot product of two vectors with components within three units is
/// within 270 units.
proof fn lemma_unit_dot(d: int)
    requires
        iabs(d) * (SCALE as int) <= 3 * ((3 * SCALE as int) * (3 * SCALE as int)),
    ensures
        iabs(d) <= 27 * SCALE as int,
{
    assert(iabs(d) <= 27 * SCALE as int) by (nonlinear_arith)
        requires
            iabs(d) * (SCALE as int) <= 3 * ((3 * SCALE as int) * (3 * SCALE as int)),
            SCALE as int == 100_000_000,
            iabs(d) >= 0,
    ;
}

/// Scaling a 1e20-channel color by a unit-scale factor keeps the
/// channels within 1e22.
proof fn lemma_diffuse_cap(c: RayRgb, k: int)
    requires
        cmax(c) <= 100_000_000_000_000_000_000,
        -27 * SCALE as int <= k <= 27 * SCALE as int,
    ensures
        cmax(cmul_spec(c, k)) <= 2_700_000_000_000_000_000_000,
{
    lemma_fmul_bound(c.r as int, k, 100_000_000_000_000_000_000, 27 * SCALE as int);
    lemma_fmul_bound(c.g as int, k, 100_000_000_000_000_000_000, 27 * SCALE as int);
    lemma_fmul_bound(c.b as int, k, 100_000_000_000_000_000_000, 27 * SCALE as int);
    assert forall|q: int|
        iabs(q) * (SCALE as int) <= 100_000_000_000_000_000_000 * (27 * SCALE
            as int) implies iabs(q) <= 2_700_000_000_000_000_000_000 by {
        assert(iabs(q) <= 2_700_000_000_000_000_000_000) by (nonlinear_arith)
            requires
                iabs(q) * (SCALE as int) <= 100_000_000_000_000_000_000 * (27 * SCALE as int),
                SCALE as int == 100_000_000,
                iabs(q) >= 0,
        ;
    };
}

/// The scalar specular coefficient is within 1e16.
proof fn lemma_spec_cap(s: int)
    requires
        iabs(s) * (SCALE as int) <= (10_000 * SCALE as int) * (COORD_CAP as int),
    ensures
        iabs(s) <= 10_000_000_000_000_000,
{
    assert(iabs(s) <= 10_000_000_000_000_000) by (nonlinear_arith)
        requires
            iabs(s) * (SCALE as int) <= (10_000 * SCALE as int) * (COORD_CAP as int),
            SCALE as int == 100_000_000,
            COORD_CAP as int == 1_000_000_000_000,
            iabs(s) >= 0,
    ;
}

/// The scalar specular share is within 1e16.
proof fn lemma_spec_cap2(s: int)
    requires
        iabs(s) * (SCALE as int) <= 10_000_000_000_000_000 * (SCALE as int),
    ensures
        iabs(s) <= 10_000_000_000_000_000,
{
    assert(iabs(s) <= 10_000_000_000_000_000) by (nonlinear_arith)
        requires
            iabs(s) * (SCALE as int) <= 10_000_000_000_000_000 * (SCALE as int),
            SCALE as int == 100_000_000,
            iabs(s) >= 0,
    ;
}

} // verus!
