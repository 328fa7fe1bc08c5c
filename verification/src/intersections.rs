//! The intersection engine: ray-sphere root finding, nearest-positive-hit
//! selection, surface normals, reflection, and the per-hit shading
//! context.

use vstd::prelude::*;

verus! {

use crate::computation::Computation;
use crate::fixed::COORD_CAP;
use crate::fixed::DIV_CAP;
use crate::fixed::EPSILON;
use crate::fixed::EYE_CAP;
use crate::fixed::POINT_CAP;
use crate::fixed::PROD_CAP;
use crate::fixed::SCALE;
use crate::fixed::T_CAP;
use crate::fixed::fdiv;
use crate::fixed::fdiv_spec;
use crate::fixed::fmul;
use crate::fixed::fmul_spec;
use crate::fixed::fsqrt;
use crate::fixed::fsqrt_spec;
use crate::fixed::iabs;
use crate::fixed::lemma_fdiv_mag;
use crate::fixed::lemma_fmul_bound;
use crate::fixed::lemma_sqrt_le;
use crate::fixed::lemma_tdiv_mag;
use crate::fixed::lemma_tdiv_mono;
use crate::ray::Ray;
use crate::ray::point_at_spec;
use crate::ray::ray_wf;
use crate::sphere::Sphere;
use crate::sphere::swf;
use crate::transform::fwd_vector_spec;
use crate::transform::inv_point_spec;
use crate::vec3::Vec3;
use crate::vec3::boost_spec;
use crate::vec3::dot_spec;
use crate::vec3::lemma_dot_bound;
use crate::vec3::msq_spec;
use crate::vec3::normalize_spec;
use crate::vec3::vadd_spec;
use crate::vec3::vmax;
use crate::vec3::vneg_spec;
use crate::vec3::vscale_spec;
use crate::vec3::vsub_spec;

/// A parametric hit record: the ray parameter and the index of the hit
/// object in the collection the query ran over (zero for a single
/// sphere).
#[derive(Debug, Clone, Copy, PartialEq, Eq)]
pub struct Intersection {
    pub t: i128,
    pub object: usize,
}

/// The vector from the sphere's center to the ray's origin.
pub open spec fn sphere_to_ray_spec(s: Sphere, r: Ray) -> Vec3 {
    vsub_spec(r.origin, s.center)
}

/// The quadratic's leading coefficient: the direction dotted with
/// itself.
pub open spec fn a_spec(r: Ray) -> int {
    dot_spec(r.dir, r.dir)
}

/// The quadratic's linear coefficient.
pub open spec fn b_spec(s: Sphere, r: Ray) -> int {
    2 * dot_spec(r.dir, sphere_to_ray_spec(s, r))
}

/// The quadratic's constant coefficient: the center-to-origin distance
/// squared, less the radius squared.
pub open spec fn c_spec(s: Sphere, r: Ray) -> int {
    dot_spec(sphere_to_ray_spec(s, r), sphere_to_ray_spec(s, r)) - fmul_spec(
        s.radius as int,
        s.radius as int,
    )
}

/// The discriminant: negative exactly when the ray misses the sphere.
pub open spec fn disc_spec(s: Sphere, r: Ray) -> int {
    fmul_spec(b_spec(s, r), b_spec(s, r)) - 4 * fmul_spec(a_spec(r), c_spec(s, r))
}

/// The square root of the discriminant.
pub open spec fn sqrt_disc_spec(s: Sphere, r: Ray) -> int {
    fsqrt_spec(disc_spec(s, r))
}

/// The nearer root of the quadratic.
pub open spec fn t1_spec(s: Sphere, r: Ray) -> int {
    fdiv_spec(-b_spec(s, r) - sqrt_disc_spec(s, r), 2 * a_spec(r))
}

/// The farther root of the quadratic.
pub open spec fn t2_spec(s: Sphere, r: Ray) -> int {
    fdiv_spec(-b_spec(s, r) + sqrt_disc_spec(s, r), 2 * a_spec(r))
}

/// A bound on the roots, in terms of how far the ray starts from the
/// scene's center and how large the sphere is.
pub open spec fn t_cap_spec(s: Sphere, r: Ray) -> int {
    50 * (vmax(r.origin) + vmax(s.center) + s.radius) + 4 * (SCALE as int)
}

/// A well-formed ray direction has components within three units.
pub proof fn lemma_dir_bound(d: Vec3)
    requires
        (SCALE as int) / 2 <= dot_spec(d, d) <= 4 * SCALE as int,
    ensures
        vmax(d) <= 3 * SCALE as int,
{
    let s = SCALE as int;
    let p = d.x * d.x + d.y * d.y + d.z * d.z;
    assert(d.x * d.x + d.y * d.y + d.z * d.z >= 0) by (nonlinear_arith);
    let a = dot_spec(d, d);
    vstd::arithmetic::div_mod::lemma_fundamental_div_mod(p, s);
    assert(p < (a + 1) * s) by (nonlinear_arith)
        requires
            s * (p / s) + p % s == p,
            0 <= p % s < s,
            a == p / s,
    ;
    assert(d.x * d.x <= p && d.y * d.y <= p && d.z * d.z <= p) by (nonlinear_arith)
        requires
            p == d.x * d.x + d.y * d.y + d.z * d.z,
    ;
    assert(iabs(d.x as int) <= 3 * s && iabs(d.y as int) <= 3 * s && iabs(d.z as int) <= 3 * s)
        by (nonlinear_arith)
        requires
            d.x * d.x < (4 * s + 1) * s,
            d.y * d.y < (4 * s + 1) * s,
            d.z * d.z < (4 * s + 1) * s,
            s == 100_000_000,
    ;
}

/// Computes the zero or two intersections of a ray with a sphere, by the
/// quadratic formula over fixed-point scalars. The two parameters come
/// back in ascending order, both bounded by `t_cap_spec`, and a tangent
/// ray reports the same parameter twice.
pub fn intersect(s: &Sphere, r: &Ray) -> (res: Option<Vec<Intersection>>)
    requires
        swf(*s),
        ray_wf(*r),
    ensures
        match res {
            None => disc_spec(*s, *r) < 0,
            Some(v) => {
                &&& disc_spec(*s, *r) >= 0
                &&& v@.len() == 2
                &&& v@[0].t as int == t1_spec(*s, *r)
                &&& v@[1].t as int == t2_spec(*s, *r)
                &&& v@[0].object == 0
                &&& v@[1].object == 0
                &&& v@[0].t <= v@[1].t
                &&& iabs(t1_spec(*s, *r)) <= t_cap_spec(*s, *r)
                &&& iabs(t2_spec(*s, *r)) <= t_cap_spec(*s, *r)
            },
        },
{
    let ghost sm: int = vmax(r.origin) + vmax(s.center);
    let ghost rd: int = s.radius as int;
    let ghost sc: int = SCALE as int;
    proof {
        lemma_dir_bound(r.dir);
    }
    let str_v = r.origin.sub(&s.center);
    proof {
        assert(vmax(str_v) <= sm);
    }
    let a = r.dir.dot(&r.dir);
    let dv = r.dir.dot(&str_v);
    proof {
        lemma_dot_bound(r.dir, str_v, 3 * sc, sm);
        assert(iabs(dv as int) <= 9 * sm) by (nonlinear_arith)
            requires
                iabs(dv as int) * sc <= 3 * ((3 * sc) * sm),
                sc == 100_000_000,
                iabs(dv as int) >= 0,
                sm >= 0,
        ;
    }
    let b = 2 * dv;
    let dss = str_v.dot(&str_v);
    proof {
        lemma_dot_bound(str_v, str_v, sm, sm);
        lemma_fmul_bound(rd, rd, COORD_CAP as int, COORD_CAP as int);
        lemma_tdiv_mag(rd * rd, sc);
        assert(rd * rd >= 0) by (nonlinear_arith)
            requires
                rd >= 0,
        ;
    }
    let rr = fmul(s.radius, s.radius);
    proof {
        assert(iabs(dss as int) <= 30_000_000_000_000_000_000_000_000) by (nonlinear_arith)
            requires
                iabs(dss as int) * sc <= 3 * (sm * sm),
                0 <= sm <= 26_000_000_000_000_000,
                sc == 100_000_000,
                iabs(dss as int) >= 0,
        ;
        assert(iabs(rr as int) <= 100_000_000_000_000_000) by (nonlinear_arith)
            requires
                iabs(rr as int) * sc <= rd * rd,
                0 <= rd <= 1_000_000_000_000,
                sc == 100_000_000,
                iabs(rr as int) >= 0,
        ;
    }
    let c = dss - rr;
    proof {
        assert(iabs(c as int) * sc <= 3 * (sm * sm) + rd * rd) by (nonlinear_arith)
            requires
                iabs(dss as int) * sc <= 3 * (sm * sm),
                iabs(rr as int) * sc <= rd * rd,
                c as int == dss as int - rr as int,
                sc > 0,
        ;
        // Caps for the two rescaled products.
        assert(sm <= 26_000_000_000_000_000 && 0 <= rd <= COORD_CAP as int);
        assert(-PROD_CAP as int <= (b as int) * (b as int) <= PROD_CAP as int) by (nonlinear_arith)
            requires
                iabs(b as int) <= 18 * sm,
                0 <= sm <= 26_000_000_000_000_000,
        ;
        assert(iabs(c as int) <= 800_000_000_000_000_000_000_000_000) by (nonlinear_arith)
            requires
                iabs(c as int) * sc <= 3 * (sm * sm) + rd * rd,
                0 <= sm <= 26_000_000_000_000_000,
                0 <= rd <= COORD_CAP as int,
                sc == 100_000_000,
        ;
        assert(-PROD_CAP as int <= (a as int) * (c as int) <= PROD_CAP as int) by (nonlinear_arith)
            requires
                iabs(c as int) <= 800_000_000_000_000_000_000_000_000,
                0 <= a as int <= 4 * sc,
                sc == 100_000_000,
        ;
    }
    let f_bb = fmul(b, b);
    let f_ac = fmul(a, c);
    proof {
        lemma_fmul_bound(b as int, b as int, 18 * sm, 18 * sm);
        assert(iabs(f_bb as int) * sc <= 324 * (sm * sm)) by (nonlinear_arith)
            requires
                iabs(f_bb as int) * sc <= (18 * sm) * (18 * sm),
                sm >= 0,
        ;
        lemma_tdiv_mag((a as int) * (c as int), sc);
        assert(iabs((a as int) * (c as int)) * sc <= (4 * sc) * (3 * (sm * sm) + rd * rd))
            by (nonlinear_arith)
            requires
                0 <= a as int <= 4 * sc,
                iabs(c as int) * sc <= 3 * (sm * sm) + rd * rd,
                sc > 0,
        ;
        assert(iabs(f_ac as int) * sc <= 4 * (3 * (sm * sm) + rd * rd)) by (nonlinear_arith)
            requires
                iabs(f_ac as int) * sc <= iabs((a as int) * (c as int)),
                iabs((a as int) * (c as int)) * sc <= (4 * sc) * (3 * (sm * sm) + rd * rd),
                sc == 100_000_000,
                iabs(f_ac as int) >= 0,
        ;
    }
    let disc = f_bb - 4 * f_ac;
    proof {
        assert(iabs(disc as int) * sc <= 400 * ((sm + rd) * (sm + rd))) by (nonlinear_arith)
            requires
                iabs(f_bb as int) * sc <= 324 * (sm * sm),
                iabs(f_ac as int) * sc <= 4 * (3 * (sm * sm) + rd * rd),
                disc as int == f_bb as int - 4 * (f_ac as int),
                sm >= 0,
                rd >= 0,
                sc > 0,
        ;
        assert(iabs(disc as int) <= DIV_CAP as int) by (nonlinear_arith)
            requires
                iabs(disc as int) * sc <= 400 * ((sm + rd) * (sm + rd)),
                0 <= sm <= 26_000_000_000_000_000,
                0 <= rd <= COORD_CAP as int,
                sc == 100_000_000,
        ;
    }
    if disc >= 0 {
        let sq = fsqrt(disc);
        proof {
            assert((disc as int) * sc <= (20 * (sm + rd) + sc) * (20 * (sm + rd) + sc))
                by (nonlinear_arith)
                requires
                    iabs(disc as int) * sc <= 400 * ((sm + rd) * (sm + rd)),
                    disc as int >= 0,
                    sm >= 0,
                    rd >= 0,
                    sc == 100_000_000,
            ;
            lemma_sqrt_le((disc as int) * sc, 20 * (sm + rd) + sc);
            assert(sq as int <= 20 * (sm + rd) + sc);
            assert(iabs(-(b as int) - sq as int) <= 40 * (sm + rd) + 2 * sc);
            assert(iabs(-(b as int) + sq as int) <= 40 * (sm + rd) + 2 * sc);
        }
        let num1 = -b - sq;
        let num2 = -b + sq;
        let t1 = fdiv(num1, 2 * a);
        let t2 = fdiv(num2, 2 * a);
        proof {
            lemma_fdiv_mag(num1 as int, 2 * a as int);
            lemma_fdiv_mag(num2 as int, 2 * a as int);
            assert(num1 as int * sc <= num2 as int * sc);
            lemma_tdiv_mono(num1 as int * sc, num2 as int * sc, 2 * a as int);
        }
        let mut v: Vec<Intersection> = Vec::new();
        v.push(Intersection { t: t1, object: 0 });
        v.push(Intersection { t: t2, object: 0 });
        Some(v)
    } else {
        None
    }
}

/// Builds a hit record from a parameter and an object index.
pub fn intersection(t: i128, object: usize) -> (r: Intersection)
    ensures
        r.t == t,
        r.object == object,
{
    Intersection { t, object }
}

/// The nearest strictly positive intersection of a ray with one sphere,
/// if any: a ray starting exactly on the surface does not re-hit itself,
/// and roots at or behind the origin are ignored.
pub fn hit(s: &Sphere, r: &Ray) -> (res: Option<Intersection>)
    requires
        swf(*s),
        ray_wf(*r),
    ensures
        match res {
            Some(i) => {
                &&& disc_spec(*s, *r) >= 0
                &&& i.t as int > 0
                &&& i.object == 0
                &&& (i.t as int == t1_spec(*s, *r) || i.t as int == t2_spec(*s, *r))
                &&& (t1_spec(*s, *r) > 0 ==> i.t as int == t1_spec(*s, *r))
                &&& i.t as int <= t2_spec(*s, *r)
            },
            None => disc_spec(*s, *r) < 0 || (t1_spec(*s, *r) <= 0 && t2_spec(*s, *r) <= 0),
        },
        disc_spec(*s, *r) >= 0 ==> t1_spec(*s, *r) <= t2_spec(*s, *r),
{
    let xs = intersect(s, r);
    match xs {
        Some(v) => {
            let i1 = v[0];
            let i2 = v[1];
            if i1.t > 0 {
                Some(i1)
            } else if i2.t > 0 {
                Some(i2)
            } else {
                None
            }
        },
        None => None,
    }
}

/// The un-normalized world-space normal direction at a point: the point
/// pulled back to object space, less the center, pushed forward by the
/// inverse-transpose rule.
pub open spec fn world_normal_spec(s: Sphere, p: Vec3) -> Vec3 {
    fwd_vector_spec(s.transform, vsub_spec(inv_point_spec(s.transform, p), s.center))
}

/// The surface normal at a world point, renormalized after the
/// transform (with a short direction scaled up first, so that the
/// renormalization is well conditioned even for very small spheres).
pub open spec fn normal_at_spec(s: Sphere, p: Vec3) -> Vec3 {
    normalize_spec(boost_spec(world_normal_spec(s, p)))
}

/// The surface normal of a sphere at a world point. For any point whose
/// un-normalized normal direction is nonzero, the result has unit
/// length to within the last few fixed-point digits; only a point that
/// maps exactly onto the sphere's transformed center (a caller
/// invariant violation) yields the zero direction unchanged.
pub fn normal_at(s: &Sphere, p: Vec3) -> (r: Vec3)
    requires
        swf(*s),
        vmax(p) <= POINT_CAP as int,
    ensures
        r == normal_at_spec(*s, p),
        vmax(r) <= 3 * SCALE as int,
        world_normal_spec(*s, p) != (Vec3 { x: 0i128, y: 0i128, z: 0i128 }) ==> SCALE as int - 32
            <= msq_spec(r) <= SCALE as int + 32,
{
    let object_point = s.transform.inverse_point(&p);
    let object_normal = object_point.sub(&s.center);
    proof {
        assert(vmax(object_normal) <= vmax(object_point) + vmax(s.center));
    }
    let world_normal = s.transform.forward_vector(&object_normal);
    let boosted = world_normal.boost();
    boosted.normalize()
}

/// Reflection of an incoming vector about a normal:
/// `v - normal * 2 * dot(v, normal)`.
pub open spec fn reflect_spec(v: Vec3, n: Vec3) -> Vec3 {
    vsub_spec(v, vscale_spec(n, 2 * dot_spec(v, n)))
}

/// Reflects an incoming vector about a normal.
pub fn reflect(v_in: &Vec3, normal: &Vec3) -> (r: Vec3)
    requires
        vmax(*v_in) <= 100 * SCALE as int,
        vmax(*normal) <= 100 * SCALE as int,
    ensures
        r == reflect_spec(*v_in, *normal),
        vmax(r) <= 7_000_000 * SCALE as int,
{
    let d = v_in.dot(normal);
    proof {
        lemma_dot_bound(*v_in, *normal, 100 * SCALE as int, 100 * SCALE as int);
        assert(iabs(d as int) <= 30_000 * SCALE as int) by (nonlinear_arith)
            requires
                iabs(d as int) * (SCALE as int) <= 3 * ((100 * SCALE as int) * (100 * SCALE
                    as int)),
                SCALE as int == 100_000_000,
                iabs(d as int) >= 0,
        ;
        lemma_fmul_bound(normal.x as int, 2 * d, 100 * SCALE as int, 60_000 * SCALE as int);
        lemma_fmul_bound(normal.y as int, 2 * d, 100 * SCALE as int, 60_000 * SCALE as int);
        lemma_fmul_bound(normal.z as int, 2 * d, 100 * SCALE as int, 60_000 * SCALE as int);
        assert forall|q: int|
            iabs(q) * (SCALE as int) <= (100 * SCALE as int) * (60_000 * SCALE
                as int) implies iabs(q) <= 6_000_000 * SCALE as int by {
            assert(iabs(q) <= 6_000_000 * SCALE as int) by (nonlinear_arith)
                requires
                    iabs(q) * (SCALE as int) <= (100 * SCALE as int) * (60_000 * SCALE as int),
                    SCALE as int == 100_000_000,
                    iabs(q) >= 0,
            ;
        };
    }
    let scaled = normal.scale(2 * d);
    v_in.sub(&scaled)
}

/// The shading context for one hit, as `prepare_computations` builds it:
/// hit point, eye vector, possibly flipped normal, inside flag, and the
/// bias-shifted point for shadow rays.
pub open spec fn prepare_spec(i: Intersection, r: Ray, s: Sphere) -> Computation {
    let point = point_at_spec(r, i.t as int);
    let eyev = vneg_spec(r.dir);
    let n0 = normal_at_spec(s, point);
    let inside = dot_spec(n0, eyev) < 0;
    let normalv = if inside {
        vneg_spec(n0)
    } else {
        n0
    };
    let over_point = vadd_spec(point, vscale_spec(normalv, EPSILON as int));
    Computation { t: i.t, object: i.object, point, eyev, normalv, inside, over_point }
}

/// Builds the shading context for one intersection: the hit point, the
/// eye vector (the negated ray direction), the surface normal (flipped,
/// with the inside flag set, when the ray starts inside the object), and
/// the shadow-bias point lifted off the surface along the normal.
#[verifier::rlimit(100)]
pub fn prepare_computations(i: &Intersection, r: &Ray, object: &Sphere) -> (c: Computation)
    requires
        swf(*object),
        ray_wf(*r),
        vmax(r.origin) <= EYE_CAP as int,
        iabs(i.t as int) <= T_CAP as int,
    ensures
        c == prepare_spec(*i, *r, *object),
        vmax(c.point) <= EYE_CAP as int + 4 * T_CAP as int + 1,
        vmax(c.over_point) <= POINT_CAP as int,
        vmax(c.normalv) <= 3 * SCALE as int,
        vmax(c.eyev) <= 3 * SCALE as int,
{
    proof {
        lemma_dir_bound(r.dir);
    }
    let point = r.point_at(i.t);
    let eyev = r.dir.neg();
    let n0 = normal_at(object, point);
    let d = n0.dot(&eyev);
    let inside: bool;
    let normalv: Vec3;
    if d < 0 {
        inside = true;
        normalv = n0.neg();
    } else {
        inside = false;
        normalv = n0;
    }
    proof {
        lemma_fmul_bound(normalv.x as int, EPSILON as int, 3 * SCALE as int, EPSILON as int);
        lemma_fmul_bound(normalv.y as int, EPSILON as int, 3 * SCALE as int, EPSILON as int);
        lemma_fmul_bound(normalv.z as int, EPSILON as int, 3 * SCALE as int, EPSILON as int);
        assert forall|q: int|
            iabs(q) * (SCALE as int) <= (3 * SCALE as int) * (EPSILON as int) implies iabs(q) <= 3
            * EPSILON as int by {
            assert(iabs(q) <= 3 * EPSILON as int) by (nonlinear_arith)
                requires
                    iabs(q) * (SCALE as int) <= (3 * SCALE as int) * (EPSILON as int),
                    SCALE as int == 100_000_000,
                    EPSILON as int == 10_000,
                    iabs(q) >= 0,
            ;
        };
    }
    let shift = normalv.scale(EPSILON);
    let over_point = point.add(&shift);
    Computation { t: i.t, object: i.object, point, eyev, normalv, inside, over_point }
}

} // verus!
