//! The scene aggregate and the top-level ray resolution: gather every
//! object's intersections, sort them by parameter, shade the nearest,
//! and test shadow occlusion.

use vstd::prelude::*;

verus! {

use crate::computation::Computation;
use crate::fixed::COORD_CAP;
use crate::fixed::DIV_CAP;
use crate::fixed::EYE_CAP;
use crate::fixed::POINT_CAP;
use crate::fixed::SCALE;
use crate::fixed::fsqrt;
use crate::fixed::fsqrt_spec;
use crate::fixed::iabs;
use crate::intersections::Intersection;
use crate::intersections::disc_spec;
use crate::intersections::intersect;
use crate::intersections::prepare_computations;
use crate::intersections::prepare_spec;
use crate::intersections::t1_spec;
use crate::intersections::t2_spec;
use crate::intersections::t_cap_spec;
use crate::light::PointLight;
use crate::light::lighting;
use crate::light::lighting_spec;
use crate::light::lwf;
use crate::ray::Ray;
use crate::ray::ray_wf;
use crate::ray_rgb::RayRgb;
use crate::ray_rgb::cmax;
use crate::sphere::Sphere;
use crate::sphere::swf;
use crate::vec3::Vec3;
use crate::vec3::boost_spec;
use crate::vec3::msq_spec;
use crate::vec3::normalize_spec;
use crate::vec3::vmax;
use crate::vec3::vsub_spec;
use vstd::seq_lib::group_to_multiset_ensures;

/// The scene: an ordered object collection and a light collection. Only
/// the first light drives shading, a deliberate simplification of this
/// design; intersection records refer to objects by index into
/// `objects`.
pub struct World {
    pub lights: Vec<PointLight>,
    pub objects: Vec<Sphere>,
}

/// Well-formed world: at least one light, and every light and object
/// within scene range.
pub open spec fn wwf(w: &World) -> bool {
    &&& w.lights@.len() >= 1
    &&& forall|i: int| 0 <= i < w.lights@.len() ==> lwf(#[trigger] w.lights@[i])
    &&& forall|i: int| 0 <= i < w.objects@.len() ==> swf(#[trigger] w.objects@[i])
}

impl Default for World {
    /// One white light at (-10, 10, -10) and one unit sphere at the
    /// origin with color (0.8, 0.4, 0.6), diffuse 0.9, specular 0.4 and
    /// ambient 0.5.
    fn default() -> (w: World)
        ensures
            w.lights@.len() == 1,
            w.lights@[0].color == (RayRgb { r: SCALE, g: SCALE, b: SCALE }),
            w.lights@[0].position == (Vec3 {
                x: -1_000_000_000i128,
                y: 1_000_000_000i128,
                z: -1_000_000_000i128,
            }),
            w.lights@[0].intensity == 1,
            w.objects@.len() == 1,
            w.objects@[0].center == (Vec3 { x: 0, y: 0, z: 0 }),
            w.objects@[0].radius == SCALE,
            w.objects@[0].material.color == (RayRgb {
                r: 80_000_000,
                g: 40_000_000,
                b: 60_000_000,
            }),
            w.objects@[0].material.diffuse == 90_000_000,
            w.objects@[0].material.specular == 40_000_000,
            w.objects@[0].material.ambient == 50_000_000,
            w.objects@[0].material.shininess == 200,
            w.objects@[0].material.pattern is None,
            w.objects@[0].transform == crate::transform::identity_spec(),
            w.objects@[0].scale == (Vec3 { x: SCALE, y: SCALE, z: SCALE }),
            wwf(&w),
    {
        let light = PointLight::new(
            RayRgb::white(),
            Vec3 { x: -1_000_000_000, y: 1_000_000_000, z: -1_000_000_000 },
        );
        let mut sphere1 = Sphere::new(Vec3 { x: 0, y: 0, z: 0 }, SCALE);
        sphere1.material.color = RayRgb { r: 80_000_000, g: 40_000_000, b: 60_000_000 };
        sphere1.material.diffuse = 90_000_000;
        sphere1.material.specular = 40_000_000;
        sphere1.material.ambient = 50_000_000;
        let mut lights = Vec::new();
        lights.push(light);
        let mut objects = Vec::new();
        objects.push(sphere1);
        World { lights, objects }
    }
}

/// The zero or two intersection records one object contributes, tagged
/// with its index.
pub open spec fn object_isects_spec(s: Sphere, r: Ray, idx: int) -> Seq<Intersection> {
    if disc_spec(s, r) >= 0 {
        seq![
            Intersection { t: t1_spec(s, r) as i128, object: idx as usize },
            Intersection { t: t2_spec(s, r) as i128, object: idx as usize },
        ]
    } else {
        Seq::empty()
    }
}

/// The concatenated intersections of the first `n` objects, in object
/// order.
pub open spec fn all_isects_spec(w: &World, r: Ray, n: int) -> Seq<Intersection>
    decreases n,
{
    if n <= 0 {
        Seq::empty()
    } else {
        all_isects_spec(w, r, n - 1) + object_isects_spec(w.objects@[n - 1], r, n - 1)
    }
}

/// Stable insertion into a sorted sequence: the new record goes after
/// every record with an equal or smaller parameter.
pub open spec fn insert_sorted_spec(x: Intersection, s: Seq<Intersection>) -> Seq<Intersection>
    decreases s.len(),
{
    if s.len() == 0 {
        seq![x]
    } else if x.t < s[0].t {
        seq![x] + s
    } else {
        seq![s[0]] + insert_sorted_spec(x, s.drop_first())
    }
}

/// Stable insertion sort by the ray parameter, record by record.
pub open spec fn sort_spec(s: Seq<Intersection>) -> Seq<Intersection>
    decreases s.len(),
{
    if s.len() == 0 {
        s
    } else {
        insert_sorted_spec(s.last(), sort_spec(s.drop_last()))
    }
}

/// Every world intersection of a ray, sorted ascending by parameter
/// (ties kept in object order).
pub open spec fn world_isects_spec(w: &World, r: Ray) -> Seq<Intersection> {
    sort_spec(all_isects_spec(w, r, w.objects@.len() as int))
}

/// Ascending by parameter.
pub open spec fn sorted_by_t(s: Seq<Intersection>) -> bool {
    forall|i: int, j: int| 0 <= i <= j < s.len() ==> s[i].t <= s[j].t
}

/// A parameter bound every intersection of a well-formed world meets.
pub open spec fn world_t_cap(w: &World, r: Ray) -> int {
    50 * (vmax(r.origin) + 2 * COORD_CAP as int) + 4 * SCALE as int
}

/// Inserting keeps sortedness, adds the record to the multiset, and
/// grows the length by one.
proof fn lemma_insert_sorted(x: Intersection, s: Seq<Intersection>)
    requires
        sorted_by_t(s),
    ensures
        sorted_by_t(insert_sorted_spec(x, s)),
        insert_sorted_spec(x, s).to_multiset() == s.to_multiset().insert(x),
        insert_sorted_spec(x, s).len() == s.len() + 1,
        forall|k: int|
            0 <= k < insert_sorted_spec(x, s).len() ==> (#[trigger] insert_sorted_spec(x, s)[k]
                == x || s.contains(insert_sorted_spec(x, s)[k])),
    decreases s.len(),
{
    broadcast use group_to_multiset_ensures;

    let r = insert_sorted_spec(x, s);
    if s.len() == 0 {
        assert(r =~= seq![x]);
        assert(r.to_multiset() =~= s.to_multiset().insert(x)) by {
            assert(seq![x] =~= Seq::empty().push(x));
        }
    } else if x.t < s[0].t {
        assert(r =~= seq![x] + s);
        assert(r.to_multiset() =~= s.to_multiset().insert(x)) by {
            assert(r =~= s.insert(0, x));
            s.insert_ensures(0, x);
        }
        assert forall|i: int, j: int| 0 <= i <= j < r.len() implies r[i].t <= r[j].t by {
            if i > 0 {
                assert(r[i] == s[i - 1] && r[j] == s[j - 1]);
            }
        }
    } else {
        let tail = s.drop_first();
        assert(sorted_by_t(tail)) by {
            assert(forall|i: int, j: int|
                0 <= i <= j < tail.len() ==> tail[i].t == s[i + 1].t && tail[j].t == s[j + 1].t
                    && s[i + 1].t <= s[j + 1].t);
        }
        lemma_insert_sorted(x, tail);
        let rt = insert_sorted_spec(x, tail);
        assert(r =~= seq![s[0]] + rt);
        // Sortedness: s[0] is no larger than anything in rt.
        assert forall|i: int, j: int| 0 <= i <= j < r.len() implies r[i].t <= r[j].t by {
            if i == 0 {
                if j > 0 {
                    assert(r[j] == rt[j - 1]);
                    if rt[j - 1] == x {
                        assert(s[0].t <= x.t);
                    } else {
                        assert(tail.contains(rt[j - 1]));
                        let k = choose|k: int|
                            0 <= k < tail.len() && tail[k] == rt[j - 1];
                        assert(s[k + 1] == tail[k]);
                        assert(s[0].t <= s[k + 1].t);
                    }
                }
            } else {
                assert(r[i] == rt[i - 1] && r[j] == rt[j - 1]);
            }
        }
        // Multiset: prepend commutes with insertion.
        assert(r.to_multiset() =~= s.to_multiset().insert(x)) by {
            assert(r =~= rt.insert(0, s[0]));
            rt.insert_ensures(0, s[0]);
            assert(r.to_multiset() =~= rt.to_multiset().insert(s[0]));
            assert(s =~= tail.insert(0, s[0]));
            tail.insert_ensures(0, s[0]);
            assert(s.to_multiset() =~= tail.to_multiset().insert(s[0]));
            assert(rt.to_multiset() =~= tail.to_multiset().insert(x));
            assert(tail.to_multiset().insert(x).insert(s[0]) =~= tail.to_multiset().insert(
                s[0],
            ).insert(x));
        }
        assert forall|k: int| 0 <= k < r.len() implies (r[k] == x || s.contains(r[k])) by {
            if k == 0 {
                assert(s.contains(s[0]));
            } else {
                assert(r[k] == rt[k - 1]);
                if rt[k - 1] != x {
                    assert(tail.contains(rt[k - 1]));
                    let m = choose|m: int| 0 <= m < tail.len() && tail[m] == rt[k - 1];
                    assert(s[m + 1] == tail[m]);
                }
            }
        }
    }
}

/// The sorted sequence is a sorted permutation of the input.
proof fn lemma_sort_spec(s: Seq<Intersection>)
    ensures
        sorted_by_t(sort_spec(s)),
        sort_spec(s).to_multiset() == s.to_multiset(),
        sort_spec(s).len() == s.len(),
        forall|k: int|
            0 <= k < sort_spec(s).len() ==> s.contains(#[trigger] sort_spec(s)[k]),
    decreases s.len(),
{
    broadcast use group_to_multiset_ensures;

    if s.len() == 0 {
    } else {
        let head = s.drop_last();
        lemma_sort_spec(head);
        lemma_insert_sorted(s.last(), sort_spec(head));
        assert(s =~= head.push(s.last()));
        assert(s.to_multiset() =~= head.to_multiset().insert(s.last()));
        let r = sort_spec(s);
        assert forall|k: int| 0 <= k < r.len() implies s.contains(#[trigger] r[k]) by {
            if r[k] == s.last() {
                assert(s[s.len() - 1] == s.last());
            } else {
                assert(sort_spec(head).contains(r[k]));
                let m = choose|m: int|
                    0 <= m < sort_spec(head).len() && sort_spec(head)[m] == r[k];
                assert(head.contains(r[k]));
                let p = choose|p: int| 0 <= p < head.len() && head[p] == r[k];
                assert(s[p] == head[p]);
            }
        }
    }
}

/// The law the sorted intersection list obeys: it is ascending by
/// parameter and a permutation of the per-object roots taken in object
/// order.
pub proof fn lemma_world_isects_sorted(w: &World, r: Ray)
    ensures
        sorted_by_t(world_isects_spec(w, r)),
        world_isects_spec(w, r).to_multiset() == all_isects_spec(
            w,
            r,
            w.objects@.len() as int,
        ).to_multiset(),
        world_isects_spec(w, r).len() == all_isects_spec(w, r, w.objects@.len() as int).len(),
{
    lemma_sort_spec(all_isects_spec(w, r, w.objects@.len() as int));
}

/// Collects every object's intersections with a ray, tagged by object
/// index, and sorts them ascending by parameter (stable insertion sort,
/// so equal parameters keep object order). Every record's index is
/// valid and its parameter bounded by `world_t_cap`.
pub fn intersect_world(world: &World, ray: &Ray) -> (res: Vec<Intersection>)
    requires
        wwf(world),
        ray_wf(*ray),
    ensures
        res@ == world_isects_spec(world, *ray),
        sorted_by_t(res@),
        res@.to_multiset() == all_isects_spec(world, *ray, world.objects@.len() as int)
            .to_multiset(),
        forall|k: int|
            0 <= k < res@.len() ==> (#[trigger] res@[k]).object < world.objects@.len() && iabs(
                res@[k].t as int,
            ) <= world_t_cap(world, *ray),
{
    broadcast use group_to_multiset_ensures;

    let ghost cap: int = world_t_cap(world, *ray);
    let mut acc: Vec<Intersection> = Vec::new();
    let n = world.objects.len();
    let mut idx: usize = 0;
    while idx < n
        invariant
            wwf(world),
            ray_wf(*ray),
            n == world.objects@.len(),
            0 <= idx <= n,
            cap == world_t_cap(world, *ray),
            acc@ == all_isects_spec(world, *ray, idx as int),
            forall|k: int|
                0 <= k < acc@.len() ==> (#[trigger] acc@[k]).object < n && iabs(acc@[k].t as int)
                    <= cap,
        decreases n - idx,
    {
        let obj = &world.objects[idx];
        let found = intersect(obj, ray);
        match found {
            Some(v) => {
                let t1 = v[0].t;
                let t2 = v[1].t;
                acc.push(Intersection { t: t1, object: idx });
                acc.push(Intersection { t: t2, object: idx });
                proof {
                    assert(t_cap_spec(*obj, *ray) <= cap);
                    assert(acc@ =~= all_isects_spec(world, *ray, idx + 1));
                }
            },
            None => {
                proof {
                    assert(acc@ =~= all_isects_spec(world, *ray, idx + 1));
                }
            },
        }
        idx = idx + 1;
    }
    // Stable insertion sort by the parameter.
    let ghost whole: Seq<Intersection> = acc@;
    let mut sorted: Vec<Intersection> = Vec::new();
    let mut j: usize = 0;
    while j < acc.len()
        invariant
            0 <= j <= acc@.len(),
            acc@ == whole,
            sorted@ == sort_spec(whole.take(j as int)),
            forall|k: int|
                0 <= k < whole.len() ==> (#[trigger] whole[k]).object < world.objects@.len()
                    && iabs(whole[k].t as int) <= cap,
            cap == world_t_cap(world, *ray),
        decreases acc@.len() - j,
    {
        let x = acc[j];
        let mut pos: usize = 0;
        while pos < sorted.len() && !(x.t < sorted[pos].t)
            invariant
                0 <= pos <= sorted@.len(),
                forall|k: int| 0 <= k < pos ==> !(x.t < (#[trigger] sorted@[k]).t),
            decreases sorted@.len() - pos,
        {
            pos = pos + 1;
        }
        proof {
            lemma_insert_at_pos(x, sorted@, pos as int);
            assert(whole.take(j + 1).drop_last() =~= whole.take(j as int));
            assert(whole.take(j + 1).last() == whole[j as int]);
        }
        sorted.insert(pos, x);
        proof {
            assert(sorted@ =~= sort_spec(whole.take(j as int)).insert(pos as int, x));
            assert(sorted@ =~= sort_spec(whole.take(j + 1)));
        }
        j = j + 1;
    }
    proof {
        assert(whole.take(whole.len() as int) =~= whole);
        lemma_sort_spec(whole);
        assert forall|k: int|
            0 <= k < sorted@.len() implies (#[trigger] sorted@[k]).object < world.objects@.len()
            && iabs(sorted@[k].t as int) <= cap by {
            assert(whole.contains(sorted@[k]));
        }
    }
    sorted
}

/// Inserting at the first position whose parameter exceeds the new
/// record's parameter is exactly the stable insertion.
proof fn lemma_insert_at_pos(x: Intersection, s: Seq<Intersection>, pos: int)
    requires
        0 <= pos <= s.len(),
        forall|k: int| 0 <= k < pos ==> !(x.t < (#[trigger] s[k]).t),
        pos < s.len() ==> x.t < s[pos].t,
    ensures
        insert_sorted_spec(x, s) == s.insert(pos, x),
    decreases pos,
{
    if pos == 0 {
        if s.len() == 0 {
            assert(insert_sorted_spec(x, s) =~= s.insert(0, x));
        } else {
            assert(x.t < s[0].t);
            assert(insert_sorted_spec(x, s) =~= s.insert(0, x));
        }
    } else {
        let tail = s.drop_first();
        assert(!(x.t < s[0].t));
        assert(forall|k: int| 0 <= k < pos - 1 ==> !(x.t < (#[trigger] tail[k]).t));
        lemma_insert_at_pos(x, tail, pos - 1);
        assert(insert_sorted_spec(x, s) =~= seq![s[0]] + tail.insert(pos - 1, x));
        assert(seq![s[0]] + tail.insert(pos - 1, x) =~= s.insert(pos, x));
    }
}

/// Whether a point is occluded from the first light: some intersection
/// of the shadow ray lies at a nonnegative parameter strictly closer
/// than the light. The shadow direction is the light vector, scaled up
/// first where it is short so that its normalization is well
/// conditioned; a point exactly at the light has distance zero, so
/// nothing can lie strictly between and the point is lit.
pub open spec fn is_shadowed_spec(w: &World, point: Vec3) -> bool {
    let v = vsub_spec(w.lights@[0].position, point);
    let distance = fsqrt_spec(msq_spec(v));
    let sray = Ray { origin: point, dir: normalize_spec(boost_spec(v)) };
    exists|k: int|
        0 <= k < all_isects_spec(w, sray, w.objects@.len() as int).len() && 0 <= (
        #[trigger] all_isects_spec(w, sray, w.objects@.len() as int)[k]).t < distance
}

/// Tests whether a point lies in shadow: casts a ray from the point
/// toward the first light and looks for an intersection at a
/// nonnegative parameter nearer than the light.
pub fn is_shadowed(world: &World, point: &Vec3) -> (res: bool)
    requires
        wwf(world),
        vmax(*point) <= POINT_CAP as int,
    ensures
        res == is_shadowed_spec(world, *point),
{
    broadcast use group_to_multiset_ensures;

    let light_pos = world.lights[0].position;
    let v = light_pos.sub(point);
    let m = v.dot(&v);
    proof {
        crate::vec3::lemma_msq_nonneg(v);
        crate::vec3::lemma_dot_bound(v, v, vmax(v), vmax(v));
        assert(m as int <= DIV_CAP as int) by (nonlinear_arith)
            requires
                iabs(m as int) * (SCALE as int) <= 3 * (vmax(v) * vmax(v)),
                0 <= vmax(v) <= 26_000_000_000_000_000,
                SCALE as int == 100_000_000,
                iabs(m as int) == m as int,
                DIV_CAP as int == 1_000_000_000_000_000_000_000_000_000_000,
        ;
    }
    if v.x == 0 && v.y == 0 && v.z == 0 {
        // the point is exactly at the light: distance zero, nothing
        // strictly between
        proof {
            crate::fixed::lemma_sqrt_is(0, 0);
            assert(msq_spec(v) == 0);
            assert(fsqrt_spec(0) == 0);
        }
        return false;
    }
    let distance = fsqrt(m);
    let bv = v.boost();
    let direction = bv.normalize();
    let r = Ray { origin: *point, dir: direction };
    let xs = intersect_world(world, &r);
    let ghost all: Seq<Intersection> = all_isects_spec(world, r, world.objects@.len() as int);
    let mut i: usize = 0;
    while i < xs.len()
        invariant
            0 <= i <= xs@.len(),
            sorted_by_t(xs@),
            xs@.to_multiset() == all.to_multiset(),
            forall|k: int| 0 <= k < i ==> (#[trigger] xs@[k]).t < 0,
            wwf(world),
            distance == fsqrt_spec(msq_spec(vsub_spec(world.lights@[0].position, *point))),
            r == (Ray {
                origin: *point,
                dir: normalize_spec(boost_spec(vsub_spec(world.lights@[0].position, *point))),
            }),
            all == all_isects_spec(world, r, world.objects@.len() as int),
        decreases xs@.len() - i,
    {
        let x = xs[i];
        if x.t >= 0 {
            if x.t < distance {
                proof {
                    broadcast use group_to_multiset_ensures;

                    assert(xs@[i as int] == x);
                    assert(xs@.contains(x));
                    assert(xs@.to_multiset().count(x) > 0);
                    assert(all.to_multiset().count(x) > 0);
                    assert(all.contains(x));
                    let k = choose|k: int| 0 <= k < all.len() && all[k] == x;
                    assert(0 <= (all_isects_spec(world, r, world.objects@.len() as int)[k]).t
                        < distance);
                    assert(is_shadowed_spec(world, *point));
                }
                return true;
            } else {
                proof {
                    broadcast use group_to_multiset_ensures;

                    assert forall|k: int|
                        0 <= k < all.len() implies !(0 <= (#[trigger] all[k]).t
                        < distance) by {
                        assert(all.contains(all[k]));
                        assert(all.to_multiset().count(all[k]) > 0);
                        assert(xs@.to_multiset().count(all[k]) > 0);
                        assert(xs@.contains(all[k]));
                        let p = choose|p: int| 0 <= p < xs@.len() && xs@[p] == all[k];
                        if all[k].t >= 0 {
                            assert(p >= i);
                            assert(xs@[i as int].t <= xs@[p].t);
                        }
                    }
                }
                return false;
            }
        }
        i = i + 1;
    }
    proof {
        assert forall|k: int|
            0 <= k < all.len() implies !(0 <= (#[trigger] all[k]).t < distance) by {
            assert(all.contains(all[k]));
            assert(all.to_multiset().count(all[k]) > 0);
            assert(xs@.to_multiset().count(all[k]) > 0);
            assert(xs@.contains(all[k]));
            let p = choose|p: int| 0 <= p < xs@.len() && xs@[p] == all[k];
            assert(xs@[p].t < 0);
        }
    }
    false
}

/// The color of one shaded hit: the Phong model with the shadow flag
/// from the bias-shifted point, against the first light.
pub open spec fn shade_hit_spec(w: &World, comps: Computation) -> RayRgb {
    lighting_spec(
        w.objects@[comps.object as int].material,
        w.lights@[0],
        comps.over_point,
        comps.eyev,
        comps.normalv,
        is_shadowed_spec(w, comps.over_point),
        w.objects@[comps.object as int],
    )
}

/// Shades one prepared hit: tests occlusion at the bias-shifted point,
/// then runs the lighting model.
pub fn shade_hit(world: &World, comps: &Computation) -> (c: RayRgb)
    requires
        wwf(world),
        comps.object < world.objects@.len(),
        vmax(comps.over_point) <= POINT_CAP as int,
        vmax(comps.eyev) <= 3 * SCALE as int,
        vmax(comps.normalv) <= 3 * SCALE as int,
    ensures
        c == shade_hit_spec(world, *comps),
        cmax(c) <= 10_000_000_000_000_000_000_000,
{
    let shadowed = is_shadowed(world, &comps.over_point);
    lighting(
        &world.objects[comps.object].material,
        &world.lights[0],
        comps.over_point,
        comps.eyev,
        comps.normalv,
        shadowed,
        &world.objects[comps.object],
    )
}

/// The color a ray resolves to: black where it hits nothing, otherwise
/// the shade of the first record of the sorted intersection list (the
/// nearest by parameter, negative parameters included, as this design
/// has it).
pub open spec fn color_at_spec(w: &World, r: Ray) -> RayRgb {
    let xs = world_isects_spec(w, r);
    if xs.len() > 0 {
        shade_hit_spec(w, prepare_spec(xs[0], r, w.objects@[xs[0].object as int]))
    } else {
        RayRgb { r: 0, g: 0, b: 0 }
    }
}

/// Resolves a ray to a color: intersect the world, take the first
/// record of the sorted list, prepare its shading context and shade it;
/// black where nothing is hit.
pub fn color_at(world: &World, ray: &Ray) -> (c: RayRgb)
    requires
        wwf(world),
        ray_wf(*ray),
        vmax(ray.origin) <= EYE_CAP as int,
    ensures
        c == color_at_spec(world, *ray),
        cmax(c) <= 10_000_000_000_000_000_000_000,
{
    let i = intersect_world(world, ray);
    if i.len() > 0 {
        let first = i[0];
        proof {
            assert(iabs(first.t as int) <= world_t_cap(world, *ray));
        }
        let comps = prepare_computations(&first, ray, &world.objects[first.object]);
        shade_hit(world, &comps)
    } else {
        RayRgb { r: 0, g: 0, b: 0 }
    }
}

} // verus!
