use ray_tracer::fixed::SCALE;
use ray_tracer::intersections::{hit, intersect, intersection, prepare_computations, Intersection};
use ray_tracer::ray::Ray;
use ray_tracer::sphere::Sphere;
use ray_tracer::vec3::Vec3;

#[test]
fn test_lifetime() {
    let s = Sphere::new(Vec3::new(0, 0, 0), SCALE);
    let ray = Ray::new(Vec3::new(0, 0, -5 * SCALE), Vec3::new(0, 0, SCALE));
    let xs = intersect(&s, &ray).unwrap();
    assert_eq!(xs[0].t, 4 * SCALE);
    assert_eq!(xs[1].t, 6 * SCALE);
    assert_eq!(xs[0].object, 0);
}

#[test]
fn test_hit() {
    let s = Sphere::new(Vec3::new(0, 0, 0), SCALE);
    let ray = Ray::new(Vec3::new(0, 0, -5 * SCALE), Vec3::new(0, 0, SCALE));
    let i = hit(&s, &ray);
    assert_eq!(i, Some(Intersection { t: 4 * SCALE, object: 0 }));
}

#[test]
fn tangent_ray_yields_two_equal_roots() {
    let s = Sphere::default();
    let ray = Ray::new(Vec3::new(0, SCALE, -5 * SCALE), Vec3::new(0, 0, SCALE));
    let xs = intersect(&s, &ray).unwrap();
    assert_eq!(xs.len(), 2);
    assert_eq!(xs[0].t, 5 * SCALE);
    assert_eq!(xs[1].t, 5 * SCALE);
}

#[test]
fn ray_from_inside_hits_ahead_and_behind() {
    let s = Sphere::default();
    let ray = Ray::new(Vec3::new(0, 0, 0), Vec3::new(0, 0, SCALE));
    let xs = intersect(&s, &ray).unwrap();
    assert_eq!(xs[0].t, -SCALE);
    assert_eq!(xs[1].t, SCALE);
    // the hit skips the root behind the origin
    let h = hit(&s, &ray).unwrap();
    assert_eq!(h.t, SCALE);
}

#[test]
fn missing_ray_yields_no_intersections() {
    let s = Sphere::default();
    let ray = Ray::new(Vec3::new(0, 2 * SCALE, -5 * SCALE), Vec3::new(0, 0, SCALE));
    assert!(intersect(&s, &ray).is_none());
    assert!(hit(&s, &ray).is_none());
}

#[test]
fn test_comp() {
    // outside
    let r = Ray::new(Vec3::new(0, 0, -5 * SCALE), Vec3::new(0, 0, SCALE));
    let shape = Sphere::default();
    let i = intersection(4 * SCALE, 0);
    let comps = prepare_computations(&i, &r, &shape);
    assert_eq!(comps.inside, false);

    // inside
    let r = Ray::new(Vec3::new(0, 0, 0), Vec3::new(0, 0, SCALE));
    let shape = Sphere::default();
    let i = intersection(SCALE, 0);
    let comps = prepare_computations(&i, &r, &shape);
    assert_eq!(comps.inside, true);
    assert_eq!((comps.point.x, comps.point.y, comps.point.z), (0, 0, SCALE));
    assert_eq!((comps.eyev.x, comps.eyev.y, comps.eyev.z), (0, 0, -SCALE));
    assert_eq!((comps.normalv.x, comps.normalv.y, comps.normalv.z), (0, 0, -SCALE));
}

#[test]
fn over_point_is_lifted_off_the_surface() {
    let r = Ray::new(Vec3::new(0, 0, -5 * SCALE), Vec3::new(0, 0, SCALE));
    let shape = Sphere::default();
    let i = intersection(4 * SCALE, 0);
    let comps = prepare_computations(&i, &r, &shape);
    // point (0,0,-1) nudged along normal (0,0,-1) by 1e-4
    assert_eq!(comps.over_point.z, -SCALE - 10_000);
}
