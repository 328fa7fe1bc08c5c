use ray_tracer::fixed::SCALE;
use ray_tracer::intersections::{normal_at, reflect};
use ray_tracer::ray::Ray;
use ray_tracer::sphere::Sphere;
use ray_tracer::transform::Transform;
use ray_tracer::vec3::Vec3;

fn close(a: i128, b: i128, eps: i128) -> bool {
    (a - b).abs() <= eps
}

#[test]
fn test_ray() {
    let p = Vec3::new(10_000_000, 20_000_000, 30_000_000);
    let q = Vec3::new(20_000_000, 30_000_000, 40_000_000);
    let r = Ray::new(p, q);
    assert_eq!(r.origin.x, 10_000_000);
    assert_eq!(r.origin.y, 20_000_000);
    assert_eq!(r.origin.z, 30_000_000);
    assert_eq!(r.dir.x, 20_000_000);
    assert_eq!(r.dir.y, 30_000_000);
    assert_eq!(r.dir.z, 40_000_000);
}

#[test]
fn test_ray_at() {
    let p = Vec3::new(0, 0, 0);
    let q = Vec3::new(SCALE, 2 * SCALE, 3 * SCALE);
    let r = Ray::new(p, q);
    let s = r.point_at(SCALE / 2);
    assert_eq!(s.x, SCALE / 2);
    assert_eq!(s.y, SCALE);
    assert_eq!(s.z, 3 * SCALE / 2);
}

#[test]
fn test_normal_at() {
    let s = Sphere::new(Vec3::new(0, 0, 0), SCALE);
    let n = normal_at(&s, Vec3::new(SCALE, 0, 0));
    assert_eq!((n.x, n.y, n.z), (SCALE, 0, 0));
    let n = normal_at(&s, Vec3::new(0, 0, SCALE));
    assert_eq!((n.x, n.y, n.z), (0, 0, SCALE));
    // sqrt(3)/3 on the x axis, 0.577350 on the others
    let n = normal_at(&s, Vec3::new(57_735_026, 57_735_000, 57_735_000));
    assert!(close(n.x, 57_735_000, 100));
}

#[test]
fn test_normal_at_no_origin() {
    let mut s = Sphere::new(Vec3::new(0, SCALE, 0), SCALE);
    s.transform = s.transform.append_translation(&Vec3::new(SCALE, SCALE, SCALE));
    let n = normal_at(&s, Vec3::new(SCALE, 270_711_000, 29_289_000));
    assert!(close(n.x, 0, 10_000));
    assert!(close(n.y, 70_711_000, 10_000));
    assert!(close(n.z, -70_711_000, 10_000));
}

#[test]
fn test_reflect() {
    let v = Vec3::new(SCALE, -SCALE, 0);
    let n = Vec3::new(0, SCALE, 0);
    let r = reflect(&v, &n);
    assert!(close(r.x, SCALE, 10_000));
    assert!(close(r.y, SCALE, 10_000));
    assert!(close(r.z, 0, 10_000));

    let v1 = Vec3::new(0, -SCALE, 0);
    let n1 = Vec3::new(70_710_678, 70_710_678, 0);
    let r = reflect(&v1, &n1);
    assert!(close(r.x, SCALE, 100));
    assert!(close(r.y, 0, 100));
    assert!(close(r.z, 0, 100));
}

#[test]
fn reflection_is_exact_on_axis_normals() {
    // reflect((1,-1,0), (0,1,0)) is exactly (1,1,0) in fixed point
    let v = Vec3::new(SCALE, -SCALE, 0);
    let n = Vec3::new(0, SCALE, 0);
    let r = reflect(&v, &n);
    assert_eq!((r.x, r.y, r.z), (SCALE, SCALE, 0));
}

#[test]
fn normals_have_unit_length() {
    let s = Sphere::new(Vec3::new(0, 0, 0), SCALE);
    // a point on the unit sphere in no special direction
    let n = normal_at(&s, Vec3::new(30_000_000, 40_000_000, 86_602_540));
    let m = n.dot(&n);
    assert!(close(m, SCALE, 32));
    // an off-sphere point still yields a unit direction
    let n = normal_at(&s, Vec3::new(3 * SCALE, 4 * SCALE, 0));
    let m = n.dot(&n);
    assert!(close(m, SCALE, 32));
}

#[test]
fn magnitude_of_three_four_is_five() {
    let v = Vec3::new(3 * SCALE, 4 * SCALE, 0);
    assert_eq!(v.magnitude(), 5 * SCALE);
}

#[test]
fn identity_transform_fixes_points() {
    let m = Transform::identity();
    let p = Vec3::new(123_000_000, -456_000_000, 789_000_000);
    let q = m.inverse_point(&p);
    assert_eq!((q.x, q.y, q.z), (p.x, p.y, p.z));
}

#[test]
fn trigonometry_is_accurate_at_known_angles() {
    // tan(pi/4) is exactly one in this representation
    assert_eq!(ray_tracer::fixed::tan_fx(78_539_816), SCALE);
    // sin(pi/3) and cos(pi/3), within the last digits
    assert_eq!(ray_tracer::fixed::sin_fx(104_719_755), 86_602_541);
    assert_eq!(ray_tracer::fixed::cos_fx(104_719_755), 50_000_000);
}

#[test]
fn computation_builder_keeps_its_fields() {
    let c = ray_tracer::computation::Computation::new(
        4 * SCALE,
        0,
        Vec3::new(0, 0, -SCALE),
        Vec3::new(0, 0, -SCALE),
        Vec3::new(0, 0, -SCALE),
        Vec3::new(0, 0, -SCALE - 10_000),
    );
    assert_eq!(c.t, 4 * SCALE);
    assert_eq!(c.object, 0);
    assert_eq!(c.inside, false);
    assert_eq!(c.over_point.z, -SCALE - 10_000);
}

#[test]
fn small_sphere_normals_are_still_unit() {
    // a tenth-radius sphere: the un-normalized normal is short, but the
    // returned normal still has unit length
    let s = Sphere::new(Vec3::new(0, 0, 0), 10_000_000);
    let n = normal_at(&s, Vec3::new(10_000_000, 0, 0));
    assert_eq!((n.x, n.y, n.z), (SCALE, 0, 0));
    assert!((n.dot(&n) - SCALE).abs() <= 32);
}
