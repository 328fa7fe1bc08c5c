use ray_tracer::camera::{render, Camera};
use ray_tracer::fixed::SCALE;
use ray_tracer::transform::Transform;
use ray_tracer::vec3::Vec3;
use ray_tracer::world::World;

// pi/2, as a fixed-point scalar
const PI_2: i128 = 157_079_633;

fn close(a: i128, b: i128, eps: i128) -> bool {
    (a - b).abs() <= eps
}

#[test]
fn test_camera() {
    let c = Camera::new(200, 125, PI_2);
    assert!(close(c.pixel_size, 1_000_000, 10_000));
    let c = Camera::new(125, 200, PI_2);
    assert!(close(c.pixel_size, 1_000_000, 10_000));
}

#[test]
fn test_ray_for_pixel() {
    let c = Camera::new(201, 101, PI_2);
    let r = c.ray_for_pixel(100, 50);
    assert_eq!((r.origin.x, r.origin.y, r.origin.z), (0, 0, 0));
    assert!(close(r.dir.x, 0, 10_000));
    assert!(close(r.dir.y, 0, 10_000));
    assert!(close(r.dir.z, -SCALE, 10_000));

    let c = Camera::new(201, 101, PI_2);
    let r = c.ray_for_pixel(0, 0);
    assert_eq!((r.origin.x, r.origin.y, r.origin.z), (0, 0, 0));
    assert!(close(r.dir.x, 66_519_000, 10_000));
    assert!(close(r.dir.y, 33_259_000, 10_000));
    assert!(close(r.dir.z, -66_851_000, 10_000));

    // the camera translated by (0,-2,5), then rotated a quarter-turn
    // about y: the linear part is the rotation, the translation is the
    // rotated offset
    let mut c = Camera::new(201, 101, PI_2);
    let cs: i128 = 70_710_678;
    c.transform = Transform::new(
        Vec3::new(cs, 0, cs),
        Vec3::new(0, SCALE, 0),
        Vec3::new(-cs, 0, cs),
        Vec3::new(353_553_390, -2 * SCALE, 353_553_390),
    );
    let r = c.ray_for_pixel(100, 50);
    assert!(close(r.origin.x, 0, 100_000));
    assert!(close(r.origin.y, 2 * SCALE, 100_000));
    assert!(close(r.origin.z, -5 * SCALE, 100_000));
    assert!(close(r.dir.x, 70_711_000, 10_000));
    assert!(close(r.dir.y, 0, 10_000));
    assert!(close(r.dir.z, -70_711_000, 10_000));
}

#[test]
fn render_center_pixel_of_default_world() {
    let w = World::default();
    let mut c = Camera::new(11, 11, PI_2);
    // looking at the origin from (0,0,-5), up is +y
    c.transform = Transform::new(
        Vec3::new(-SCALE, 0, 0),
        Vec3::new(0, SCALE, 0),
        Vec3::new(0, 0, -SCALE),
        Vec3::new(0, 0, -5 * SCALE),
    );
    let image = render(&c, &w);
    assert_eq!(image.width, 11);
    assert_eq!(image.height, 11);
    let p = image.get_pixel(5, 5);
    assert_eq!(p, (200, 100, 150));
}

#[test]
fn shrinking_placement_keeps_true_ray_directions() {
    // a placement that scales everything by a tenth is invertible, and
    // the pixel rays must still point where the geometry says
    let mut c = Camera::new(2, 1, PI_2);
    let tenth: i128 = 10_000_000;
    c.transform = Transform::new(
        Vec3::new(tenth, 0, 0),
        Vec3::new(0, tenth, 0),
        Vec3::new(0, 0, tenth),
        Vec3::new(0, 0, 0),
    );
    let r = c.ray_for_pixel(0, 0);
    assert_eq!((r.origin.x, r.origin.y, r.origin.z), (0, 0, 0));
    assert_eq!((r.dir.x, r.dir.y, r.dir.z), (44_721_359, 0, -89_442_719));
}
