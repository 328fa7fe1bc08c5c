use ray_tracer::fixed::SCALE;
use ray_tracer::light::stripe_at_object;
use ray_tracer::materials::Material;
use ray_tracer::pattern::Pattern;
use ray_tracer::ray::Ray;
use ray_tracer::ray_rgb::RayRgb;
use ray_tracer::sphere::Sphere;
use ray_tracer::vec3::Vec3;
use ray_tracer::world::{color_at, World};

#[test]
fn stripes_alternate_along_y() {
    let white = RayRgb::white();
    let black = RayRgb::black();
    let p = Pattern::new(white, black);
    // floor(2 * 0.4) = 0, even: first color
    let c = p.stripe_at(&Vec3::new(0, 40_000_000, 0));
    assert_eq!((c.r, c.g, c.b), (SCALE, SCALE, SCALE));
    // floor(2 * 0.6) = 1, odd: second color
    let c = p.stripe_at(&Vec3::new(0, 60_000_000, 0));
    assert_eq!((c.r, c.g, c.b), (0, 0, 0));
    // floor(2 * 1.0) = 2, even again
    let c = p.stripe_at(&Vec3::new(0, SCALE, 0));
    assert_eq!((c.r, c.g, c.b), (SCALE, SCALE, SCALE));
    // negative side: floor(2 * -0.1) = -1, odd
    let c = p.stripe_at(&Vec3::new(0, -10_000_000, 0));
    assert_eq!((c.r, c.g, c.b), (0, 0, 0));
    // the x and z coordinates play no part
    let c = p.stripe_at(&Vec3::new(7 * SCALE, 40_000_000, -3 * SCALE));
    assert_eq!((c.r, c.g, c.b), (SCALE, SCALE, SCALE));
}

#[test]
fn stripes_follow_the_object_placement() {
    let white = RayRgb::white();
    let black = RayRgb::black();
    let p = Pattern::new(white, black);
    let mut s = Sphere::default();
    // lift the sphere by one unit: world y 1.2 is object y 0.2, even band
    s.transform = s.transform.append_translation(&Vec3::new(0, SCALE, 0));
    let c = stripe_at_object(&p, &s, Vec3::new(0, 120_000_000, 0));
    assert_eq!((c.r, c.g, c.b), (SCALE, SCALE, SCALE));
}

#[test]
fn patterned_material_shades_from_the_stripe() {
    // a fully ambient material whose pattern alternates red and blue
    let mut w = World::default();
    let red = RayRgb::new(SCALE, 0, 0);
    let blue = RayRgb::new(0, 0, SCALE);
    w.objects[0].material.pattern = Some(Pattern::new(red, blue));
    w.objects[0].material.ambient = SCALE;
    w.objects[0].material.diffuse = 0;
    w.objects[0].material.specular = 0;
    // the hit point (0, 0, -1) lies in the even band: the first color
    let r = Ray::new(Vec3::new(0, 0, -5 * SCALE), Vec3::new(0, 0, SCALE));
    let c = color_at(&w, &r);
    assert_eq!((c.r, c.g, c.b), (SCALE, 0, 0));
}

#[test]
fn quantization_clamps_and_truncates() {
    // above one clamps to 255, below zero to 0, the rest truncates
    let c = RayRgb::new(3 * SCALE / 2, -SCALE / 2, SCALE / 2);
    assert_eq!(c.to_rgb(), (255, 0, 127));
    let c = RayRgb::new(SCALE, 0, 99_999_999);
    assert_eq!(c.to_rgb(), (255, 0, 254));
}

#[test]
fn material_defaults_match_the_design() {
    let m = Material::default();
    assert_eq!(m.ambient, 10_000_000);
    assert_eq!(m.diffuse, 90_000_000);
    assert_eq!(m.specular, 90_000_000);
    assert_eq!(m.shininess, 200);
    assert!(m.pattern.is_none());
    assert_eq!((m.color.r, m.color.g, m.color.b), (SCALE, SCALE, SCALE));
}
