use ray_tracer::fixed::SCALE;
use ray_tracer::light::{lighting, PointLight};
use ray_tracer::materials::Material;
use ray_tracer::ray::Ray;
use ray_tracer::ray_rgb::RayRgb;
use ray_tracer::sphere::Sphere;
use ray_tracer::vec3::Vec3;
use ray_tracer::world::{color_at, intersect_world, is_shadowed, World};

#[test]
fn test_transform() {}

#[test]
fn test_is_shadowed() {
    let w = World::default();
    let p = Vec3::new(0, 10 * SCALE, 0);
    assert_eq!(is_shadowed(&w, &p), false);

    let w = World::default();
    let p = Vec3::new(10 * SCALE, -10 * SCALE, 10 * SCALE);
    assert_eq!(is_shadowed(&w, &p), true);

    let w = World::default();
    let p = Vec3::new(-20 * SCALE, 20 * SCALE, -20 * SCALE);
    assert_eq!(is_shadowed(&w, &p), false);

    let w = World::default();
    let p = Vec3::new(-2 * SCALE, 2 * SCALE, -2 * SCALE);
    assert_eq!(is_shadowed(&w, &p), false);
}

#[test]
fn test_color_at() {
    // a ray that misses everything resolves to black
    let w = World::default();
    let r = Ray::new(Vec3::new(0, 0, -5 * SCALE), Vec3::new(0, SCALE, 0));
    let c = color_at(&w, &r);
    assert_eq!((c.r, c.g, c.b), (0, 0, 0));
}

#[test]
fn color_at_default_world_is_deterministic() {
    // straight-on ray into the default world's sphere: ambient 0.5 plus
    // diffuse 0.9 times the incidence cosine, on color (0.8, 0.4, 0.6)
    let w = World::default();
    let r = Ray::new(Vec3::new(0, 0, -5 * SCALE), Vec3::new(0, 0, SCALE));
    let c = color_at(&w, &r);
    assert_eq!((c.r, c.g, c.b), (78_656_133, 39_328_066, 58_992_099));
    // close to the real-arithmetic value 0.8 * (0.5 + 0.9 * 0.53687)
    assert!((c.r - 78_656_100).abs() < 10_000);
}

#[test]
fn intersect_world_sorts_ascending() {
    let mut w = World::default();
    let mut inner = Sphere::default();
    inner.radius = SCALE / 2;
    w.objects.push(inner);
    let r = Ray::new(Vec3::new(0, 0, -5 * SCALE), Vec3::new(0, 0, SCALE));
    let xs = intersect_world(&w, &r);
    assert_eq!(xs.len(), 4);
    assert_eq!(xs[0].t, 4 * SCALE);
    assert_eq!(xs[1].t, 9 * SCALE / 2);
    assert_eq!(xs[2].t, 11 * SCALE / 2);
    assert_eq!(xs[3].t, 6 * SCALE);
    assert_eq!(xs[0].object, 0);
    assert_eq!(xs[1].object, 1);
}

#[test]
fn equal_parameters_keep_object_order() {
    // two coincident spheres: the first inserted wins the tie
    let w1 = World::default();
    let mut w2 = World::default();
    let mut other = w2.objects[0].clone();
    other.material.color = RayRgb::new(0, 0, SCALE);
    w2.objects.push(other);
    let r = Ray::new(Vec3::new(0, 0, -5 * SCALE), Vec3::new(0, 0, SCALE));
    let c1 = color_at(&w1, &r);
    let c2 = color_at(&w2, &r);
    assert_eq!((c1.r, c1.g, c1.b), (c2.r, c2.g, c2.b));
}

#[test]
fn lighting_eye_between_light_and_surface() {
    // ambient, diffuse and specular all maxed: 0.1 + 0.9 + 0.9 = 1.9
    let m = Material::default();
    let object = Sphere::default();
    let position = Vec3::new(0, 0, 0);
    let light = PointLight::new(RayRgb::white(), Vec3::new(0, 0, -10 * SCALE));
    let eyev = Vec3::new(0, 0, -SCALE);
    let normalv = Vec3::new(0, 0, -SCALE);
    let result = lighting(&m, &light, position, eyev, normalv, false, &object);
    assert_eq!((result.r, result.g, result.b), (190_000_000, 190_000_000, 190_000_000));
}

#[test]
fn lighting_in_shadow_keeps_only_ambient() {
    let m = Material::default();
    let object = Sphere::default();
    let position = Vec3::new(0, 0, 0);
    let light = PointLight::new(RayRgb::white(), Vec3::new(0, 0, -10 * SCALE));
    let eyev = Vec3::new(0, 0, -SCALE);
    let normalv = Vec3::new(0, 0, -SCALE);
    let result = lighting(&m, &light, position, eyev, normalv, true, &object);
    assert_eq!((result.r, result.g, result.b), (10_000_000, 10_000_000, 10_000_000));
}

#[test]
fn lighting_with_light_behind_surface_keeps_only_ambient() {
    let m = Material::default();
    let object = Sphere::default();
    let position = Vec3::new(0, 0, 0);
    let light = PointLight::new(RayRgb::white(), Vec3::new(0, 0, 10 * SCALE));
    let eyev = Vec3::new(0, 0, -SCALE);
    let normalv = Vec3::new(0, 0, -SCALE);
    let result = lighting(&m, &light, position, eyev, normalv, false, &object);
    assert_eq!((result.r, result.g, result.b), (10_000_000, 10_000_000, 10_000_000));
}

#[test]
fn empty_world_resolves_to_black() {
    let mut w = World::default();
    w.objects.clear();
    let r = Ray::new(Vec3::new(0, 0, -5 * SCALE), Vec3::new(0, 0, SCALE));
    let c = color_at(&w, &r);
    assert_eq!((c.r, c.g, c.b), (0, 0, 0));
    let xs = intersect_world(&w, &r);
    assert_eq!(xs.len(), 0);
}

#[test]
fn occluder_near_the_light_still_shadows() {
    // a tenth-radius sphere between a point and a light half a unit away
    let mut w = World::default();
    w.lights[0] = PointLight::new(RayRgb::white(), Vec3::new(0, 0, 0));
    w.objects[0].center = Vec3::new(0, 0, 20_000_000);
    w.objects[0].radius = 10_000_000;
    assert_eq!(is_shadowed(&w, &Vec3::new(0, 0, 40_000_000)), true);
    // from the light's own side of the occluder the same point is lit
    assert_eq!(is_shadowed(&w, &Vec3::new(0, 0, 5_000_000)), false);
}

#[test]
fn point_at_the_light_is_lit() {
    let mut w = World::default();
    w.lights[0] = PointLight::new(RayRgb::white(), Vec3::new(0, 0, 0));
    assert_eq!(is_shadowed(&w, &Vec3::new(0, 0, 0)), false);
}

#[test]
fn color_at_shades_a_negative_parameter_hit() {
    // a ray starting inside the sphere: the nearest sorted record lies
    // behind the origin, and this design shades it anyway
    let w = World::default();
    let r = Ray::new(Vec3::new(0, 0, 0), Vec3::new(0, 0, SCALE));
    let xs = intersect_world(&w, &r);
    assert_eq!(xs[0].t, -SCALE);
    let c = color_at(&w, &r);
    assert_eq!((c.r, c.g, c.b), (78_656_133, 39_328_066, 58_992_099));
}
