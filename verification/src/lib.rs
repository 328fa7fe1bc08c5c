//! A minimal ray-tracing renderer over fixed-point arithmetic: spheres,
//! point lights and a camera produce a raster image by tracing one
//! primary ray per pixel through a local Phong illumination model with
//! hard shadows. Every scalar is an `i128` carrying eight decimal
//! places (`fixed::SCALE`), and every stage of the pipeline carries a
//! contract stating its result exactly over that representation.

pub mod camera;
pub mod computation;
pub mod fixed;
pub mod intersections;
pub mod light;
pub mod materials;
pub mod pattern;
pub mod ray;
pub mod ray_rgb;
pub mod sphere;
pub mod transform;
pub mod vec3;
pub mod world;
