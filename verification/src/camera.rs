//! The camera: maps the pixel grid to primary rays through a view
//! placement, and drives the render loop that fills the output buffer.

use vstd::prelude::*;

verus! {

use crate::fixed::EYE_CAP;
use crate::fixed::SCALE;
use crate::fixed::fdiv;
use crate::fixed::fdiv_spec;
use crate::fixed::fmul;
use crate::fixed::fmul_spec;
use crate::fixed::iabs;
use crate::fixed::lemma_fdiv_mag;
use crate::fixed::lemma_fmul_bound;
use crate::fixed::lemma_tdiv_mag;
use crate::fixed::tan_fx;
use crate::fixed::tan_spec;
use crate::fixed::tdiv;
use crate::fixed::tdivi;
use crate::ray::Ray;
use crate::ray::ray_wf;
use crate::ray_rgb::to_rgb_spec;
use crate::transform::Transform;
use crate::transform::identity_spec;
use crate::transform::inv_point_spec;
use crate::transform::twf;
use crate::vec3::Vec3;
use crate::vec3::boost_spec;
use crate::vec3::dot_spec;
use crate::vec3::normalize_spec;
use crate::vec3::vmax;
use crate::vec3::vsub_spec;
use crate::world::World;
use crate::world::color_at;
use crate::world::color_at_spec;
use crate::world::wwf;

/// A pixel grid, a field of view, and a placement; the pixel size and
/// the half extents of the view plane are derived once at construction.
pub struct Camera {
    pub hsize: u32,
    pub vsize: u32,
    pub field_of_view: i128,
    pub transform: Transform,
    pub pixel_size: i128,
    pub half_width: i128,
    pub half_height: i128,
}

/// Half the view plane's extent: the tangent of half the field of view.
pub open spec fn half_view_spec(fov: int) -> int {
    tan_spec(tdiv(fov, 2))
}

/// The aspect ratio of the pixel grid, as a fixed-point scalar.
pub open spec fn aspect_spec(hsize: int, vsize: int) -> int {
    fdiv_spec(hsize * (SCALE as int), vsize * (SCALE as int))
}

/// The half width of the view plane.
pub open spec fn half_width_spec(hsize: int, vsize: int, fov: int) -> int {
    if aspect_spec(hsize, vsize) >= SCALE as int {
        half_view_spec(fov)
    } else {
        fmul_spec(half_view_spec(fov), aspect_spec(hsize, vsize))
    }
}

/// The half height of the view plane.
pub open spec fn half_height_spec(hsize: int, vsize: int, fov: int) -> int {
    if aspect_spec(hsize, vsize) >= SCALE as int {
        fdiv_spec(half_view_spec(fov), aspect_spec(hsize, vsize))
    } else {
        half_view_spec(fov)
    }
}

/// The world-space size of one pixel.
pub open spec fn pixel_size_spec(hsize: int, vsize: int, fov: int) -> int {
    fdiv_spec(2 * half_width_spec(hsize, vsize, fov), hsize * (SCALE as int))
}

/// Well-formed camera: a modest pixel grid, a well-formed placement,
/// and derived extents in the ranges construction guarantees.
pub open spec fn cwf(c: &Camera) -> bool {
    &&& 1 <= c.hsize <= 10_000
    &&& 1 <= c.vsize <= 10_000
    &&& twf(c.transform)
    &&& 0 <= c.pixel_size as int <= 40 * SCALE as int
    &&& 0 <= c.half_width as int <= 20 * SCALE as int
    &&& 0 <= c.half_height as int <= 20 * SCALE as int
}

impl Camera {
    /// Builds a camera from a pixel grid and a field of view (radians,
    /// scaled), with the identity placement; the caller sets the
    /// placement afterward. The derived extents follow the tangent of
    /// half the field of view; the tangent rendition is clamped at 20,
    /// so they track the real tangent for fields of view up to about
    /// 2.94 radians and cap the view plane at 20 units beyond that.
    pub fn new(hsize: u32, vsize: u32, field_of_view: i128) -> (c: Camera)
        requires
            1 <= hsize <= 10_000,
            1 <= vsize <= 10_000,
            0 <= field_of_view <= 4 * SCALE,
        ensures
            c.hsize == hsize,
            c.vsize == vsize,
            c.field_of_view == field_of_view,
            c.transform == identity_spec(),
            c.half_width as int == half_width_spec(hsize as int, vsize as int, field_of_view as int),
            c.half_height as int == half_height_spec(
                hsize as int,
                vsize as int,
                field_of_view as int,
            ),
            c.pixel_size as int == pixel_size_spec(hsize as int, vsize as int, field_of_view as int),
            cwf(&c),
    {
        let half = tdivi(field_of_view, 2);
        let half_view = tan_fx(half);
        let hs_fx: i128 = (hsize as i128) * SCALE;
        let vs_fx: i128 = (vsize as i128) * SCALE;
        let aspect = fdiv(hs_fx, vs_fx);
        proof {
            lemma_tdiv_mag((hs_fx as int) * (SCALE as int), vs_fx as int);
            assert(aspect as int >= 0);
        }
        let half_width: i128;
        let half_height: i128;
        if aspect >= SCALE {
            half_width = half_view;
            half_height = fdiv(half_view, aspect);
            proof {
                lemma_fdiv_mag(half_view as int, aspect as int);
                lemma_tdiv_mag((half_view as int) * (SCALE as int), aspect as int);
                assert((half_view as int) * (SCALE as int) >= 0) by (nonlinear_arith)
                    requires
                        half_view as int >= 0,
                        SCALE as int > 0,
                ;
            }
        } else {
            proof {
                lemma_fmul_bound(half_view as int, aspect as int, 20 * SCALE as int, SCALE as int);
                lemma_tdiv_mag((half_view as int) * (aspect as int), SCALE as int);
                assert((half_view as int) * (aspect as int) >= 0) by (nonlinear_arith)
                    requires
                        half_view as int >= 0,
                        aspect as int >= 0,
                ;
                assert(fmul_spec(half_view as int, aspect as int) <= 20 * SCALE as int)
                    by (nonlinear_arith)
                    requires
                        iabs(fmul_spec(half_view as int, aspect as int)) * (SCALE as int) <= (20
                            * SCALE as int) * (SCALE as int),
                        fmul_spec(half_view as int, aspect as int) >= 0,
                        SCALE as int == 100_000_000,
                ;
            }
            half_width = fmul(half_view, aspect);
            half_height = half_view;
        }
        let pixel_size = fdiv(2 * half_width, hs_fx);
        proof {
            lemma_fdiv_mag(2 * half_width as int, hs_fx as int);
            lemma_tdiv_mag((2 * half_width as int) * (SCALE as int), hs_fx as int);
            assert((2 * half_width as int) * (SCALE as int) >= 0) by (nonlinear_arith)
                requires
                    half_width as int >= 0,
                    SCALE as int > 0,
            ;
        }
        Camera {
            hsize,
            vsize,
            field_of_view,
            transform: Transform::identity(),
            pixel_size,
            half_width,
            half_height,
        }
    }

    /// The primary ray through a pixel, as `ray_for_pixel` computes it.
    pub open spec fn ray_for_pixel_spec(c: &Camera, x: int, y: int) -> Ray {
        let xoffset = fmul_spec(x * (SCALE as int) + 50_000_000, c.pixel_size as int);
        let yoffset = fmul_spec(y * (SCALE as int) + 50_000_000, c.pixel_size as int);
        let world_x = c.half_width as int - xoffset;
        let world_y = c.half_height as int - yoffset;
        let pixel = inv_point_spec(
            c.transform,
            Vec3 { x: world_x as i128, y: world_y as i128, z: (-(SCALE as int)) as i128 },
        );
        let origin = inv_point_spec(c.transform, Vec3 { x: 0, y: 0, z: 0 });
        let diff = vsub_spec(pixel, origin);
        let direction = if diff == (Vec3 { x: 0i128, y: 0i128, z: 0i128 }) {
            Vec3 { x: 0, y: 0, z: (-(SCALE as int)) as i128 }
        } else {
            normalize_spec(boost_spec(diff))
        };
        Ray { origin, dir: direction }
    }

    /// The primary ray through the center of pixel (x, y): offsets on
    /// the view plane, both corners pulled back to world space, and the
    /// normalized direction between them (a short difference is scaled
    /// up before normalizing, so even a strongly shrinking placement
    /// yields the true direction). Only a placement so degenerate that
    /// the two points coincide exactly (a collapsed linear part, a
    /// caller invariant violation) falls back to the canonical forward
    /// direction so that the ray stays well formed.
    pub fn ray_for_pixel(&self, x: u32, y: u32) -> (r: Ray)
        requires
            cwf(self),
            x < self.hsize,
            y < self.vsize,
        ensures
            r == Camera::ray_for_pixel_spec(self, x as int, y as int),
            ray_wf(r),
            vmax(r.origin) <= EYE_CAP as int,
    {
        let xf: i128 = (x as i128) * SCALE + 50_000_000;
        let yf: i128 = (y as i128) * SCALE + 50_000_000;
        proof {
            lemma_fmul_bound(xf as int, self.pixel_size as int, 2_000_000_000_000, 40 * SCALE as int);
            lemma_fmul_bound(yf as int, self.pixel_size as int, 2_000_000_000_000, 40 * SCALE as int);
            assert forall|q: int|
                iabs(q) * (SCALE as int) <= 2_000_000_000_000 * (40 * SCALE as int) implies iabs(
                q,
            ) <= 80_000_000_000_000 by {
                assert(iabs(q) <= 80_000_000_000_000) by (nonlinear_arith)
                    requires
                        iabs(q) * (SCALE as int) <= 2_000_000_000_000 * (40 * SCALE as int),
                        SCALE as int == 100_000_000,
                        iabs(q) >= 0,
                ;
            };
        }
        let xoffset = fmul(xf, self.pixel_size);
        let yoffset = fmul(yf, self.pixel_size);
        let world_x = self.half_width - xoffset;
        let world_y = self.half_height - yoffset;
        let pixel = self.transform.inverse_point(&Vec3 { x: world_x, y: world_y, z: -SCALE });
        let origin = self.transform.inverse_point(&Vec3 { x: 0, y: 0, z: 0 });
        let diff = pixel.sub(&origin);
        proof {
            crate::vec3::lemma_msq_nonneg(diff);
        }
        let direction: Vec3;
        if diff.x == 0 && diff.y == 0 && diff.z == 0 {
            direction = Vec3 { x: 0, y: 0, z: -SCALE };
            proof {
                assert((-(SCALE as int)) * (-(SCALE as int)) == 10_000_000_000_000_000);
                assert(dot_spec(direction, direction) == 100_000_000int);
            }
        } else {
            let bd = diff.boost();
            direction = bd.normalize();
            proof {
                assert(diff != (Vec3 { x: 0i128, y: 0i128, z: 0i128 }));
                assert((SCALE as int) / 2 <= dot_spec(direction, direction) <= 4 * SCALE as int);
            }
        }
        proof {
            assert(vmax(origin) <= crate::fixed::POINT_CAP as int);
        }
        Ray { origin, dir: direction }
    }
}

/// The output buffer: a grid of quantized RGB pixels in row-major
/// order.
pub struct Canvas {
    pub width: u32,
    pub height: u32,
    pub data: Vec<(u8, u8, u8)>,
}

/// The pixels of a canvas, row-major.
pub open spec fn canvas_view(c: &Canvas) -> Seq<(u8, u8, u8)> {
    c.data@
}

/// Well-formed canvas: one entry per grid cell.
pub open spec fn canvas_wf(c: &Canvas) -> bool {
    canvas_view(c).len() == c.width as int * c.height as int
}

impl Canvas {
    /// An all-black canvas of the given dimensions.
    pub fn new(width: u32, height: u32) -> (c: Canvas)
        requires
            width as int * height as int <= 100_000_000,
        ensures
            c.width == width,
            c.height == height,
            canvas_wf(&c),
            forall|i: int|
                0 <= i < canvas_view(&c).len() ==> canvas_view(&c)[i] == (0u8, 0u8, 0u8),
    {
        let n: usize = (width as usize) * (height as usize);
        let mut data: Vec<(u8, u8, u8)> = Vec::new();
        let mut i: usize = 0;
        while i < n
            invariant
                0 <= i <= n,
                data@.len() == i,
                forall|k: int| 0 <= k < i ==> data@[k] == (0u8, 0u8, 0u8),
            decreases n - i,
        {
            data.push((0, 0, 0));
            i = i + 1;
        }
        Canvas { width, height, data }
    }

    /// The pixel at column `x`, row `y`.
    pub fn get_pixel(&self, x: u32, y: u32) -> (p: (u8, u8, u8))
        requires
            canvas_wf(self),
            x < self.width,
            y < self.height,
        ensures
            p == canvas_view(self)[y as int * self.width as int + x as int],
    {
        let n = self.data.len();
        proof {
            lemma_pixel_index(x as int, y as int, self.width as int, self.height as int);
            assert((y as int) * (self.width as int) + (x as int) < (n as int));
        }
        let idx: usize = (y as usize) * (self.width as usize) + (x as usize);
        self.data[idx]
    }

    /// Writes the pixel at column `x`, row `y`.
    fn set_pixel(&mut self, x: u32, y: u32, p: (u8, u8, u8))
        requires
            canvas_wf(&*old(self)),
            x < old(self).width,
            y < old(self).height,
        ensures
            final(self).width == old(self).width,
            final(self).height == old(self).height,
            canvas_wf(&*final(self)),
            canvas_view(&*final(self)) == canvas_view(&*old(self)).update(
                y as int * final(self).width as int + x as int,
                p,
            ),
    {
        let n = self.data.len();
        proof {
            lemma_pixel_index(x as int, y as int, self.width as int, self.height as int);
            assert((y as int) * (self.width as int) + (x as int) < (n as int));
        }
        let idx: usize = (y as usize) * (self.width as usize) + (x as usize);
        self.data.set(idx, p);
    }
}

/// Row-major pixel indices stay within the buffer.
proof fn lemma_pixel_index(x: int, y: int, w: int, h: int)
    requires
        0 <= x < w,
        0 <= y < h,
    ensures
        0 <= y * w + x < w * h,
{
    assert(0 <= y * w + x < w * h) by (nonlinear_arith)
        requires
            0 <= x < w,
            0 <= y < h,
    ;
}

/// Renders the world: one primary ray per pixel, resolved to a color
/// and quantized. As the buffer is laid out, camera pixel (x, y) lands
/// at column y, row x of a canvas that is `vsize` wide and `hsize`
/// high.
pub fn render(camera: &Camera, world: &World) -> (c: Canvas)
    requires
        cwf(camera),
        wwf(world),
        camera.hsize as int * camera.vsize as int <= 100_000_000,
    ensures
        c.width == camera.vsize,
        c.height == camera.hsize,
        canvas_wf(&c),
        forall|x: int, y: int|
            0 <= x < camera.hsize && 0 <= y < camera.vsize ==> canvas_view(&c)[x * camera.vsize
                as int + y] == to_rgb_spec(
                color_at_spec(world, Camera::ray_for_pixel_spec(camera, x, y)),
            ),
{
    proof {
        assert(camera.vsize as int * camera.hsize as int <= 100_000_000) by (nonlinear_arith)
            requires
                camera.hsize as int * camera.vsize as int <= 100_000_000,
        ;
    }
    let mut image = Canvas::new(camera.vsize, camera.hsize);
    let mut y: u32 = 0;
    while y < camera.vsize
        invariant
            cwf(camera),
            wwf(world),
            0 <= y <= camera.vsize,
            image.width == camera.vsize,
            image.height == camera.hsize,
            canvas_wf(&image),
            forall|xx: int, yy: int|
                0 <= xx < camera.hsize && 0 <= yy < camera.vsize && yy < y ==> canvas_view(
                    &image,
                )[xx * camera.vsize as int + yy] == to_rgb_spec(
                    color_at_spec(world, Camera::ray_for_pixel_spec(camera, xx, yy)),
                ),
        decreases camera.vsize - y,
    {
        let mut x: u32 = 0;
        while x < camera.hsize
            invariant
                cwf(camera),
                wwf(world),
                0 <= y < camera.vsize,
                0 <= x <= camera.hsize,
                image.width == camera.vsize,
                image.height == camera.hsize,
                canvas_wf(&image),
                forall|xx: int, yy: int|
                    0 <= xx < camera.hsize && 0 <= yy < camera.vsize && (yy < y || (yy == y && xx
                        < x)) ==> canvas_view(&image)[xx * camera.vsize as int + yy]
                        == to_rgb_spec(
                        color_at_spec(world, Camera::ray_for_pixel_spec(camera, xx, yy)),
                    ),
            decreases camera.hsize - x,
        {
            let ray = camera.ray_for_pixel(x, y);
            let color = color_at(world, &ray);
            let p = color.to_rgb();
            image.set_pixel(y, x, p);
            proof {
                lemma_pixel_index(y as int, x as int, camera.vsize as int, camera.hsize as int);
                assert forall|xx: int, yy: int|
                    0 <= xx < camera.hsize && 0 <= yy < camera.vsize && (yy < y || (yy == y && xx
                        < x + 1)) implies canvas_view(&image)[xx * camera.vsize as int + yy]
                    == to_rgb_spec(
                    color_at_spec(world, Camera::ray_for_pixel_spec(camera, xx, yy)),
                ) by {
                    lemma_pixel_index(yy, xx, camera.vsize as int, camera.hsize as int);
                    if xx != x as int || yy != y as int {
                        assert(xx * camera.vsize as int + yy != x as int * camera.vsize as int
                            + y as int) by (nonlinear_arith)
                            requires
                                0 <= yy < camera.vsize as int,
                                0 <= y as int,
                                (y as int) < (camera.vsize as int),
                                xx != x as int || yy != y as int,
                        ;
                    }
                }
            }
            x = x + 1;
        }
        y = y + 1;
    }
    image
}

} // verus!
