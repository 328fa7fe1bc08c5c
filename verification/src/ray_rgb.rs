//! Colors: an RGB triple of fixed-point channels, unclamped during
//! accumulation, quantized to 8-bit channels only when a pixel is
//! written.

use vstd::prelude::*;

verus! {

use crate::fixed::SCALE;
use crate::fixed::fmul;
use crate::fixed::fmul_spec;
use crate::fixed::lemma_tdiv_mag;
use crate::fixed::tdiv;
use crate::fixed::tdivi;
use vstd::arithmetic::div_mod::lemma_div_is_ordered;

/// Largest channel magnitude the color operations accept.
pub const CHAN_CAP: i128 = 1_000_000_000_000_000_000;

/// An RGB color; channels are fixed-point scalars, 1.0 is full intensity.
#[derive(Debug, Clone, Copy, PartialEq)]
pub struct RayRgb {
    pub r: i128,
    pub g: i128,
    pub b: i128,
}

/// Channelwise sum.
pub open spec fn cadd_spec(a: RayRgb, b: RayRgb) -> RayRgb {
    RayRgb { r: (a.r + b.r) as i128, g: (a.g + b.g) as i128, b: (a.b + b.b) as i128 }
}

/// Channelwise fixed-point scaling.
pub open spec fn cmul_spec(a: RayRgb, k: int) -> RayRgb {
    RayRgb {
        r: fmul_spec(a.r as int, k) as i128,
        g: fmul_spec(a.g as int, k) as i128,
        b: fmul_spec(a.b as int, k) as i128,
    }
}

/// Channelwise scaling by a plain integer (a light's intensity).
pub open spec fn cmuli_spec(a: RayRgb, n: int) -> RayRgb {
    RayRgb { r: (a.r * n) as i128, g: (a.g * n) as i128, b: (a.b * n) as i128 }
}

/// Largest channel magnitude of a color.
pub open spec fn cmax(a: RayRgb) -> int {
    let ar = crate::fixed::iabs(a.r as int);
    let ag = crate::fixed::iabs(a.g as int);
    let ab = crate::fixed::iabs(a.b as int);
    if ar >= ag && ar >= ab {
        ar
    } else if ag >= ab {
        ag
    } else {
        ab
    }
}

/// Quantization of one channel to 8 bits: values at or above one map to
/// 255, values at or below zero to 0, the rest to the truncated
/// 255-fold.
pub open spec fn to_u8_spec(c: int) -> int {
    if c >= SCALE as int {
        255
    } else if c <= 0 {
        0
    } else {
        tdiv(255 * c, SCALE as int)
    }
}

/// Quantization of a color to three 8-bit channels.
pub open spec fn to_rgb_spec(c: RayRgb) -> (u8, u8, u8) {
    (to_u8_spec(c.r as int) as u8, to_u8_spec(c.g as int) as u8, to_u8_spec(c.b as int) as u8)
}

/// One channel quantized to 8 bits.
fn to_u8(c: i128) -> (r: u8)
    requires
        -10_000_000_000_000_000_000_000_000 <= c as int <= 10_000_000_000_000_000_000_000_000,
    ensures
        r as int == to_u8_spec(c as int),
{
    if c >= SCALE {
        255
    } else if c <= 0 {
        0
    } else {
        let q = tdivi(255 * c, SCALE);
        proof {
            lemma_tdiv_mag(255 * (c as int), SCALE as int);
            lemma_div_is_ordered(255 * (c as int), 255 * (SCALE as int) - 1, SCALE as int);
            assert((255 * (SCALE as int) - 1) / (SCALE as int) == 254);
        }
        q as u8
    }
}

impl RayRgb {
    /// Builds a color from its channels.
    pub fn new(r: i128, g: i128, b: i128) -> (c: RayRgb)
        ensures
            c == (RayRgb { r, g, b }),
    {
        RayRgb { r, g, b }
    }

    /// Pure black: all channels zero.
    pub fn black() -> (c: RayRgb)
        ensures
            c == (RayRgb { r: 0, g: 0, b: 0 }),
    {
        RayRgb { r: 0, g: 0, b: 0 }
    }

    /// Pure white: all channels one.
    pub fn white() -> (c: RayRgb)
        ensures
            c == (RayRgb { r: SCALE, g: SCALE, b: SCALE }),
    {
        RayRgb { r: SCALE, g: SCALE, b: SCALE }
    }

    /// Channelwise sum.
    pub fn add(&self, o: &RayRgb) -> (c: RayRgb)
        requires
            cmax(*self) + cmax(*o) <= CHAN_CAP as int * 4,
        ensures
            c == cadd_spec(*self, *o),
            c.r == self.r + o.r && c.g == self.g + o.g && c.b == self.b + o.b,
    {
        RayRgb { r: self.r + o.r, g: self.g + o.g, b: self.b + o.b }
    }

    /// Channelwise fixed-point scaling.
    pub fn mul_fx(&self, k: i128) -> (c: RayRgb)
        requires
            cmax(*self) <= 1_000_000_000_000_000_000_000_000,
            -10_000_000_000_000 <= k as int <= 10_000_000_000_000,
        ensures
            c == cmul_spec(*self, k as int),
            c.r == fmul_spec(self.r as int, k as int),
            c.g == fmul_spec(self.g as int, k as int),
            c.b == fmul_spec(self.b as int, k as int),
    {
        proof {
            lemma_chan_prod(self.r as int, k as int);
            lemma_chan_prod(self.g as int, k as int);
            lemma_chan_prod(self.b as int, k as int);
        }
        RayRgb { r: fmul(self.r, k), g: fmul(self.g, k), b: fmul(self.b, k) }
    }

    /// Channelwise scaling by a plain integer (a light's intensity).
    pub fn mul_int(&self, n: usize) -> (c: RayRgb)
        requires
            cmax(*self) <= CHAN_CAP as int,
            n <= 10_000,
        ensures
            c == cmuli_spec(*self, n as int),
            c.r == self.r * n && c.g == self.g * n && c.b == self.b * n,
    {
        proof {
            assert(crate::fixed::iabs(self.r * (n as int)) <= CHAN_CAP as int * 10_000)
                by (nonlinear_arith)
                requires
                    crate::fixed::iabs(self.r as int) <= CHAN_CAP as int,
                    0 <= n as int <= 10_000,
            ;
            assert(crate::fixed::iabs(self.g * (n as int)) <= CHAN_CAP as int * 10_000)
                by (nonlinear_arith)
                requires
                    crate::fixed::iabs(self.g as int) <= CHAN_CAP as int,
                    0 <= n as int <= 10_000,
            ;
            assert(crate::fixed::iabs(self.b * (n as int)) <= CHAN_CAP as int * 10_000)
                by (nonlinear_arith)
                requires
                    crate::fixed::iabs(self.b as int) <= CHAN_CAP as int,
                    0 <= n as int <= 10_000,
            ;
        }
        RayRgb { r: self.r * (n as i128), g: self.g * (n as i128), b: self.b * (n as i128) }
    }

    /// The color quantized to three 8-bit channels, red then green then
    /// blue.
    pub fn to_rgb(&self) -> (c: (u8, u8, u8))
        requires
            cmax(*self) <= 10_000_000_000_000_000_000_000_000,
        ensures
            c == to_rgb_spec(*self),
    {
        (to_u8(self.r), to_u8(self.g), to_u8(self.b))
    }
}

/// Scaling a scene-range color by an intensity multiplier keeps the
/// channels within 1e16.
pub proof fn lemma_mul_int_cap(c: RayRgb, n: int)
    requires
        cmax(c) <= 1_000_000_000_000,
        0 <= n <= 10_000,
    ensures
        cmax(cmuli_spec(c, n)) <= 10_000_000_000_000_000,
{
    assert(crate::fixed::iabs(c.r * n) <= 10_000_000_000_000_000 && crate::fixed::iabs(c.g * n)
        <= 10_000_000_000_000_000 && crate::fixed::iabs(c.b * n) <= 10_000_000_000_000_000)
        by (nonlinear_arith)
        requires
            crate::fixed::iabs(c.r as int) <= 1_000_000_000_000,
            crate::fixed::iabs(c.g as int) <= 1_000_000_000_000,
            crate::fixed::iabs(c.b as int) <= 1_000_000_000_000,
            0 <= n <= 10_000,
    ;
}

/// Channel products stay within the multiplication cap.
proof fn lemma_chan_prod(a: int, k: int)
    requires
        -1_000_000_000_000_000_000_000_000 <= a <= 1_000_000_000_000_000_000_000_000,
        -10_000_000_000_000 <= k <= 10_000_000_000_000,
    ensures
        -crate::fixed::PROD_CAP as int <= a * k <= crate::fixed::PROD_CAP as int,
{
    assert(crate::fixed::iabs(a * k) <= 10_000_000_000_000_000_000_000_000_000_000_000_000)
        by (nonlinear_arith)
        requires
            -1_000_000_000_000_000_000_000_000 <= a <= 1_000_000_000_000_000_000_000_000,
            -10_000_000_000_000 <= k <= 10_000_000_000_000,
    ;
}

} // verus!
