//! Three-component vectors and points over fixed-point scalars, with the
//! dot product, magnitude and normalization the intersection engine and
//! the lighting model build on.

use vstd::prelude::*;

verus! {

use crate::fixed::DIV_CAP;
use crate::fixed::PROD_CAP;
use crate::fixed::SCALE;
use crate::fixed::fdiv;
use crate::fixed::fmul;
use crate::fixed::fmul_spec;
use crate::fixed::fsqrt;
use crate::fixed::fsqrt_spec;
use crate::fixed::iabs;
use crate::fixed::is_sqrt;
use crate::fixed::lemma_sqrt_exists;
use crate::fixed::lemma_tdiv_mag;
use crate::fixed::sqrt_int;
use crate::fixed::tdiv;
use crate::fixed::tdivi;
use vstd::arithmetic::div_mod::lemma_fundamental_div_mod;

/// Largest component magnitude the vector operations accept.
pub const VEC_CAP: i128 = 1_000_000_000_000_000_000;

/// A 3D vector or point: each component is a fixed-point scalar.
#[derive(Debug, Clone, Copy, PartialEq)]
pub struct Vec3 {
    pub x: i128,
    pub y: i128,
    pub z: i128,
}

/// Largest component magnitude of a vector.
pub open spec fn vmax(v: Vec3) -> int {
    let ax = iabs(v.x as int);
    let ay = iabs(v.y as int);
    let az = iabs(v.z as int);
    if ax >= ay && ax >= az {
        ax
    } else if ay >= az {
        ay
    } else {
        az
    }
}

/// The fixed-point dot product: the scaled-down sum of component products.
pub open spec fn dot_spec(a: Vec3, b: Vec3) -> int {
    tdiv(a.x * b.x + a.y * b.y + a.z * b.z, SCALE as int)
}

/// Componentwise sum.
pub open spec fn vadd_spec(a: Vec3, b: Vec3) -> Vec3 {
    Vec3 { x: (a.x + b.x) as i128, y: (a.y + b.y) as i128, z: (a.z + b.z) as i128 }
}

/// Componentwise difference.
pub open spec fn vsub_spec(a: Vec3, b: Vec3) -> Vec3 {
    Vec3 { x: (a.x - b.x) as i128, y: (a.y - b.y) as i128, z: (a.z - b.z) as i128 }
}

/// Componentwise negation.
pub open spec fn vneg_spec(a: Vec3) -> Vec3 {
    Vec3 { x: (-a.x) as i128, y: (-a.y) as i128, z: (-a.z) as i128 }
}

/// Componentwise fixed-point scaling.
pub open spec fn vscale_spec(a: Vec3, k: int) -> Vec3 {
    Vec3 {
        x: fmul_spec(a.x as int, k) as i128,
        y: fmul_spec(a.y as int, k) as i128,
        z: fmul_spec(a.z as int, k) as i128,
    }
}

/// The squared magnitude, as the dot product of a vector with itself.
pub open spec fn msq_spec(v: Vec3) -> int {
    dot_spec(v, v)
}

/// The normalized direction: each component divided by the magnitude.
/// A vector whose squared magnitude truncates to zero is returned as it
/// is (the renderer treats such a direction as a caller invariant
/// violation, as a zero-length ray direction is).
pub open spec fn normalize_spec(v: Vec3) -> Vec3 {
    let m = msq_spec(v);
    if m <= 0 {
        v
    } else {
        let n = sqrt_int(m * (SCALE as int));
        Vec3 {
            x: tdiv(v.x * (SCALE as int), n) as i128,
            y: tdiv(v.y * (SCALE as int), n) as i128,
            z: tdiv(v.z * (SCALE as int), n) as i128,
        }
    }
}

/// A short vector scaled up so that normalization is well conditioned:
/// a vector whose squared magnitude truncates below one quarter is
/// multiplied componentwise by the positive integer that brings its
/// largest component to between one and two units. The direction is
/// unchanged; a zero vector stays zero, and a vector of magnitude at
/// least one half is returned as it is.
pub open spec fn boost_spec(v: Vec3) -> Vec3 {
    if msq_spec(v) >= 25_000_000 {
        v
    } else {
        let vm = vmax(v);
        if vm == 0 {
            v
        } else {
            let c = tdiv(SCALE as int, vm) + 1;
            Vec3 { x: (v.x * c) as i128, y: (v.y * c) as i128, z: (v.z * c) as i128 }
        }
    }
}

impl Vec3 {
    /// Builds a vector from its components.
    pub fn new(x: i128, y: i128, z: i128) -> (r: Vec3)
        ensures
            r == (Vec3 { x, y, z }),
    {
        Vec3 { x, y, z }
    }

    /// Componentwise sum.
    pub fn add(&self, o: &Vec3) -> (r: Vec3)
        requires
            vmax(*self) + vmax(*o) <= VEC_CAP as int * 4,
        ensures
            r == vadd_spec(*self, *o),
            r.x == self.x + o.x,
            r.y == self.y + o.y,
            r.z == self.z + o.z,
    {
        Vec3 { x: self.x + o.x, y: self.y + o.y, z: self.z + o.z }
    }

    /// Componentwise difference.
    pub fn sub(&self, o: &Vec3) -> (r: Vec3)
        requires
            vmax(*self) + vmax(*o) <= VEC_CAP as int * 4,
        ensures
            r == vsub_spec(*self, *o),
            r.x == self.x - o.x,
            r.y == self.y - o.y,
            r.z == self.z - o.z,
    {
        Vec3 { x: self.x - o.x, y: self.y - o.y, z: self.z - o.z }
    }

    /// Componentwise negation.
    pub fn neg(&self) -> (r: Vec3)
        requires
            vmax(*self) <= VEC_CAP as int * 4,
        ensures
            r == vneg_spec(*self),
            r.x == -self.x && r.y == -self.y && r.z == -self.z,
    {
        Vec3 { x: -self.x, y: -self.y, z: -self.z }
    }

    /// Componentwise fixed-point scaling.
    pub fn scale(&self, k: i128) -> (r: Vec3)
        requires
            vmax(*self) <= VEC_CAP as int,
            -VEC_CAP as int <= k as int <= VEC_CAP as int,
        ensures
            r == vscale_spec(*self, k as int),
            r.x == fmul_spec(self.x as int, k as int),
            r.y == fmul_spec(self.y as int, k as int),
            r.z == fmul_spec(self.z as int, k as int),
    {
        proof {
            lemma_vec_prod_cap(self.x as int, k as int);
            lemma_vec_prod_cap(self.y as int, k as int);
            lemma_vec_prod_cap(self.z as int, k as int);
        }
        Vec3 { x: fmul(self.x, k), y: fmul(self.y, k), z: fmul(self.z, k) }
    }

    /// The fixed-point dot product.
    pub fn dot(&self, o: &Vec3) -> (r: i128)
        requires
            vmax(*self) <= VEC_CAP as int,
            vmax(*o) <= VEC_CAP as int,
        ensures
            r == dot_spec(*self, *o),
    {
        proof {
            lemma_vec_prod_cap(self.x as int, o.x as int);
            lemma_vec_prod_cap(self.y as int, o.y as int);
            lemma_vec_prod_cap(self.z as int, o.z as int);
        }
        let s: i128 = self.x * o.x + self.y * o.y + self.z * o.z;
        tdivi(s, SCALE)
    }

    /// The magnitude: square root of the dot product with itself.
    pub fn magnitude(&self) -> (r: i128)
        requires
            vmax(*self) <= VEC_CAP as int,
        ensures
            r == fsqrt_spec(msq_spec(*self)),
            r >= 0,
    {
        let m = self.dot(self);
        proof {
            lemma_msq_nonneg(*self);
            lemma_vec_prod_cap(self.x as int, self.x as int);
            lemma_vec_prod_cap(self.y as int, self.y as int);
            lemma_vec_prod_cap(self.z as int, self.z as int);
            lemma_tdiv_mag(
                self.x * self.x + self.y * self.y + self.z * self.z,
                SCALE as int,
            );
        }
        fsqrt(m)
    }

    /// The normalized direction, as `normalize_spec` states it.
    pub fn normalize(&self) -> (r: Vec3)
        requires
            vmax(*self) <= VEC_CAP as int,
        ensures
            r == normalize_spec(*self),
            vmax(r) <= 3 * SCALE as int,
            msq_spec(*self) >= (SCALE as int) / 4 ==> SCALE as int - 32 <= msq_spec(r) <= SCALE
                as int + 32,
    {
        let m = self.dot(self);
        proof {
            lemma_msq_nonneg(*self);
        }
        if m <= 0 {
            proof {
                lemma_normalize_vmax(*self);
            }
            *self
        } else {
            proof {
                lemma_vec_prod_cap(self.x as int, self.x as int);
                lemma_vec_prod_cap(self.y as int, self.y as int);
                lemma_vec_prod_cap(self.z as int, self.z as int);
                lemma_tdiv_mag(
                    self.x * self.x + self.y * self.y + self.z * self.z,
                    SCALE as int,
                );
            }
            let n = fsqrt(m);
            proof {
                lemma_sqrt_pos(m as int);
                lemma_normalize_vmax(*self);
                if msq_spec(*self) >= (SCALE as int) / 4 {
                    lemma_normalize_unit(*self);
                }
            }
            Vec3 { x: fdiv(self.x, n), y: fdiv(self.y, n), z: fdiv(self.z, n) }
        }
    }

    /// Scales a short vector up so that normalizing it afterwards is
    /// well conditioned, as `boost_spec` states it: any nonzero input
    /// comes back with squared magnitude at least one quarter.
    pub fn boost(&self) -> (r: Vec3)
        requires
            vmax(*self) <= VEC_CAP as int,
        ensures
            r == boost_spec(*self),
            vmax(r) <= vmax(*self) + 2 * SCALE as int,
            *self != (Vec3 { x: 0i128, y: 0i128, z: 0i128 }) ==> msq_spec(r) >= (SCALE as int)
                / 4,
    {
        let m = self.dot(self);
        if m >= 25_000_000 {
            return *self;
        }
        proof {
            lemma_msq_nonneg(*self);
        }
        let ax = if self.x < 0 {
            -self.x
        } else {
            self.x
        };
        let ay = if self.y < 0 {
            -self.y
        } else {
            self.y
        };
        let az = if self.z < 0 {
            -self.z
        } else {
            self.z
        };
        let vm = if ax >= ay && ax >= az {
            ax
        } else if ay >= az {
            ay
        } else {
            az
        };
        proof {
            assert(vm as int == vmax(*self));
        }
        if vm == 0 {
            return *self;
        }
        proof {
            lemma_boost_small(*self, m as int, vm as int);
        }
        let c = tdivi(SCALE, vm) + 1;
        proof {
            lemma_boost_scale(*self, vm as int, c as int);
        }
        Vec3 { x: self.x * c, y: self.y * c, z: self.z * c }
    }
}

/// Whichever component attains the maximum, its square bounds the sum
/// of squares from below; a squared magnitude under one quarter then
/// keeps the largest component under one unit.
proof fn lemma_boost_small(v: Vec3, m: int, vm: int)
    requires
        m == msq_spec(v),
        m < 25_000_000,
        vm == vmax(v),
        vm >= 1,
    ensures
        vm <= SCALE as int,
{
    let s = SCALE as int;
    let raw = v.x * v.x + v.y * v.y + v.z * v.z;
    lemma_msq_nonneg(v);
    assert(vm * vm <= raw) by (nonlinear_arith)
        requires
            raw == v.x * v.x + v.y * v.y + v.z * v.z,
            vm == iabs(v.x as int) || vm == iabs(v.y as int) || vm == iabs(v.z as int),
    ;
    if vm > s {
        assert((s + 1) * (s + 1) <= vm * vm) by (nonlinear_arith)
            requires
                s + 1 <= vm,
                s >= 0,
        ;
        vstd::arithmetic::div_mod::lemma_div_is_ordered((s + 1) * (s + 1), raw, s);
        assert(((s + 1) * (s + 1)) / s >= s + 2) by (nonlinear_arith)
            requires
                s == 100_000_000,
        ;
        assert(false);
    }
}

/// Scaling by one more than the truncated quotient of one unit by the
/// largest component pushes that component past one unit, so the scaled
/// vector's squared magnitude truncates to at least one unit.
proof fn lemma_boost_scale(v: Vec3, vm: int, c: int)
    requires
        vm == vmax(v),
        1 <= vm <= SCALE as int,
        c == tdiv(SCALE as int, vm) + 1,
    ensures
        1 <= c <= SCALE as int + 1,
        iabs(v.x * c) <= 2 * SCALE as int,
        iabs(v.y * c) <= 2 * SCALE as int,
        iabs(v.z * c) <= 2 * SCALE as int,
        msq_spec(Vec3 { x: (v.x * c) as i128, y: (v.y * c) as i128, z: (v.z * c) as i128 })
            >= (SCALE as int) / 4,
{
    let s = SCALE as int;
    lemma_fundamental_div_mod(s, vm);
    let q = s / vm;
    let rr = s % vm;
    assert(c == q + 1);
    assert(c * vm == s + (vm - rr)) by (nonlinear_arith)
        requires
            vm * q + rr == s,
            c == q + 1,
    ;
    assert(s + 1 <= c * vm <= 2 * s) by {
        assert(0 <= rr < vm);
        assert(vm <= s);
    };
    assert(1 <= c <= s + 1) by (nonlinear_arith)
        requires
            c * vm == s + (vm - rr),
            1 <= vm,
            0 <= rr < vm,
            s == 100_000_000,
            c >= 1,
    ;
    assert(c >= 1) by {
        vstd::arithmetic::div_mod::lemma_div_pos_is_pos(s, vm);
    };
    assert(iabs(v.x * c) <= 2 * s && iabs(v.y * c) <= 2 * s && iabs(v.z * c) <= 2 * s)
        by (nonlinear_arith)
        requires
            iabs(v.x as int) <= vm,
            iabs(v.y as int) <= vm,
            iabs(v.z as int) <= vm,
            1 <= c,
            c * vm <= 2 * s,
            s > 0,
    ;
    let wx = v.x * c;
    let wy = v.y * c;
    let wz = v.z * c;
    let raw = wx * wx + wy * wy + wz * wz;
    assert((c * vm) * (c * vm) <= raw) by (nonlinear_arith)
        requires
            raw == wx * wx + wy * wy + wz * wz,
            wx == v.x * c,
            wy == v.y * c,
            wz == v.z * c,
            vm == iabs(v.x as int) || vm == iabs(v.y as int) || vm == iabs(v.z as int),
    ;
    assert((s + 1) * (s + 1) <= raw) by (nonlinear_arith)
        requires
            (c * vm) * (c * vm) <= raw,
            s + 1 <= c * vm,
            s >= 0,
    ;
    vstd::arithmetic::div_mod::lemma_div_is_ordered((s + 1) * (s + 1), raw, s);
    assert(((s + 1) * (s + 1)) / s >= s + 2) by (nonlinear_arith)
        requires
            s == 100_000_000,
    ;
    assert(raw >= 0) by (nonlinear_arith)
        requires
            raw == wx * wx + wy * wy + wz * wz,
    ;
    assert(msq_spec(Vec3 { x: wx as i128, y: wy as i128, z: wz as i128 }) == raw / s);
}

/// Products of two in-cap components stay far within the multiplication cap.
proof fn lemma_vec_prod_cap(a: int, b: int)
    requires
        -VEC_CAP as int <= a <= VEC_CAP as int,
        -VEC_CAP as int <= b <= VEC_CAP as int,
    ensures
        -PROD_CAP as int <= a * b <= PROD_CAP as int,
        iabs(a * b) <= VEC_CAP as int * VEC_CAP as int,
{
    assert(iabs(a * b) <= VEC_CAP as int * VEC_CAP as int) by (nonlinear_arith)
        requires
            -VEC_CAP as int <= a <= VEC_CAP as int,
            -VEC_CAP as int <= b <= VEC_CAP as int,
    ;
}

/// A bound on both vectors' components bounds their dot product:
/// `|dot_spec(a, b)| * SCALE <= 3 * ca * cb`.
pub proof fn lemma_dot_bound(a: Vec3, b: Vec3, ca: int, cb: int)
    requires
        vmax(a) <= ca,
        vmax(b) <= cb,
        0 <= ca,
        0 <= cb,
    ensures
        iabs(dot_spec(a, b)) * (SCALE as int) <= 3 * (ca * cb),
{
    let p = a.x * b.x + a.y * b.y + a.z * b.z;
    assert(iabs(a.x * b.x) <= ca * cb) by (nonlinear_arith)
        requires
            iabs(a.x as int) <= ca,
            iabs(b.x as int) <= cb,
            0 <= ca,
            0 <= cb,
    ;
    assert(iabs(a.y * b.y) <= ca * cb) by (nonlinear_arith)
        requires
            iabs(a.y as int) <= ca,
            iabs(b.y as int) <= cb,
            0 <= ca,
            0 <= cb,
    ;
    assert(iabs(a.z * b.z) <= ca * cb) by (nonlinear_arith)
        requires
            iabs(a.z as int) <= ca,
            iabs(b.z as int) <= cb,
            0 <= ca,
            0 <= cb,
    ;
    assert(iabs(p) <= 3 * (ca * cb));
    lemma_tdiv_mag(p, SCALE as int);
}

/// A dot product of a vector with itself is nonnegative.
pub proof fn lemma_msq_nonneg(v: Vec3)
    ensures
        msq_spec(v) >= 0,
        v.x * v.x + v.y * v.y + v.z * v.z >= 0,
{
    assert(v.x * v.x + v.y * v.y + v.z * v.z >= 0) by (nonlinear_arith);
    lemma_tdiv_mag(v.x * v.x + v.y * v.y + v.z * v.z, SCALE as int);
}

/// A positive squared magnitude has a positive scaled square root.
proof fn lemma_sqrt_pos(m: int)
    requires
        m >= 1,
        m <= DIV_CAP as int,
    ensures
        fsqrt_spec(m) >= 10000,
{
    let p = m * (SCALE as int);
    assert(p >= SCALE as int);
    lemma_sqrt_exists(p);
    let n = sqrt_int(p);
    assert(is_sqrt(p, n));
    if n < 10000 {
        assert((n + 1) * (n + 1) <= 10000 * 10000) by (nonlinear_arith)
            requires
                0 <= n < 10000,
        ;
        assert(false);
    }
}

/// Division of a component by the magnitude's square root:
/// remainder facts for one component.
proof fn lemma_norm_component(vi: int, n: int)
    requires
        n >= 1,
    ensures
        tdiv(vi * (SCALE as int), n) * n == vi * (SCALE as int) - (vi * (SCALE as int) - tdiv(
            vi * (SCALE as int),
            n,
        ) * n),
        iabs(vi * (SCALE as int) - tdiv(vi * (SCALE as int), n) * n) < n,
        (vi * (SCALE as int) - tdiv(vi * (SCALE as int), n) * n) * vi >= 0,
        iabs(tdiv(vi * (SCALE as int), n)) * n <= iabs(vi) * (SCALE as int),
{
    let s = SCALE as int;
    let a = vi * s;
    lemma_tdiv_mag(a, n);
    assert(iabs(a) == iabs(vi) * s) by (nonlinear_arith)
        requires
            a == vi * s,
            s > 0,
    ;
    if a >= 0 {
        lemma_fundamental_div_mod(a, n);
        assert(tdiv(a, n) == a / n);
        assert(n * (a / n) + a % n == a);
        assert(0 <= a % n < n);
        assert(a - tdiv(a, n) * n == a % n) by (nonlinear_arith)
            requires
                n * (a / n) + a % n == a,
                tdiv(a, n) == a / n,
        ;
        assert(vi >= 0 || a % n == 0) by (nonlinear_arith)
            requires
                a == vi * s,
                a >= 0,
                s > 0,
                0 <= a % n,
                n * (a / n) + a % n == a,
        ;
        assert((a - tdiv(a, n) * n) * vi >= 0) by (nonlinear_arith)
            requires
                a - tdiv(a, n) * n == a % n,
                0 <= a % n,
                vi >= 0 || a % n == 0,
        ;
    } else {
        lemma_fundamental_div_mod(-a, n);
        assert(tdiv(a, n) == -((-a) / n));
        assert(n * ((-a) / n) + (-a) % n == -a);
        assert(0 <= (-a) % n < n);
        assert(a - tdiv(a, n) * n == -((-a) % n)) by (nonlinear_arith)
            requires
                n * ((-a) / n) + (-a) % n == -a,
                tdiv(a, n) == -((-a) / n),
        ;
        assert(vi < 0) by (nonlinear_arith)
            requires
                a == vi * s,
                a < 0,
                s > 0,
        ;
        assert((a - tdiv(a, n) * n) * vi >= 0) by (nonlinear_arith)
            requires
                a - tdiv(a, n) * n == -((-a) % n),
                0 <= (-a) % n,
                vi < 0,
        ;
    }
}

/// Each normalized component stays within three units.
proof fn lemma_norm_component_small(vi: int, n: int)
    requires
        n >= 10000,
        vi * vi < n * n + 2 * n + 1 + SCALE as int,
    ensures
        iabs(tdiv(vi * (SCALE as int), n)) <= 3 * SCALE as int,
{
    let s = SCALE as int;
    lemma_norm_component(vi, n);
    assert(iabs(vi) <= n + 10001) by (nonlinear_arith)
        requires
            vi * vi < n * n + 2 * n + 1 + SCALE as int,
            SCALE as int == 100_000_000,
            n >= 1,
    ;
    assert(iabs(tdiv(vi * s, n)) <= 3 * s) by (nonlinear_arith)
        requires
            iabs(tdiv(vi * s, n)) * n <= iabs(vi) * s,
            iabs(vi) <= n + 10001,
            n >= 10000,
            s == 100_000_000,
            iabs(tdiv(vi * s, n)) >= 0,
    ;
}

/// The components of a normalized vector never exceed three units in
/// magnitude, whatever the input.
pub proof fn lemma_normalize_vmax(v: Vec3)
    requires
        vmax(v) <= VEC_CAP as int,
    ensures
        vmax(normalize_spec(v)) <= 3 * SCALE as int,
{
    let s = SCALE as int;
    let vv = v.x * v.x + v.y * v.y + v.z * v.z;
    lemma_msq_nonneg(v);
    let m = msq_spec(v);
    lemma_fundamental_div_mod(vv, s);
    assert(m == vv / s);
    assert(m * s <= vv < (m + 1) * s) by (nonlinear_arith)
        requires
            s * (vv / s) + vv % s == vv,
            0 <= vv % s < s,
            m == vv / s,
    ;
    if m <= 0 {
        assert(normalize_spec(v) == v);
        assert(vv < s);
        assert(iabs(v.x as int) <= 10000 && iabs(v.y as int) <= 10000 && iabs(v.z as int) <= 10000)
            by (nonlinear_arith)
            requires
                v.x * v.x + v.y * v.y + v.z * v.z < 100_000_000,
        ;
    } else {
        let p = m * s;
        lemma_sqrt_exists(p);
        let n = sqrt_int(p);
        assert(is_sqrt(p, n));
        if n < 10000 {
            assert((n + 1) * (n + 1) <= 10000 * 10000) by (nonlinear_arith)
                requires
                    0 <= n < 10000,
            ;
            assert(false);
        }
        assert(v.x * v.x <= vv && v.y * v.y <= vv && v.z * v.z <= vv) by (nonlinear_arith)
        requires
            vv == v.x * v.x + v.y * v.y + v.z * v.z,
    ;
        assert(vv < n * n + 2 * n + 1 + s) by (nonlinear_arith)
            requires
                vv < (m + 1) * s,
                m * s < (n + 1) * (n + 1),
                s > 0,
        ;
        lemma_norm_component_small(v.x as int, n);
        lemma_norm_component_small(v.y as int, n);
        lemma_norm_component_small(v.z as int, n);
    }
}

/// Normalizing a vector of magnitude at least one half yields a unit
/// vector, up to the last few fixed-point digits: its squared magnitude
/// differs from one by at most 32 scaled units.
pub proof fn lemma_normalize_unit(v: Vec3)
    requires
        vmax(v) <= VEC_CAP as int,
        msq_spec(v) >= (SCALE as int) / 4,
    ensures
        SCALE as int - 32 <= msq_spec(normalize_spec(v)) <= SCALE as int + 32,
{
    let s = SCALE as int;
    let vv = v.x * v.x + v.y * v.y + v.z * v.z;
    lemma_msq_nonneg(v);
    let m = msq_spec(v);
    lemma_fundamental_div_mod(vv, s);
    assert(m == vv / s);
    assert(m * s <= vv < (m + 1) * s) by (nonlinear_arith)
        requires
            s * (vv / s) + vv % s == vv,
            0 <= vv % s < s,
            m == vv / s,
    ;
    let p = m * s;
    assert(p >= (s / 4) * s);
    lemma_sqrt_exists(p);
    let n = sqrt_int(p);
    assert(is_sqrt(p, n));
    assert(n >= 45_000_000) by (nonlinear_arith)
        requires
            p < (n + 1) * (n + 1),
            p >= 2_500_000_000_000_000,
            n >= 0,
    ;
    let r = normalize_spec(v);
    let rx = tdiv(v.x * s, n);
    let ry = tdiv(v.y * s, n);
    let rz = tdiv(v.z * s, n);
    assert(r.x as int == rx && r.y as int == ry && r.z as int == rz) by {
        lemma_norm_component(v.x as int, n);
        lemma_norm_component(v.y as int, n);
        lemma_norm_component(v.z as int, n);
        assert(iabs(v.x as int) * s <= VEC_CAP as int * s);
        assert(iabs(rx) * n <= iabs(v.x as int) * s);
        assert(iabs(rx) <= VEC_CAP as int * s && iabs(ry) <= VEC_CAP as int * s && iabs(rz)
            <= VEC_CAP as int * s) by (nonlinear_arith)
            requires
                iabs(rx) * n <= iabs(v.x as int) * s,
                iabs(ry) * n <= iabs(v.y as int) * s,
                iabs(rz) * n <= iabs(v.z as int) * s,
                iabs(v.x as int) <= VEC_CAP as int,
                iabs(v.y as int) <= VEC_CAP as int,
                iabs(v.z as int) <= VEC_CAP as int,
                n >= 1,
                s > 0,
        ;
    };
    let ex = v.x * s - rx * n;
    let ey = v.y * s - ry * n;
    let ez = v.z * s - rz * n;
    lemma_norm_component(v.x as int, n);
    lemma_norm_component(v.y as int, n);
    lemma_norm_component(v.z as int, n);
    assert(v.x * v.x <= vv && v.y * v.y <= vv && v.z * v.z <= vv) by (nonlinear_arith)
        requires
            vv == v.x * v.x + v.y * v.y + v.z * v.z,
    ;
    assert(vv < n * n + 2 * n + 1 + s) by (nonlinear_arith)
        requires
            vv < (m + 1) * s,
            m * s < (n + 1) * (n + 1),
            s > 0,
    ;
    assert(iabs(v.x as int) <= n + 10001 && iabs(v.y as int) <= n + 10001 && iabs(v.z as int) <= n
        + 10001) by (nonlinear_arith)
        requires
            v.x * v.x < n * n + 2 * n + 1 + s,
            v.y * v.y < n * n + 2 * n + 1 + s,
            v.z * v.z < n * n + 2 * n + 1 + s,
            s == 100_000_000,
            n >= 1,
    ;
    // One component of the squared magnitude, exactly.
    assert(rx * n * (rx * n) == v.x * s * (v.x * s) - 2 * ex * (v.x * s) + ex * ex)
        by (nonlinear_arith)
        requires
            ex == v.x * s - rx * n,
    ;
    assert(ry * n * (ry * n) == v.y * s * (v.y * s) - 2 * ey * (v.y * s) + ey * ey)
        by (nonlinear_arith)
        requires
            ey == v.y * s - ry * n,
    ;
    assert(rz * n * (rz * n) == v.z * s * (v.z * s) - 2 * ez * (v.z * s) + ez * ez)
        by (nonlinear_arith)
        requires
            ez == v.z * s - rz * n,
    ;
    let rr = rx * rx + ry * ry + rz * rz;
    assert(rx * n * (rx * n) == (rx * rx) * (n * n)) by (nonlinear_arith);
    assert(ry * n * (ry * n) == (ry * ry) * (n * n)) by (nonlinear_arith);
    assert(rz * n * (rz * n) == (rz * rz) * (n * n)) by (nonlinear_arith);
    assert(v.x * s * (v.x * s) == (v.x * v.x) * (s * s)) by (nonlinear_arith);
    assert(v.y * s * (v.y * s) == (v.y * v.y) * (s * s)) by (nonlinear_arith);
    assert(v.z * s * (v.z * s) == (v.z * v.z) * (s * s)) by (nonlinear_arith);
    assert(2 * ex * (v.x * s) == 2 * s * (ex * v.x)) by (nonlinear_arith);
    assert(2 * ey * (v.y * s) == 2 * s * (ey * v.y)) by (nonlinear_arith);
    assert(2 * ez * (v.z * s) == 2 * s * (ez * v.z)) by (nonlinear_arith);
    assert((rx * rx) * (n * n) + (ry * ry) * (n * n) + (rz * rz) * (n * n) == rr * (n * n))
        by (nonlinear_arith)
        requires
            rr == rx * rx + ry * ry + rz * rz,
    ;
    assert((v.x * v.x) * (s * s) + (v.y * v.y) * (s * s) + (v.z * v.z) * (s * s) == vv * (s * s))
        by (nonlinear_arith)
        requires
            vv == v.x * v.x + v.y * v.y + v.z * v.z,
    ;
    assert(2 * s * (ex * v.x) + 2 * s * (ey * v.y) + 2 * s * (ez * v.z) == 2 * s * (ex * v.x + ey
        * v.y + ez * v.z)) by (nonlinear_arith);
    assert(rr * (n * n) == vv * (s * s) - 2 * s * (ex * v.x + ey * v.y + ez * v.z) + (ex * ex + ey
        * ey + ez * ez));
    // The correction term is small and has a sign: 0 <= e.v, and
    // e.v <= 3n(n + 10001).
    assert(0 <= ex * v.x + ey * v.y + ez * v.z <= 3 * n * (n + 10001)) by (nonlinear_arith)
        requires
            ex * v.x >= 0,
            ey * v.y >= 0,
            ez * v.z >= 0,
            iabs(ex) < n,
            iabs(ey) < n,
            iabs(ez) < n,
            iabs(v.x as int) <= n + 10001,
            iabs(v.y as int) <= n + 10001,
            iabs(v.z as int) <= n + 10001,
            n >= 1,
    ;
    assert(0 <= ex * ex + ey * ey + ez * ez <= 3 * (n * n)) by (nonlinear_arith)
        requires
            iabs(ex) < n,
            iabs(ey) < n,
            iabs(ez) < n,
            n >= 1,
    ;
    // Lower bound: rr >= s*s - 7*s.
    assert(rr * (n * n) >= (n * n) * (s * s) - 2 * s * (3 * n * (n + 10001))) by (nonlinear_arith)
        requires
            rr * (n * n) == vv * (s * s) - 2 * s * (ex * v.x + ey * v.y + ez * v.z) + (ex * ex + ey
                * ey + ez * ez),
            vv >= m * s,
            m * s >= n * n,
            0 <= ex * v.x + ey * v.y + ez * v.z <= 3 * n * (n + 10001),
            0 <= ex * ex + ey * ey + ez * ez,
            s > 0,
    ;
    assert(rr >= s * s - 7 * s) by (nonlinear_arith)
        requires
            rr * (n * n) >= (n * n) * (s * s) - 2 * s * (3 * n * (n + 10001)),
            n >= 45_000_000,
            s == 100_000_000,
    ;
    // Upper bound: rr <= s*s + 15*s.
    assert(rr * (n * n) <= ((n + 1) * (n + 1) + s) * (s * s) + 3 * (n * n)) by (nonlinear_arith)
        requires
            rr * (n * n) == vv * (s * s) - 2 * s * (ex * v.x + ey * v.y + ez * v.z) + (ex * ex + ey
                * ey + ez * ez),
            vv < n * n + 2 * n + 1 + s,
            0 <= ex * v.x + ey * v.y + ez * v.z,
            ex * ex + ey * ey + ez * ez <= 3 * (n * n),
            s > 0,
    ;
    assert(rr <= s * s + 15 * s) by (nonlinear_arith)
        requires
            rr * (n * n) <= ((n + 1) * (n + 1) + s) * (s * s) + 3 * (n * n),
            n >= 45_000_000,
            s == 100_000_000,
    ;
    // Conclude for the truncated division by the scale.
    lemma_fundamental_div_mod(rr, s);
    assert(msq_spec(r) == rr / s) by {
        assert(r.x * r.x + r.y * r.y + r.z * r.z == rr);
        assert(rr >= 0) by (nonlinear_arith)
            requires
                rr == rx * rx + ry * ry + rz * rz,
        ;
    };
    assert(s - 32 <= rr / s <= s + 32) by (nonlinear_arith)
        requires
            s * (rr / s) + rr % s == rr,
            0 <= rr % s < s,
            s * s - 7 * s <= rr <= s * s + 15 * s,
            s == 100_000_000,
    ;
}

} // verus!
