//! A two-color stripe pattern: coarse bands along the Y axis of object
//! space, chosen by the parity of the floor of twice the Y coordinate.

use vstd::prelude::*;

verus! {

use crate::fixed::SCALE;
use crate::ray_rgb::RayRgb;
use crate::vec3::VEC_CAP;
use crate::vec3::Vec3;
use crate::vec3::vmax;
use vstd::arithmetic::div_mod::lemma_fundamental_div_mod;

/// A procedural two-color rule evaluated in object space.
#[derive(Debug, Clone, Copy, PartialEq)]
pub struct Pattern {
    a: RayRgb,
    b: RayRgb,
}

/// Which stripe a point falls in: the first color where the floor of
/// twice the object-space Y coordinate is even, the second where it is
/// odd.
pub closed spec fn stripe_spec(p: Pattern, point: Vec3) -> RayRgb {
    if ((2 * point.y) / (SCALE as int)) % 2 == 0 {
        p.a
    } else {
        p.b
    }
}

/// The first color of a pattern.
pub closed spec fn pat_a(p: Pattern) -> RayRgb {
    p.a
}

/// The second color of a pattern.
pub closed spec fn pat_b(p: Pattern) -> RayRgb {
    p.b
}

/// The stripe rule, in the open: the first color where the floor of
/// twice the object-space Y coordinate is even, the second where it is
/// odd.
pub proof fn lemma_stripe_rule(p: Pattern, point: Vec3)
    ensures
        stripe_spec(p, point) == if ((2 * point.y) / (SCALE as int)) % 2 == 0 {
            pat_a(p)
        } else {
            pat_b(p)
        },
{
}

/// A stripe is always one of the pattern's two colors.
pub proof fn lemma_stripe_cases(p: Pattern, point: Vec3)
    ensures
        stripe_spec(p, point) == pat_a(p) || stripe_spec(p, point) == pat_b(p),
{
}

impl Pattern {
    /// Builds a stripe pattern from its two colors.
    pub fn new(a: RayRgb, b: RayRgb) -> (r: Pattern)
        ensures
            pat_a(r) == a,
            pat_b(r) == b,
    {
        Pattern { a, b }
    }

    /// The stripe color at an object-space point.
    pub fn stripe_at(&self, point: &Vec3) -> (c: RayRgb)
        requires
            vmax(*point) <= VEC_CAP as int,
        ensures
            c == stripe_spec(*self, *point),
    {
        let y2: i128 = 2 * point.y;
        if y2 >= 0 {
            let q: u128 = (y2 as u128) / (SCALE as u128);
            proof {
                assert(q as int == (2 * point.y) / (SCALE as int));
            }
            if q % 2 == 0 {
                self.a
            } else {
                self.b
            }
        } else {
            let m: u128 = (-y2) as u128;
            let q: u128 = m / (SCALE as u128);
            let rem: u128 = m % (SCALE as u128);
            let f: u128 = if rem == 0 {
                q
            } else {
                q + 1
            };
            proof {
                lemma_floor_div_neg(y2 as int, q as int, rem as int, f as int);
            }
            if f % 2 == 0 {
                self.a
            } else {
                self.b
            }
        }
    }
}

impl Default for Pattern {
    /// White and black stripes.
    fn default() -> (r: Pattern)
        ensures
            pat_a(r) == (RayRgb { r: SCALE, g: SCALE, b: SCALE }),
            pat_b(r) == (RayRgb { r: 0, g: 0, b: 0 }),
    {
        Pattern { a: RayRgb::white(), b: RayRgb::black() }
    }
}

/// Euclidean division of a negative value relates to division of its
/// magnitude: the quotient is the negated, rounded-up magnitude
/// quotient, and the parities agree.
proof fn lemma_floor_div_neg(y2: int, q: int, rem: int, f: int)
    requires
        y2 < 0,
        q == (-y2) / (SCALE as int),
        rem == (-y2) % (SCALE as int),
        f == if rem == 0 {
            q
        } else {
            q + 1
        },
    ensures
        (y2 / (SCALE as int)) % 2 == 0 <==> f % 2 == 0,
{
    let s = SCALE as int;
    lemma_fundamental_div_mod(-y2, s);
    lemma_fundamental_div_mod(y2, s);
    // -y2 == s*q + rem, 0 <= rem < s; so y2 == s*(-f) + (f*s - s*q - rem).
    if rem == 0 {
        assert(y2 == s * (-q) + 0) by (nonlinear_arith)
            requires
                s * q + rem == -y2,
                rem == 0,
        ;
        assert(y2 / s == -q) by {
            vstd::arithmetic::div_mod::lemma_fundamental_div_mod_converse(y2, s, -q, 0);
        };
    } else {
        assert(y2 == s * (-(q + 1)) + (s - rem)) by (nonlinear_arith)
            requires
                s * q + rem == -y2,
        ;
        assert(y2 / s == -(q + 1)) by {
            vstd::arithmetic::div_mod::lemma_fundamental_div_mod_converse(y2, s, -(q + 1), s - rem);
        };
    }
    // Parity of a negated value matches the parity of the value.
    let d = y2 / s;
    assert(d == -f);
    lemma_fundamental_div_mod(f, 2);
    if f % 2 == 0 {
        assert(-f == 2 * (-(f / 2)) + 0) by (nonlinear_arith)
            requires
                2 * (f / 2) + f % 2 == f,
                f % 2 == 0,
        ;
        vstd::arithmetic::div_mod::lemma_fundamental_div_mod_converse(-f, 2, -(f / 2), 0);
    } else {
        assert(-f == 2 * (-(f / 2) - 1) + 1) by (nonlinear_arith)
            requires
                2 * (f / 2) + f % 2 == f,
                f % 2 == 1,
        ;
        vstd::arithmetic::div_mod::lemma_fundamental_div_mod_converse(-f, 2, -(f / 2) - 1, 1);
    }
}

} // verus!
