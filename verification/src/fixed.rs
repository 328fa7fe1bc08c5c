//! Fixed-point arithmetic: every scalar quantity of the renderer is an
//! `i128` holding a real number scaled by `SCALE` (eight decimal places).
//! Multiplication, division, square root and integer powers all round
//! toward zero; the spec functions here define those results exactly.

use vstd::prelude::*;

verus! {

use vstd::arithmetic::div_mod::lemma_div_is_ordered;
use vstd::arithmetic::div_mod::lemma_div_is_ordered_by_denominator;
use vstd::arithmetic::div_mod::lemma_div_pos_is_pos;
use vstd::arithmetic::div_mod::lemma_fundamental_div_mod;

/// Number of scaled units in one real unit.
pub const SCALE: i128 = 100_000_000;

/// Largest magnitude allowed for the product inside a fixed-point
/// multiplication; safely below `i128::MAX`.
pub const PROD_CAP: i128 = 100_000_000_000_000_000_000_000_000_000_000_000_000;

/// Largest magnitude allowed for a fixed-point division numerator.
pub const DIV_CAP: i128 = 1_000_000_000_000_000_000_000_000_000_000;

/// Shadow-ray origins are lifted off a surface by this bias (1e-4 real).
pub const EPSILON: i128 = 10_000;

/// Largest magnitude of scene data: sphere centers and radii, light
/// positions, translations, colors and material parameters (1e4 real).
pub const COORD_CAP: i128 = 1_000_000_000_000;

/// Largest magnitude of a point handed to the intersection engine:
/// ray origins, hit points and shadow-bias points (2e8 real).
pub const POINT_CAP: i128 = 25_000_000_000_000_000;

/// Largest magnitude of the origin of a ray that is resolved to a color:
/// camera rays start within this range (1e6 real).
pub const EYE_CAP: i128 = 100_000_000_000_000;

/// Largest ray parameter the shading-context builder accepts (6e7 real).
pub const T_CAP: i128 = 6_000_000_000_000_000;

/// Magnitude of an integer.
pub open spec fn iabs(a: int) -> int {
    if a >= 0 {
        a
    } else {
        -a
    }
}

/// Quotient of `a` by `b` rounded toward zero (`b > 0` intended).
pub open spec fn tdiv(a: int, b: int) -> int {
    if a >= 0 {
        a / b
    } else {
        -((-a) / b)
    }
}

/// Product of two scaled values, rescaled, rounded toward zero.
pub open spec fn fmul_spec(a: int, b: int) -> int {
    tdiv(a * b, SCALE as int)
}

/// Quotient of two scaled values, rescaled, rounded toward zero.
pub open spec fn fdiv_spec(a: int, b: int) -> int {
    tdiv(a * (SCALE as int), b)
}

/// `r` is the integer square root of `n`.
pub open spec fn is_sqrt(n: int, r: int) -> bool {
    0 <= r && r * r <= n && n < (r + 1) * (r + 1)
}

/// The integer square root (floor of the real square root) of `n >= 0`.
pub open spec fn sqrt_int(n: int) -> int {
    choose|r: int| #[trigger] is_sqrt(n, r)
}

/// Square root of a scaled value, as a scaled value, rounded down.
pub open spec fn fsqrt_spec(x: int) -> int {
    sqrt_int(x * (SCALE as int))
}

/// `base` (scaled) raised to the `n`th power by repeated fixed-point
/// multiplication, as the lighting model's shininess exponent uses it.
pub open spec fn fpow_spec(base: int, n: nat) -> int
    decreases n,
{
    if n == 0 {
        SCALE as int
    } else {
        fmul_spec(base, fpow_spec(base, (n - 1) as nat))
    }
}

/// Rounding toward zero never grows the magnitude of the true quotient:
/// `|tdiv(a, b)| * b <= |a|`.
pub proof fn lemma_tdiv_mag(a: int, b: int)
    requires
        b >= 1,
    ensures
        iabs(tdiv(a, b)) * b <= iabs(a),
        a >= 0 ==> tdiv(a, b) >= 0,
        a <= 0 ==> tdiv(a, b) <= 0,
{
    if a >= 0 {
        lemma_fundamental_div_mod(a, b);
        lemma_div_pos_is_pos(a, b);
        assert(iabs(tdiv(a, b)) * b <= iabs(a)) by (nonlinear_arith)
            requires
                b >= 1,
                a >= 0,
                tdiv(a, b) == a / b,
                b * (a / b) + a % b == a,
                0 <= a % b,
                a / b >= 0,
        ;
    } else {
        lemma_fundamental_div_mod(-a, b);
        lemma_div_pos_is_pos(-a, b);
        assert(iabs(tdiv(a, b)) * b <= iabs(a)) by (nonlinear_arith)
            requires
                b >= 1,
                a < 0,
                tdiv(a, b) == -((-a) / b),
                b * ((-a) / b) + (-a) % b == -a,
                0 <= (-a) % b,
                (-a) / b >= 0,
        ;
    }
}

/// Truncated division is monotone in the numerator for a positive
/// denominator.
pub proof fn lemma_tdiv_mono(a1: int, a2: int, b: int)
    requires
        b >= 1,
        a1 <= a2,
    ensures
        tdiv(a1, b) <= tdiv(a2, b),
{
    lemma_tdiv_mag(a1, b);
    lemma_tdiv_mag(a2, b);
    if a1 >= 0 {
        lemma_div_is_ordered(a1, a2, b);
    } else if a2 < 0 {
        lemma_div_is_ordered(-a2, -a1, b);
    }
}

/// A bound on both factors bounds a fixed-point product:
/// `|fmul_spec(a, b)| * SCALE <= aa * bb`.
pub proof fn lemma_fmul_bound(a: int, b: int, aa: int, bb: int)
    requires
        -aa <= a <= aa,
        -bb <= b <= bb,
        0 <= aa,
        0 <= bb,
    ensures
        iabs(fmul_spec(a, b)) * (SCALE as int) <= aa * bb,
        -aa * bb <= fmul_spec(a, b) * (SCALE as int) <= aa * bb,
{
    lemma_tdiv_mag(a * b, SCALE as int);
    assert(iabs(a * b) <= aa * bb) by (nonlinear_arith)
        requires
            -aa <= a <= aa,
            -bb <= b <= bb,
            0 <= aa,
            0 <= bb,
    ;
    assert(iabs(fmul_spec(a, b)) * (SCALE as int) <= aa * bb);
    assert(-aa * bb <= fmul_spec(a, b) * (SCALE as int) <= aa * bb) by (nonlinear_arith)
        requires
            iabs(fmul_spec(a, b)) * (SCALE as int) <= aa * bb,
            SCALE as int > 0,
    ;
}

/// A bound on the numerator bounds a truncated quotient by a denominator
/// at least `SCALE`: `|fdiv_spec(a, b)| <= |a|` when `b >= SCALE`.
pub proof fn lemma_fdiv_mag(a: int, b: int)
    requires
        b >= SCALE as int,
    ensures
        iabs(fdiv_spec(a, b)) <= iabs(a),
{
    lemma_tdiv_mag(a * (SCALE as int), b);
    assert(iabs(a * (SCALE as int)) == iabs(a) * (SCALE as int)) by (nonlinear_arith);
    assert(iabs(fdiv_spec(a, b)) <= iabs(a)) by (nonlinear_arith)
        requires
            iabs(fdiv_spec(a, b)) * b <= iabs(a) * (SCALE as int),
            b >= SCALE as int,
            SCALE as int > 0,
            iabs(fdiv_spec(a, b)) >= 0,
            iabs(a) >= 0,
    ;
}

/// There is an integer square root for every `n >= 0`.
pub proof fn lemma_sqrt_exists(n: int)
    requires
        n >= 0,
    ensures
        exists|r: int| is_sqrt(n, r),
    decreases n,
{
    if n == 0 {
        assert(is_sqrt(0, 0));
    } else {
        lemma_sqrt_exists(n - 1);
        let r = choose|r: int| #[trigger] is_sqrt(n - 1, r);
        if n < (r + 1) * (r + 1) {
            assert(is_sqrt(n, r));
        } else {
            assert((r + 1) * (r + 1) <= n);
            assert(n - 1 < (r + 1) * (r + 1));
            assert(n < (r + 2) * (r + 2)) by (nonlinear_arith)
                requires
                    n <= (r + 1) * (r + 1),
                    r >= 0,
            ;
            assert(is_sqrt(n, r + 1));
        }
    }
}

/// Integer square roots are unique.
pub proof fn lemma_sqrt_unique(n: int, r1: int, r2: int)
    requires
        is_sqrt(n, r1),
        is_sqrt(n, r2),
    ensures
        r1 == r2,
{
    if r1 < r2 {
        assert(r2 * r2 < (r1 + 1) * (r1 + 1)) by (nonlinear_arith)
            requires
                r2 * r2 <= n,
                n < (r1 + 1) * (r1 + 1),
        ;
        assert(false) by (nonlinear_arith)
            requires
                r2 * r2 < (r1 + 1) * (r1 + 1),
                r1 + 1 <= r2,
                0 <= r1,
                0 <= r2,
        ;
    }
    if r2 < r1 {
        assert(r1 * r1 < (r2 + 1) * (r2 + 1)) by (nonlinear_arith)
            requires
                r1 * r1 <= n,
                n < (r2 + 1) * (r2 + 1),
        ;
        assert(false) by (nonlinear_arith)
            requires
                r1 * r1 < (r2 + 1) * (r2 + 1),
                r2 + 1 <= r1,
                0 <= r1,
                0 <= r2,
        ;
    }
}

/// A witness pins down `sqrt_int`.
pub proof fn lemma_sqrt_is(n: int, r: int)
    requires
        n >= 0,
        is_sqrt(n, r),
    ensures
        sqrt_int(n) == r,
{
    lemma_sqrt_exists(n);
    let c = choose|x: int| #[trigger] is_sqrt(n, x);
    assert(is_sqrt(n, c));
    lemma_sqrt_unique(n, c, r);
}

/// `sqrt_int(n) <= cap` whenever `n <= cap * cap`.
pub proof fn lemma_sqrt_le(n: int, cap: int)
    requires
        0 <= n,
        0 <= cap,
        n <= cap * cap,
    ensures
        0 <= sqrt_int(n),
        sqrt_int(n) <= cap,
        sqrt_int(n) * sqrt_int(n) <= n,
        n < (sqrt_int(n) + 1) * (sqrt_int(n) + 1),
{
    lemma_sqrt_exists(n);
    let r = sqrt_int(n);
    assert(is_sqrt(n, r));
    if r > cap {
        assert(false) by (nonlinear_arith)
            requires
                r * r <= n,
                n <= cap * cap,
                cap + 1 <= r,
                0 <= cap,
                0 <= r,
        ;
    }
}

/// Product of two scaled values, rescaled, rounding toward zero.
pub fn fmul(a: i128, b: i128) -> (r: i128)
    requires
        -PROD_CAP <= a * b <= PROD_CAP,
        iabs(a as int) <= PROD_CAP as int,
        iabs(b as int) <= PROD_CAP as int,
    ensures
        r == fmul_spec(a as int, b as int),
{
    let ua: u128 = if a < 0 {
        (-a) as u128
    } else {
        a as u128
    };
    let ub: u128 = if b < 0 {
        (-b) as u128
    } else {
        b as u128
    };
    proof {
        assert(ua as int == iabs(a as int));
        assert(ub as int == iabs(b as int));
        assert(iabs(a as int) * iabs(b as int) == iabs((a as int) * (b as int)))
            by (nonlinear_arith);
        assert(ua as int * ub as int <= PROD_CAP as int);
    }
    let p: u128 = ua * ub;
    let q: u128 = p / (SCALE as u128);
    proof {
        assert(q as int == iabs((a as int) * (b as int)) / (SCALE as int));
        lemma_div_pos_is_pos(p as int, SCALE as int);
        lemma_div_is_ordered(p as int, PROD_CAP as int, SCALE as int);
    }
    if (a < 0) != (b < 0) {
        proof {
            assert((a as int) * (b as int) <= 0) by (nonlinear_arith)
                requires
                    (a < 0) != (b < 0),
            ;
        }
        -(q as i128)
    } else {
        proof {
            assert((a as int) * (b as int) >= 0) by (nonlinear_arith)
                requires
                    (a < 0) == (b < 0),
            ;
        }
        q as i128
    }
}

/// Quotient of two scaled values (`b > 0`), rescaled, rounding toward zero.
pub fn fdiv(a: i128, b: i128) -> (r: i128)
    requires
        1 <= b,
        -DIV_CAP <= a <= DIV_CAP,
    ensures
        r == fdiv_spec(a as int, b as int),
{
    let ua: u128 = if a < 0 {
        (-a) as u128
    } else {
        a as u128
    };
    proof {
        assert(ua as int == iabs(a as int));
        assert(iabs(a as int) * (SCALE as int) == iabs((a as int) * (SCALE as int)))
            by (nonlinear_arith);
        assert(ua as int * SCALE as int <= DIV_CAP as int * SCALE as int);
    }
    let p: u128 = ua * (SCALE as u128);
    let q: u128 = p / (b as u128);
    proof {
        assert(q as int == iabs((a as int) * (SCALE as int)) / (b as int));
        lemma_div_pos_is_pos(p as int, b as int);
        lemma_div_is_ordered_by_denominator(p as int, 1, b as int);
        assert(p as int / 1 == p as int);
    }
    if a < 0 {
        -(q as i128)
    } else {
        q as i128
    }
}

/// Integer square root of an unsigned 128-bit value by bisection.
fn isqrt_u(n: u128) -> (r: u128)
    ensures
        is_sqrt(n as int, r as int),
{
    let mut lo: u128 = 0;
    let mut hi: u128 = 18_446_744_073_709_551_616;
    proof {
        assert((hi as int) * (hi as int) > n as int);
    }
    while lo + 1 < hi
        invariant
            lo < hi,
            hi <= 18_446_744_073_709_551_616,
            (lo as int) * (lo as int) <= n as int,
            (n as int) < (hi as int) * (hi as int),
        decreases hi - lo,
    {
        let mid = lo + (hi - lo) / 2;
        proof {
            assert(lo < mid < hi);
            assert((mid as int) * (mid as int) <= (18_446_744_073_709_551_615int) * (
            18_446_744_073_709_551_615int)) by (nonlinear_arith)
                requires
                    0 <= mid as int <= 18_446_744_073_709_551_615int,
            ;
        }
        if mid * mid <= n {
            lo = mid;
        } else {
            hi = mid;
        }
    }
    proof {
        assert(hi == lo + 1);
    }
    lo
}

/// Square root of a nonnegative scaled value, as a scaled value.
pub fn fsqrt(x: i128) -> (r: i128)
    requires
        0 <= x <= DIV_CAP,
    ensures
        r == fsqrt_spec(x as int),
        0 <= r,
        (r as int) * (r as int) <= (x as int) * (SCALE as int),
{
    proof {
        assert((x as int) * (SCALE as int) <= u128::MAX as int) by (nonlinear_arith)
            requires
                0 <= x as int <= DIV_CAP as int,
        ;
    }
    let p: u128 = (x as u128) * (SCALE as u128);
    proof {
        assert(p as int == (x as int) * (SCALE as int));
    }
    let r = isqrt_u(p);
    proof {
        lemma_sqrt_is(p as int, r as int);
        assert(sqrt_int((x as int) * (SCALE as int)) == r as int);
        assert((r as int) * (r as int) <= p as int);
        assert(r as int <= p as int) by (nonlinear_arith)
            requires
                (r as int) * (r as int) <= p as int,
                0 <= r as int,
        ;
        assert(r as int <= i128::MAX as int);
    }
    r as i128
}

/// Truncated quotient of two integers (`b > 0`), rounding toward zero.
pub fn tdivi(a: i128, b: i128) -> (r: i128)
    requires
        1 <= b,
        -PROD_CAP <= a <= PROD_CAP,
    ensures
        r == tdiv(a as int, b as int),
{
    let ua: u128 = if a < 0 {
        (-a) as u128
    } else {
        a as u128
    };
    let q: u128 = ua / (b as u128);
    proof {
        assert(ua as int == iabs(a as int));
        assert(q as int == iabs(a as int) / (b as int));
        lemma_div_pos_is_pos(ua as int, b as int);
        lemma_div_is_ordered_by_denominator(ua as int, 1, b as int);
        assert(ua as int / 1 == ua as int);
    }
    if a < 0 {
        -(q as i128)
    } else {
        q as i128
    }
}

/// The sine of a scaled value in `[0, 2]` radians, by a Maclaurin series
/// truncated after the fifteenth power.
pub open spec fn sin_spec(x: int) -> int {
    let u = fmul_spec(x, x);
    let t2 = tdiv(fmul_spec(x, u), 6);
    let t3 = tdiv(fmul_spec(t2, u), 20);
    let t4 = tdiv(fmul_spec(t3, u), 42);
    let t5 = tdiv(fmul_spec(t4, u), 72);
    let t6 = tdiv(fmul_spec(t5, u), 110);
    let t7 = tdiv(fmul_spec(t6, u), 156);
    let t8 = tdiv(fmul_spec(t7, u), 210);
    x - t2 + t3 - t4 + t5 - t6 + t7 - t8
}

/// The cosine of a scaled value in `[0, 2]` radians, by a Maclaurin series
/// truncated after the fourteenth power.
pub open spec fn cos_spec(x: int) -> int {
    let u = fmul_spec(x, x);
    let t2 = tdiv(u, 2);
    let t3 = tdiv(fmul_spec(t2, u), 12);
    let t4 = tdiv(fmul_spec(t3, u), 30);
    let t5 = tdiv(fmul_spec(t4, u), 56);
    let t6 = tdiv(fmul_spec(t5, u), 90);
    let t7 = tdiv(fmul_spec(t6, u), 132);
    let t8 = tdiv(fmul_spec(t7, u), 182);
    (SCALE as int) - t2 + t3 - t4 + t5 - t6 + t7 - t8
}

/// The tangent of a scaled value in `[0, 2]` radians: the quotient of the
/// series for sine and cosine, clamped into `[0, 20]`. Outside the domain
/// where the camera model is meaningful (a field of view approaching pi,
/// where the true tangent diverges) the clamp bounds the result.
pub open spec fn tan_spec(x: int) -> int {
    let s = sin_spec(x);
    let c = cos_spec(x);
    if c >= 1 {
        let t = fdiv_spec(s, c);
        if t < 0 {
            0
        } else if t > 20 * (SCALE as int) {
            20 * (SCALE as int)
        } else {
            t
        }
    } else {
        0
    }
}

/// One series step: multiply the previous term by `x^2` and divide by the
/// next two factorial factors, keeping every term within four units.
fn series_step(t: i128, u: i128, d: i128) -> (r: i128)
    requires
        6 <= d <= 210,
        -4 * SCALE <= t <= 4 * SCALE,
        0 <= u <= 4 * SCALE,
    ensures
        r == tdiv(fmul_spec(t as int, u as int), d as int),
        -4 * SCALE <= r <= 4 * SCALE,
{
    proof {
        lemma_fmul_bound(t as int, u as int, 4 * SCALE as int, 4 * SCALE as int);
        assert(-PROD_CAP <= (t as int) * (u as int) <= PROD_CAP) by (nonlinear_arith)
            requires
                -4 * (SCALE as int) <= t as int <= 4 * (SCALE as int),
                0 <= u as int <= 4 * (SCALE as int),
        ;
    }
    let m = fmul(t, u);
    proof {
        assert(iabs(m as int) <= 16 * (SCALE as int)) by (nonlinear_arith)
            requires
                iabs(m as int) * (SCALE as int) <= (4 * (SCALE as int)) * (4 * (SCALE as int)),
                SCALE as int > 0,
        ;
        lemma_tdiv_mag(m as int, 6);
        lemma_tdiv_mag(m as int, d as int);
        assert(iabs(tdiv(m as int, d as int)) <= 4 * (SCALE as int)) by (nonlinear_arith)
            requires
                iabs(tdiv(m as int, d as int)) * (d as int) <= iabs(m as int),
                iabs(m as int) <= 16 * (SCALE as int),
                d as int >= 6,
                iabs(tdiv(m as int, d as int)) >= 0,
        ;
    }
    tdivi(m, d)
}

/// The sine series, as `sin_spec` states it.
pub fn sin_fx(x: i128) -> (r: i128)
    requires
        0 <= x <= 2 * SCALE,
    ensures
        r == sin_spec(x as int),
        -40 * SCALE <= r <= 40 * SCALE,
{
    proof {
        lemma_fmul_bound(x as int, x as int, 2 * SCALE as int, 2 * SCALE as int);
        lemma_tdiv_mag((x as int) * (x as int), SCALE as int);
        assert(0 <= fmul_spec(x as int, x as int) <= 4 * SCALE as int) by (nonlinear_arith)
            requires
                iabs(fmul_spec(x as int, x as int)) * (SCALE as int) <= (2 * (SCALE as int)) * (2
                    * (SCALE as int)),
                fmul_spec(x as int, x as int) >= 0,
                SCALE as int > 0,
        ;
        assert((x as int) * (x as int) >= 0) by (nonlinear_arith);
    }
    let u = fmul(x, x);
    let t2 = series_step(x, u, 6);
    let t3 = series_step(t2, u, 20);
    let t4 = series_step(t3, u, 42);
    let t5 = series_step(t4, u, 72);
    let t6 = series_step(t5, u, 110);
    let t7 = series_step(t6, u, 156);
    let t8 = series_step(t7, u, 210);
    x - t2 + t3 - t4 + t5 - t6 + t7 - t8
}

/// The cosine series, as `cos_spec` states it.
pub fn cos_fx(x: i128) -> (r: i128)
    requires
        0 <= x <= 2 * SCALE,
    ensures
        r == cos_spec(x as int),
        -40 * SCALE <= r <= 40 * SCALE,
{
    proof {
        lemma_fmul_bound(x as int, x as int, 2 * SCALE as int, 2 * SCALE as int);
        lemma_tdiv_mag((x as int) * (x as int), SCALE as int);
        assert(0 <= fmul_spec(x as int, x as int) <= 4 * SCALE as int) by (nonlinear_arith)
            requires
                iabs(fmul_spec(x as int, x as int)) * (SCALE as int) <= (2 * (SCALE as int)) * (2
                    * (SCALE as int)),
                fmul_spec(x as int, x as int) >= 0,
                SCALE as int > 0,
        ;
        assert((x as int) * (x as int) >= 0) by (nonlinear_arith);
    }
    let u = fmul(x, x);
    let t2 = tdivi(u, 2);
    proof {
        lemma_tdiv_mag(u as int, 2);
        assert(iabs(t2 as int) <= 4 * SCALE as int) by (nonlinear_arith)
            requires
                iabs(t2 as int) * 2 <= iabs(u as int),
                iabs(u as int) <= 4 * (SCALE as int),
                iabs(t2 as int) >= 0,
        ;
    }
    let t3 = series_step(t2, u, 12);
    let t4 = series_step(t3, u, 30);
    let t5 = series_step(t4, u, 56);
    let t6 = series_step(t5, u, 90);
    let t7 = series_step(t6, u, 132);
    let t8 = series_step(t7, u, 182);
    SCALE - t2 + t3 - t4 + t5 - t6 + t7 - t8
}

/// The tangent, as `tan_spec` states it: sine over cosine, clamped.
pub fn tan_fx(x: i128) -> (r: i128)
    requires
        0 <= x <= 2 * SCALE,
    ensures
        r == tan_spec(x as int),
        0 <= r <= 20 * SCALE,
{
    let s = sin_fx(x);
    let c = cos_fx(x);
    if c >= 1 {
        let t = fdiv(s, c);
        if t < 0 {
            0
        } else if t > 20 * SCALE {
            20 * SCALE
        } else {
            t
        }
    } else {
        0
    }
}

/// Fixed-point powers of a base in `[0, 1]` stay in `[0, 1]`.
pub proof fn lemma_fpow_range(base: int, n: nat)
    requires
        0 <= base <= SCALE as int,
    ensures
        0 <= fpow_spec(base, n) <= SCALE as int,
    decreases n,
{
    if n == 0 {
    } else {
        lemma_fpow_range(base, (n - 1) as nat);
        let p = fpow_spec(base, (n - 1) as nat);
        lemma_tdiv_mag(base * p, SCALE as int);
        assert(0 <= base * p <= (SCALE as int) * (SCALE as int)) by (nonlinear_arith)
            requires
                0 <= base <= SCALE as int,
                0 <= p <= SCALE as int,
        ;
        assert(0 <= fpow_spec(base, n) <= SCALE as int) by (nonlinear_arith)
            requires
                fpow_spec(base, n) == tdiv(base * p, SCALE as int),
                0 <= base * p <= (SCALE as int) * (SCALE as int),
                iabs(tdiv(base * p, SCALE as int)) * (SCALE as int) <= iabs(base * p),
                tdiv(base * p, SCALE as int) >= 0,
                SCALE as int > 0,
        ;
    }
}

/// `base` (scaled, in `[0, 1]`) raised to the `n`th power.
pub fn fpow(base: i128, n: usize) -> (r: i128)
    requires
        0 <= base <= SCALE,
    ensures
        r == fpow_spec(base as int, n as nat),
        0 <= r <= SCALE,
{
    let mut acc: i128 = SCALE;
    let mut i: usize = 0;
    while i < n
        invariant
            0 <= i <= n,
            0 <= base <= SCALE,
            acc == fpow_spec(base as int, i as nat),
            0 <= acc <= SCALE,
        decreases n - i,
    {
        proof {
            assert(-PROD_CAP <= (base as int) * (acc as int) <= PROD_CAP) by (nonlinear_arith)
                requires
                    0 <= base as int <= SCALE as int,
                    0 <= acc as int <= SCALE as int,
                    PROD_CAP as int >= (SCALE as int) * (SCALE as int),
            ;
        }
        acc = fmul(base, acc);
        i = i + 1;
        proof {
            lemma_fpow_range(base as int, i as nat);
        }
    }
    acc
}

} // verus!
