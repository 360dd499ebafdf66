//! Fixed-point 2D vectors at the milli scale, with the blend, scaling and
//! normalisation operations the simulation is written in.

use vstd::prelude::*;
use crate::fixed::{clip, iabs, mul_div, isqrt64, sqrt_floor, tdiv, lemma_sqrt_unique, lemma_tdiv_bound};
use vstd::arithmetic::div_mod::lemma_div_multiples_vanish;
use vstd::arithmetic::mul::lemma_mul_inequality;

verus! {

/// A 2D vector of fixed-point coordinates (scale 1000 per world unit).
#[derive(Clone, Copy, PartialEq, Eq, Structural, Debug)]
pub struct V2 {
    pub x: i64,
    pub y: i64,
}

/// The mathematical image of a vector: the same pair over unbounded integers.
pub ghost struct Gv {
    pub x: int,
    pub y: int,
}

impl V2 {
    pub open spec fn gv(self) -> Gv {
        Gv { x: self.x as int, y: self.y as int }
    }

    pub open spec fn bounded(self, b: int) -> bool {
        iabs(self.x as int) <= b && iabs(self.y as int) <= b
    }

    pub fn zero() -> (r: V2)
        ensures
            r.x == 0 && r.y == 0,
    {
        V2 { x: 0, y: 0 }
    }
}

pub open spec fn plus_s(a: Gv, b: Gv) -> Gv {
    Gv { x: a.x + b.x, y: a.y + b.y }
}

pub open spec fn minus_s(a: Gv, b: Gv) -> Gv {
    Gv { x: a.x - b.x, y: a.y - b.y }
}

/// Componentwise scaling by the ratio `num / den`, rounding toward zero.
pub open spec fn scale_s(v: Gv, num: int, den: int) -> Gv {
    Gv { x: tdiv(v.x * num, den), y: tdiv(v.y * num, den) }
}

/// Linear blend from `a` toward `b` by the milli-scaled factor `t`.
pub open spec fn lerp_s(a: Gv, b: Gv, t: int) -> Gv {
    Gv { x: a.x + tdiv((b.x - a.x) * t, 1000), y: a.y + tdiv((b.y - a.y) * t, 1000) }
}

pub open spec fn dot_s(a: Gv, b: Gv) -> int {
    a.x * b.x + a.y * b.y
}

pub open spec fn mag_sq_s(v: Gv) -> int {
    v.x * v.x + v.y * v.y
}

/// The fixed-point magnitude: integer square root of the squared magnitude.
pub open spec fn mag_s(v: Gv) -> int {
    sqrt_floor(mag_sq_s(v))
}

/// Normalisation to a unit vector at the milli scale; `fb` is the result
/// when the magnitude is degenerate (zero).
pub open spec fn norm_s(v: Gv, fb: Gv) -> Gv {
    let m = mag_s(v);
    if m == 0 {
        fb
    } else {
        Gv { x: tdiv(v.x * 1000, m), y: tdiv(v.y * 1000, m) }
    }
}

pub open spec fn clip_v(v: Gv, b: int) -> Gv {
    Gv { x: clip(v.x, -b, b), y: clip(v.y, -b, b) }
}

pub fn plus(a: V2, b: V2) -> (r: V2)
    requires
        i64::MIN <= a.x + b.x <= i64::MAX,
        i64::MIN <= a.y + b.y <= i64::MAX,
    ensures
        r.gv() == plus_s(a.gv(), b.gv()),
{
    V2 { x: a.x + b.x, y: a.y + b.y }
}

pub fn minus(a: V2, b: V2) -> (r: V2)
    requires
        i64::MIN <= a.x - b.x <= i64::MAX,
        i64::MIN <= a.y - b.y <= i64::MAX,
    ensures
        r.gv() == minus_s(a.gv(), b.gv()),
{
    V2 { x: a.x - b.x, y: a.y - b.y }
}

pub fn scale_v(v: V2, num: i64, den: i64) -> (r: V2)
    requires
        den > 0,
        num >= 0,
        -4611686018427387904 <= v.x * num <= 4611686018427387904,
        -4611686018427387904 <= v.y * num <= 4611686018427387904,
    ensures
        r.gv() == scale_s(v.gv(), num as int, den as int),
{
    V2 { x: mul_div(v.x, num, den), y: mul_div(v.y, num, den) }
}

pub fn lerp_v(a: V2, b: V2, t: i64) -> (r: V2)
    requires
        0 <= t <= 1000,
        a.bounded(2000000000000000),
        b.bounded(2000000000000000),
    ensures
        r.gv() == lerp_s(a.gv(), b.gv(), t as int),
        a.x <= b.x ==> a.x <= r.x <= b.x,
        b.x <= a.x ==> b.x <= r.x <= a.x,
        a.y <= b.y ==> a.y <= r.y <= b.y,
        b.y <= a.y ==> b.y <= r.y <= a.y,
{
    proof {
        crate::fixed::lemma_tdiv_fraction(b.x - a.x, t as int);
        crate::fixed::lemma_tdiv_fraction(b.y - a.y, t as int);
        assert(-4000000000000000000 <= (b.x - a.x) * t <= 4000000000000000000
            && -4000000000000000000 <= (b.y - a.y) * t
            <= 4000000000000000000) by (nonlinear_arith)
            requires
                -4000000000000000 <= b.x - a.x <= 4000000000000000,
                -4000000000000000 <= b.y - a.y <= 4000000000000000,
                0 <= t <= 1000,
        ;
    }
    let dx: i64 = mul_div(b.x - a.x, t, 1000);
    let dy: i64 = mul_div(b.y - a.y, t, 1000);
    proof {
        lemma_tdiv_bound((b.x - a.x) * t, 1000, 4000000000000000000);
        lemma_tdiv_bound((b.y - a.y) * t, 1000, 4000000000000000000);
    }
    V2 { x: a.x + dx, y: a.y + dy }
}

/// Squared Euclidean magnitude.
pub fn mag_sq(v: V2) -> (r: i64)
    requires
        v.bounded(2000000000),
    ensures
        r == mag_sq_s(v.gv()),
        0 <= r <= 8000000000000000000,
{
    proof {
        assert(0 <= v.x * v.x <= 4000000000000000000) by (nonlinear_arith)
            requires
                -2000000000 <= v.x <= 2000000000,
        ;
        assert(0 <= v.y * v.y <= 4000000000000000000) by (nonlinear_arith)
            requires
                -2000000000 <= v.y <= 2000000000,
        ;
    }
    v.x * v.x + v.y * v.y
}

/// Fixed-point magnitude.
pub fn mag(v: V2) -> (r: i64)
    requires
        v.bounded(2000000000),
    ensures
        r == mag_s(v.gv()),
        0 <= r <= 4294967295,
{
    let sq: i64 = mag_sq(v);
    let root: u64 = isqrt64(sq as u64);
    proof {
        if root > 4294967294 {
            assert((root as int) * (root as int) > 8000000000000000000) by (nonlinear_arith)
                requires
                    root as int >= 4294967295,
            ;
        }
    }
    root as i64
}

/// The defining inequalities of the magnitude.
pub proof fn lemma_mag_props(v: Gv)
    ensures
        mag_sq_s(v) >= 0,
        0 <= mag_s(v),
        mag_s(v) * mag_s(v) <= mag_sq_s(v),
        mag_sq_s(v) < (mag_s(v) + 1) * (mag_s(v) + 1),
{
    let n = mag_sq_s(v);
    assert(n >= 0) by (nonlinear_arith)
        requires
            n == v.x * v.x + v.y * v.y,
    ;
    crate::fixed::lemma_sqrt_exists(n);
    let m = mag_s(v);
    assert(0 <= m && m * m <= n && n < (m + 1) * (m + 1));
}

/// Each coordinate is bounded by the magnitude.
pub proof fn lemma_mag_dominates(v: Gv)
    ensures
        iabs(v.x) <= mag_s(v),
        iabs(v.y) <= mag_s(v),
{
    let n = mag_sq_s(v);
    let m = mag_s(v);
    lemma_mag_props(v);
    let ax = iabs(v.x);
    assert(ax == v.x || ax == -v.x);
    assert(ax * ax <= n) by (nonlinear_arith)
        requires
            ax == v.x || ax == -v.x,
            n == v.x * v.x + v.y * v.y,
    ;
    if ax > m {
        lemma_mul_inequality(m + 1, ax, ax);
        lemma_mul_inequality(m + 1, ax, m + 1);
        assert(false);
    }
    let ay = iabs(v.y);
    assert(ay == v.y || ay == -v.y);
    assert(ay * ay <= n) by (nonlinear_arith)
        requires
            ay == v.y || ay == -v.y,
            n == v.x * v.x + v.y * v.y,
    ;
    if ay > m {
        lemma_mul_inequality(m + 1, ay, ay);
        lemma_mul_inequality(m + 1, ay, m + 1);
        assert(false);
    }
}

/// Normalisation: both components of the result stay within the unit scale.
pub proof fn lemma_norm_bounded(v: Gv, fb: Gv, b: int)
    requires
        iabs(fb.x) <= b,
        iabs(fb.y) <= b,
        1000 <= b,
    ensures
        iabs(norm_s(v, fb).x) <= b,
        iabs(norm_s(v, fb).y) <= b,
{
    let m = mag_s(v);
    if m != 0 {
        lemma_mag_props(v);
        lemma_mag_dominates(v);
        assert(-(m * 1000) <= v.x * 1000 <= m * 1000 && -(m * 1000) <= v.y * 1000
            <= m * 1000) by (nonlinear_arith)
            requires
                -m <= v.x <= m,
                -m <= v.y <= m,
                m >= 1,
        ;
        lemma_tdiv_bound(v.x * 1000, m, m * 1000);
        lemma_tdiv_bound(v.y * 1000, m, m * 1000);
        lemma_div_multiples_vanish(1000, m);
    }
}

pub fn norm_or(v: V2, fb: V2) -> (r: V2)
    requires
        v.bounded(2000000000),
    ensures
        r.gv() == norm_s(v.gv(), fb.gv()),
{
    let m: i64 = mag(v);
    if m == 0 {
        fb
    } else {
        proof {
            lemma_mag_props(v.gv());
        }
        V2 { x: mul_div(v.x, 1000, m), y: mul_div(v.y, 1000, m) }
    }
}

/// Squared distance between two points.
pub fn dist_sq(a: V2, b: V2) -> (r: i64)
    requires
        a.bounded(1000000000),
        b.bounded(1000000000),
    ensures
        r == mag_sq_s(minus_s(b.gv(), a.gv())),
        r >= 0,
{
    let d: V2 = minus(b, a);
    mag_sq(d)
}

} // verus!
