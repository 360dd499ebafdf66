//! Fixed-point scalar arithmetic: truncating division, clamping, integer
//! square root, and the sine / arctangent approximations that stand in for
//! transcendental functions throughout the simulation.

use vstd::prelude::*;
use vstd::arithmetic::div_mod::{
    lemma_div_is_ordered, lemma_div_multiples_vanish, lemma_div_nonincreasing,
    lemma_div_pos_is_pos, lemma_fundamental_div_mod, lemma_fundamental_div_mod_converse_div,
    lemma_mod_division_less_than_divisor,
};
use vstd::arithmetic::mul::{lemma_mul_inequality, lemma_mul_nonnegative, lemma_mul_upper_bound};

verus! {

/// Scale of lengths, velocities and unit direction vectors: 1000 per world unit.
pub const FP: i64 = 1000;

/// Scale of angles: 10000 per radian.
pub const ANG: i64 = 10000;

/// Pi at the angle scale.
pub const PI_A: i64 = 31416;

/// Pi / 2 at the angle scale.
pub const HALF_PI_A: i64 = 15708;

/// 2 * Pi at the angle scale.
pub const TAU_A: i64 = 62832;

pub open spec fn iabs(a: int) -> int {
    if a >= 0 {
        a
    } else {
        -a
    }
}

/// Truncating (round-toward-zero) division by a positive divisor: the law
/// every scaled quantity in this crate follows when it is rescaled.
pub open spec fn tdiv(a: int, d: int) -> int
    recommends
        d > 0,
{
    if a >= 0 {
        a / d
    } else {
        -((-a) / d)
    }
}

pub open spec fn clip(a: int, lo: int, hi: int) -> int
    recommends
        lo <= hi,
{
    if a < lo {
        lo
    } else if a > hi {
        hi
    } else {
        a
    }
}

pub proof fn lemma_tdiv_bound(a: int, d: int, b: int)
    requires
        d >= 1,
        iabs(a) <= b,
    ensures
        iabs(tdiv(a, d)) <= b / d,
        iabs(tdiv(a, d)) <= b,
{
    if a >= 0 {
        lemma_div_pos_is_pos(a, d);
        lemma_div_is_ordered(a, b, d);
        lemma_div_nonincreasing(b, d);
    } else {
        lemma_div_pos_is_pos(-a, d);
        lemma_div_is_ordered(-a, b, d);
        lemma_div_nonincreasing(b, d);
    }
}

/// Truncating division sits on or just above floor division.
pub proof fn lemma_tdiv_floor(p: int, d: int)
    requires
        d >= 1,
    ensures
        p / d <= tdiv(p, d) <= p / d + 1,
{
    if p < 0 {
        lemma_fundamental_div_mod(p, d);
        lemma_fundamental_div_mod(-p, d);
        lemma_mod_division_less_than_divisor(p, d);
        lemma_mod_division_less_than_divisor(-p, d);
        let q1 = p / d;
        let r1 = p % d;
        let q2 = (-p) / d;
        let r2 = (-p) % d;
        assert(d * (q1 + q2) + r1 + r2 == 0) by (nonlinear_arith)
            requires
                p == d * q1 + r1,
                -p == d * q2 + r2,
        ;
        assert(q1 + q2 == 0 || q1 + q2 == -1) by (nonlinear_arith)
            requires
                d * (q1 + q2) + r1 + r2 == 0,
                0 <= r1 < d,
                0 <= r2 < d,
                d >= 1,
        ;
    }
}

/// Truncating division is monotone, and moves by at most the scaled
/// distance plus the rounding slack.
pub proof fn lemma_tdiv_near(p: int, q: int, d: int)
    requires
        d >= 1,
        p <= q,
    ensures
        tdiv(p, d) <= tdiv(q, d),
        tdiv(q, d) - tdiv(p, d) <= (q - p) / d + 2,
{
    lemma_tdiv_floor(p, d);
    lemma_tdiv_floor(q, d);
    lemma_div_is_ordered(p, q, d);
    if p >= 0 {
    } else if q < 0 {
        lemma_div_is_ordered(-q, -p, d);
    } else {
        lemma_div_pos_is_pos(q, d);
        lemma_div_pos_is_pos(-p, d);
    }
    lemma_fundamental_div_mod(p, d);
    lemma_fundamental_div_mod(q - p, d);
    lemma_mod_division_less_than_divisor(p, d);
    lemma_mod_division_less_than_divisor(q - p, d);
    let p1 = p / d;
    let r1 = p % d;
    let dd1 = (q - p) / d;
    let r2 = (q - p) % d;
    if r1 + r2 < d {
        assert(q == (p1 + dd1) * d + (r1 + r2)) by (nonlinear_arith)
            requires
                p == d * p1 + r1,
                q - p == d * dd1 + r2,
        ;
        lemma_fundamental_div_mod_converse_div(q, d, p1 + dd1, r1 + r2);
    } else {
        assert(q == (p1 + dd1 + 1) * d + (r1 + r2 - d)) by (nonlinear_arith)
            requires
                p == d * p1 + r1,
                q - p == d * dd1 + r2,
        ;
        lemma_fundamental_div_mod_converse_div(q, d, p1 + dd1 + 1, r1 + r2 - d);
    }
}

/// Scaling by a milli-fraction `t` keeps a value between zero and itself.
pub proof fn lemma_tdiv_fraction(k: int, t: int)
    requires
        0 <= t <= 1000,
    ensures
        k >= 0 ==> 0 <= tdiv(k * t, 1000) <= k,
        k < 0 ==> k <= tdiv(k * t, 1000) <= 0,
{
    if k >= 0 {
        assert(0 <= k * t <= k * 1000) by (nonlinear_arith)
            requires
                0 <= t <= 1000,
                k >= 0,
        ;
        lemma_tdiv_bound(k * t, 1000, k * 1000);
        lemma_div_multiples_vanish(k, 1000);
        lemma_div_pos_is_pos(k * t, 1000);
    } else {
        assert(0 <= (-k) * t <= (-k) * 1000 && (-k) * t == -(k * t)) by (nonlinear_arith)
            requires
                0 <= t <= 1000,
                k < 0,
        ;
        lemma_tdiv_bound(k * t, 1000, (-k) * 1000);
        lemma_div_multiples_vanish(-k, 1000);
        lemma_div_pos_is_pos((-k) * t, 1000);
    }
}

pub fn clip64(a: i64, lo: i64, hi: i64) -> (r: i64)
    requires
        lo <= hi,
    ensures
        r == clip(a as int, lo as int, hi as int),
        lo <= r <= hi,
{
    if a < lo {
        lo
    } else if a > hi {
        hi
    } else {
        a
    }
}

/// Scales `a` by the ratio `num / den`, rounding toward zero.
pub fn mul_div(a: i64, num: i64, den: i64) -> (r: i64)
    requires
        den > 0,
        num >= 0,
        -4611686018427387904 <= a * num <= 4611686018427387904,
    ensures
        r == tdiv(a * num, den as int),
{
    let p: i128 = (a as i128) * (num as i128);
    if p >= 0 {
        let mag: u128 = p as u128;
        let q: u128 = mag / (den as u128);
        proof {
            lemma_div_nonincreasing(mag as int, den as int);
        }
        q as i64
    } else {
        let mag: u128 = (-p) as u128;
        let q: u128 = mag / (den as u128);
        proof {
            lemma_div_nonincreasing(mag as int, den as int);
        }
        let qi: i64 = q as i64;
        -qi
    }
}

/// Product of two bounded values.
pub fn mul64(a: i64, b: i64) -> (r: i64)
    requires
        -2000000000 <= a <= 2000000000,
        -2000000000 <= b <= 2000000000,
    ensures
        r == a * b,
{
    proof {
        assert(-4000000000000000000 <= a * b <= 4000000000000000000) by (nonlinear_arith)
            requires
                -2000000000 <= a <= 2000000000,
                -2000000000 <= b <= 2000000000,
        ;
    }
    a * b
}

/// Floor (Euclidean) division by a positive divisor.
pub fn fdiv64(a: i64, d: i64) -> (r: i64)
    requires
        d > 0,
    ensures
        r == a as int / d as int,
{
    proof {
        if a >= 0 {
            lemma_div_pos_is_pos(a as int, d as int);
            lemma_div_nonincreasing(a as int, d as int);
        } else {
            lemma_div_is_ordered(a as int, 0, d as int);
            assert(0int / d as int == 0);
            lemma_fundamental_div_mod(a as int, d as int);
            lemma_mod_division_less_than_divisor(a as int, d as int);
            let q = a as int / d as int;
            let rem = a as int % d as int;
            assert(q >= a as int) by (nonlinear_arith)
                requires
                    d as int >= 1,
                    (a as int) < 0,
                    0 <= rem < d as int,
                    a as int == (d as int) * q + rem,
            ;
        }
    }
    let r: Option<i64> = a.checked_div_euclid(d);
    r.unwrap()
}

/// Euclidean remainder by a positive divisor; the result lies in `[0, d)`.
pub fn fmod64(a: i64, d: i64) -> (r: i64)
    requires
        d > 0,
    ensures
        r == a as int % d as int,
        0 <= r < d,
{
    proof {
        lemma_mod_division_less_than_divisor(a as int, d as int);
    }
    let r: Option<i64> = a.checked_rem_euclid(d);
    r.unwrap()
}

/// The integer square root: the unique `r >= 0` with `r * r <= n < (r+1) * (r+1)`.
pub open spec fn sqrt_floor(n: int) -> int
    recommends
        n >= 0,
{
    choose|r: int| 0 <= r && #[trigger] (r * r) <= n && n < (r + 1) * (r + 1)
}

pub proof fn lemma_sqrt_exists(n: int) -> (r: int)
    requires
        n >= 0,
    ensures
        0 <= r && r * r <= n && n < (r + 1) * (r + 1),
    decreases n,
{
    if n == 0 {
        0
    } else {
        let p = lemma_sqrt_exists(n - 1);
        if (p + 1) * (p + 1) <= n {
            assert(n < (p + 2) * (p + 2)) by (nonlinear_arith)
                requires
                    n - 1 < (p + 1) * (p + 1),
                    p >= 0,
            ;
            p + 1
        } else {
            p
        }
    }
}

pub proof fn lemma_sqrt_unique(n: int, r: int)
    requires
        0 <= r,
        r * r <= n,
        n < (r + 1) * (r + 1),
    ensures
        r == sqrt_floor(n),
{
    let w = lemma_sqrt_exists(n);
    assert(exists|q: int| 0 <= q && #[trigger] (q * q) <= n && n < (q + 1) * (q + 1));
    let s = sqrt_floor(n);
    assert(0 <= s && s * s <= n && n < (s + 1) * (s + 1));
    if r < s {
        lemma_mul_inequality(r + 1, s, s);
        lemma_mul_inequality(r + 1, s, r + 1);
        assert(false);
    }
    if s < r {
        lemma_mul_inequality(s + 1, r, r);
        lemma_mul_inequality(s + 1, r, s + 1);
        assert(false);
    }
}

pub fn isqrt64(n: u64) -> (r: u64)
    ensures
        r as int == sqrt_floor(n as int),
        r * r <= n,
        n < (r + 1) * (r + 1),
{
    let mut lo: u64 = 0;
    let mut hi: u64 = 4294967296;
    proof {
        assert((4294967296int) * (4294967296int) > n as int) by (nonlinear_arith)
            requires
                n <= u64::MAX,
        ;
    }
    while hi - lo > 1
        invariant
            lo < hi,
            hi <= 4294967296,
            lo * lo <= n,
            (n as int) < (hi as int) * (hi as int),
        decreases hi - lo,
    {
        let mid: u64 = lo + (hi - lo) / 2;
        proof {
            lemma_mul_upper_bound(mid as int, 4294967295, mid as int, 4294967295);
        }
        if mid * mid <= n {
            lo = mid;
        } else {
            hi = mid;
        }
    }
    proof {
        lemma_sqrt_unique(n as int, lo as int);
    }
    lo
}

/// The Bhaskara rational approximation of the sine on `[0, pi]`, at the
/// angle scale on its argument and the unit scale on its result.
pub open spec fn sin_half(x: int) -> int
    recommends
        0 <= x <= PI_A,
{
    let q = x * (31416 - x);
    (16 * q * 1000) / (4934825280 - 4 * q)
}

/// Sine at the angle scale, defined on all of `int` by periodic reduction.
pub open spec fn sin_s(a: int) -> int {
    let m = a % 62832;
    if m <= 31416 {
        sin_half(m)
    } else {
        -sin_half(m - 31416)
    }
}

/// Cosine, as the sine shifted a quarter turn.
pub open spec fn cos_s(a: int) -> int {
    sin_s(a + 15708)
}

fn sin_half_fp(x: i64) -> (r: i64)
    requires
        0 <= x <= 31416,
    ensures
        r == sin_half(x as int),
        0 <= r <= 1000,
{
    proof {
        lemma_mul_nonnegative(x as int, 31416 - x as int);
        assert(x * (31416 - x) <= 246741264) by (nonlinear_arith)
            requires
                0 <= x <= 31416,
        ;
    }
    let q: i64 = x * (31416 - x);
    let num: i64 = 16 * q;
    let den: i64 = 4934825280 - 4 * q;
    let nm: u64 = (num as u64) * 1000;
    let dn: u64 = den as u64;
    let quo: u64 = nm / dn;
    proof {
        lemma_div_is_ordered(nm as int, (den as int) * 1000, den as int);
        lemma_div_multiples_vanish(1000, den as int);
        lemma_div_pos_is_pos(nm as int, den as int);
        assert((den as int) * 1000 / (den as int) == 1000);
    }
    quo as i64
}

pub fn sin_fp(a: i64) -> (r: i64)
    ensures
        r == sin_s(a as int),
        -1000 <= r <= 1000,
{
    let m: i64 = fmod64(a, TAU_A);
    if m <= PI_A {
        sin_half_fp(m)
    } else {
        let v: i64 = sin_half_fp(m - PI_A);
        -v
    }
}

pub fn cos_fp(a: i64) -> (r: i64)
    requires
        a + 15708 <= i64::MAX,
    ensures
        r == cos_s(a as int),
        -1000 <= r <= 1000,
{
    sin_fp(a + HALF_PI_A)
}

/// Arctangent on `[0, 1]` (unit scale in, angle scale out), by the
/// `z * (pi/4 + 0.273 * (1 - z))` approximation.
pub open spec fn atan_unit(z: int) -> int
    recommends
        0 <= z <= 1000,
{
    (z * (7854 + (2730 * (1000 - z)) / 1000)) / 1000
}

/// Four-quadrant arctangent (unit-free arguments, angle scale out),
/// zero when both arguments are zero.
pub open spec fn atan2_s(y: int, x: int) -> int {
    let ax = iabs(x);
    let ay = iabs(y);
    if ax == 0 && ay == 0 {
        0
    } else {
        let t = if ay <= ax {
            atan_unit((ay * 1000) / ax)
        } else {
            15708 - atan_unit((ax * 1000) / ay)
        };
        let q = if x >= 0 {
            t
        } else {
            31416 - t
        };
        if y >= 0 {
            q
        } else {
            -q
        }
    }
}

fn atan_unit_fp(z: i64) -> (r: i64)
    requires
        0 <= z <= 1000,
    ensures
        r == atan_unit(z as int),
        0 <= r <= 10584,
{
    let inner: u64 = 7854 + (2730 * ((1000 - z) as u64)) / 1000;
    proof {
        lemma_mul_upper_bound(z as int, 1000, inner as int, 10584);
    }
    let quo: u64 = ((z as u64) * inner) / 1000;
    proof {
        lemma_mul_inequality(z as int, 1000, inner as int);
        lemma_div_is_ordered((z as int) * (inner as int), 1000 * (inner as int), 1000);
        lemma_div_multiples_vanish(inner as int, 1000);
        assert(1000 * (inner as int) == (inner as int) * 1000);
        lemma_mul_nonnegative(z as int, inner as int);
        lemma_div_pos_is_pos((z as int) * (inner as int), 1000);
    }
    quo as i64
}

pub fn atan2_fp(y: i64, x: i64) -> (r: i64)
    requires
        -2000000000000 <= x <= 2000000000000,
        -2000000000000 <= y <= 2000000000000,
    ensures
        r == atan2_s(y as int, x as int),
        -31416 <= r <= 31416,
{
    let ax: i64 = if x >= 0 {
        x
    } else {
        -x
    };
    let ay: i64 = if y >= 0 {
        y
    } else {
        -y
    };
    if ax == 0 && ay == 0 {
        return 0;
    }
    let t: i64 = if ay <= ax {
        let zn: u64 = (ay as u64) * 1000;
        let z: u64 = zn / (ax as u64);
        proof {
            lemma_div_is_ordered(zn as int, (ax as int) * 1000, ax as int);
            lemma_div_multiples_vanish(1000, ax as int);
            lemma_div_pos_is_pos(zn as int, ax as int);
        }
        atan_unit_fp(z as i64)
    } else {
        let zn: u64 = (ax as u64) * 1000;
        let z: u64 = zn / (ay as u64);
        proof {
            lemma_div_is_ordered(zn as int, (ay as int) * 1000, ay as int);
            lemma_div_multiples_vanish(1000, ay as int);
            lemma_div_pos_is_pos(zn as int, ay as int);
        }
        let u: i64 = atan_unit_fp(z as i64);
        15708 - u
    };
    let q: i64 = if x >= 0 {
        t
    } else {
        31416 - t
    };
    if y >= 0 {
        q
    } else {
        -q
    }
}

} // verus!
