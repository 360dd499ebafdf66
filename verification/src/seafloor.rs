//! The seafloor height field: a precomputed table of elevations sampled at a
//! fixed stride, queried by linear interpolation, with out-of-domain samples
//! defaulting to zero.

use vstd::prelude::*;
use crate::fixed::{
    fdiv64, fmod64, iabs, mul_div, sin_fp, sin_s, tdiv, lemma_tdiv_bound, lemma_tdiv_near,
};
use crate::vec2::{norm_or, norm_s, Gv, V2};
use vstd::arithmetic::div_mod::{
    lemma_div_is_ordered, lemma_div_multiples_vanish, lemma_div_pos_is_pos,
    lemma_fundamental_div_mod, lemma_fundamental_div_mod_converse_div,
    lemma_mod_division_less_than_divisor, lemma_mod_multiples_basic,
};
use vstd::arithmetic::mul::lemma_mul_inequality;

verus! {

/// Horizontal stride between stored samples, in milli-units (10 world units).
pub const STRIDE_FP: i64 = 10000;

/// Number of stored samples.
pub const FLOOR_SAMPLES: i64 = 1000;

/// Horizontal offset of the table: sample 0 sits at -5000 world units.
pub const FLOOR_SHIFT_FP: i64 = 5000000;

pub struct Seafloor {
    heights: Vec<i64>,
}

/// The stored height at index `i`, with out-of-range indices reading as 0.
pub open spec fn height_at(h: Seq<i64>, i: int) -> int {
    if 0 <= i < h.len() {
        h[i] as int
    } else {
        0
    }
}

/// The height of the profile built from two superposed sine waves over a
/// base depth, at sample index `i`.
pub open spec fn floor_height(i: int) -> int {
    1500000 + sin_s((i - 500) * 1000) * 30 + sin_s((i - 500) * 200) * 120
}

/// Interpolated height at horizontal position `x` (milli-units): the blend of
/// the two stored samples around `x`, by the fractional position between them.
pub open spec fn sample_s(h: Seq<i64>, x: int) -> int {
    let xx = x + FLOOR_SHIFT_FP;
    let q = xx / (STRIDE_FP as int);
    let f = xx % (STRIDE_FP as int);
    let a = height_at(h, q);
    let b = height_at(h, q + 1);
    a + tdiv((b - a) * (f / 10), 1000)
}

/// The downhill-normal of the profile at `x`: unit vector from the central
/// difference of two nearby samples, or straight up when it is degenerate.
pub open spec fn normal_s(h: Seq<i64>, x: int) -> Gv {
    let d = sample_s(h, x - 500) - sample_s(h, x + 500);
    if d == 0 {
        Gv { x: 0, y: -1000 }
    } else {
        let iv = if d > 0 {
            1000000int / d
        } else {
            -(1000000int / -d)
        };
        norm_s(Gv { x: 1000, y: iv }, Gv { x: 0, y: -1000 })
    }
}

impl Seafloor {
    pub closed spec fn view(self) -> Seq<i64> {
        self.heights@
    }

    pub open spec fn wf(self) -> bool {
        &&& self@.len() == 1000
        &&& forall|i: int| 0 <= i < self@.len() ==> iabs(#[trigger] self@[i] as int) <= 2000000
    }

    /// Builds the sine-wave profile table.
    pub fn sine() -> (r: Seafloor)
        ensures
            r.wf(),
            r@.len() == 1000,
            forall|i: int| 0 <= i < 1000 ==> #[trigger] r@[i] == floor_height(i),
    {
        let mut hs: Vec<i64> = Vec::new();
        let mut i: usize = 0;
        while i < 1000
            invariant
                hs@.len() == i,
                i <= 1000,
                forall|j: int| 0 <= j < i ==> #[trigger] hs@[j] == floor_height(j),
                forall|j: int| 0 <= j < i ==> iabs(#[trigger] hs@[j] as int) <= 2000000,
            decreases 1000 - i,
        {
            let base: i64 = (i as i64) - 500;
            let s1: i64 = sin_fp(base * 1000);
            let s2: i64 = sin_fp(base * 200);
            let h: i64 = 1500000 + s1 * 30 + s2 * 120;
            hs.push(h);
            i = i + 1;
        }
        Seafloor { heights: hs }
    }

    /// Interpolated height query; never fails, out-of-domain reads default to 0.
    pub fn sample(&self, x: i64) -> (r: i64)
        requires
            self.wf(),
            -1000000000 <= x <= 1000000000,
        ensures
            r == sample_s(self@, x as int),
            iabs(r as int) <= 4000000,
            ({
                let q = (x + FLOOR_SHIFT_FP) as int / (STRIDE_FP as int);
                let a = height_at(self@, q);
                let b = height_at(self@, q + 1);
                (a <= b ==> a <= r <= b) && (b <= a ==> b <= r <= a)
            }),
    {
        let xx: i64 = x + FLOOR_SHIFT_FP;
        let q: i64 = fdiv64(xx, STRIDE_FP);
        let f: i64 = fmod64(xx, STRIDE_FP);
        proof {
            lemma_div_is_ordered(xx as int, 2000000000, 10000);
            lemma_div_is_ordered(-2000000000, xx as int, 10000);
        }
        let a: i64 = if q >= 0 && (q as usize) < self.heights.len() {
            self.heights[q as usize]
        } else {
            0
        };
        let b: i64 = if q >= -1 && q + 1 < 1000 && ((q + 1) as usize) < self.heights.len() {
            self.heights[(q + 1) as usize]
        } else {
            0
        };
        let fm: i64 = fdiv64(f, 10);
        let k: i64 = b - a;
        proof {
            assert(-4000000000 <= k * fm <= 4000000000) by (nonlinear_arith)
                requires
                    -4000000 <= k <= 4000000,
                    0 <= fm < 1000,
            ;
            lemma_tdiv_bound(k * fm, 1000, 4000000000);
            if k >= 0 {
                assert(k * fm <= k * 1000) by (nonlinear_arith)
                    requires
                        0 <= fm < 1000,
                        k >= 0,
                ;
                lemma_tdiv_bound(k * fm, 1000, k * 1000);
                lemma_div_multiples_vanish(k as int, 1000);
                assert((k as int) * 1000 == 1000 * (k as int));
                if k * fm >= 0 {
                    lemma_div_pos_is_pos(k * fm, 1000);
                }
                assert(k * fm >= 0) by (nonlinear_arith)
                    requires
                        k >= 0,
                        fm >= 0,
                ;
            } else {
                assert((-k) * fm <= (-k) * 1000 && (-k) * fm >= 0) by (nonlinear_arith)
                    requires
                        0 <= fm < 1000,
                        k < 0,
                ;
                assert((-k) * fm == -(k * fm)) by (nonlinear_arith);
                lemma_tdiv_bound(k * fm, 1000, (-k) * 1000);
                lemma_div_multiples_vanish(-k as int, 1000);
                assert((-(k as int)) * 1000 == 1000 * (-(k as int)));
                lemma_div_pos_is_pos((-k) * fm, 1000);
            }
        }
        let delta: i64 = mul_div(k, fm, 1000);
        a + delta
    }

    /// Central-difference unit normal, with a straight-up fallback.
    pub fn normal_at(&self, x: i64) -> (r: V2)
        requires
            self.wf(),
            -999999000 <= x <= 999999000,
        ensures
            r.gv() == normal_s(self@, x as int),
    {
        let s1: i64 = self.sample(x - 500);
        let s2: i64 = self.sample(x + 500);
        let d: i64 = s1 - s2;
        if d == 0 {
            V2 { x: 0, y: -1000 }
        } else {
            let iv: i64 = if d > 0 {
                proof {
                    lemma_div_pos_is_pos(1000000, d as int);
                    lemma_div_is_ordered(1000000, 8000000, d as int);
                }
                mul_div(1000000, 1, d)
            } else {
                proof {
                    lemma_div_pos_is_pos(1000000, -d as int);
                    lemma_div_is_ordered(1000000, 8000000, -d as int);
                }
                let m: i64 = mul_div(1000000, 1, -d);
                -m
            };
            norm_or(V2 { x: 1000, y: iv }, V2 { x: 0, y: -1000 })
        }
    }
}

/// At a stored sample point the interpolated height is exactly the stored value.
pub proof fn lemma_sample_at_knot(h: Seq<i64>, i: int)
    requires
        h.len() == 1000,
        0 <= i < 1000,
    ensures
        sample_s(h, i * (STRIDE_FP as int) - (FLOOR_SHIFT_FP as int)) == h[i],
{
    let x = i * (STRIDE_FP as int) - (FLOOR_SHIFT_FP as int);
    let xx = x + FLOOR_SHIFT_FP;
    assert(xx == i * 10000);
    lemma_div_multiples_vanish(i, 10000);
    lemma_mod_multiples_basic(i, 10000);
    assert((10000 * i) / 10000 == i);
    assert((i * 10000) % 10000 == 0);
    assert(xx / 10000 == i);
    assert(xx % 10000 == 0);
    let a = height_at(h, i);
    let b = height_at(h, i + 1);
    assert(a == h[i]);
    assert((b - a) * (0int / 10) == 0);
    assert(tdiv(0, 1000) == 0);
    assert(sample_s(h, x) == a + tdiv((b - a) * ((xx % 10000) / 10), 1000));
}

/// Fixed-point continuity of the height query: within one interpolation
/// cell the sample moves at most in proportion to the horizontal offset
/// and the cell's height difference, up to the interpolation resolution.
pub proof fn lemma_sample_continuous(h: Seq<i64>, x1: int, x2: int)
    requires
        x1 <= x2,
        (x1 + FLOOR_SHIFT_FP as int) / (STRIDE_FP as int) == (x2 + FLOOR_SHIFT_FP as int) / (
        STRIDE_FP as int),
    ensures
        ({
            let q = (x1 + FLOOR_SHIFT_FP as int) / (STRIDE_FP as int);
            let k = iabs(height_at(h, q + 1) - height_at(h, q));
            iabs(sample_s(h, x2) - sample_s(h, x1)) <= (k * ((x2 - x1) / 10 + 1)) / 1000 + 2
        }),
{
    let xx1 = x1 + FLOOR_SHIFT_FP as int;
    let xx2 = x2 + FLOOR_SHIFT_FP as int;
    let q = xx1 / 10000;
    lemma_fundamental_div_mod(xx1, 10000);
    lemma_fundamental_div_mod(xx2, 10000);
    lemma_mod_division_less_than_divisor(xx1, 10000);
    lemma_mod_division_less_than_divisor(xx2, 10000);
    let f1 = xx1 % 10000;
    let f2 = xx2 % 10000;
    assert(f2 - f1 == xx2 - xx1);
    let fr1 = f1 / 10;
    let fr2 = f2 / 10;
    lemma_div_is_ordered(f1, f2, 10);
    lemma_fundamental_div_mod(f1, 10);
    lemma_fundamental_div_mod(f2 - f1, 10);
    lemma_mod_division_less_than_divisor(f1, 10);
    lemma_mod_division_less_than_divisor(f2 - f1, 10);
    let a1 = f1 / 10;
    let b1 = f1 % 10;
    let ad = (f2 - f1) / 10;
    let bd = (f2 - f1) % 10;
    if b1 + bd < 10 {
        assert(f2 == (a1 + ad) * 10 + (b1 + bd)) by (nonlinear_arith)
            requires
                f1 == 10 * a1 + b1,
                f2 - f1 == 10 * ad + bd,
        ;
        lemma_fundamental_div_mod_converse_div(f2, 10, a1 + ad, b1 + bd);
    } else {
        assert(f2 == (a1 + ad + 1) * 10 + (b1 + bd - 10)) by (nonlinear_arith)
            requires
                f1 == 10 * a1 + b1,
                f2 - f1 == 10 * ad + bd,
        ;
        lemma_fundamental_div_mod_converse_div(f2, 10, a1 + ad + 1, b1 + bd - 10);
    }
    let dmax = (x2 - x1) / 10 + 1;
    assert(0 <= fr2 - fr1 <= dmax);
    let ah = height_at(h, q);
    let bh = height_at(h, q + 1);
    let kk = bh - ah;
    let k = iabs(kk);
    assert(sample_s(h, x1) == ah + tdiv(kk * fr1, 1000));
    assert(sample_s(h, x2) == ah + tdiv(kk * fr2, 1000));
    if kk >= 0 {
        assert(kk * fr1 <= kk * fr2 && kk * fr2 - kk * fr1 == kk * (fr2 - fr1)) by (nonlinear_arith)
            requires
                kk >= 0,
                fr1 <= fr2,
        ;
        lemma_tdiv_near(kk * fr1, kk * fr2, 1000);
        lemma_mul_inequality(fr2 - fr1, dmax, kk);
        assert((fr2 - fr1) * kk == kk * (fr2 - fr1) && dmax * kk == k * dmax) by (nonlinear_arith)
            requires
                kk >= 0,
                k == kk,
        ;
        lemma_div_is_ordered(kk * (fr2 - fr1), k * dmax, 1000);
    } else {
        assert(kk * fr2 <= kk * fr1 && kk * fr1 - kk * fr2 == (-kk) * (fr2
            - fr1)) by (nonlinear_arith)
            requires
                kk < 0,
                fr1 <= fr2,
        ;
        lemma_tdiv_near(kk * fr2, kk * fr1, 1000);
        lemma_mul_inequality(fr2 - fr1, dmax, -kk);
        assert((fr2 - fr1) * (-kk) == (-kk) * (fr2 - fr1) && dmax * (-kk) == k
            * dmax) by (nonlinear_arith)
            requires
                kk < 0,
                k == -kk,
        ;
        lemma_div_is_ordered((-kk) * (fr2 - fr1), k * dmax, 1000);
    }
}

} // verus!
