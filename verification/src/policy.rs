//! Per-agent-kind control policies. Fish flocking reads a consistent
//! snapshot of all fish taken after physics and before any policy has
//! mutated the store, so the update is independent of iteration order.

use vstd::prelude::*;
use crate::fixed::{
    atan2_fp, atan2_s, cos_fp, cos_s, fmod64, iabs, mul_div, sin_fp, sin_s, tdiv,
    lemma_tdiv_bound, TAU_A,
};
use crate::fixed::{clip, clip64, isqrt64, sqrt_floor};
use crate::physics::{gent, GEnt};
use crate::store::{
    underwater_s, Agent, Inputs, Ori, Pos, Rot, Vel, World, POS_LIMIT, ROT_LIMIT, VEL_LIMIT,
};
use crate::vec2::clip_v;
use crate::attr::{apply_op, Attr, AttrOp, GAttr, TICKS_LIMIT};
use crate::physics::gent_at;
use crate::rng::rand_between;
use crate::vec2::{
    lerp_s, lerp_v, mag, mag_s, mag_sq_s, minus, minus_s, norm_or, norm_s, plus, plus_s, scale_s,
    scale_v, Gv, V2,
};
use vstd::seq_lib::group_to_multiset_ensures;

verus! {

/// One fish as the flocking algorithm sees it: a position and a velocity
/// frozen at snapshot time.
#[derive(Clone, Copy, PartialEq, Eq, Structural, Debug)]
pub struct FishRef {
    pub pos: V2,
    pub vel: V2,
}

/// The positions and velocities of the first `n` entities that are fish,
/// in entity order.
pub open spec fn fish_snapshot_s(w: World, n: int) -> Seq<FishRef>
    decreases n,
{
    if n <= 0 {
        Seq::<FishRef>::empty()
    } else {
        let pre = fish_snapshot_s(w, n - 1);
        if w.agent@[n - 1] == Some(Agent::Fish) {
            pre.push(FishRef { pos: w.pos@[n - 1].0, vel: w.vel@[n - 1].0 })
        } else {
            pre
        }
    }
}

pub open spec fn snap_bounded(s: Seq<FishRef>) -> bool {
    forall|k: int|
        0 <= k < s.len() ==> (#[trigger] s[k]).pos.bounded(POS_LIMIT as int) && s[k].vel.bounded(
            VEL_LIMIT as int,
        )
}

/// Sort key: squared distance from the querying fish.
pub open spec fn key_s(origin: Gv, f: FishRef) -> int {
    mag_sq_s(minus_s(f.pos.gv(), origin))
}

pub open spec fn sorted_by_key(origin: Gv, s: Seq<FishRef>) -> bool {
    forall|a: int, b: int|
        0 <= a <= b < s.len() ==> key_s(origin, #[trigger] s[a]) <= key_s(origin, #[trigger] s[b])
}

/// Captures a snapshot of every fish in the store.
pub fn fish_snapshot(w: &World) -> (snap: Vec<FishRef>)
    requires
        w.wf(),
    ensures
        snap@ == fish_snapshot_s(*w, w.n()),
        snap_bounded(snap@),
{
    let n: usize = w.pos.len();
    let mut snap: Vec<FishRef> = Vec::new();
    let mut i: usize = 0;
    while i < n
        invariant
            i <= n,
            n == w.n(),
            w.wf(),
            snap@ == fish_snapshot_s(*w, i as int),
            snap_bounded(snap@),
        decreases n - i,
    {
        proof {
            assert(w.entity_ok(i as int));
        }
        let a: Option<Agent> = w.agent[i];
        if let Some(Agent::Fish) = a {
            snap.push(FishRef { pos: w.pos[i].0, vel: w.vel[i].0 });
        }
        i = i + 1;
    }
    snap
}

fn key_of(origin: V2, f: FishRef) -> (r: i64)
    requires
        origin.bounded(POS_LIMIT as int),
        f.pos.bounded(POS_LIMIT as int),
    ensures
        r == key_s(origin.gv(), f),
        r >= 0,
{
    crate::vec2::dist_sq(origin, f.pos)
}

/// Sorts the snapshot by squared distance to `origin`, ascending; the
/// result is a permutation of the input.
pub fn sort_by_dist(snap: &mut Vec<FishRef>, origin: V2)
    requires
        snap_bounded(old(snap)@),
        origin.bounded(POS_LIMIT as int),
    ensures
        final(snap)@.to_multiset() == old(snap)@.to_multiset(),
        final(snap)@.len() == old(snap)@.len(),
        sorted_by_key(origin.gv(), final(snap)@),
        snap_bounded(final(snap)@),
{
    let n: usize = snap.len();
    let ghost s0 = snap@;
    proof {
        broadcast use group_to_multiset_ensures;
        broadcast use vstd::multiset::group_multiset_axioms;

    }
    let mut i: usize = 1;
    while i < n
        invariant
            1 <= i <= n || (n == 0 && i == 1),
            n == snap@.len(),
            snap@.to_multiset() == s0.to_multiset(),
            s0.len() == n,
            snap_bounded(snap@),
            origin.bounded(POS_LIMIT as int),
            forall|a: int, b: int|
                0 <= a <= b < i ==> key_s(origin.gv(), #[trigger] snap@[a]) <= key_s(
                    origin.gv(),
                    #[trigger] snap@[b],
                ),
        decreases n - i,
    {
        let mut j: usize = i;
        while j > 0 && key_of(origin, snap[j - 1]) > key_of(origin, snap[j])
            invariant
                0 <= j <= i < n,
                n == snap@.len(),
                snap@.to_multiset() == s0.to_multiset(),
                snap_bounded(snap@),
                origin.bounded(POS_LIMIT as int),
                forall|a: int, b: int|
                    0 <= a <= b <= i && b != j ==> key_s(origin.gv(), #[trigger] snap@[a])
                        <= key_s(origin.gv(), #[trigger] snap@[b]),
            decreases j,
        {
            let prev: FishRef = snap[j - 1];
            let here: FishRef = snap[j];
            let ghost spre = snap@;
            snap.set(j - 1, here);
            snap.set(j, prev);
            proof {
                broadcast use vstd::multiset::group_multiset_axioms;
                broadcast use group_to_multiset_ensures;

                let s1 = spre.update(j - 1, here);
                vstd::seq_lib::to_multiset_update(spre, j - 1, here);
                vstd::seq_lib::to_multiset_update(s1, j as int, prev);
                assert(s1[j as int] == here);
                assert(spre[j - 1] == prev);
                assert(spre.contains(prev));
                assert(spre.to_multiset().count(prev) > 0);
                assert(snap@ =~= s1.update(j as int, prev));
                assert(snap@.to_multiset() =~= spre.to_multiset());
            }
            j = j - 1;
        }
        i = i + 1;
    }
}

/// Sum of the velocities of a snapshot prefix.
pub open spec fn sum_vel_s(s: Seq<FishRef>) -> Gv
    decreases s.len(),
{
    if s.len() == 0 {
        Gv { x: 0, y: 0 }
    } else {
        plus_s(sum_vel_s(s.drop_last()), s.last().vel.gv())
    }
}

/// Sum of the positions of a snapshot prefix.
pub open spec fn sum_pos_s(s: Seq<FishRef>) -> Gv
    decreases s.len(),
{
    if s.len() == 0 {
        Gv { x: 0, y: 0 }
    } else {
        plus_s(sum_pos_s(s.drop_last()), s.last().pos.gv())
    }
}

/// The separation push away from one neighbour: along the direction from
/// the neighbour to the fish, stronger the closer it is, and zero from
/// 100 world units away.
pub open spec fn shy_term_s(self_pos: Gv, p: Gv) -> Gv {
    let d = minus_s(self_pos, p);
    let m = mag_s(d);
    let scal = if m >= 100000 {
        0int
    } else {
        100000 - m
    };
    let nv = norm_s(d, Gv { x: 0, y: 0 });
    Gv { x: tdiv(nv.x * scal, 1000), y: tdiv(nv.y * scal, 1000) }
}

/// Total separation push from a snapshot prefix.
pub open spec fn shy_sum_s(self_pos: Gv, s: Seq<FishRef>) -> Gv
    decreases s.len(),
{
    if s.len() == 0 {
        Gv { x: 0, y: 0 }
    } else {
        plus_s(shy_sum_s(self_pos, s.drop_last()), shy_term_s(self_pos, s.last().pos.gv()))
    }
}

/// Beyond 100 world units the separation term vanishes.
pub proof fn lemma_shy_vanishes(self_pos: Gv, p: Gv)
    requires
        mag_sq_s(minus_s(self_pos, p)) >= 10000000000,
    ensures
        shy_term_s(self_pos, p) == (Gv { x: 0, y: 0 }),
{
    let d = minus_s(self_pos, p);
    crate::vec2::lemma_mag_props(d);
    let m = mag_s(d);
    if m < 100000 {
        assert((m + 1) * (m + 1) <= 100000 * 100000) by (nonlinear_arith)
            requires
                0 <= m + 1 <= 100000,
        ;
        assert(false);
    }
    assert(tdiv(norm_s(d, Gv { x: 0, y: 0 }).x * 0, 1000) == 0);
    assert(tdiv(norm_s(d, Gv { x: 0, y: 0 }).y * 0, 1000) == 0);
}

/// The blended desired direction of one fish, from the sorted snapshot:
/// cohesion toward the average of the three nearest, alignment with their
/// average velocity, separation from close neighbours, per-axis jitter, a
/// pull toward the home depth band, and a 10% turn from the current facing.
#[verifier::opaque]
pub open spec fn fish_dir_s(sorted: Seq<FishRef>, self_pos: Gv, ori: int, jx: int, jy: int) -> Gv {
    let t3 = sorted.take(
        if sorted.len() < 3 {
            sorted.len() as int
        } else {
            3
        },
    );
    let cnt = t3.len() as int;
    if cnt == 0 {
        Gv { x: 0, y: 0 }
    } else {
        let av = Gv { x: tdiv(sum_vel_s(t3).x * 1, cnt), y: tdiv(sum_vel_s(t3).y * 1, cnt) };
        let ap = Gv { x: tdiv(sum_pos_s(t3).x * 1, cnt), y: tdiv(sum_pos_s(t3).y * 1, cnt) };
        let shy = shy_sum_s(self_pos, t3);
        let dir0 = plus_s(
            lerp_s(norm_s(minus_s(ap, self_pos), Gv { x: 0, y: 0 }), av, 750),
            scale_s(shy, 150, 1000),
        );
        let dir1 = Gv {
            x: dir0.x + jx - tdiv(self_pos.x * 3, 10000),
            y: dir0.y + jy - tdiv((self_pos.y - 650000) * 135, 100000),
        };
        let dir2 = norm_s(dir1, Gv { x: 0, y: 0 });
        norm_s(lerp_s(Gv { x: cos_s(ori), y: sin_s(ori) }, dir2, 100), Gv { x: 0, y: 0 })
    }
}

/// The new facing angle of the fish: the angle of its desired direction,
/// wrapped into one turn.
pub open spec fn fish_ori_s(sorted: Seq<FishRef>, self_pos: Gv, ori: int, jx: int, jy: int) -> int {
    let d = fish_dir_s(sorted, self_pos, ori, jx, jy);
    atan2_s(d.y, d.x) % (TAU_A as int)
}

/// Computes the fish's new facing from the distance-sorted snapshot and the
/// two jitter draws. Deterministic: equal arguments give equal results.
#[verifier::rlimit(80)]
pub fn fish_steer(sorted: &Vec<FishRef>, self_pos: V2, ori: i64, jx: i64, jy: i64) -> (r: i64)
    requires
        snap_bounded(sorted@),
        self_pos.bounded(POS_LIMIT as int),
        -50 <= jx <= 50,
        -50 <= jy <= 50,
        0 <= ori < TAU_A,
    ensures
        r == fish_ori_s(sorted@, self_pos.gv(), ori as int, jx as int, jy as int),
        0 <= r < TAU_A,
{
    proof {
        reveal(fish_dir_s);
    }
    let k: usize = if sorted.len() < 3 {
        sorted.len()
    } else {
        3
    };
    let ghost t3 = sorted@.take(k as int);
    let mut sv: V2 = V2::zero();
    let mut sp: V2 = V2::zero();
    let mut sh: V2 = V2::zero();
    let mut idx: usize = 0;
    while idx < k
        invariant
            0 <= idx <= k,
            k <= sorted@.len(),
            k <= 3,
            t3 == sorted@.take(k as int),
            snap_bounded(sorted@),
            self_pos.bounded(POS_LIMIT as int),
            sv.gv() == sum_vel_s(sorted@.take(idx as int)),
            sp.gv() == sum_pos_s(sorted@.take(idx as int)),
            sh.gv() == shy_sum_s(self_pos.gv(), sorted@.take(idx as int)),
            sv.bounded(1000000 * (idx as int)),
            sp.bounded(100000000 * (idx as int)),
            sh.bounded(100000 * (idx as int)),
        decreases k - idx,
    {
        let f: FishRef = sorted[idx];
        proof {
            assert(sorted@.take(idx as int + 1).drop_last() =~= sorted@.take(idx as int));
            assert(sorted@.take(idx as int + 1).last() == sorted@[idx as int]);
        }
        let sv2: V2 = plus(sv, f.vel);
        let sp2: V2 = plus(sp, f.pos);
        let d: V2 = minus(self_pos, f.pos);
        let m: i64 = mag(d);
        let scal: i64 = if m >= 100000 {
            0
        } else {
            100000 - m
        };
        let nv: V2 = norm_or(d, V2::zero());
        proof {
            crate::vec2::lemma_norm_bounded(d.gv(), Gv { x: 0, y: 0 }, 1000);
            assert(-100000000 <= nv.x * scal <= 100000000 && -100000000 <= nv.y * scal
                <= 100000000) by (nonlinear_arith)
                requires
                    -1000 <= nv.x <= 1000,
                    -1000 <= nv.y <= 1000,
                    0 <= scal <= 100000,
            ;
        }
        let tx: i64 = mul_div(nv.x, scal, 1000);
        let ty: i64 = mul_div(nv.y, scal, 1000);
        proof {
            lemma_tdiv_bound(nv.x * scal, 1000, 100000000);
            lemma_tdiv_bound(nv.y * scal, 1000, 100000000);
        }
        let sh2: V2 = plus(sh, V2 { x: tx, y: ty });
        sv = sv2;
        sp = sp2;
        sh = sh2;
        idx = idx + 1;
    }
    if k == 0 {
        proof {
            assert(fish_dir_s(sorted@, self_pos.gv(), ori as int, jx as int, jy as int) == (Gv {
                x: 0,
                y: 0,
            }));
            assert(atan2_s(0, 0) == 0);
        }
        return 0;
    }
    let cnt: i64 = k as i64;
    let av: V2 = V2 { x: mul_div(sv.x, 1, cnt), y: mul_div(sv.y, 1, cnt) };
    let ap: V2 = V2 { x: mul_div(sp.x, 1, cnt), y: mul_div(sp.y, 1, cnt) };
    proof {
        lemma_tdiv_bound(sv.x * 1, cnt as int, 3000000);
        lemma_tdiv_bound(sv.y * 1, cnt as int, 3000000);
        lemma_tdiv_bound(sp.x * 1, cnt as int, 300000000);
        lemma_tdiv_bound(sp.y * 1, cnt as int, 300000000);
    }
    let na: V2 = norm_or(minus(ap, self_pos), V2::zero());
    proof {
        crate::vec2::lemma_norm_bounded(
            minus_s(ap.gv(), self_pos.gv()),
            Gv { x: 0, y: 0 },
            1000,
        );
    }
    let l0: V2 = lerp_v(na, av, 750);
    let shs: V2 = scale_v(sh, 150, 1000);
    proof {
        lemma_tdiv_bound(sh.x * 150, 1000, 45000000);
        lemma_tdiv_bound(sh.y * 150, 1000, 45000000);
    }
    let dir0: V2 = plus(l0, shs);
    let hx: i64 = mul_div(self_pos.x, 3, 10000);
    let hy: i64 = mul_div(self_pos.y - 650000, 135, 100000);
    proof {
        lemma_tdiv_bound(self_pos.x * 3, 10000, 300000000);
        lemma_tdiv_bound((self_pos.y - 650000) * 135, 100000, 13600000000);
    }
    let dir1: V2 = V2 { x: dir0.x + jx - hx, y: dir0.y + jy - hy };
    let dir2: V2 = norm_or(dir1, V2::zero());
    proof {
        crate::vec2::lemma_norm_bounded(dir1.gv(), Gv { x: 0, y: 0 }, 1000);
    }
    let fx: i64 = cos_fp(ori);
    let fy: i64 = sin_fp(ori);
    let l1: V2 = lerp_v(V2 { x: fx, y: fy }, dir2, 100);
    let dir3: V2 = norm_or(l1, V2::zero());
    proof {
        crate::vec2::lemma_norm_bounded(l1.gv(), Gv { x: 0, y: 0 }, 1000);
    }
    let a: i64 = atan2_fp(dir3.y, dir3.x);
    fmod64(a, TAU_A)
}

/// The player's new spin: steering input turns much faster underwater than
/// in air, saturating at the spin bound.
pub open spec fn player_rot_s(rot: int, uw: bool, left: bool, right: bool) -> int {
    let t = if uw {
        65int
    } else {
        10int
    };
    let r1 = if left {
        rot - t
    } else {
        rot
    };
    let r2 = if right {
        r1 + t
    } else {
        r1
    };
    clip(r2, -(ROT_LIMIT as int), ROT_LIMIT as int)
}

/// The player's new velocity: boosting underwater multiplies it, saturating
/// at the velocity bound.
pub open spec fn player_vel_s(v: Gv, uw: bool, boost: bool) -> Gv {
    if uw && boost {
        clip_v(scale_s(v, 1025, 1000), VEL_LIMIT as int)
    } else {
        v
    }
}

/// Swimming thrust: forward push along the facing direction, saturating at
/// the velocity bound.
pub open spec fn thrust_vel_s(v: Gv, ori: int) -> Gv {
    clip_v(
        plus_s(v, Gv { x: tdiv(cos_s(ori) * 300, 1000), y: tdiv(sin_s(ori) * 300, 1000) }),
        VEL_LIMIT as int,
    )
}

/// The swimming wobble: a spin perturbation proportional to the square root
/// of the speed, oscillating with time.
pub open spec fn wobble_s(v: Gv, t: int) -> int {
    tdiv(sin_s(tdiv(t * 100000, 60)) * sqrt_floor(mag_s(v) * 1000), 100000)
}

pub open spec fn thrust_rot_s(v_new: Gv, rot: int, t: int) -> int {
    clip(rot + wobble_s(v_new, t), -(ROT_LIMIT as int), ROT_LIMIT as int)
}

/// A bubble's velocity: gentle horizontal drift by time and position, and a
/// constant rise.
pub open spec fn bubble_vel_s(px: int, t: int) -> Gv {
    Gv { x: sin_s(tdiv(t * 10000, 60) + tdiv(px, 10)), y: -1000 }
}

/// A carried pickup's facing: toward the player, with a straight-down
/// fallback when they coincide.
pub open spec fn collect_ori_s(pos: Gv, player: Gv) -> int {
    let nv = norm_s(minus_s(player, pos), Gv { x: 0, y: 1000 });
    atan2_s(nv.y, nv.x) % (TAU_A as int)
}

/// A carried pickup's velocity: reeled in faster underwater, slowed in air.
pub open spec fn collect_vel_s(v: Gv, uw: bool) -> Gv {
    clip_v(
        scale_s(
            v,
            if uw {
                102int
            } else {
                98int
            },
            100,
        ),
        VEL_LIMIT as int,
    )
}

/// The player's whole control step: steering and boost, then swimming
/// thrust when underwater.
#[verifier::opaque]
pub open spec fn player_step_s(e: GEnt, inputs: Inputs, t: int) -> GEnt {
    let uw = underwater_s(e.py);
    let v1 = player_vel_s(Gv { x: e.vx, y: e.vy }, uw, inputs.boost);
    let r1 = player_rot_s(e.rot, uw, inputs.left, inputs.right);
    if uw {
        let v2 = thrust_vel_s(v1, e.ori);
        GEnt { vx: v2.x, vy: v2.y, rot: thrust_rot_s(v2, r1, t), ..e }
    } else {
        GEnt { vx: v1.x, vy: v1.y, rot: r1, ..e }
    }
}

/// A fish's whole control step: flocking sets the facing, then swimming
/// thrust when underwater.
#[verifier::opaque]
pub open spec fn fish_step_s(e: GEnt, sorted: Seq<FishRef>, jx: int, jy: int, t: int) -> GEnt {
    let o1 = fish_ori_s(sorted, Gv { x: e.px, y: e.py }, e.ori, jx, jy);
    if underwater_s(e.py) {
        let v2 = thrust_vel_s(Gv { x: e.vx, y: e.vy }, o1);
        GEnt { ori: o1, vx: v2.x, vy: v2.y, rot: thrust_rot_s(v2, e.rot, t), ..e }
    } else {
        GEnt { ori: o1, ..e }
    }
}

/// A bubble's whole control step; bubbles get no swimming thrust.
#[verifier::opaque]
pub open spec fn bubble_step_s(e: GEnt, t: int) -> GEnt {
    let v = bubble_vel_s(e.px, t);
    GEnt { vx: v.x, vy: v.y, ..e }
}

/// A collectable's whole control step: homing toward the player while
/// carried, stationary otherwise, then swimming thrust when underwater.
#[verifier::opaque]
pub open spec fn collect_step_s(e: GEnt, collected: bool, player: Gv, t: int) -> GEnt {
    let uw = underwater_s(e.py);
    if collected {
        let o1 = collect_ori_s(Gv { x: e.px, y: e.py }, player);
        let v1 = collect_vel_s(Gv { x: e.vx, y: e.vy }, uw);
        if uw {
            let v2 = thrust_vel_s(v1, o1);
            GEnt { ori: o1, vx: v2.x, vy: v2.y, rot: thrust_rot_s(v2, e.rot, t), ..e }
        } else {
            GEnt { ori: o1, vx: v1.x, vy: v1.y, ..e }
        }
    } else {
        if uw {
            let v2 = thrust_vel_s(Gv { x: 0, y: 0 }, e.ori);
            GEnt { vx: v2.x, vy: v2.y, rot: thrust_rot_s(v2, e.rot, t), ..e }
        } else {
            GEnt { vx: 0, vy: 0, ..e }
        }
    }
}

/// Swimming thrust and wobble on a velocity and spin, from the (possibly
/// just updated) facing.
fn thrust_exec(v: V2, ori: i64, rot: i64, ticks: u64) -> (res: (V2, i64))
    requires
        v.bounded(VEL_LIMIT as int),
        iabs(rot as int) <= ROT_LIMIT as int,
        0 <= ori < TAU_A,
        ticks <= crate::attr::TICKS_LIMIT,
    ensures
        res.0.gv() == thrust_vel_s(v.gv(), ori as int),
        res.1 as int == thrust_rot_s(thrust_vel_s(v.gv(), ori as int), rot as int, ticks as int),
        res.0.bounded(VEL_LIMIT as int),
        iabs(res.1 as int) <= ROT_LIMIT as int,
{
    let fx: i64 = cos_fp(ori);
    let fy: i64 = sin_fp(ori);
    let tx: i64 = mul_div(fx, 300, 1000);
    let ty: i64 = mul_div(fy, 300, 1000);
    proof {
        lemma_tdiv_bound(fx * 300, 1000, 300000);
        lemma_tdiv_bound(fy * 300, 1000, 300000);
    }
    let vx: i64 = clip64(v.x + tx, -VEL_LIMIT, VEL_LIMIT);
    let vy: i64 = clip64(v.y + ty, -VEL_LIMIT, VEL_LIMIT);
    let v2: V2 = V2 { x: vx, y: vy };
    let ang: i64 = ((ticks * 100000) / 60) as i64;
    let ws: i64 = sin_fp(ang);
    let m: i64 = mag(v2);
    proof {
        crate::vec2::lemma_mag_props(v2.gv());
        assert((v2.x as int) * (v2.x as int) + (v2.y as int) * (v2.y as int)
            <= 2000000000000) by (nonlinear_arith)
            requires
                -1000000 <= v2.x <= 1000000,
                -1000000 <= v2.y <= 1000000,
        ;
        if m > 1414214 {
            assert((m as int) * (m as int) > 2000000000000) by (nonlinear_arith)
                requires
                    m as int >= 1414215,
            ;
            assert(false);
        }
    }
    let root: u64 = isqrt64((m * 1000) as u64);
    proof {
        if root > 40000 {
            assert((root as int) * (root as int) > 1600000000) by (nonlinear_arith)
                requires
                    root as int >= 40001,
            ;
            assert(false);
        }
        assert(-40000000 <= ws * (root as i64) <= 40000000) by (nonlinear_arith)
            requires
                -1000 <= ws <= 1000,
                0 <= root as i64 <= 40000,
        ;
    }
    let wob: i64 = mul_div(ws, root as i64, 100000);
    proof {
        lemma_tdiv_bound(ws * (root as i64), 100000, 40000000);
    }
    let r2: i64 = clip64(rot + wob, -ROT_LIMIT, ROT_LIMIT);
    (v2, r2)
}

/// The player's policy: steering, boost, and thrust. The boolean says
/// whether the boost stamina cost falls due this tick.
pub fn player_step(p: Pos, v: Vel, o: Ori, rt: Rot, inputs: Inputs, ticks: u64) -> (res: (
    Vel,
    Rot,
    bool,
))
    requires
        crate::physics::gbounded(gent(p, v, o, rt)),
        ticks <= crate::attr::TICKS_LIMIT,
    ensures
        gent(p, res.0, o, res.1) == player_step_s(gent(p, v, o, rt), inputs, ticks as int),
        crate::physics::gbounded(gent(p, res.0, o, res.1)),
        res.2 == (underwater_s(p.0.y as int) && inputs.boost),
{
    proof {
        reveal(player_step_s);
    }
    let uw: bool = p.0.y > 0;
    let t: i64 = if uw {
        65
    } else {
        10
    };
    let mut r1: i64 = rt.0;
    if inputs.left {
        r1 = r1 - t;
    }
    if inputs.right {
        r1 = r1 + t;
    }
    let r2: i64 = clip64(r1, -ROT_LIMIT, ROT_LIMIT);
    let v1: V2 = if uw && inputs.boost {
        let sc: V2 = scale_v(v.0, 1025, 1000);
        proof {
            lemma_tdiv_bound(v.0.x * 1025, 1000, 1025000000);
            lemma_tdiv_bound(v.0.y * 1025, 1000, 1025000000);
        }
        V2 { x: clip64(sc.x, -VEL_LIMIT, VEL_LIMIT), y: clip64(sc.y, -VEL_LIMIT, VEL_LIMIT) }
    } else {
        v.0
    };
    if uw {
        let tr: (V2, i64) = thrust_exec(v1, o.0, r2, ticks);
        (Vel(tr.0), Rot(tr.1), inputs.boost)
    } else {
        (Vel(v1), Rot(r2), false)
    }
}

/// One fish's policy: flocking from the sorted snapshot, then thrust.
pub fn fish_step(sorted: &Vec<FishRef>, p: Pos, v: Vel, o: Ori, rt: Rot, jx: i64, jy: i64, ticks: u64) -> (res: (
    Vel,
    Ori,
    Rot,
))
    requires
        crate::physics::gbounded(gent(p, v, o, rt)),
        snap_bounded(sorted@),
        -50 <= jx <= 50,
        -50 <= jy <= 50,
        ticks <= crate::attr::TICKS_LIMIT,
    ensures
        gent(p, res.0, res.1, res.2) == fish_step_s(
            gent(p, v, o, rt),
            sorted@,
            jx as int,
            jy as int,
            ticks as int,
        ),
        crate::physics::gbounded(gent(p, res.0, res.1, res.2)),
{
    proof {
        reveal(fish_step_s);
    }
    let o1: i64 = fish_steer(sorted, p.0, o.0, jx, jy);
    let uw: bool = p.0.y > 0;
    if uw {
        let tr: (V2, i64) = thrust_exec(v.0, o1, rt.0, ticks);
        (Vel(tr.0), Ori(o1), Rot(tr.1))
    } else {
        (v, Ori(o1), rt)
    }
}

/// A bubble's policy: drift and rise; flags the bubble for respawn when it
/// breaks the surface.
pub fn bubble_step(p: Pos, v: Vel, o: Ori, rt: Rot, ticks: u64) -> (res: (Vel, bool))
    requires
        crate::physics::gbounded(gent(p, v, o, rt)),
        ticks <= crate::attr::TICKS_LIMIT,
    ensures
        gent(p, res.0, o, rt) == bubble_step_s(gent(p, v, o, rt), ticks as int),
        crate::physics::gbounded(gent(p, res.0, o, rt)),
        res.1 == !underwater_s(p.0.y as int),
{
    proof {
        reveal(bubble_step_s);
    }
    let a1: i64 = ((ticks * 10000) / 60) as i64;
    let a2: i64 = mul_div(p.0.x, 1, 10);
    proof {
        lemma_tdiv_bound(p.0.x * 1, 10, POS_LIMIT as int);
    }
    let vx: i64 = sin_fp(a1 + a2);
    (Vel(V2 { x: vx, y: -1000 }), !(p.0.y > 0))
}

/// A collectable's policy: home toward the player while carried, hold still
/// otherwise, then thrust.
pub fn collect_step(p: Pos, v: Vel, o: Ori, rt: Rot, collected: bool, player: V2, ticks: u64) -> (res: (
    Vel,
    Ori,
    Rot,
))
    requires
        crate::physics::gbounded(gent(p, v, o, rt)),
        player.bounded(POS_LIMIT as int),
        ticks <= crate::attr::TICKS_LIMIT,
    ensures
        gent(p, res.0, res.1, res.2) == collect_step_s(
            gent(p, v, o, rt),
            collected,
            player.gv(),
            ticks as int,
        ),
        crate::physics::gbounded(gent(p, res.0, res.1, res.2)),
{
    proof {
        reveal(collect_step_s);
    }
    let uw: bool = p.0.y > 0;
    if collected {
        let d: V2 = minus(player, p.0);
        let nv: V2 = norm_or(d, V2 { x: 0, y: 1000 });
        proof {
            crate::vec2::lemma_norm_bounded(d.gv(), Gv { x: 0, y: 1000 }, 1000);
        }
        let o1: i64 = fmod64(atan2_fp(nv.y, nv.x), TAU_A);
        let num: i64 = if uw {
            102
        } else {
            98
        };
        let sc: V2 = scale_v(v.0, num, 100);
        proof {
            lemma_tdiv_bound(v.0.x * num, 100, 102000000);
            lemma_tdiv_bound(v.0.y * num, 100, 102000000);
        }
        let v1: V2 = V2 {
            x: clip64(sc.x, -VEL_LIMIT, VEL_LIMIT),
            y: clip64(sc.y, -VEL_LIMIT, VEL_LIMIT),
        };
        if uw {
            let tr: (V2, i64) = thrust_exec(v1, o1, rt.0, ticks);
            (Vel(tr.0), Ori(o1), Rot(tr.1))
        } else {
            (Vel(v1), Ori(o1), rt)
        }
    } else {
        if uw {
            let tr: (V2, i64) = thrust_exec(V2 { x: 0, y: 0 }, o.0, rt.0, ticks);
            (Vel(tr.0), o, Rot(tr.1))
        } else {
            (Vel(V2 { x: 0, y: 0 }), o, rt)
        }
    }
}

/// What the control phase does to the attribute state: the boost cost when
/// the player boosts underwater, then the continuous score reward.
pub open spec fn control_attr_s(a: GAttr, uw: bool, boost: bool) -> GAttr {
    let a1 = if uw && boost {
        apply_op(a, AttrOp::BoostCost)
    } else {
        a
    };
    apply_op(a1, AttrOp::Score(!uw))
}

/// How the control phase relates entity `i` of the old store to the new
/// one: each agent kind follows its policy; entities without an agent are
/// untouched; only bubbles breaking the surface gain a respawn flag. A
/// fish's update is its policy on some distance-sorted permutation of the
/// snapshot and some jitter pair.
pub open spec fn control_entity_rel(
    w0: World,
    w1: World,
    inputs: Inputs,
    player: int,
    t: int,
    snap: Seq<FishRef>,
    i: int,
) -> bool {
    let e0 = gent_at(w0, i);
    let e1 = gent_at(w1, i);
    match w0.agent@[i] {
        None => e1 == e0 && w1.respawn@[i] == w0.respawn@[i],
        Some(Agent::Player) => e1 == player_step_s(e0, inputs, t) && w1.respawn@[i]
            == w0.respawn@[i],
        Some(Agent::Fish) => (exists|srt: Seq<FishRef>, jx: int, jy: int|
            srt.to_multiset() == snap.to_multiset() && sorted_by_key(Gv { x: e0.px, y: e0.py }, srt)
                && -50 <= jx <= 50 && -50 <= jy <= 50 && e1 == #[trigger] fish_step_s(
                e0,
                srt,
                jx,
                jy,
                t,
            )) && w1.respawn@[i] == w0.respawn@[i],
        Some(Agent::Bubble) => e1 == bubble_step_s(e0, t) && w1.respawn@[i] == (w0.respawn@[i]
            || !underwater_s(e0.py)),
        Some(Agent::Collectable) => e1 == collect_step_s(
            e0,
            w0.collected@[i],
            Gv { x: gent_at(w0, player).px, y: gent_at(w0, player).py },
            t,
        ) && w1.respawn@[i] == w0.respawn@[i],
    }
}

pub open spec fn control_rel(w0: World, w1: World, inputs: Inputs, player: int, t: int) -> bool {
    forall|i: int|
        0 <= i < w0.n() ==> #[trigger] control_entity_rel(
            w0,
            w1,
            inputs,
            player,
            t,
            fish_snapshot_s(w0, w0.n()),
            i,
        )
}

fn clone_snap(s: &Vec<FishRef>) -> (r: Vec<FishRef>)
    ensures
        r@ == s@,
{
    let mut r: Vec<FishRef> = Vec::new();
    let mut i: usize = 0;
    while i < s.len()
        invariant
            i <= s.len(),
            r@ == s@.take(i as int),
        decreases s.len() - i,
    {
        r.push(s[i]);
        proof {
            assert(r@ =~= s@.take(i as int + 1));
        }
        i = i + 1;
    }
    proof {
        assert(r@ =~= s@);
    }
    r
}

/// The control phase: snapshots the fish, then runs each entity's policy
/// from that one consistent snapshot, charges the boost cost and awards the
/// score, and reports the camera focus (the player's position).
#[verifier::rlimit(80)]
pub fn control_step(w: &mut World, at: &mut Attr, inputs: Inputs, ticks: u64, player: usize) -> (focus: V2)
    requires
        old(w).wf(),
        old(at).valid(),
        ticks <= TICKS_LIMIT,
        player < old(w).n(),
        old(w).agent@[player as int] == Some(Agent::Player),
        forall|i: int|
            0 <= i < old(w).n() && i != player as int ==> old(w).agent@[i] != Some(Agent::Player),
    ensures
        final(w).wf(),
        final(w).n() == old(w).n(),
        old(w).same_kinds(*final(w)),
        final(w).pos@ == old(w).pos@,
        final(w).collected@ == old(w).collected@,
        control_rel(*old(w), *final(w), inputs, player as int, ticks as int),
        final(at).ga() == control_attr_s(
            old(at).ga(),
            underwater_s(old(w).pos@[player as int].0.y as int),
            inputs.boost,
        ),
        final(at).valid(),
        old(at).lost ==> final(at).lost,
        focus == old(w).pos@[player as int].0,
{
    let n: usize = w.pos.len();
    let snap: Vec<FishRef> = fish_snapshot(w);
    let ghost w0 = *w;
    let ghost a0 = *at;
    let ghost t = ticks as int;
    let ghost snap0 = fish_snapshot_s(w0, w0.n());
    let mut focus: V2 = V2 { x: 0, y: 0 };
    let mut i: usize = 0;
    while i < n
        invariant
            i <= n,
            n == w0.n(),
            w.n() == n,
            w.len_ok(),
            w0.wf(),
            at.valid(),
            ticks <= TICKS_LIMIT,
            player < n,
            w0.agent@[player as int] == Some(Agent::Player),
            forall|j: int|
                0 <= j < n && j != player as int ==> w0.agent@[j] != Some(Agent::Player),
            t == ticks as int,
            snap@ == snap0,
            snap0 == fish_snapshot_s(w0, w0.n()),
            snap_bounded(snap@),
            w.pos@ == w0.pos@,
            w.agent@ == w0.agent@,
            w.body@ == w0.body@,
            w.item@ == w0.item@,
            w.collected@ == w0.collected@,
            forall|j: int| i <= j < n ==> #[trigger] gent_at(*w, j) == gent_at(w0, j),
            forall|j: int| i <= j < n ==> w.respawn@[j] == w0.respawn@[j],
            forall|j: int|
                0 <= j < i ==> #[trigger] control_entity_rel(
                    w0,
                    *w,
                    inputs,
                    player as int,
                    t,
                    snap0,
                    j,
                ),
            forall|j: int| 0 <= j < n ==> #[trigger] w.entity_ok(j),
            i <= player ==> at.ga() == a0.ga() && at.lost == a0.lost,
            i > player ==> at.ga() == control_attr_s(
                a0.ga(),
                underwater_s(w0.pos@[player as int].0.y as int),
                inputs.boost,
            ) && (a0.lost ==> at.lost),
            i > player ==> focus == w0.pos@[player as int].0,
        decreases n - i,
    {
        let ag: Option<Agent> = w.agent[i];
        let p: Pos = w.pos[i];
        let v: Vel = w.vel[i];
        let o: Ori = w.ori[i];
        let rt: Rot = w.rot[i];
        let ghost wpre = *w;
        let ghost e0 = gent_at(w0, i as int);
        proof {
            assert(w.entity_ok(i as int));
            assert(gent(p, v, o, rt) == gent_at(*w, i as int));
            assert(gent(p, v, o, rt) == e0);
        }
        match ag {
            None => {
                proof {
                    assert(w.entity_ok(i as int));
                }
            },
            Some(Agent::Player) => {
                let res: (Vel, Rot, bool) = player_step(p, v, o, rt, inputs, ticks);
                w.vel.set(i, res.0);
                w.rot.set(i, res.1);
                if res.2 {
                    at.boost_cost();
                }
                at.award_score(!(p.0.y > 0));
                focus = p.0;
                proof {
                    assert(i == player);
                    assert(gent_at(*w, i as int) == gent(p, res.0, o, res.1));
                    assert(gent_at(*w, i as int) == player_step_s(e0, inputs, t));
                    assert(w.entity_ok(i as int));
                }
            },
            Some(Agent::Fish) => {
                let mut srt: Vec<FishRef> = clone_snap(&snap);
                sort_by_dist(&mut srt, p.0);
                let jx: i64 = rand_between(-50, 51);
                let jy: i64 = rand_between(-50, 51);
                let res: (Vel, Ori, Rot) = fish_step(&srt, p, v, o, rt, jx, jy, ticks);
                w.vel.set(i, res.0);
                w.ori.set(i, res.1);
                w.rot.set(i, res.2);
                proof {
                    assert(gent_at(*w, i as int) == gent(p, res.0, res.1, res.2));
                    assert(gent_at(*w, i as int) == fish_step_s(e0, srt@, jx as int, jy as int, t));
                    assert(srt@.to_multiset() == snap0.to_multiset());
                    assert(sorted_by_key(Gv { x: e0.px, y: e0.py }, srt@));
                    assert(w.entity_ok(i as int));
                }
            },
            Some(Agent::Bubble) => {
                let res: (Vel, bool) = bubble_step(p, v, o, rt, ticks);
                w.vel.set(i, res.0);
                if res.1 {
                    w.respawn.set(i, true);
                }
                proof {
                    assert(gent_at(*w, i as int) == gent(p, res.0, o, rt));
                    assert(gent_at(*w, i as int) == bubble_step_s(e0, t));
                    assert(w.entity_ok(i as int));
                }
            },
            Some(Agent::Collectable) => {
                let pl: V2 = w.pos[player].0;
                proof {
                    assert(w.entity_ok(player as int));
                    assert(pl == w0.pos@[player as int].0);
                }
                let col: bool = w.collected[i];
                let res: (Vel, Ori, Rot) = collect_step(p, v, o, rt, col, pl, ticks);
                w.vel.set(i, res.0);
                w.ori.set(i, res.1);
                w.rot.set(i, res.2);
                proof {
                    assert(gent_at(*w, i as int) == gent(p, res.0, res.1, res.2));
                    assert(gent_at(*w, i as int) == collect_step_s(
                        e0,
                        w0.collected@[i as int],
                        Gv { x: gent_at(w0, player as int).px, y: gent_at(w0, player as int).py },
                        t,
                    ));
                    assert(w.entity_ok(i as int));
                }
            },
        }
        proof {
            assert forall|j: int|
                i + 1 <= j < n implies #[trigger] gent_at(*w, j) == gent_at(w0, j) by {
                assert(gent_at(*w, j) == gent_at(wpre, j));
                assert(gent_at(wpre, j) == gent_at(w0, j));
            }
            assert forall|j: int| i + 1 <= j < n implies w.respawn@[j] == w0.respawn@[j] by {
                assert(w.respawn@[j] == wpre.respawn@[j]);
                assert(wpre.respawn@[j] == w0.respawn@[j]);
            }
            assert(control_entity_rel(w0, *w, inputs, player as int, t, snap0, i as int));
            assert forall|j: int|
                0 <= j < i + 1 implies #[trigger] control_entity_rel(
                w0,
                *w,
                inputs,
                player as int,
                t,
                snap0,
                j,
            ) by {
                if j < i as int {
                    assert(control_entity_rel(w0, wpre, inputs, player as int, t, snap0, j));
                    assert(gent_at(*w, j) == gent_at(wpre, j));
                    assert(w.respawn@[j] == wpre.respawn@[j]);
                }
            }
            assert forall|j: int| 0 <= j < n implies #[trigger] w.entity_ok(j) by {
                if j != i as int {
                    assert(gent_at(*w, j) == gent_at(wpre, j));
                    assert(wpre.entity_ok(j));
                }
            }
        }
        i = i + 1;
    }
    proof {
        assert forall|j: int| 0 <= j < w.n() implies #[trigger] w.collected_ok(j) by {
            assert(w0.collected_ok(j));
        }
        assert(w.wf());
    }
    focus
}

} // verus!
