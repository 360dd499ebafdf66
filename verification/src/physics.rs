//! The physics integrator: drag, gravity, position/orientation integration,
//! splash detection at the water surface, and seafloor collision, applied to
//! every entity each tick.

use vstd::prelude::*;
use crate::fixed::{
    clip, clip64, cos_fp, cos_s, fmod64, iabs, mul64, mul_div, sin_fp, sin_s, tdiv,
    lemma_tdiv_bound, TAU_A,
};
use crate::seafloor::{sample_s, Seafloor};
use crate::store::{underwater_s, Event, Ori, Pos, Rot, Vel, World, POS_LIMIT, ROT_LIMIT, VEL_LIMIT};
use crate::vec2::{norm_s, norm_or, Gv, V2};

verus! {

/// The full per-entity motion state, over unbounded integers.
pub ghost struct GEnt {
    pub px: int,
    pub py: int,
    pub vx: int,
    pub vy: int,
    pub ori: int,
    pub rot: int,
}

pub open spec fn gent(p: Pos, v: Vel, o: Ori, rt: Rot) -> GEnt {
    GEnt {
        px: p.0.x as int,
        py: p.0.y as int,
        vx: v.0.x as int,
        vy: v.0.y as int,
        ori: o.0 as int,
        rot: rt.0 as int,
    }
}

pub open spec fn gbounded(e: GEnt) -> bool {
    &&& iabs(e.px) <= POS_LIMIT as int
    &&& iabs(e.py) <= POS_LIMIT as int
    &&& iabs(e.vx) <= VEL_LIMIT as int
    &&& iabs(e.vy) <= VEL_LIMIT as int
    &&& 0 <= e.ori < TAU_A as int
    &&& iabs(e.rot) <= ROT_LIMIT as int
}

/// Drag. Underwater, velocity and spin decay, and velocity decays further
/// the less it is aligned with the facing direction (sideways slip is
/// resisted more than forward motion); the alignment factor saturates at
/// unity. Airborne, only spin decays.
#[verifier::opaque]
pub open spec fn drag_s(e: GEnt) -> GEnt {
    if underwater_s(e.py) {
        let vx1 = tdiv(e.vx * 95, 100);
        let vy1 = tdiv(e.vy * 95, 100);
        let rot1 = tdiv(e.rot * 90, 100);
        let nv = norm_s(Gv { x: vx1, y: vy1 }, Gv { x: 0, y: 0 });
        let d = tdiv(cos_s(e.ori) * nv.x + sin_s(e.ori) * nv.y, 1000);
        let ad = if iabs(d) > 1000 {
            1000int
        } else {
            iabs(d)
        };
        let f = ad + (900 * (1000 - ad)) / 1000;
        GEnt { vx: tdiv(vx1 * f, 1000), vy: tdiv(vy1 * f, 1000), rot: rot1, ..e }
    } else {
        GEnt { rot: tdiv(e.rot * 98, 100), ..e }
    }
}

/// Gravity acts on airborne entities only, saturating at the velocity bound.
pub open spec fn gravity_s(e: GEnt) -> GEnt {
    if underwater_s(e.py) {
        e
    } else {
        GEnt { vy: clip(e.vy + 100, -(VEL_LIMIT as int), VEL_LIMIT as int), ..e }
    }
}

/// Integration: position moves by velocity (saturating at the world bound)
/// and the facing angle turns by the spin, wrapped into one full turn.
pub open spec fn move_s(e: GEnt) -> GEnt {
    GEnt {
        px: clip(e.px + e.vx, -(POS_LIMIT as int), POS_LIMIT as int),
        py: clip(e.py + e.vy, -(POS_LIMIT as int), POS_LIMIT as int),
        ori: (e.ori + e.rot) % (TAU_A as int),
        ..e
    }
}

/// Splash detection on the state right before integration: a splash happens
/// exactly when the step crosses the water surface with vertical speed
/// above 4 units per tick, and reports the post-integration x.
#[verifier::opaque]
pub open spec fn splash_of(e: GEnt) -> Option<int> {
    let m = move_s(e);
    if underwater_s(e.py) != underwater_s(m.py) && iabs(e.vy) > 4000 {
        Some(m.px)
    } else {
        None
    }
}

/// Seafloor collision: position is clamped up to the floor height and the
/// velocity loses energy on impact.
pub open spec fn floor_clamp_s(e: GEnt, h: Seq<i64>) -> GEnt {
    let s = sample_s(h, e.px);
    if e.py > s {
        GEnt { py: s, vx: tdiv(e.vx * 93, 100), vy: tdiv(e.vy * 93, 100), ..e }
    } else {
        e
    }
}

/// One full integrator step.
#[verifier::opaque]
pub open spec fn integrate_s(e: GEnt, h: Seq<i64>) -> GEnt {
    floor_clamp_s(move_s(gravity_s(drag_s(e))), h)
}

/// After an integrator step the entity never sits below the seafloor.
pub proof fn lemma_integrate_below_floor(e: GEnt, h: Seq<i64>)
    ensures
        integrate_s(e, h).py <= sample_s(h, integrate_s(e, h).px),
{
    reveal(integrate_s);
}

/// A splash happens exactly when the integration step crosses the water
/// surface with vertical speed above 4 units per tick, and reports the
/// post-integration x-position.
pub proof fn lemma_splash_iff(e: GEnt)
    ensures
        splash_of(e) is Some <==> (underwater_s(e.py) != underwater_s(move_s(e).py) && iabs(e.vy)
            > 4000),
        splash_of(e) is Some ==> splash_of(e)->0 == move_s(e).px,
{
    reveal(splash_of);
}

pub open spec fn opt_eq_int(a: Option<i64>, b: Option<int>) -> bool {
    match (a, b) {
        (Some(x), Some(y)) => x == y,
        (None, None) => true,
        _ => false,
    }
}

/// One integrator step for a single entity. Returns the new motion state
/// and the splash x-position, if the step splashed.
pub fn integrate_entity(p: Pos, v: Vel, o: Ori, rt: Rot, floor: &Seafloor) -> (res: (
    Pos,
    Vel,
    Ori,
    Rot,
    Option<i64>,
))
    requires
        floor.wf(),
        gbounded(gent(p, v, o, rt)),
    ensures
        gent(res.0, res.1, res.2, res.3) == integrate_s(gent(p, v, o, rt), floor@),
        gbounded(gent(res.0, res.1, res.2, res.3)),
        opt_eq_int(res.4, splash_of(gravity_s(drag_s(gent(p, v, o, rt))))),
{
    proof {
        reveal(drag_s);
        reveal(integrate_s);
        reveal(splash_of);
    }
    let uw0: bool = p.0.y > 0;
    // Drag
    let (v1, r1): (V2, i64) = if uw0 {
        let vx1: i64 = mul_div(v.0.x, 95, 100);
        let vy1: i64 = mul_div(v.0.y, 95, 100);
        proof {
            lemma_tdiv_bound(v.0.x * 95, 100, 95000000);
            lemma_tdiv_bound(v.0.y * 95, 100, 95000000);
        }
        let rot1: i64 = mul_div(rt.0, 90, 100);
        proof {
            lemma_tdiv_bound(rt.0 * 90, 100, 90000000);
        }
        let fx: i64 = cos_fp(o.0);
        let fy: i64 = sin_fp(o.0);
        let nv: V2 = norm_or(V2 { x: vx1, y: vy1 }, V2 { x: 0, y: 0 });
        proof {
            crate::vec2::lemma_norm_bounded(
                V2 { x: vx1, y: vy1 }.gv(),
                Gv { x: 0, y: 0 },
                1000,
            );
        }
        proof {
            assert(-1000000 <= fx * nv.x <= 1000000 && -1000000 <= fy * nv.y
                <= 1000000) by (nonlinear_arith)
                requires
                    -1000 <= fx <= 1000,
                    -1000 <= fy <= 1000,
                    -1000 <= nv.x <= 1000,
                    -1000 <= nv.y <= 1000,
            ;
        }
        let dsum: i64 = mul64(fx, nv.x) + mul64(fy, nv.y);
        let d: i64 = mul_div(dsum, 1, 1000);
        proof {
            lemma_tdiv_bound(dsum as int * 1, 1000, 2000000);
        }
        let ad0: i64 = if d >= 0 {
            d
        } else {
            -d
        };
        let ad: i64 = if ad0 > 1000 {
            1000
        } else {
            ad0
        };
        let f: i64 = ad + mul_div(1000 - ad, 900, 1000);
        proof {
            lemma_tdiv_bound((1000 - ad) * 900, 1000, 900000);
            assert(tdiv((1000 - ad) * 900, 1000) == (900 * (1000 - ad as int)) / 1000
                && (900 * (1000 - ad as int)) / 1000 >= 0);
            assert(-950000000 <= vx1 * f <= 950000000 && -950000000 <= vy1 * f
                <= 950000000) by (nonlinear_arith)
                requires
                    -950000 <= vx1 <= 950000,
                    -950000 <= vy1 <= 950000,
                    0 <= f <= 1000,
            ;
        }
        let vx2: i64 = mul_div(vx1, f, 1000);
        let vy2: i64 = mul_div(vy1, f, 1000);
        proof {
            lemma_tdiv_bound(vx1 * f, 1000, 950000000);
            lemma_tdiv_bound(vy1 * f, 1000, 950000000);
        }
        (V2 { x: vx2, y: vy2 }, rot1)
    } else {
        proof {
            lemma_tdiv_bound(rt.0 * 98, 100, 98000000);
        }
        (v.0, mul_div(rt.0, 98, 100))
    };
    // Gravity
    let vgy: i64 = if !uw0 {
        clip64(v1.y + 100, -VEL_LIMIT, VEL_LIMIT)
    } else {
        v1.y
    };
    // Integration
    let px2: i64 = clip64(p.0.x + v1.x, -POS_LIMIT, POS_LIMIT);
    let py2: i64 = clip64(p.0.y + vgy, -POS_LIMIT, POS_LIMIT);
    let ori2: i64 = fmod64(o.0 + r1, TAU_A);
    // Splash detection
    let uw1: bool = py2 > 0;
    let avy: i64 = if vgy >= 0 {
        vgy
    } else {
        -vgy
    };
    let splash: Option<i64> = if uw0 != uw1 && avy > 4000 {
        Some(px2)
    } else {
        None
    };
    // Seafloor collision
    let s: i64 = floor.sample(px2);
    if py2 > s {
        let vx3: i64 = mul_div(v1.x, 93, 100);
        let vy3: i64 = mul_div(vgy, 93, 100);
        proof {
            lemma_tdiv_bound(v1.x * 93, 100, 93000000);
            lemma_tdiv_bound(vgy * 93, 100, 93000000);
        }
        (Pos(V2 { x: px2, y: s }), Vel(V2 { x: vx3, y: vy3 }), Ori(ori2), Rot(r1), splash)
    } else {
        (Pos(V2 { x: px2, y: py2 }), Vel(V2 { x: v1.x, y: vgy }), Ori(ori2), Rot(r1), splash)
    }
}

/// The motion state of entity `i` in the store.
pub open spec fn gent_at(w: World, i: int) -> GEnt {
    GEnt {
        px: w.pos@[i].0.x as int,
        py: w.pos@[i].0.y as int,
        vx: w.vel@[i].0.x as int,
        vy: w.vel@[i].0.y as int,
        ori: w.ori@[i].0 as int,
        rot: w.rot@[i].0 as int,
    }
}

/// The splash events of the first `n` entities, in index order.
pub open spec fn splash_events(w: World, n: int) -> Seq<Event>
    decreases n,
{
    if n <= 0 {
        Seq::<Event>::empty()
    } else {
        let pre = splash_events(w, n - 1);
        match splash_of(gravity_s(drag_s(gent_at(w, n - 1)))) {
            Some(x) => pre.push(Event::Splash(x as i64)),
            None => pre,
        }
    }
}

/// One integrator pass over every entity, appending the splash events in
/// entity order. Kinds and flags are untouched; every entity ends on or
/// above the seafloor.
#[verifier::rlimit(80)]
pub fn physics_step(w: &mut World, floor: &Seafloor, events: &mut Vec<Event>)
    requires
        old(w).wf(),
        floor.wf(),
    ensures
        final(w).wf(),
        final(w).n() == old(w).n(),
        old(w).same_kinds(*final(w)),
        final(w).respawn@ == old(w).respawn@,
        final(w).collected@ == old(w).collected@,
        forall|i: int|
            0 <= i < old(w).n() ==> #[trigger] gent_at(*final(w), i) == integrate_s(
                gent_at(*old(w), i),
                floor@,
            ),
        final(events)@ == old(events)@ + splash_events(*old(w), old(w).n()),
{
    let n: usize = w.pos.len();
    let ghost w0 = *w;
    let ghost evs0 = events@;
    let mut i: usize = 0;
    proof {
        assert(events@ == evs0 + splash_events(w0, 0));
    }
    while i < n
        invariant
            i <= n,
            n == w0.n(),
            w.n() == n,
            w.len_ok(),
            floor.wf(),
            w.agent@ == w0.agent@,
            w.body@ == w0.body@,
            w.item@ == w0.item@,
            w.respawn@ == w0.respawn@,
            w.collected@ == w0.collected@,
            w0.wf(),
            forall|j: int| i <= j < n ==> #[trigger] gent_at(*w, j) == gent_at(w0, j),
            forall|j: int|
                0 <= j < i ==> #[trigger] gent_at(*w, j) == integrate_s(gent_at(w0, j), floor@),
            forall|j: int| 0 <= j < n ==> #[trigger] w.entity_ok(j),
            events@ == evs0 + splash_events(w0, i as int),
        decreases n - i,
    {
        let p: Pos = w.pos[i];
        let v: Vel = w.vel[i];
        let o: Ori = w.ori[i];
        let rt: Rot = w.rot[i];
        proof {
            assert(w.entity_ok(i as int));
            assert(gbounded(gent(p, v, o, rt)));
            assert(gent_at(*w, i as int) == gent_at(w0, i as int));
            assert(gent(p, v, o, rt) == gent_at(*w, i as int));
        }
        let res: (Pos, Vel, Ori, Rot, Option<i64>) = integrate_entity(p, v, o, rt, floor);
        let ghost wpre = *w;
        w.pos.set(i, res.0);
        w.vel.set(i, res.1);
        w.ori.set(i, res.2);
        w.rot.set(i, res.3);
        if let Some(x) = res.4 {
            events.push(Event::Splash(x));
        }
        proof {
            assert(gent_at(*w, i as int) == gent(res.0, res.1, res.2, res.3));
            assert(gent_at(*w, i as int) == integrate_s(gent_at(w0, i as int), floor@));
            assert forall|j: int| i + 1 <= j < n implies #[trigger] gent_at(*w, j) == gent_at(
                w0,
                j,
            ) by {
                assert(gent_at(*w, j) == gent_at(wpre, j));
                assert(gent_at(wpre, j) == gent_at(w0, j));
            }
            assert forall|j: int| 0 <= j < i + 1 implies #[trigger] gent_at(*w, j) == integrate_s(
                gent_at(w0, j),
                floor@,
            ) by {
                if j != i as int {
                    assert(gent_at(*w, j) == gent_at(wpre, j));
                    assert(gent_at(wpre, j) == integrate_s(gent_at(w0, j), floor@));
                }
            }
            assert forall|j: int| 0 <= j < n implies #[trigger] w.entity_ok(j) by {
                if j == i as int {
                    assert(gbounded(gent_at(*w, j)));
                } else {
                    assert(gent_at(*w, j) == gent_at(wpre, j));
                    assert(wpre.entity_ok(j));
                }
            }
            assert(splash_events(w0, i as int + 1) == (match splash_of(
                gravity_s(drag_s(gent_at(w0, i as int))),
            ) {
                Some(x) => splash_events(w0, i as int).push(Event::Splash(x as i64)),
                None => splash_events(w0, i as int),
            }));
            assert(events@ == evs0 + splash_events(w0, i as int + 1));
        }
        i = i + 1;
    }
    proof {
        assert forall|j: int| 0 <= j < w.n() implies #[trigger] w.collected_ok(j) by {
            assert(w0.collected_ok(j));
        }
        assert(w.wf());
    }
}

} // verus!
