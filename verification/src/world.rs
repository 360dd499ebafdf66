//! World creation and the per-frame tick orchestrator: physics, the fish
//! snapshot, per-agent control, collision and collection, respawn, and the
//! attribute decay, in that order, once per frame.

use vstd::prelude::*;
use crate::attr::{apply_op, Attr, AttrOp, GAttr, TICKS_LIMIT};
use crate::collide::{resolve_collisions, resolve_s, RState};
use crate::physics::{gent_at, integrate_s, physics_step, splash_events};
use crate::policy::{control_attr_s, control_rel, control_step};
use crate::respawn::{respawn_rel, respawn_step};
use crate::seafloor::Seafloor;
use crate::store::{
    underwater_s, Agent, Body, Event, Globals, Inputs, Item, Ori, Pos, Rot, Vel, World,
};
use crate::vec2::{Gv, V2};
use crate::rng::rand_between;

verus! {

/// Number of entities the world is created with.
pub const WORLD_SIZE: usize = 232;

/// The per-tick output summary for the surrounding presentation layer.
pub struct TickInfo {
    pub view_centre: V2,
    pub view_scale: i64,
    pub events: Vec<Event>,
}

/// The fixed kind layout of a freshly created world: the player, the
/// submarine, thirty fish, twenty-five fuel and twenty-five tape pickups
/// interleaved, and one hundred and fifty bubbles.
pub open spec fn created_kind_ok(w: World, i: int) -> bool {
    if i == 0 {
        w.agent@[i] == Some(Agent::Player) && w.body@[i] == Some(Body::Seal) && w.item@[i] is None
    } else if i == 1 {
        w.agent@[i] is None && w.body@[i] == Some(Body::Submarine) && w.item@[i] is None
    } else if 2 <= i < 32 {
        w.agent@[i] == Some(Agent::Fish) && w.body@[i] == Some(Body::Fish((i - 2) as usize))
            && w.item@[i] == Some(Item::Fish)
    } else if 32 <= i < 82 && (i - 32) % 2 == 0 {
        w.agent@[i] == Some(Agent::Collectable) && w.body@[i] == Some(
            Body::Fuel(((i - 32) / 2) as usize),
        ) && w.item@[i] == Some(Item::Fuel)
    } else if 32 <= i < 82 {
        w.agent@[i] == Some(Agent::Collectable) && w.body@[i] == Some(
            Body::Tape(((i - 32) / 2) as usize),
        ) && w.item@[i] == Some(Item::Tape)
    } else {
        w.agent@[i] == Some(Agent::Bubble) && w.body@[i] == Some(Body::Bubble((i - 82) as usize))
            && w.item@[i] is None
    }
}

/// The initial motion state: the player at the origin and the submarine at
/// its station, both gliding right; everything else spawned at rest in the
/// spawn area.
pub open spec fn created_motion_ok(w: World, i: int) -> bool {
    &&& w.ori@[i].0 == 0
    &&& w.rot@[i].0 == 0
    &&& if i == 0 {
        w.pos@[i].0 == (V2 { x: 0, y: 0 }) && w.vel@[i].0 == (V2 { x: 1000, y: 0 })
    } else if i == 1 {
        w.pos@[i].0 == (V2 { x: 0, y: 512000 }) && w.vel@[i].0 == (V2 { x: 1000, y: 0 })
    } else {
        &&& -5000000 <= w.pos@[i].0.x < 5000000
        &&& 0 <= w.pos@[i].0.y < 1500000
        &&& w.vel@[i].0 == (V2 { x: 0, y: 0 })
    }
}

fn push_entity(
    w: &mut World,
    p: Pos,
    v: Vel,
    o: Ori,
    r: Rot,
    ag: Option<Agent>,
    bd: Option<Body>,
    it: Option<Item>,
)
    requires
        old(w).len_ok(),
    ensures
        final(w).len_ok(),
        final(w).n() == old(w).n() + 1,
        final(w).pos@ == old(w).pos@.push(p),
        final(w).vel@ == old(w).vel@.push(v),
        final(w).ori@ == old(w).ori@.push(o),
        final(w).rot@ == old(w).rot@.push(r),
        final(w).agent@ == old(w).agent@.push(ag),
        final(w).body@ == old(w).body@.push(bd),
        final(w).item@ == old(w).item@.push(it),
        final(w).respawn@ == old(w).respawn@.push(false),
        final(w).collected@ == old(w).collected@.push(false),
{
    w.pos.push(p);
    w.vel.push(v);
    w.ori.push(o);
    w.rot.push(r);
    w.agent.push(ag);
    w.body.push(bd);
    w.item.push(it);
    w.respawn.push(false);
    w.collected.push(false);
}

/// Builds the world: the seafloor profile, full attributes, and the fixed
/// population of entities, the movable ones at random spawn points.
pub fn create() -> (r: (Globals, World, Seafloor, Attr))
    ensures
        r.1.wf(),
        r.1.n() == WORLD_SIZE,
        r.0.player == 0,
        r.0.submarine == 1,
        forall|i: int| 0 <= i < r.1.n() ==> #[trigger] created_kind_ok(r.1, i),
        forall|i: int| 0 <= i < r.1.n() ==> #[trigger] created_motion_ok(r.1, i),
        forall|i: int| 0 <= i < r.1.n() ==> !r.1.respawn@[i] && !r.1.collected@[i],
        r.2.wf(),
        r.3.valid(),
        !r.3.lost,
        r.3.score == 0,
{
    let floor: Seafloor = Seafloor::sine();
    let at: Attr = Attr::new();
    let mut w: World = World {
        pos: Vec::new(),
        vel: Vec::new(),
        ori: Vec::new(),
        rot: Vec::new(),
        agent: Vec::new(),
        body: Vec::new(),
        item: Vec::new(),
        respawn: Vec::new(),
        collected: Vec::new(),
    };
    push_entity(
        &mut w,
        Pos(V2 { x: 0, y: 0 }),
        Vel(V2 { x: 1000, y: 0 }),
        Ori(0),
        Rot(0),
        Some(Agent::Player),
        Some(Body::Seal),
        None,
    );
    push_entity(
        &mut w,
        Pos(V2 { x: 0, y: 512000 }),
        Vel(V2 { x: 1000, y: 0 }),
        Ori(0),
        Rot(0),
        None,
        Some(Body::Submarine),
        None,
    );
    let mut k: usize = 0;
    while k < 30
        invariant
            k <= 30,
            w.len_ok(),
            w.n() == 2 + k,
            forall|i: int| 0 <= i < w.n() ==> #[trigger] created_kind_ok(w, i),
            forall|i: int| 0 <= i < w.n() ==> #[trigger] created_motion_ok(w, i),
            forall|i: int| 0 <= i < w.n() ==> !w.respawn@[i] && !w.collected@[i],
        decreases 30 - k,
    {
        let ghost wpre = w;
        let x: i64 = rand_between(-5000000, 5000000);
        let y: i64 = rand_between(0, 1500000);
        push_entity(
            &mut w,
            Pos(V2 { x, y }),
            Vel(V2 { x: 0, y: 0 }),
            Ori(0),
            Rot(0),
            Some(Agent::Fish),
            Some(Body::Fish(k)),
            Some(Item::Fish),
        );
        proof {
            assert forall|i: int| 0 <= i < w.n() implies #[trigger] created_kind_ok(w, i) by {
                if i < wpre.n() {
                    assert(created_kind_ok(wpre, i));
                } else {
                    assert(i == 2 + k);
                    assert(w.agent@[i] == Some(Agent::Fish));
                    assert(w.body@[i] == Some(Body::Fish(k)));
                    assert((i - 2) as usize == k);
                    assert(w.item@[i] == Some(Item::Fish));
                }
            }
            assert forall|i: int| 0 <= i < w.n() implies #[trigger] created_motion_ok(w, i) by {
                if i < wpre.n() {
                    assert(created_motion_ok(wpre, i));
                }
            }
        }
        k = k + 1;
    }
    let mut k2: usize = 0;
    while k2 < 25
        invariant
            k2 <= 25,
            w.len_ok(),
            w.n() == 32 + 2 * k2,
            forall|i: int| 0 <= i < w.n() ==> #[trigger] created_kind_ok(w, i),
            forall|i: int| 0 <= i < w.n() ==> #[trigger] created_motion_ok(w, i),
            forall|i: int| 0 <= i < w.n() ==> !w.respawn@[i] && !w.collected@[i],
        decreases 25 - k2,
    {
        let ghost wpre = w;
        let x: i64 = rand_between(-5000000, 5000000);
        let y: i64 = rand_between(0, 1500000);
        push_entity(
            &mut w,
            Pos(V2 { x, y }),
            Vel(V2 { x: 0, y: 0 }),
            Ori(0),
            Rot(0),
            Some(Agent::Collectable),
            Some(Body::Fuel(k2)),
            Some(Item::Fuel),
        );
        let x2: i64 = rand_between(-5000000, 5000000);
        let y2: i64 = rand_between(0, 1500000);
        push_entity(
            &mut w,
            Pos(V2 { x: x2, y: y2 }),
            Vel(V2 { x: 0, y: 0 }),
            Ori(0),
            Rot(0),
            Some(Agent::Collectable),
            Some(Body::Tape(k2)),
            Some(Item::Tape),
        );
        proof {
            assert forall|i: int| 0 <= i < w.n() implies #[trigger] created_kind_ok(w, i) by {
                if i < wpre.n() {
                    assert(created_kind_ok(wpre, i));
                } else if i == wpre.n() {
                    assert(i == 32 + 2 * k2);
                    assert((i - 32) % 2 == 0);
                    assert((i - 32) / 2 == k2);
                    assert(w.body@[i] == Some(Body::Fuel(k2)));
                    assert(((i - 32) / 2) as usize == k2);
                } else {
                    assert(i == 33 + 2 * k2);
                    assert((i - 32) % 2 == 1);
                    assert((i - 32) / 2 == k2);
                    assert(w.body@[i] == Some(Body::Tape(k2)));
                    assert(((i - 32) / 2) as usize == k2);
                }
            }
            assert forall|i: int| 0 <= i < w.n() implies #[trigger] created_motion_ok(w, i) by {
                if i < wpre.n() {
                    assert(created_motion_ok(wpre, i));
                }
            }
        }
        k2 = k2 + 1;
    }
    let mut k3: usize = 0;
    while k3 < 150
        invariant
            k3 <= 150,
            w.len_ok(),
            w.n() == 82 + k3,
            forall|i: int| 0 <= i < w.n() ==> #[trigger] created_kind_ok(w, i),
            forall|i: int| 0 <= i < w.n() ==> #[trigger] created_motion_ok(w, i),
            forall|i: int| 0 <= i < w.n() ==> !w.respawn@[i] && !w.collected@[i],
        decreases 150 - k3,
    {
        let ghost wpre = w;
        let x: i64 = rand_between(-5000000, 5000000);
        let y: i64 = rand_between(0, 1500000);
        push_entity(
            &mut w,
            Pos(V2 { x, y }),
            Vel(V2 { x: 0, y: 0 }),
            Ori(0),
            Rot(0),
            Some(Agent::Bubble),
            Some(Body::Bubble(k3)),
            None,
        );
        proof {
            assert forall|i: int| 0 <= i < w.n() implies #[trigger] created_kind_ok(w, i) by {
                if i < wpre.n() {
                    assert(created_kind_ok(wpre, i));
                } else {
                    assert(i == 82 + k3);
                    assert(w.agent@[i] == Some(Agent::Bubble));
                    assert(w.body@[i] == Some(Body::Bubble(k3)));
                    assert((i - 82) as usize == k3);
                }
            }
            assert forall|i: int| 0 <= i < w.n() implies #[trigger] created_motion_ok(w, i) by {
                if i < wpre.n() {
                    assert(created_motion_ok(wpre, i));
                }
            }
        }
        k3 = k3 + 1;
    }
    proof {
        assert forall|i: int| 0 <= i < w.n() implies #[trigger] w.entity_ok(i) by {
            assert(created_motion_ok(w, i));
        }
        assert forall|i: int| 0 <= i < w.n() implies #[trigger] w.collected_ok(i) by {
        }
        assert(w.wf());
    }
    (Globals { player: 0, submarine: 1 }, w, floor, at)
}

/// The physics phase as a relation between stores: every entity is moved by
/// one integrator step and nothing else changes.
pub open spec fn phys_rel(w0: World, w1: World, h: Seq<i64>) -> bool {
    &&& w1.n() == w0.n()
    &&& w0.same_kinds(w1)
    &&& w1.respawn@ == w0.respawn@
    &&& w1.collected@ == w0.collected@
    &&& forall|i: int|
        0 <= i < w0.n() ==> #[trigger] gent_at(w1, i) == integrate_s(gent_at(w0, i), h)
}

/// After the physics phase no entity sits below the seafloor.
pub proof fn lemma_physics_respects_floor(w0: World, w1: World, h: Seq<i64>)
    requires
        phys_rel(w0, w1, h),
    ensures
        forall|i: int|
            0 <= i < w1.n() ==> #[trigger] w1.pos@[i].0.y as int <= crate::seafloor::sample_s(
                h,
                w1.pos@[i].0.x as int,
            ),
{
    assert forall|i: int|
        0 <= i < w1.n() implies #[trigger] w1.pos@[i].0.y as int <= crate::seafloor::sample_s(
        h,
        w1.pos@[i].0.x as int,
    ) by {
        assert(gent_at(w1, i) == integrate_s(gent_at(w0, i), h));
        crate::physics::lemma_integrate_below_floor(gent_at(w0, i), h);
    }
}

/// The control phase's frame: positions, kinds and carried flags are
/// untouched.
pub open spec fn ctrl_frame(w1: World, w2: World) -> bool {
    &&& w2.n() == w1.n()
    &&& w1.same_kinds(w2)
    &&& w2.pos@ == w1.pos@
    &&& w2.collected@ == w1.collected@
    &&& w2.wf()
}

/// How one whole tick relates its inputs to its outputs: there are
/// intermediate stores after physics and after control such that physics
/// moved every entity, control followed every policy, the resolver applied
/// the touch and delivery rules to the control result (starting from the
/// physics phase's splash events), respawn relocated what was flagged, and
/// the attributes took the boost cost, the score reward, the resolver's
/// bonuses and the decay, in that order. The camera centre is the player's
/// post-physics position.
pub open spec fn tick_rel(
    w0: World,
    a0: GAttr,
    h: Seq<i64>,
    inputs: Inputs,
    ticks: u64,
    player: int,
    sub: int,
    w4: World,
    a4: GAttr,
    evs: Seq<Event>,
    centre: Gv,
) -> bool {
    exists|w1: World, w2: World, w3: World|
        #![trigger phys_rel(w0, w1, h), control_rel(w1, w2, inputs, player, ticks as int), respawn_rel(w3, w4)]
        {
            let uw = underwater_s(w1.pos@[player].0.y as int);
            let a2 = control_attr_s(a0, uw, inputs.boost);
            let st = RState {
                respawn: w2.respawn@,
                collected: w2.collected@,
                attr: a2,
                events: splash_events(w0, w0.n()),
            };
            let st3 = resolve_s(w2, player, sub, st, w2.n());
            &&& phys_rel(w0, w1, h)
            &&& w1.wf()
            &&& control_rel(w1, w2, inputs, player, ticks as int)
            &&& ctrl_frame(w1, w2)
            &&& w3.n() == w2.n()
            &&& w2.same_kinds(w3)
            &&& w3.pos@ == w2.pos@
            &&& w3.vel@ == w2.vel@
            &&& w3.ori@ == w2.ori@
            &&& w3.rot@ == w2.rot@
            &&& w3.respawn@ == st3.respawn
            &&& w3.collected@ == st3.collected
            &&& w3.wf()
            &&& respawn_rel(w3, w4)
            &&& a4 == apply_op(st3.attr, AttrOp::Decay(ticks))
            &&& evs == st3.events
            &&& centre == (Gv { x: w1.pos@[player].0.x as int, y: w1.pos@[player].0.y as int })
        }
}

/// One simulation tick: physics, control from one fish snapshot, collision
/// and collection, respawn, then attribute decay; returns the camera focus,
/// the camera scale, and the frame's events in order.
pub fn tick(
    w: &mut World,
    at: &mut Attr,
    floor: &Seafloor,
    inputs: Inputs,
    ticks: u64,
    globals: &Globals,
) -> (info: TickInfo)
    requires
        old(w).wf(),
        old(at).valid(),
        floor.wf(),
        ticks <= TICKS_LIMIT,
        globals.player < old(w).n(),
        globals.submarine < old(w).n(),
        old(w).agent@[globals.player as int] == Some(Agent::Player),
        forall|i: int|
            0 <= i < old(w).n() && i != globals.player as int ==> old(w).agent@[i] != Some(
                Agent::Player,
            ),
        forall|i: int| 0 <= i < old(w).n() ==> !old(w).respawn@[i],
    ensures
        final(w).wf(),
        final(w).n() == old(w).n(),
        old(w).same_kinds(*final(w)),
        forall|i: int| 0 <= i < final(w).n() ==> !final(w).respawn@[i],
        final(at).valid(),
        old(at).lost ==> final(at).lost,
        info.view_scale == 1000,
        tick_rel(
            *old(w),
            old(at).ga(),
            floor@,
            inputs,
            ticks,
            globals.player as int,
            globals.submarine as int,
            *final(w),
            final(at).ga(),
            info.events@,
            info.view_centre.gv(),
        ),
{
    let mut events: Vec<Event> = Vec::new();
    let ghost w0 = *w;
    let ghost a0 = *at;
    physics_step(w, floor, &mut events);
    let ghost w1 = *w;
    let focus: V2 = control_step(w, at, inputs, ticks, globals.player);
    let ghost w2 = *w;
    resolve_collisions(w, at, &mut events, globals.player, globals.submarine);
    let ghost w3 = *w;
    respawn_step(w);
    at.tick(ticks);
    proof {
        let player = globals.player as int;
        let sub = globals.submarine as int;
        let uw = underwater_s(w1.pos@[player].0.y as int);
        let a2 = control_attr_s(a0.ga(), uw, inputs.boost);
        let st = RState {
            respawn: w2.respawn@,
            collected: w2.collected@,
            attr: a2,
            events: splash_events(w0, w0.n()),
        };
        let st3 = resolve_s(w2, player, sub, st, w2.n());
        assert(phys_rel(w0, w1, floor@));
        assert(control_rel(w1, w2, inputs, player, ticks as int));
        assert(ctrl_frame(w1, w2));
        assert(w3.respawn@ == st3.respawn && w3.collected@ == st3.collected);
        assert(respawn_rel(w3, *w));
        assert(at.ga() == apply_op(st3.attr, AttrOp::Decay(ticks)));
        assert(events@ == st3.events);
        assert(tick_rel(
            w0,
            a0.ga(),
            floor@,
            inputs,
            ticks,
            player,
            sub,
            *w,
            at.ga(),
            events@,
            focus.gv(),
        ));
    }
    TickInfo { view_centre: focus, view_scale: 1000, events }
}

} // verus!
