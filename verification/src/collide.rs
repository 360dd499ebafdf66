//! The collision and collection resolver: the player consumes or hooks
//! item-bearing entities within collision radius, and fuel/tape pickups
//! within the submarine's tall collection window are delivered.

use vstd::prelude::*;
use crate::attr::{apply_op, Attr, AttrOp, GAttr};
use crate::fixed::mul64;
use crate::store::{radius_s, Agent, Body, Event, Item, World};
use crate::vec2::{mag_sq_s, minus_s};

verus! {

/// The state the resolver threads through the pass: the two flag arrays,
/// the attribute state, and the events emitted so far.
pub ghost struct RState {
    pub respawn: Seq<bool>,
    pub collected: Seq<bool>,
    pub attr: GAttr,
    pub events: Seq<Event>,
}

/// Squared distance between the positions of entities `a` and `b`.
pub open spec fn dist2_s(w: World, a: int, b: int) -> int {
    mag_sq_s(minus_s(w.pos@[b].0.gv(), w.pos@[a].0.gv()))
}

/// Whether the player entity `pi` overlaps the item-bearing entity `j`:
/// both carry bodies, `j` carries an item, and their distance is under the
/// sum of their collision radii.
pub open spec fn touches_s(w: World, pi: int, j: int) -> bool {
    &&& w.item@[j] is Some
    &&& w.body@[j] is Some
    &&& w.body@[pi] is Some
    &&& dist2_s(w, pi, j) < (radius_s(w.body@[pi]->0) + radius_s(w.body@[j]->0)) * (radius_s(
        w.body@[pi]->0,
    ) + radius_s(w.body@[j]->0))
}

/// Whether entity `i` sits within the submarine's collection window: an
/// anisotropic metric, three times narrower vertically than horizontally,
/// under 500 world units.
pub open spec fn near_sub_s(w: World, sub: int, i: int) -> bool {
    let d = minus_s(w.pos@[sub].0.gv(), w.pos@[i].0.gv());
    d.x * d.x + (3 * d.y) * (3 * d.y) < 250000000000
}

/// What the player's touch does to the state: a fish is eaten (respawn
/// flag, stamina bonus, an `Eat` event); a fuel or tape pickup is hooked
/// (collected flag).
pub open spec fn eat_one_s(w: World, pi: int, st: RState, j: int) -> RState {
    if touches_s(w, pi, j) {
        match w.item@[j] {
            Some(Item::Fish) => RState {
                respawn: st.respawn.update(j, true),
                attr: apply_op(st.attr, AttrOp::EatFish),
                events: st.events.push(Event::Eat),
                ..st
            },
            Some(Item::Fuel) => RState { collected: st.collected.update(j, true), ..st },
            Some(Item::Tape) => RState { collected: st.collected.update(j, true), ..st },
            None => st,
        }
    } else {
        st
    }
}

/// The player's touch pass over the first `j` entities, in entity order.
pub open spec fn eat_pass_s(w: World, pi: int, st: RState, j: int) -> RState
    decreases j,
{
    if j <= 0 {
        st
    } else {
        eat_one_s(w, pi, eat_pass_s(w, pi, st, j - 1), j - 1)
    }
}

/// Delivery to the submarine: a fuel pickup in the window is respawned and
/// refuels; a tape pickup patches the hull.
pub open spec fn sub_rule_s(w: World, sub: int, st: RState, i: int) -> RState {
    match w.body@[i] {
        Some(Body::Fuel(_)) => if near_sub_s(w, sub, i) {
            RState {
                respawn: st.respawn.update(i, true),
                attr: apply_op(st.attr, AttrOp::GainFuel),
                events: st.events.push(Event::GetFuel),
                ..st
            }
        } else {
            st
        },
        Some(Body::Tape(_)) => if near_sub_s(w, sub, i) {
            RState {
                respawn: st.respawn.update(i, true),
                attr: apply_op(st.attr, AttrOp::PatchHull),
                events: st.events.push(Event::GetTape),
                ..st
            }
        } else {
            st
        },
        _ => st,
    }
}

/// The whole resolver pass over the first `i` entities: for the player,
/// the touch pass over everything; for every fuel/tape entity, the
/// submarine delivery rule.
pub open spec fn resolve_s(w: World, player: int, sub: int, st: RState, i: int) -> RState
    decreases i,
{
    if i <= 0 {
        st
    } else {
        let st1 = resolve_s(w, player, sub, st, i - 1);
        let st2 = if w.agent@[i - 1] == Some(Agent::Player) {
            eat_pass_s(w, i - 1, st1, w.n())
        } else {
            st1
        };
        sub_rule_s(w, sub, st2, i - 1)
    }
}

pub open spec fn rstate_of(w: World, at: Attr, events: Seq<Event>) -> RState {
    RState { respawn: w.respawn@, collected: w.collected@, attr: at.ga(), events }
}

fn touch_check(w: &World, pi: usize, j: usize) -> (r: bool)
    requires
        w.len_ok(),
        w.bounds_ok(),
        pi < w.n(),
        j < w.n(),
    ensures
        r == touches_s(*w, pi as int, j as int),
{
    proof {
        assert(w.entity_ok(pi as int));
        assert(w.entity_ok(j as int));
    }
    let it: Option<Item> = w.item[j];
    let bj: Option<Body> = w.body[j];
    let bp: Option<Body> = w.body[pi];
    if it.is_none() || bj.is_none() || bp.is_none() {
        return false;
    }
    let d2: i64 = crate::vec2::dist_sq(w.pos[pi].0, w.pos[j].0);
    let rr: i64 = bp.unwrap().radius() + bj.unwrap().radius();
    let rr2: i64 = mul64(rr, rr);
    d2 < rr2
}

fn near_sub_check(w: &World, sub: usize, i: usize) -> (r: bool)
    requires
        w.len_ok(),
        w.bounds_ok(),
        sub < w.n(),
        i < w.n(),
    ensures
        r == near_sub_s(*w, sub as int, i as int),
{
    proof {
        assert(w.entity_ok(sub as int));
        assert(w.entity_ok(i as int));
    }
    let dx: i64 = w.pos[sub].0.x - w.pos[i].0.x;
    let dy: i64 = 3 * (w.pos[sub].0.y - w.pos[i].0.y);
    proof {
        assert(0 <= dx * dx <= 160000000000000000) by (nonlinear_arith)
            requires
                -400000000 <= dx <= 400000000,
        ;
        assert(0 <= dy * dy <= 360000000000000000) by (nonlinear_arith)
            requires
                -600000000 <= dy <= 600000000,
        ;
    }
    let q: i64 = mul64(dx, dx) + mul64(dy, dy);
    q < 250000000000
}

/// The resolver: walks every entity once, applying the player's touch rules
/// and the submarine's delivery rules, in entity order.
#[verifier::rlimit(80)]
pub fn resolve_collisions(
    w: &mut World,
    at: &mut Attr,
    events: &mut Vec<Event>,
    player: usize,
    sub: usize,
)
    requires
        old(w).wf(),
        old(at).valid(),
        player < old(w).n(),
        sub < old(w).n(),
    ensures
        final(w).wf(),
        final(w).n() == old(w).n(),
        old(w).same_kinds(*final(w)),
        final(w).pos@ == old(w).pos@,
        final(w).vel@ == old(w).vel@,
        final(w).ori@ == old(w).ori@,
        final(w).rot@ == old(w).rot@,
        ({
            let res = resolve_s(
                *old(w),
                player as int,
                sub as int,
                rstate_of(*old(w), *old(at), old(events)@),
                old(w).n(),
            );
            &&& final(w).respawn@ == res.respawn
            &&& final(w).collected@ == res.collected
            &&& final(at).ga() == res.attr
            &&& final(events)@ == res.events
        }),
        final(at).valid(),
        old(at).lost == final(at).lost,
{
    let n: usize = w.pos.len();
    let ghost w0 = *w;
    let ghost st0 = rstate_of(*w, *at, events@);
    let mut i: usize = 0;
    while i < n
        invariant
            i <= n,
            n == w0.n(),
            w.n() == n,
            w.len_ok(),
            w0.wf(),
            at.valid(),
            player < n,
            sub < n,
            w.pos@ == w0.pos@,
            w.vel@ == w0.vel@,
            w.ori@ == w0.ori@,
            w.rot@ == w0.rot@,
            w.agent@ == w0.agent@,
            w.body@ == w0.body@,
            w.item@ == w0.item@,
            w.bounds_ok(),
            at.lost == st0.attr.lost,
            ({
                let res = resolve_s(w0, player as int, sub as int, st0, i as int);
                &&& w.respawn@ == res.respawn
                &&& w.collected@ == res.collected
                &&& at.ga() == res.attr
                &&& events@ == res.events
            }),
        decreases n - i,
    {
        let ag: Option<Agent> = w.agent[i];
        if let Some(Agent::Player) = ag {
            let ghost stpre = resolve_s(w0, player as int, sub as int, st0, i as int);
            let mut j: usize = 0;
            while j < n
                invariant
                    j <= n,
                    n == w0.n(),
                    w.n() == n,
                    w.len_ok(),
                    w0.wf(),
                    at.valid(),
                    i < n,
                    at.lost == stpre.attr.lost,
                    w.pos@ == w0.pos@,
                    w.vel@ == w0.vel@,
                    w.ori@ == w0.ori@,
                    w.rot@ == w0.rot@,
                    w.agent@ == w0.agent@,
                    w.body@ == w0.body@,
                    w.item@ == w0.item@,
                    w.bounds_ok(),
                    ({
                        let res = eat_pass_s(w0, i as int, stpre, j as int);
                        &&& w.respawn@ == res.respawn
                        &&& w.collected@ == res.collected
                        &&& at.ga() == res.attr
                        &&& events@ == res.events
                    }),
                decreases n - j,
            {
                let t: bool = touch_check(w, i, j);
                proof {
                    assert(touches_s(*w, i as int, j as int) == touches_s(w0, i as int, j as int));
                }
                if t {
                    let it: Option<Item> = w.item[j];
                    match it {
                        Some(Item::Fish) => {
                            w.respawn.set(j, true);
                            at.eat_fish();
                            events.push(Event::Eat);
                        },
                        Some(Item::Fuel) => {
                            w.collected.set(j, true);
                        },
                        Some(Item::Tape) => {
                            w.collected.set(j, true);
                        },
                        None => {
                        },
                    }
                }
                proof {
                    assert forall|k: int| 0 <= k < n implies #[trigger] w.entity_ok(k) by {
                        assert(w0.entity_ok(k));
                    }
                }
                j = j + 1;
            }
        }
        let bd: Option<Body> = w.body[i];
        let ghost stmid = if w0.agent@[i as int] == Some(Agent::Player) {
            eat_pass_s(w0, i as int, resolve_s(w0, player as int, sub as int, st0, i as int), w0.n())
        } else {
            resolve_s(w0, player as int, sub as int, st0, i as int)
        };
        match bd {
            Some(Body::Fuel(_)) => {
                if near_sub_check(w, sub, i) {
                    w.respawn.set(i, true);
                    at.gain_fuel();
                    events.push(Event::GetFuel);
                }
            },
            Some(Body::Tape(_)) => {
                if near_sub_check(w, sub, i) {
                    w.respawn.set(i, true);
                    at.patch_hull();
                    events.push(Event::GetTape);
                }
            },
            _ => {
            },
        }
        proof {
            assert(near_sub_s(*w, sub as int, i as int) == near_sub_s(w0, sub as int, i as int));
            assert(resolve_s(w0, player as int, sub as int, st0, i as int + 1) == sub_rule_s(
                w0,
                sub as int,
                stmid,
                i as int,
            ));
            assert forall|k: int| 0 <= k < n implies #[trigger] w.entity_ok(k) by {
                assert(w0.entity_ok(k));
            }
        }
        i = i + 1;
    }
    proof {
        assert forall|k: int| 0 <= k < w.n() implies #[trigger] w.collected_ok(k) by {
            assert(w0.collected_ok(k));
            lemma_resolve_collected_ok(w0, player as int, sub as int, st0, n as int, k);
        }
        assert forall|k: int| 0 <= k < w.n() implies #[trigger] w.entity_ok(k) by {
            assert(gent_at_eq(w0, *w, k));
            assert(w0.entity_ok(k));
        }
        assert(w.wf());
    }
}

/// The motion state of an entity is untouched between two stores that share
/// the motion component arrays.
pub open spec fn gent_at_eq(a: World, b: World, i: int) -> bool {
    a.pos@ == b.pos@ && a.vel@ == b.vel@ && a.ori@ == b.ori@ && a.rot@ == b.rot@
}

/// The resolver sets the collected flag only on fuel or tape items.
proof fn lemma_resolve_collected_ok(w: World, player: int, sub: int, st: RState, i: int, k: int)
    requires
        w.wf(),
        st.collected.len() == w.n(),
        0 <= k < w.n(),
        st.collected[k] ==> w.item@[k] == Some(Item::Fuel) || w.item@[k] == Some(Item::Tape),
        0 <= i <= w.n(),
    ensures
        resolve_s(w, player, sub, st, i).collected.len() == w.n(),
        resolve_s(w, player, sub, st, i).collected[k] ==> w.item@[k] == Some(Item::Fuel)
            || w.item@[k] == Some(Item::Tape),
    decreases i,
{
    if i > 0 {
        lemma_resolve_collected_ok(w, player, sub, st, i - 1, k);
        let st1 = resolve_s(w, player, sub, st, i - 1);
        if w.agent@[i - 1] == Some(Agent::Player) {
            lemma_eat_collected_ok(w, i - 1, st1, w.n(), k);
        }
    }
}

proof fn lemma_eat_collected_ok(w: World, pi: int, st: RState, j: int, k: int)
    requires
        w.wf(),
        st.collected.len() == w.n(),
        0 <= k < w.n(),
        st.collected[k] ==> w.item@[k] == Some(Item::Fuel) || w.item@[k] == Some(Item::Tape),
        0 <= j <= w.n(),
    ensures
        eat_pass_s(w, pi, st, j).collected.len() == w.n(),
        eat_pass_s(w, pi, st, j).collected[k] ==> w.item@[k] == Some(Item::Fuel) || w.item@[k]
            == Some(Item::Tape),
    decreases j,
{
    if j > 0 {
        lemma_eat_collected_ok(w, pi, st, j - 1, k);
    }
}

} // verus!
