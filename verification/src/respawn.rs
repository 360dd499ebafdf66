//! The respawn system: every entity flagged this frame is relocated to a
//! random point within the world's spawn box and stops being carried; all
//! flags are cleared, so none survives into the next tick.

use vstd::prelude::*;
use crate::rng::rand_between;
use crate::store::{Pos, World};
use crate::vec2::V2;

verus! {

/// Spawn box bounds, in milli-units.
pub const SPAWN_X_LO: i64 = -5000000;

pub const SPAWN_X_HI: i64 = 5000000;

pub const SPAWN_Y_LO: i64 = -300000;

pub const SPAWN_Y_HI: i64 = 1500000;

/// How the respawn pass relates entity `i` before and after: a flagged
/// entity is moved into the spawn box and its carried flag is cleared; an
/// unflagged one is untouched; no flag survives.
pub open spec fn respawn_entity_ok(w0: World, w1: World, i: int) -> bool {
    &&& !w1.respawn@[i]
    &&& w1.vel@[i] == w0.vel@[i]
    &&& w1.ori@[i] == w0.ori@[i]
    &&& w1.rot@[i] == w0.rot@[i]
    &&& if w0.respawn@[i] {
        &&& SPAWN_X_LO as int <= w1.pos@[i].0.x < SPAWN_X_HI as int
        &&& SPAWN_Y_LO as int <= w1.pos@[i].0.y < SPAWN_Y_HI as int
        &&& !w1.collected@[i]
    } else {
        w1.pos@[i] == w0.pos@[i] && w1.collected@[i] == w0.collected@[i]
    }
}

pub open spec fn respawn_rel(w0: World, w1: World) -> bool {
    &&& w1.n() == w0.n()
    &&& w0.same_kinds(w1)
    &&& forall|i: int| 0 <= i < w0.n() ==> #[trigger] respawn_entity_ok(w0, w1, i)
}

/// Relocates every flagged entity to a fresh random point in the spawn box,
/// clears its carried flag, and clears every respawn flag.
pub fn respawn_step(w: &mut World)
    requires
        old(w).wf(),
    ensures
        final(w).wf(),
        final(w).n() == old(w).n(),
        respawn_rel(*old(w), *final(w)),
        forall|i: int| 0 <= i < final(w).n() ==> !final(w).respawn@[i],
{
    let n: usize = w.pos.len();
    let ghost w0 = *w;
    let mut i: usize = 0;
    while i < n
        invariant
            i <= n,
            n == w0.n(),
            w.n() == n,
            w.len_ok(),
            w0.wf(),
            w.agent@ == w0.agent@,
            w.body@ == w0.body@,
            w.item@ == w0.item@,
            w.vel@ == w0.vel@,
            w.ori@ == w0.ori@,
            w.rot@ == w0.rot@,
            forall|j: int|
                i <= j < n ==> w.pos@[j] == w0.pos@[j] && w.respawn@[j] == w0.respawn@[j]
                    && w.collected@[j] == w0.collected@[j],
            forall|j: int| 0 <= j < i ==> #[trigger] respawn_entity_ok(w0, *w, j),
            forall|j: int| 0 <= j < n ==> #[trigger] w.entity_ok(j),
            forall|j: int| 0 <= j < n ==> #[trigger] w.collected_ok(j),
        decreases n - i,
    {
        let ghost wpre = *w;
        if w.respawn[i] {
            let x: i64 = rand_between(SPAWN_X_LO, SPAWN_X_HI);
            let y: i64 = rand_between(SPAWN_Y_LO, SPAWN_Y_HI);
            w.pos.set(i, Pos(V2 { x, y }));
            w.collected.set(i, false);
        }
        w.respawn.set(i, false);
        proof {
            assert(respawn_entity_ok(w0, *w, i as int));
            assert forall|j: int| 0 <= j < i + 1 implies #[trigger] respawn_entity_ok(
                w0,
                *w,
                j,
            ) by {
                if j < i as int {
                    assert(respawn_entity_ok(w0, wpre, j));
                }
            }
            assert forall|j: int| 0 <= j < n implies #[trigger] w.entity_ok(j) by {
                if j != i as int {
                    assert(wpre.entity_ok(j));
                }
            }
            assert forall|j: int| 0 <= j < n implies #[trigger] w.collected_ok(j) by {
                if j != i as int {
                    assert(wpre.collected_ok(j));
                }
            }
        }
        i = i + 1;
    }
    proof {
        assert forall|i: int| 0 <= i < w.n() implies !w.respawn@[i] by {
            assert(respawn_entity_ok(w0, *w, i));
        }
    }
}

} // verus!
