//! The entity store: a dense arena of per-entity components keyed by a
//! stable index. Entities are created once at world build time and never
//! destroyed; "death" is repositioning, so every component array keeps its
//! length for the world's lifetime.

use vstd::prelude::*;
use crate::fixed::iabs;
use crate::vec2::V2;

verus! {

/// Largest coordinate magnitude the world holds, in milli-units.
pub const POS_LIMIT: i64 = 100000000;

/// Largest velocity magnitude per axis, in milli-units per tick.
pub const VEL_LIMIT: i64 = 1000000;

/// Largest spin magnitude, in angle units per tick.
pub const ROT_LIMIT: i64 = 1000000;

/// Which control policy governs an entity each tick.
#[derive(Clone, Copy, PartialEq, Eq, Structural, Debug)]
pub enum Agent {
    Player,
    Fish,
    Bubble,
    Collectable,
}

/// What the player can gain from touching an entity.
#[derive(Clone, Copy, PartialEq, Eq, Structural, Debug)]
pub enum Item {
    Fish,
    Fuel,
    Tape,
}

/// An entity's physical identity, carrying its collision radius; the payload
/// index selects a sprite outside the simulation.
#[derive(Clone, Copy, PartialEq, Eq, Structural, Debug)]
pub enum Body {
    Seal,
    Fish(usize),
    Submarine,
    Bubble(usize),
    Fuel(usize),
    Tape(usize),
}

/// Collision radius of each body kind, in milli-units.
pub open spec fn radius_s(b: Body) -> int {
    match b {
        Body::Seal => 20000,
        Body::Fish(_) => 12000,
        Body::Submarine => 800000,
        Body::Bubble(_) => 12000,
        Body::Fuel(_) => 20000,
        Body::Tape(_) => 20000,
    }
}

impl Body {
    pub fn radius(&self) -> (r: i64)
        ensures
            r == radius_s(*self),
    {
        match self {
            Body::Seal => 20000,
            Body::Fish(_) => 12000,
            Body::Submarine => 800000,
            Body::Bubble(_) => 12000,
            Body::Fuel(_) => 20000,
            Body::Tape(_) => 20000,
        }
    }
}

/// World-space location; y grows downward, `y > 0` is underwater.
#[derive(Clone, Copy, PartialEq, Eq, Structural, Debug)]
pub struct Pos(pub V2);

/// Per-tick displacement.
#[derive(Clone, Copy, PartialEq, Eq, Structural, Debug)]
pub struct Vel(pub V2);

/// Facing direction in angle units, independent of the velocity direction.
#[derive(Clone, Copy, PartialEq, Eq, Structural, Debug)]
pub struct Ori(pub i64);

/// Per-tick change of the facing direction, in angle units.
#[derive(Clone, Copy, PartialEq, Eq, Structural, Debug)]
pub struct Rot(pub i64);

/// The player's input flags for one tick, supplied by the surrounding
/// input-polling layer.
#[derive(Clone, Copy, PartialEq, Eq, Structural, Debug, Default)]
pub struct Inputs {
    pub left: bool,
    pub right: bool,
    pub boost: bool,
}

/// A discrete occurrence within one tick, handed to the surrounding
/// presentation layer to trigger sound and screen effects.
#[derive(Clone, Copy, PartialEq, Eq, Structural, Debug)]
pub enum Event {
    Eat,
    Splash(i64),
    GetFuel,
    GetTape,
}

/// Stable indices of the two distinguished entities.
pub struct Globals {
    pub player: usize,
    pub submarine: usize,
}

pub open spec fn underwater_s(py: int) -> bool {
    py > 0
}

/// The component arena. Every array has one slot per entity; `None` in an
/// optional component means the entity does not carry it.
pub struct World {
    pub pos: Vec<Pos>,
    pub vel: Vec<Vel>,
    pub ori: Vec<Ori>,
    pub rot: Vec<Rot>,
    pub agent: Vec<Option<Agent>>,
    pub body: Vec<Option<Body>>,
    pub item: Vec<Option<Item>>,
    pub respawn: Vec<bool>,
    pub collected: Vec<bool>,
}

impl World {
    /// Number of entities.
    pub open spec fn n(self) -> int {
        self.pos@.len() as int
    }

    pub open spec fn len_ok(self) -> bool {
        &&& self.vel@.len() == self.n()
        &&& self.ori@.len() == self.n()
        &&& self.rot@.len() == self.n()
        &&& self.agent@.len() == self.n()
        &&& self.body@.len() == self.n()
        &&& self.item@.len() == self.n()
        &&& self.respawn@.len() == self.n()
        &&& self.collected@.len() == self.n()
    }

    pub open spec fn entity_ok(self, i: int) -> bool {
        &&& iabs(self.pos@[i].0.x as int) <= POS_LIMIT as int
        &&& iabs(self.pos@[i].0.y as int) <= POS_LIMIT as int
        &&& iabs(self.vel@[i].0.x as int) <= VEL_LIMIT as int
        &&& iabs(self.vel@[i].0.y as int) <= VEL_LIMIT as int
        &&& 0 <= self.ori@[i].0 < crate::fixed::TAU_A
        &&& iabs(self.rot@[i].0 as int) <= ROT_LIMIT as int
    }

    pub open spec fn bounds_ok(self) -> bool {
        forall|i: int| 0 <= i < self.n() ==> #[trigger] self.entity_ok(i)
    }

    /// The carried-pickup flag may only be set on fuel or tape items.
    pub open spec fn collected_ok(self, i: int) -> bool {
        self.collected@[i] ==> self.item@[i] == Some(Item::Fuel) || self.item@[i] == Some(
            Item::Tape,
        )
    }

    pub open spec fn flags_ok(self) -> bool {
        forall|i: int| 0 <= i < self.n() ==> #[trigger] self.collected_ok(i)
    }

    pub open spec fn wf(self) -> bool {
        &&& self.len_ok()
        &&& self.bounds_ok()
        &&& self.flags_ok()
    }

    /// The kind maps never change after world creation; phases preserve them.
    pub open spec fn same_kinds(self, other: World) -> bool {
        &&& other.agent@ == self.agent@
        &&& other.body@ == self.body@
        &&& other.item@ == self.item@
    }
}

} // verus!
