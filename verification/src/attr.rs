//! The player's resource state: stamina, hull and fuel decay over time and
//! are clamped to the unit range; the score only grows; the loss flag is
//! terminal once any resource runs out.

use vstd::prelude::*;
use crate::fixed::{clip, clip64, isqrt64, sqrt_floor};

verus! {

/// Full value of a unit-range attribute at the micro scale.
pub const ATTR_ONE: i64 = 1000000;

/// Saturation bound of the score at the micro scale.
pub const SCORE_CAP: i64 = 1000000000000000;

/// Largest supported age of a run, in ticks.
pub const TICKS_LIMIT: u64 = 1000000000000;

pub struct Attr {
    pub stamina: i64,
    pub hull: i64,
    pub fuel: i64,
    pub lost: bool,
    pub score: i64,
}

/// The mathematical image of an attribute state.
pub ghost struct GAttr {
    pub stamina: int,
    pub hull: int,
    pub fuel: int,
    pub lost: bool,
    pub score: int,
}

/// One externally visible mutation of the attribute state.
pub enum AttrOp {
    /// Per-tick decay, at the given run age in ticks.
    Decay(u64),
    /// Stamina bonus for eating a fish.
    EatFish,
    /// Stamina cost of one tick of boosting.
    BoostCost,
    /// Fuel bonus for a delivered fuel pickup.
    GainFuel,
    /// Hull bonus for a delivered tape pickup.
    PatchHull,
    /// Continuous score reward; doubled while airborne.
    Score(bool),
}

/// Per-tick decay of each resource at run age `t` ticks.
pub open spec fn decay_s(t: int) -> int {
    100 + t / 24
}

/// Score gained in one tick: a base rate plus a square-root-of-score rate,
/// doubled in air.
pub open spec fn score_gain_s(score: int, airborne: bool) -> int {
    (30000 + sqrt_floor(score)) * (if airborne { 2int } else { 1int })
}

pub open spec fn apply_op(a: GAttr, op: AttrOp) -> GAttr {
    match op {
        AttrOp::Decay(t) => {
            let stamina = clip(a.stamina - decay_s(t as int), 0, ATTR_ONE as int);
            let hull = clip(a.hull - decay_s(t as int), 0, ATTR_ONE as int);
            let fuel = clip(a.fuel - decay_s(t as int), 0, ATTR_ONE as int);
            GAttr {
                stamina,
                hull,
                fuel,
                lost: a.lost || stamina == 0 || hull == 0 || fuel == 0,
                score: a.score,
            }
        },
        AttrOp::EatFish => GAttr {
            stamina: clip(a.stamina + 150000, 0, ATTR_ONE as int),
            ..a
        },
        AttrOp::BoostCost => GAttr {
            stamina: clip(a.stamina - 300, 0, ATTR_ONE as int),
            ..a
        },
        AttrOp::GainFuel => GAttr {
            fuel: clip(a.fuel + 350000, 0, ATTR_ONE as int),
            ..a
        },
        AttrOp::PatchHull => GAttr {
            hull: clip(a.hull + 350000, 0, ATTR_ONE as int),
            ..a
        },
        AttrOp::Score(airborne) => GAttr {
            score: clip(a.score + score_gain_s(a.score, airborne), 0, SCORE_CAP as int),
            ..a
        },
    }
}

pub open spec fn apply_ops(a: GAttr, ops: Seq<AttrOp>) -> GAttr
    decreases ops.len(),
{
    if ops.len() == 0 {
        a
    } else {
        apply_ops(apply_op(a, ops[0]), ops.subrange(1, ops.len() as int))
    }
}

pub open spec fn valid_g(a: GAttr) -> bool {
    &&& 0 <= a.stamina <= ATTR_ONE as int
    &&& 0 <= a.hull <= ATTR_ONE as int
    &&& 0 <= a.fuel <= ATTR_ONE as int
    &&& 0 <= a.score <= SCORE_CAP as int
}

impl Attr {
    pub open spec fn ga(self) -> GAttr {
        GAttr {
            stamina: self.stamina as int,
            hull: self.hull as int,
            fuel: self.fuel as int,
            lost: self.lost,
            score: self.score as int,
        }
    }

    pub open spec fn valid(self) -> bool {
        valid_g(self.ga())
    }

    pub fn new() -> (r: Attr)
        ensures
            r.stamina == ATTR_ONE,
            r.hull == ATTR_ONE,
            r.fuel == ATTR_ONE,
            r.score == 0,
            !r.lost,
            r.valid(),
    {
        Attr { stamina: ATTR_ONE, hull: ATTR_ONE, fuel: ATTR_ONE, lost: false, score: 0 }
    }

    /// Per-tick decay of the three resources; marks the run lost the moment
    /// any of them is exhausted, and never clears the mark.
    pub fn tick(&mut self, ticks: u64)
        requires
            old(self).valid(),
            ticks <= TICKS_LIMIT,
        ensures
            final(self).ga() == apply_op(old(self).ga(), AttrOp::Decay(ticks)),
            final(self).valid(),
            final(self).score == old(self).score,
            old(self).lost ==> final(self).lost,
    {
        let d: i64 = 100 + (ticks / 24) as i64;
        self.stamina = clip64(self.stamina - d, 0, ATTR_ONE);
        self.hull = clip64(self.hull - d, 0, ATTR_ONE);
        self.fuel = clip64(self.fuel - d, 0, ATTR_ONE);
        if self.stamina == 0 || self.hull == 0 || self.fuel == 0 {
            self.lost = true;
        }
    }

    /// Stamina bonus for eating a fish: exactly 0.15 before clamping.
    pub fn eat_fish(&mut self)
        requires
            old(self).valid(),
        ensures
            final(self).ga() == apply_op(old(self).ga(), AttrOp::EatFish),
            final(self).stamina == clip(old(self).stamina + 150000, 0, ATTR_ONE as int),
            final(self).valid(),
            old(self).lost == final(self).lost,
    {
        self.stamina = clip64(self.stamina + 150000, 0, ATTR_ONE);
    }

    /// Stamina cost of one tick of boosting.
    pub fn boost_cost(&mut self)
        requires
            old(self).valid(),
        ensures
            final(self).ga() == apply_op(old(self).ga(), AttrOp::BoostCost),
            final(self).valid(),
            old(self).lost == final(self).lost,
    {
        self.stamina = clip64(self.stamina - 300, 0, ATTR_ONE);
    }

    /// Fuel bonus for a fuel pickup delivered to the submarine.
    pub fn gain_fuel(&mut self)
        requires
            old(self).valid(),
        ensures
            final(self).ga() == apply_op(old(self).ga(), AttrOp::GainFuel),
            final(self).fuel == clip(old(self).fuel + 350000, 0, ATTR_ONE as int),
            final(self).valid(),
            old(self).lost == final(self).lost,
    {
        self.fuel = clip64(self.fuel + 350000, 0, ATTR_ONE);
    }

    /// Hull bonus for a tape pickup delivered to the submarine.
    pub fn patch_hull(&mut self)
        requires
            old(self).valid(),
        ensures
            final(self).ga() == apply_op(old(self).ga(), AttrOp::PatchHull),
            final(self).hull == clip(old(self).hull + 350000, 0, ATTR_ONE as int),
            final(self).valid(),
            old(self).lost == final(self).lost,
    {
        self.hull = clip64(self.hull + 350000, 0, ATTR_ONE);
    }

    /// Continuous score reward while the player is active; never decreases.
    pub fn award_score(&mut self, airborne: bool)
        requires
            old(self).valid(),
        ensures
            final(self).ga() == apply_op(old(self).ga(), AttrOp::Score(airborne)),
            final(self).score >= old(self).score,
            final(self).valid(),
            old(self).lost == final(self).lost,
    {
        let root: u64 = isqrt64(self.score as u64);
        proof {
            if root > 31622777 {
                assert((root as int) * (root as int) > 1000000000000000) by (nonlinear_arith)
                    requires
                        root as int >= 31622778,
                ;
            }
        }
        let multi: i64 = if airborne {
            2
        } else {
            1
        };
        let gain: i64 = (30000 + (root as i64)) * multi;
        self.score = clip64(self.score + gain, 0, SCORE_CAP);
    }
}

/// Any sequence of decay ticks and bonus applications keeps every attribute
/// within its unit range, never lowers the score, and once the run is lost
/// it stays lost.
pub proof fn lemma_attr_ops_safe(a: GAttr, ops: Seq<AttrOp>)
    requires
        valid_g(a),
    ensures
        valid_g(apply_ops(a, ops)),
        a.lost ==> apply_ops(a, ops).lost,
        apply_ops(a, ops).score >= a.score,
    decreases ops.len(),
{
    if ops.len() > 0 {
        lemma_attr_op_safe(a, ops[0]);
        lemma_attr_ops_safe(apply_op(a, ops[0]), ops.subrange(1, ops.len() as int));
    }
}

/// A single mutation keeps the state valid, never lowers the score, and
/// never clears the loss flag.
pub proof fn lemma_attr_op_safe(a: GAttr, op: AttrOp)
    requires
        valid_g(a),
    ensures
        valid_g(apply_op(a, op)),
        a.lost ==> apply_op(a, op).lost,
        apply_op(a, op).score >= a.score,
{
    if let AttrOp::Score(_) = op {
        let r = crate::fixed::lemma_sqrt_exists(a.score);
        crate::fixed::lemma_sqrt_unique(a.score, r);
    }
}

} // verus!
