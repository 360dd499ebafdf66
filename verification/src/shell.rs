//! The thin decision layer around a run: cross-session statistics, the
//! game-over bookkeeping, and when a menu or game-over screen yields to the
//! next state.

use vstd::prelude::*;
use crate::attr::SCORE_CAP;

verus! {

/// Cross-session statistics, persisted outside the simulation.
#[derive(Clone, Copy, PartialEq, Eq, Structural, Debug)]
pub struct Universals {
    pub high_score: u32,
    pub total_score: u32,
}

/// The score in whole points, from its micro-scaled value.
pub fn score_points(score: i64) -> (r: u32)
    requires
        0 <= score <= SCORE_CAP,
    ensures
        r == score / 1000000,
{
    ((score as u64) / 1000000) as u32
}

/// Game-over bookkeeping: folds a finished run's points into the
/// statistics and says whether the run set (or matched) the high score.
pub fn finish_run(u: &mut Universals, points: u32) -> (high: bool)
    requires
        old(u).total_score + points <= u32::MAX,
    ensures
        final(u).high_score == if points > old(u).high_score {
            points as int
        } else {
            old(u).high_score as int
        },
        final(u).total_score == old(u).total_score + points,
        high == (points >= old(u).high_score),
{
    if points > u.high_score {
        u.high_score = points;
    }
    u.total_score = u.total_score + points;
    points == u.high_score
}

/// Whether a menu or game-over screen hands over to the next state: the
/// confirm key is down and the screen has been up longer than half a
/// second (thirty ticks).
pub fn screen_advances(confirm: bool, ticks: u64) -> (r: bool)
    ensures
        r == (confirm && ticks > 30),
{
    confirm && ticks > 30
}

} // verus!
