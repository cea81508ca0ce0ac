//! Random draws.
use vstd::prelude::*;

use crate::model::{team_of_index, Team};

verus! {

/// Relies on `rand::thread_rng` and `rand::Rng::gen_range` (rand 0.8): a uniform draw
/// from the inclusive range `lo..=hi`, which must not be empty.
#[verifier::external_body]
pub(crate) fn random_between(lo: i64, hi: i64) -> (r: i64)
    requires
        lo <= hi,
    ensures
        lo <= r <= hi,
{
    rand::Rng::gen_range(&mut rand::thread_rng(), lo..=hi)
}

/// The team for draw `k`: 0 is Rock, 1 is Paper, anything else Scissor.
pub fn team_from_index(k: i64) -> (t: Team)
    ensures
        t == team_of_index(k as int),
{
    if k == 0 {
        Team::Rock
    } else if k == 1 {
        Team::Paper
    } else {
        Team::Scissor
    }
}

/// A team drawn uniformly from the three.
pub fn random_team() -> (t: Team)
    ensures
        exists|k: int| 0 <= k <= 2 && t == team_of_index(k),
{
    let k = random_between(0, 2);
    team_from_index(k)
}

} // verus!
