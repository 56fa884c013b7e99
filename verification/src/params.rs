//! The recommended population, derived from how many target points there are.

use vstd::prelude::*;

verus! {

/// The smallest population ever recommended.
pub const MIN_BOIDS: i32 = 500;

/// The largest population ever recommended.
pub const MAX_BOIDS: i32 = 5000;

/// The number of target points at which the recommendation reaches `MAX_BOIDS`.
pub const MAX_PIXELS: usize = 7500;

/// The recommendation before any target points were supplied.
pub const INITIAL_ACTIVE: i32 = 3000;

/// The recommended population for `points` target points: the share
/// `points / MAX_PIXELS` of the way from `MIN_BOIDS` to `MAX_BOIDS`, rounded
/// down, and never more than `MAX_BOIDS`.
pub open spec fn recommended(points: nat) -> int {
    let raw = MIN_BOIDS + (points * (MAX_BOIDS - MIN_BOIDS)) / (MAX_PIXELS as int);
    if raw > MAX_BOIDS {
        MAX_BOIDS as int
    } else {
        raw
    }
}

/// More target points never lower the recommendation.
pub proof fn lemma_recommended_monotonic(fewer: nat, more: nat)
    requires
        fewer <= more,
    ensures
        recommended(fewer) <= recommended(more),
{
}

/// The recommendation stays between `MIN_BOIDS` and `MAX_BOIDS`, starts at the
/// one and reaches the other at `MAX_PIXELS` points.
pub proof fn lemma_recommended_range(points: nat)
    ensures
        MIN_BOIDS <= recommended(points) <= MAX_BOIDS,
        recommended(0) == MIN_BOIDS,
        points >= MAX_PIXELS ==> recommended(points) == MAX_BOIDS,
{
}

/// The recommended population for `points` target points.
pub fn active_count_for(points: usize) -> (count: i32)
    ensures
        count == recommended(points as nat),
{
    if points >= MAX_PIXELS {
        MAX_BOIDS
    } else {
        let scaled: u32 = (points as u32) * 4500 / 7500;
        MIN_BOIDS + scaled as i32
    }
}

} // verus!
