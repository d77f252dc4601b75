//! The thread-local random generator, reached through two narrow calls, and
//! the helpers that draw the random values a tick or a spawn consumes.

use vstd::prelude::*;

verus! {

/// One fair coin from `rand::random::<bool>()`. The outcome is chance, so
/// nothing is claimed about it.
#[verifier::external_body]
pub(crate) fn flip_coin() -> (coin: bool) {
    rand::random::<bool>()
}

/// One value from `rand::random_range(0..bound)`. The claim is the one the
/// generator documents for a half-open integer range: the value lies in it.
/// An empty range makes the generator panic, so `bound` must be positive.
#[verifier::external_body]
pub(crate) fn random_below(bound: u32) -> (value: u32)
    requires
        bound > 0,
    ensures
        value < bound,
{
    rand::random_range(0..bound)
}

/// Number of equally likely outcomes of one colour roll.
pub const ROLL_SIDES: u32 = 100;

/// Draws `count` independent fair coins.
pub fn draw_coins(count: usize) -> (coins: Vec<bool>)
    ensures
        coins@.len() == count,
{
    let mut coins: Vec<bool> = Vec::new();
    while coins.len() < count
        invariant
            coins@.len() <= count,
        decreases count - coins@.len(),
    {
        coins.push(flip_coin());
    }
    coins
}

/// Draws `count` independent rolls, each uniform over `0..ROLL_SIDES`.
pub fn draw_rolls(count: usize) -> (rolls: Vec<u32>)
    ensures
        rolls@.len() == count,
        forall|i: int| 0 <= i < rolls@.len() ==> rolls@[i] < ROLL_SIDES,
{
    let mut rolls: Vec<u32> = Vec::new();
    while rolls.len() < count
        invariant
            rolls@.len() <= count,
            forall|i: int| 0 <= i < rolls@.len() ==> rolls@[i] < ROLL_SIDES,
        decreases count - rolls@.len(),
    {
        rolls.push(random_below(ROLL_SIDES));
    }
    rolls
}

} // verus!
