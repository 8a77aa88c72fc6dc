//! The boundary to the `rand` crate.
//!
//! What these calls return depends on the thread's random generator, so
//! their contracts state only what holds of every outcome.

use crate::board::Move;
use rand::seq::SliceRandom;
use rand::Rng;
use vstd::prelude::*;

verus! {

/// `Rng::gen::<u64>` on `rand::thread_rng()`: any 64-bit value.
#[verifier::external_body]
pub(crate) fn random_key() -> (r: u64) {
    rand::thread_rng().gen::<u64>()
}

/// `SliceRandom::shuffle` on `rand::thread_rng()`: the crate swaps elements
/// in place, so the same moves remain, each as often as before.
#[verifier::external_body]
pub(crate) fn shuffle(moves: &mut Vec<Move>)
    ensures
        final(moves)@.to_multiset() == old(moves)@.to_multiset(),
{
    moves.shuffle(&mut rand::thread_rng());
}

} // verus!
