//! The random source of the shuffle: the `rand` crate's thread-local
//! generator, and the one question the shuffle asks of it.

use rand::rngs::ThreadRng;
use rand::Rng;
use vstd::prelude::*;

verus! {

/// `rand::rngs::ThreadRng`, the handle to the generator that each thread
/// keeps. Nothing is known of what it holds.
#[verifier::external_type_specification]
#[verifier::external_body]
pub struct ExThreadRng(rand::rngs::ThreadRng);

/// `rand::thread_rng`: the handle to the calling thread's generator, which
/// the system seeds. Nothing is claimed of the generator. (It gives up, by
/// a panic, only where the system has no entropy to seed it with.)
pub assume_specification[ rand::thread_rng ]() -> (rng: ThreadRng);

/// `rand::Rng::choose` on a list of cells: one of the list's entries,
/// picked by the generator, or nothing where the list is empty. Which
/// entry is picked is not claimed: only that it is one of them.
#[verifier::external_body]
pub(crate) fn choose_move(rng: &mut ThreadRng, moves: &Vec<(u32, u32)>) -> (choice: Option<
    (u32, u32),
>)
    ensures
        moves@.len() == 0 ==> choice is None,
        moves@.len() > 0 ==> choice is Some && moves@.contains(choice->Some_0),
{
    rng.choose(moves).copied()
}

} // verus!
