//! The agent that moves at random, and the two draws of chance that the
//! other agents share with it.

use vstd::prelude::*;
use rand::seq::IndexedRandom;
use rand::seq::SliceRandom;
use crate::ai::{Game, Move};

verus! {

/// The agent that picks any legal move.
pub struct RandomAI {}

/// Draws one item of `items` with `rand::seq::IndexedRandom::choose`, on the
/// generator of `rand::rng`. Which item comes back is left open: the contract
/// holds only what that method's source shows of every draw, that an empty
/// list gives nothing and any other list gives one of its items. Nothing is
/// proved of it. The generator stops the program where the system has no
/// randomness to seed it with, at its start or when it seeds itself anew; no
/// argument of this function has a part in that.
#[verifier::external_body]
pub(crate) fn pick_one<A: Copy>(items: &Vec<A>) -> (picked: Option<A>)
    ensures
        items@.len() == 0 ==> picked is None,
        items@.len() > 0 ==> picked is Some && items@.contains(picked->Some_0),
{
    let mut rng = rand::rng();
    items.choose(&mut rng).copied()
}

/// Reorders `items` with `rand::seq::SliceRandom::shuffle`, on the generator
/// of `rand::rng`. The order that results is left open: the method only swaps
/// items, so the list holds afterwards what it held before, and that is all
/// the contract says. Nothing is proved of it. The generator stops the
/// program where the system has no randomness to seed it with, at its start
/// or when it seeds itself anew; no argument of this function has a part in
/// that.
#[verifier::external_body]
pub(crate) fn shuffle<A>(items: &mut Vec<A>)
    ensures
        final(items)@.to_multiset() == old(items)@.to_multiset(),
{
    let mut rng = rand::rng();
    items.shuffle(&mut rng);
}

/// Picks one of the legal moves of `board`, whichever chance gives.
pub fn random_move<T: Game>(board: T) -> (mv: Move)
    requires
        T::moves_of(board@).len() > 0,
    ensures
        T::moves_of(board@).contains(mv),
{
    let ai_moves = board.get_possible_moves();
    match pick_one(&ai_moves) {
        Some(mv) => mv,
        None => unreached(),
    }
}

} // verus!
