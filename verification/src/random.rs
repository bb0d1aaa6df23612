//! Chance, drawn from the random number generator of the running thread.

use vstd::prelude::*;
use rand::seq::{IteratorRandom, SliceRandom};
use rand::Rng;
use crate::card::Card;

verus! {

/// Shuffles `cards` in place with `rand`'s `SliceRandom::shuffle`, which swaps
/// elements of the slice and does nothing else: afterwards the vector holds
/// the cards it held before, in some order.
#[verifier::external_body]
pub(crate) fn shuffle(cards: &mut Vec<Card>)
    ensures
        final(cards)@.to_multiset() == old(cards)@.to_multiset(),
{
    cards.shuffle(&mut rand::thread_rng());
}

/// Picks one of `cards` with `rand`'s `IteratorRandom::choose`, which returns
/// `None` if and only if the iterator is empty, and otherwise one of the items
/// that the iterator yields.
#[verifier::external_body]
pub(crate) fn pick(cards: Vec<Card>) -> (picked: Option<Card>)
    ensures
        picked is None <==> cards@.len() == 0,
        picked matches Some(card) ==> cards@.contains(card),
{
    cards.into_iter().choose(&mut rand::thread_rng())
}

/// Draws a number from `low..high` with `rand`'s `Rng::gen_range`, which
/// panics on an empty range and otherwise returns a value of the range.
#[verifier::external_body]
pub(crate) fn gen_range(low: i32, high: i32) -> (n: i32)
    requires
        low < high,
    ensures
        low <= n < high,
{
    rand::thread_rng().gen_range(low..high)
}

} // verus!
