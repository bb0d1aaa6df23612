//! Playing cards and the predicates the rules are built from.

use vstd::prelude::*;

verus! {

/// Height of a card sprite in pixels.
pub const CARD_HEIGHT: i32 = 96;

/// Width of a card sprite in pixels.
pub const CARD_WIDTH: i32 = 71;

/// Number of suits in a deck.
pub const SUITS: u8 = 4;

/// Number of ranks in a suit; rank 0 is the ace.
pub const VALUES: u8 = 13;

/// A playing card. Suits `0` and `2` are red, `1` and `3` are black.
#[derive(PartialEq, Eq, Structural, Hash, Clone, Copy, Debug)]
pub struct Card {
    pub suit: u8,
    pub value: u8,
}

/// The unshuffled deck: suits in order, and within a suit the ranks in order.
pub open spec fn deck_seq() -> Seq<Card> {
    Seq::new(52, |i: int| Card { suit: (i / 13) as u8, value: (i % 13) as u8 })
}

impl Card {
    /// The card belongs to the standard 52-card deck.
    pub open spec fn in_deck(&self) -> bool {
        self.suit < 4 && self.value < 13
    }

    pub open spec fn spec_is_ace(&self) -> bool {
        self.value == 0
    }

    pub open spec fn spec_is_red(&self) -> bool {
        self.suit % 2 == 0
    }

    /// `self` is the next rank up from `previous`, in the same suit.
    pub open spec fn spec_follows(&self, previous: &Card) -> bool {
        previous.suit == self.suit && previous.value + 1 == self.value
    }

    /// `self` is the next rank up from `previous`, in the other colour.
    pub open spec fn spec_follows_alternating(&self, previous: &Card) -> bool {
        previous.spec_is_red() != self.spec_is_red() && previous.value + 1 == self.value
    }

    #[verifier::when_used_as_spec(spec_is_ace)]
    pub fn is_ace(&self) -> (r: bool)
        ensures
            r == self.spec_is_ace(),
    {
        self.value == 0
    }

    #[verifier::when_used_as_spec(spec_is_red)]
    pub fn is_red(&self) -> (r: bool)
        ensures
            r == self.spec_is_red(),
    {
        self.suit % 2 == 0
    }

    #[verifier::when_used_as_spec(spec_follows)]
    pub fn follows(&self, previous: &Card) -> (r: bool)
        ensures
            r == self.spec_follows(previous),
    {
        previous.suit == self.suit && self.value > 0 && previous.value == self.value - 1
    }

    #[verifier::when_used_as_spec(spec_follows_alternating)]
    pub fn follows_alternating(&self, previous: &Card) -> (r: bool)
        ensures
            r == self.spec_follows_alternating(previous),
    {
        previous.is_red() != self.is_red() && self.value > 0 && previous.value == self.value
            - 1
    }

    /// Builds the unshuffled deck.
    pub fn deck() -> (d: Vec<Card>)
        ensures
            d@ == deck_seq(),
    {
        let mut d: Vec<Card> = Vec::new();
        let mut suit: u8 = 0;
        while suit < 4
            invariant
                suit <= 4,
                d@.len() == 13 * suit,
                forall|i: int| 0 <= i < d@.len() ==> d@[i] == deck_seq()[i],
            decreases 4 - suit,
        {
            let mut value: u8 = 0;
            while value < 13
                invariant
                    suit < 4,
                    value <= 13,
                    d@.len() == 13 * suit + value,
                    forall|i: int| 0 <= i < d@.len() ==> d@[i] == deck_seq()[i],
                decreases 13 - value,
            {
                d.push(Card { suit, value });
                value += 1;
            }
            suit += 1;
        }
        d
    }
}

} // verus!
