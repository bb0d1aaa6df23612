//! The hand: the cards that travel with the pointer between two piles.

use vstd::prelude::*;
use crate::card::Card;
use crate::components::{fan, fan_fits, queue_fan};
use crate::geometry::Position;
use crate::tileset::{DrawRequest, TileSet};

verus! {

/// The hand hangs this far left of the pointer.
pub const HAND_OFFSET_X: i32 = 35;

/// The hand hangs this far above the pointer.
pub const HAND_OFFSET_Y: i32 = 32;

pub struct Hand {
    pos: Position,
    cards: Vec<Card>,
}

impl Hand {
    /// The cards, in the order they had in the pile they came from.
    pub closed spec fn view(&self) -> Seq<Card> {
        self.cards@
    }

    /// Top-left corner of the first card on the screen.
    pub closed spec fn position(&self) -> Position {
        self.pos
    }

    /// An empty hand at the screen's origin.
    pub fn new() -> (h: Self)
        ensures
            h@ == Seq::<Card>::empty(),
            h.position() == (Position { x: 0, y: 0 }),
    {
        Self { pos: Position { x: 0, y: 0 }, cards: Vec::new() }
    }

    /// Hands over every card held, for a pile to receive.
    pub fn take(&mut self) -> (taken: Vec<Card>)
        ensures
            taken@ == old(self)@,
            final(self)@ == Seq::<Card>::empty(),
            final(self).position() == old(self).position(),
    {
        let mut v: Vec<Card> = Vec::new();
        std::mem::swap(&mut v, &mut self.cards);
        v
    }

    /// Receives the cards picked up from a pile.
    pub fn put(&mut self, cards: Vec<Card>)
        ensures
            final(self)@ == old(self)@ + cards@,
            final(self).position() == old(self).position(),
    {
        let mut cards = cards;
        self.cards.append(&mut cards);
    }

    pub fn is_empty(&self) -> (r: bool)
        ensures
            r == (self@.len() == 0),
    {
        self.cards.len() == 0
    }

    /// The number of cards held.
    pub fn len(&self) -> (n: usize)
        ensures
            n == self@.len(),
    {
        self.cards.len()
    }

    /// The cards held, in the order they had in the pile they came from.
    pub fn cards(&self) -> (cards: &Vec<Card>)
        ensures
            cards@ == self@,
    {
        &self.cards
    }

    /// Top-left corner of the first card on the screen.
    pub fn pos(&self) -> (pos: Position)
        ensures
            pos == self.position(),
    {
        self.pos
    }

    pub fn is_single_card(&self) -> (r: bool)
        ensures
            r == (self@.len() == 1),
    {
        self.cards.len() == 1
    }

    /// The first card held: the one that has to fit the pile the hand is
    /// dropped on.
    pub fn top_card(&self) -> (r: Option<&Card>)
        ensures
            r == (if self@.len() == 0 { None } else { Some(&self@.first()) }),
    {
        if self.cards.len() == 0 {
            None
        } else {
            Some(&self.cards[0])
        }
    }

    /// The pointer can be followed without leaving the coordinate range.
    pub open spec fn can_follow(pointer: Position) -> bool {
        pointer.can_shift(-HAND_OFFSET_X, -HAND_OFFSET_Y)
    }

    /// Moves the hand so that its first card hangs under the pointer.
    pub fn update(&mut self, pointer: Position)
        requires
            Self::can_follow(pointer),
        ensures
            final(self).position() == pointer.shifted(-HAND_OFFSET_X, -HAND_OFFSET_Y),
            final(self)@ == old(self)@,
    {
        self.pos = Position { x: pointer.x - HAND_OFFSET_X, y: pointer.y - HAND_OFFSET_Y };
    }

    /// What draws the hand: its cards fanned downwards, and nothing when it is
    /// empty.
    pub open spec fn draw_list(&self) -> Seq<DrawRequest> {
        fan(self.position(), self@)
    }

    /// Queues the tiles that draw the hand.
    pub fn draw(&self, tileset: &mut TileSet)
        requires
            fan_fits(self.position(), self@.len()),
            old(tileset).has_all(self.draw_list()),
        ensures
            final(tileset).queue() == old(tileset).queue() + old(tileset).sprites(
                self.draw_list(),
            ),
            final(tileset).tiles() == old(tileset).tiles(),
            final(tileset).sheet_dimensions() == old(tileset).sheet_dimensions(),
    {
        queue_fan(self.pos, &self.cards, tileset);
    }
}

} // verus!
