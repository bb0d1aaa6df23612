//! A free cell: a holding pen for one card.

use vstd::prelude::*;
use crate::card::Card;
use crate::components::{card_contains, card_covers, queue_single, single};
use crate::tileset::{DrawRequest, TileSet};
use crate::game::Collision;
use crate::geometry::Position;

verus! {

pub struct Cell {
    pos: Position,
    card: Option<Card>,
}

impl Cell {
    /// The card held, if any.
    pub closed spec fn view(&self) -> Option<Card> {
        self.card
    }

    /// Top-left corner of the cell on the screen.
    pub closed spec fn position(&self) -> Position {
        self.pos
    }

    pub fn new(pos: Position, card: Option<Card>) -> (c: Self)
        ensures
            c@ == card,
            c.position() == pos,
    {
        Self { pos, card }
    }

    /// Removes the card, if there is one, and returns it.
    pub fn take(&mut self) -> (taken: Option<Card>)
        ensures
            taken == old(self)@,
            final(self)@ is None,
            final(self).position() == old(self).position(),
    {
        self.card.take()
    }

    /// Stores `card`; a card already held is overwritten.
    pub fn put(&mut self, card: Card)
        ensures
            final(self)@ == Some(card),
            final(self).position() == old(self).position(),
    {
        self.card = Some(card)
    }

    pub fn is_empty(&self) -> (r: bool)
        ensures
            r == (self@ is None),
    {
        self.card.is_none()
    }

    /// Top-left corner of the cell on the screen.
    pub fn pos(&self) -> (pos: Position)
        ensures
            pos == self.position(),
    {
        self.pos
    }

    /// The card held, without removing it.
    pub fn card(&self) -> (r: Option<&Card>)
        ensures
            r == (match self@ {
                Some(c) => Some(&c),
                None => None,
            }),
    {
        self.card.as_ref()
    }
}

impl Cell {
    /// What draws this cell: its card, or the mark of an empty place.
    pub open spec fn draw_list(&self) -> Seq<DrawRequest> {
        single(self.position(), self@)
    }

    /// Queues the tile that draws this cell.
    pub fn draw(&self, tileset: &mut TileSet)
        requires
            old(tileset).has_all(self.draw_list()),
        ensures
            final(tileset).queue() == old(tileset).queue() + old(tileset).sprites(
                self.draw_list(),
            ),
            final(tileset).tiles() == old(tileset).tiles(),
            final(tileset).sheet_dimensions() == old(tileset).sheet_dimensions(),
    {
        assert(self.draw_list()[0].key == self@);
        queue_single(self.pos, self.card, tileset);
    }
}

impl Collision for Cell {
    open spec fn covers(&self, pos: Position) -> bool {
        card_covers(self.position(), pos)
    }

    fn inside(&self, pos: Position) -> (hit: bool) {
        card_contains(self.pos, pos)
    }
}

} // verus!
