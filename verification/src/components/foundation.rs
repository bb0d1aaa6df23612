//! A foundation: one suit built upwards from the ace.

use vstd::prelude::*;
use crate::card::Card;
use crate::components::{card_contains, card_covers, queue_single, single};
use crate::tileset::{DrawRequest, TileSet};
use crate::game::Collision;
use crate::geometry::Position;

verus! {

/// `s` climbs rank by rank within one suit.
pub open spec fn is_suit_run(s: Seq<Card>) -> bool {
    forall|i: int| 0 < i < s.len() ==> (#[trigger] s[i]).spec_follows(&s[i - 1])
}

/// `s` is what a foundation holds in a regular game: empty, or one suit from
/// the ace upwards without a gap.
pub open spec fn is_ace_up(s: Seq<Card>) -> bool {
    &&& s.len() > 0 ==> s[0].spec_is_ace()
    &&& is_suit_run(s)
}

/// A foundation holding `cards` takes `card` on top: the ace when it is empty,
/// else the next rank of its top card's suit.
pub open spec fn foundation_accepts(cards: Seq<Card>, card: Card) -> bool {
    if cards.len() == 0 {
        card.spec_is_ace()
    } else {
        card.spec_follows(&cards.last())
    }
}

/// What draws a foundation of `cards` at `corner`: its top card, or the mark of
/// an empty place.
pub open spec fn foundation_requests(corner: Position, cards: Seq<Card>) -> Seq<DrawRequest> {
    if cards.len() == 0 {
        single(corner, None)
    } else {
        single(corner, Some(cards.last()))
    }
}

pub struct Foundation {
    pos: Position,
    cards: Vec<Card>,
}

impl Foundation {
    /// The cards, bottom to top.
    pub closed spec fn view(&self) -> Seq<Card> {
        self.cards@
    }

    /// Top-left corner of the pile on the screen.
    pub closed spec fn position(&self) -> Position {
        self.pos
    }

    pub fn new(pos: Position, cards: Vec<Card>) -> (f: Self)
        ensures
            f@ == cards@,
            f.position() == pos,
    {
        Self { pos, cards }
    }

    /// Removes the top card, if there is one, and returns it.
    pub fn take(&mut self) -> (taken: Option<Card>)
        ensures
            old(self)@.len() == 0 ==> taken is None && final(self)@ == old(self)@,
            old(self)@.len() > 0 ==> {
                &&& taken == Some(old(self)@.last())
                &&& final(self)@ == old(self)@.drop_last()
            },
            final(self).position() == old(self).position(),
            is_ace_up(old(self)@) ==> is_ace_up(final(self)@),
    {
        self.cards.pop()
    }

    /// Lays `card` on top. The pile stays in order where `can_stack` allowed
    /// the card.
    pub fn put(&mut self, card: Card)
        ensures
            final(self)@ == old(self)@.push(card),
            final(self).position() == old(self).position(),
            is_ace_up(old(self)@) && foundation_accepts(old(self)@, card) ==> is_ace_up(
                final(self)@,
            ),
    {
        self.cards.push(card);
    }

    pub fn is_empty(&self) -> (r: bool)
        ensures
            r == (self@.len() == 0),
    {
        self.cards.len() == 0
    }

    /// The cards, bottom to top.
    pub fn cards(&self) -> (cards: &Vec<Card>)
        ensures
            cards@ == self@,
    {
        &self.cards
    }

    /// Top-left corner of the pile on the screen.
    pub fn pos(&self) -> (pos: Position)
        ensures
            pos == self.position(),
    {
        self.pos
    }

    pub fn top_card(&self) -> (r: Option<&Card>)
        ensures
            r == (if self@.len() == 0 { None } else { Some(&self@.last()) }),
    {
        let len: usize = self.cards.len();
        if len == 0 {
            None
        } else {
            Some(&self.cards[len - 1])
        }
    }

    /// Whether `card` may be laid on this pile.
    pub fn can_stack(&self, card: &Card) -> (r: bool)
        ensures
            r == foundation_accepts(self@, *card),
    {
        match self.top_card() {
            Some(stack_top_card) => card.follows(stack_top_card),
            None => card.is_ace(),
        }
    }
}

impl Foundation {
    /// What draws this pile.
    pub open spec fn draw_list(&self) -> Seq<DrawRequest> {
        foundation_requests(self.position(), self@)
    }

    /// Queues the tile that draws this pile.
    pub fn draw(&self, tileset: &mut TileSet)
        requires
            old(tileset).has_all(self.draw_list()),
        ensures
            final(tileset).queue() == old(tileset).queue() + old(tileset).sprites(
                self.draw_list(),
            ),
            final(tileset).tiles() == old(tileset).tiles(),
            final(tileset).sheet_dimensions() == old(tileset).sheet_dimensions(),
    {
        assert(self.draw_list()[0].key == (if self@.len() == 0 {
            None
        } else {
            Some(self@.last())
        }));
        match self.top_card() {
            None => queue_single(self.pos, None, tileset),
            Some(card) => queue_single(self.pos, Some(*card), tileset),
        }
    }
}

impl Collision for Foundation {
    open spec fn covers(&self, pos: Position) -> bool {
        card_covers(self.position(), pos)
    }

    fn inside(&self, pos: Position) -> (hit: bool) {
        card_contains(self.pos, pos)
    }
}

} // verus!
