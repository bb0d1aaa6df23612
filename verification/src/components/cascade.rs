//! A tableau pile: cards fanned downwards, the last one in front.

use vstd::prelude::*;
use crate::card::{Card, CARD_HEIGHT, CARD_WIDTH};
use crate::game::Collision;
use crate::components::{
    fan, fan_fits, queue_fan, queue_single, single, CARD_STACK_INCREMENT,
};
use crate::geometry::{rect_covers, Position};
use crate::tileset::{DrawRequest, TileSet};

verus! {

/// Height of the screen area taken by a cascade of `len` cards.
pub open spec fn cascade_height(len: nat) -> int {
    if len == 0 {
        CARD_HEIGHT as int
    } else {
        (len - 1) * CARD_STACK_INCREMENT + CARD_HEIGHT
    }
}

/// `p` lies on a cascade of `len` cards whose top-left corner is at `corner`.
pub open spec fn cascade_covers(corner: Position, len: nat, p: Position) -> bool {
    rect_covers(corner, CARD_WIDTH as int, cascade_height(len), p)
}

/// The row of a fanned cascade that a point `dy` pixels below its top edge
/// falls in: the first row whose lower boundary is at or below the point.
pub open spec fn grab_row(dy: int) -> int {
    if dy <= 0 {
        0
    } else {
        (dy - 1) / (CARD_STACK_INCREMENT as int)
    }
}

/// How many cards a press at `p` grabs from a cascade of `len` cards at `corner`:
/// none off the pile, the cards from the pressed row to the front on a row,
/// and one below the last row.
pub open spec fn grab_count(corner: Position, len: nat, p: Position) -> nat {
    if !cascade_covers(corner, len, p) {
        0
    } else if grab_row(p.y - corner.y) < len {
        (len - grab_row(p.y - corner.y)) as nat
    } else {
        1
    }
}

/// The row that `grab_row` names is the first whose lower boundary is at or
/// below the point: the point is not below that boundary, and it is below the
/// boundary of every `row` before.
pub proof fn lemma_grab_row(dy: int, row: int)
    requires
        0 <= dy,
        0 <= row,
    ensures
        0 <= grab_row(dy),
        dy <= (grab_row(dy) + 1) * CARD_STACK_INCREMENT,
        row < grab_row(dy) ==> dy > (row + 1) * CARD_STACK_INCREMENT,
{
}

/// A press on a cascade grabs at least one card, and no more than the cascade
/// holds unless it is empty.
pub proof fn lemma_grab_count(corner: Position, len: nat, p: Position)
    requires
        cascade_covers(corner, len, p),
    ensures
        1 <= grab_count(corner, len, p),
        len > 0 ==> grab_count(corner, len, p) <= len,
{
}

/// `s` is a movable run: each card is one rank below the card before it and of
/// the other colour.
pub open spec fn is_run(s: Seq<Card>) -> bool {
    forall|i: int| 0 < i < s.len() ==> (#[trigger] s[i - 1]).spec_follows_alternating(&s[i])
}

/// The last `n` cards of `s`, or all of `s` where it has fewer.
pub open spec fn last_cards(s: Seq<Card>, n: nat) -> Seq<Card> {
    if n >= s.len() {
        s
    } else {
        s.subrange(s.len() - n, s.len() as int)
    }
}

/// What is left of `s` below its last `n` cards.
pub open spec fn without_last(s: Seq<Card>, n: nat) -> Seq<Card> {
    if n >= s.len() {
        Seq::empty()
    } else {
        s.subrange(0, s.len() - n)
    }
}

/// A cascade holding `cards` takes `card` on top: it is empty, or `card` is one
/// rank below its front card and of the other colour.
pub open spec fn cascade_accepts(cards: Seq<Card>, card: Card) -> bool {
    cards.len() == 0 || cards.last().spec_follows_alternating(&card)
}

/// What draws a cascade of `cards` at `corner`: the mark of an empty place, or
/// the cards fanned downwards.
pub open spec fn cascade_requests(corner: Position, cards: Seq<Card>) -> Seq<DrawRequest> {
    if cards.len() == 0 {
        single(corner, None)
    } else {
        fan(corner, cards)
    }
}

pub struct Cascade {
    pos: Position,
    cards: Vec<Card>,
}

impl Cascade {
    /// The cards, back to front.
    pub closed spec fn view(&self) -> Seq<Card> {
        self.cards@
    }

    /// Top-left corner of the pile on the screen.
    pub closed spec fn position(&self) -> Position {
        self.pos
    }

    pub fn new(pos: Position, cards: Vec<Card>) -> (c: Self)
        ensures
            c@ == cards@,
            c.position() == pos,
    {
        Self { pos, cards }
    }

    /// Removes the last `n` cards and returns them in their order; a pile with
    /// fewer cards gives all it has.
    pub fn take(&mut self, n: usize) -> (taken: Vec<Card>)
        ensures
            taken@ == last_cards(old(self)@, n as nat),
            final(self)@ == without_last(old(self)@, n as nat),
            final(self).position() == old(self).position(),
    {
        let len: usize = self.cards.len();
        if n >= len {
            let mut all: Vec<Card> = Vec::new();
            all.append(&mut self.cards);
            all
        } else {
            self.cards.split_off(len - n)
        }
    }

    /// Removes every card and returns them in their order.
    pub fn take_all(&mut self) -> (taken: Vec<Card>)
        ensures
            taken@ == old(self)@,
            final(self)@ == Seq::<Card>::empty(),
            final(self).position() == old(self).position(),
    {
        let mut v: Vec<Card> = Vec::new();
        std::mem::swap(&mut v, &mut self.cards);
        v
    }

    /// Lays `cards` on the pile, keeping their order.
    pub fn put(&mut self, cards: Vec<Card>)
        ensures
            final(self)@ == old(self)@ + cards@,
            final(self).position() == old(self).position(),
    {
        let mut cards = cards;
        self.cards.append(&mut cards);
    }

    pub fn is_empty(&self) -> (r: bool)
        ensures
            r == (self@.len() == 0),
    {
        self.cards.len() == 0
    }

    /// The cards, back to front.
    pub fn cards(&self) -> (cards: &Vec<Card>)
        ensures
            cards@ == self@,
    {
        &self.cards
    }

    /// Top-left corner of the pile on the screen.
    pub fn pos(&self) -> (pos: Position)
        ensures
            pos == self.position(),
    {
        self.pos
    }

    /// The number of cards a press at `pos` would grab.
    pub fn cards_to_take(&self, pos: Position) -> (n: usize)
        ensures
            n == grab_count(self.position(), self@.len(), pos),
    {
        if !self.inside(pos) {
            0
        } else {
            let len: usize = self.cards.len();
            let dy: i128 = pos.y as i128 - self.pos.y as i128;
            let step: i128 = CARD_STACK_INCREMENT as i128;
            assert(step == 24);
            let mut i: usize = 0;
            while i < len
                invariant
                    i <= len,
                    len == self.cards@.len(),
                    dy == pos.y - self.pos.y,
                    cascade_covers(self.pos, len as nat, pos),
                    step == 24,
                    i > 0 ==> dy > i * step,
                decreases len - i,
            {
                if dy <= (1 + i as i128) * step {
                    return len - i;
                }
                i += 1;
            }
            1
        }
    }

    /// Whether the last `n` cards form a movable run; with fewer than `n`
    /// cards, whether the whole pile does.
    pub fn has_alternating_color_cards(&self, n: usize) -> (r: bool)
        ensures
            r == is_run(last_cards(self@, n as nat)),
    {
        let len: usize = self.cards.len();
        let start: usize = if n >= len { 0 } else { len - n };
        if start == len {
            return true;
        }
        let ghost run = last_cards(self@, n as nat);
        let mut i: usize = start + 1;
        while i < len
            invariant
                start < len,
                start < i <= len,
                len == self.cards@.len(),
                run == self.cards@.subrange(start as int, len as int),
                run == last_cards(self@, n as nat),
                forall|k: int|
                    0 < k < i - start ==> (#[trigger] run[k - 1]).spec_follows_alternating(
                        &run[k],
                    ),
            decreases len - i,
        {
            if !self.cards[i - 1].follows_alternating(&self.cards[i]) {
                assert(!run[(i - start) - 1].spec_follows_alternating(&run[i - start]));
                return false;
            }
            i += 1;
        }
        true
    }

    /// Whether the whole pile is one movable run.
    pub fn has_all_alternating(&self) -> (r: bool)
        ensures
            r == is_run(self@),
    {
        self.has_alternating_color_cards(self.cards.len())
    }

    /// The back card, the one that was laid first.
    pub fn top_card(&self) -> (r: Option<&Card>)
        ensures
            r == (if self@.len() == 0 { None } else { Some(&self@.first()) }),
    {
        if self.cards.len() == 0 {
            None
        } else {
            Some(&self.cards[0])
        }
    }

    /// The front card, the one a press can grab.
    pub fn bottom_card(&self) -> (r: Option<&Card>)
        ensures
            r == (if self@.len() == 0 { None } else { Some(&self@.last()) }),
    {
        let len: usize = self.cards.len();
        if len == 0 {
            None
        } else {
            Some(&self.cards[len - 1])
        }
    }

    /// Whether `card` may be laid on this pile.
    pub fn can_stack(&self, card: &Card) -> (r: bool)
        ensures
            r == cascade_accepts(self@, *card),
    {
        match self.bottom_card() {
            Some(column_bottom_card) => column_bottom_card.follows_alternating(card),
            None => true,
        }
    }
}

impl Cascade {
    /// What draws this pile.
    pub open spec fn draw_list(&self) -> Seq<DrawRequest> {
        cascade_requests(self.position(), self@)
    }

    /// Queues the tiles that draw this pile.
    pub fn draw(&self, tileset: &mut TileSet)
        requires
            fan_fits(self.position(), self@.len()),
            old(tileset).has_all(self.draw_list()),
        ensures
            final(tileset).queue() == old(tileset).queue() + old(tileset).sprites(
                self.draw_list(),
            ),
            final(tileset).tiles() == old(tileset).tiles(),
            final(tileset).sheet_dimensions() == old(tileset).sheet_dimensions(),
    {
        if self.is_empty() {
            assert(self.draw_list()[0].key is None);
            queue_single(self.pos, None, tileset);
        } else {
            queue_fan(self.pos, &self.cards, tileset);
        }
    }
}

impl Collision for Cascade {
    open spec fn covers(&self, pos: Position) -> bool {
        cascade_covers(self.position(), self@.len(), pos)
    }

    fn inside(&self, pos: Position) -> (hit: bool) {
        let len: usize = self.cards.len();
        let step: i128 = CARD_STACK_INCREMENT as i128;
        assert(step == 24);
        let height: i128 = if len == 0 {
            CARD_HEIGHT as i128
        } else {
            (len as i128 - 1) * step + CARD_HEIGHT as i128
        };
        let dx: i128 = pos.x as i128 - self.pos.x as i128;
        let dy: i128 = pos.y as i128 - self.pos.y as i128;
        0 <= dx && dx <= CARD_WIDTH as i128 && 0 <= dy && dy <= height
    }
}

} // verus!
