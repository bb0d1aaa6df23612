//! The victory animation: cards that rain over the table at a steady pace.

use vstd::prelude::*;
use std::collections::VecDeque;
use crate::card::{deck_seq, Card};
use crate::geometry::Position;
use crate::random::{gen_range, pick};
use crate::tileset::{DrawRequest, TileSet};

verus! {

/// The animation shows this many cards at most; the oldest gives way.
pub const FINALE_CAPACITY: usize = 300;

/// Milliseconds between two cards of the animation.
pub const FINALE_INTERVAL: u64 = 35;

/// The queue after a card joined it: the oldest card has left where the queue
/// was full.
pub open spec fn queue_after(queue: Seq<(Card, Position)>, card: Card, pos: Position) -> Seq<
    (Card, Position),
> {
    if queue.len() >= FINALE_CAPACITY {
        queue.drop_first().push((card, pos))
    } else {
        queue.push((card, pos))
    }
}

/// The time on the animation's clock after `delta` more milliseconds, before a
/// card is paid for. The clock stops at the largest value it can hold.
pub open spec fn clock_after(elapsed: u64, delta: u64) -> int {
    if elapsed + delta > u64::MAX {
        u64::MAX as int
    } else {
        elapsed + delta
    }
}

/// Where the animation may put a card: a little beyond the window on each side.
pub open spec fn in_finale_area(pos: Position) -> bool {
    -10 <= pos.x < 810 && -10 <= pos.y < 610
}

pub struct Finale {
    finale_card_positions: VecDeque<(Card, Position)>,
    elapsed: u64,
}

impl Finale {
    /// The cards on show with their places, oldest first.
    pub closed spec fn view(&self) -> Seq<(Card, Position)> {
        self.finale_card_positions@
    }

    /// Milliseconds gone by that no card has been shown for yet.
    pub closed spec fn elapsed(&self) -> u64 {
        self.elapsed
    }

    /// The queue is within its capacity and holds cards of the deck only.
    pub open spec fn wf(&self) -> bool {
        &&& self@.len() <= FINALE_CAPACITY
        &&& forall|i: int| 0 <= i < self@.len() ==> (#[trigger] self@[i]).0.in_deck()
    }

    pub fn new() -> (f: Self)
        ensures
            f@ == Seq::<(Card, Position)>::empty(),
            f.elapsed() == 0,
            f.wf(),
    {
        Self { finale_card_positions: VecDeque::new(), elapsed: 0 }
    }

    /// The number of cards on show.
    pub fn len(&self) -> (n: usize)
        ensures
            n == self@.len(),
    {
        self.finale_card_positions.len()
    }

    /// The `i`-th card on show, counted from the oldest, and its place.
    pub fn particle(&self, i: usize) -> (p: (Card, Position))
        requires
            i < self@.len(),
        ensures
            p == self@[i as int],
    {
        self.finale_card_positions[i]
    }

    /// The animation has begun: it shows a card.
    pub fn is_playing(&self) -> (r: bool)
        ensures
            r == (self@.len() > 0),
    {
        self.finale_card_positions.len() > 0
    }

    /// Shows `card` at `pos`, in place of the oldest card where the queue is full.
    pub fn emit(&mut self, card: Card, pos: Position)
        ensures
            final(self)@ == queue_after(old(self)@, card, pos),
            final(self).elapsed() == old(self).elapsed(),
            old(self).wf() && card.in_deck() ==> final(self).wf(),
    {
        if self.finale_card_positions.len() >= FINALE_CAPACITY {
            self.finale_card_positions.pop_front();
        }
        self.finale_card_positions.push_back((card, pos));
    }

    /// `self` is what `delta` more milliseconds make of `before`: with more
    /// than one interval on the clock, one interval is paid and a card of the
    /// deck is shown somewhere in the animation's area; else only the clock
    /// moves.
    pub open spec fn follows(&self, before: &Finale, delta: u64, ticked: bool) -> bool {
        &&& ticked == (clock_after(before.elapsed(), delta) > FINALE_INTERVAL)
        &&& !ticked ==> self@ == before@ && self.elapsed() == clock_after(before.elapsed(), delta)
        &&& ticked ==> {
            &&& self.elapsed() == clock_after(before.elapsed(), delta) - FINALE_INTERVAL
            &&& self@.len() > 0
            &&& self@ == queue_after(before@, self@.last().0, self@.last().1)
            &&& self@.last().0.in_deck()
            &&& in_finale_area(self@.last().1)
        }
    }

    /// Lets `delta` milliseconds pass. When more than one interval has run up
    /// on the clock, one interval is paid and a card of the deck, drawn by
    /// chance, is shown at a place drawn by chance.
    pub fn update(&mut self, delta: u64) -> (ticked: bool)
        ensures
            final(self).follows(old(self), delta, ticked),
            old(self).wf() ==> final(self).wf(),
    {
        let clock: u64 = if delta > u64::MAX - self.elapsed {
            u64::MAX
        } else {
            self.elapsed + delta
        };
        if clock > FINALE_INTERVAL {
            self.elapsed = clock - FINALE_INTERVAL;
            let picked = pick(Card::deck());
            let x: i32 = gen_range(-10, 810);
            let y: i32 = gen_range(-10, 610);
            match picked {
                Some(card) => {
                    assert(deck_seq().contains(card));
                    self.emit(card, Position { x, y });
                },
                None => {
                    assert(false);
                },
            }
            true
        } else {
            self.elapsed = clock;
            false
        }
    }

    /// What draws the animation: every card on show at its place, oldest first.
    pub open spec fn draw_list(&self) -> Seq<DrawRequest> {
        Seq::new(self@.len(), |i: int| DrawRequest { key: Some(self@[i].0), pos: self@[i].1 })
    }

    /// Queues the tiles that draw the animation.
    pub fn draw(&self, tileset: &mut TileSet)
        requires
            old(tileset).has_all(self.draw_list()),
        ensures
            final(tileset).queue() == old(tileset).queue() + old(tileset).sprites(
                self.draw_list(),
            ),
            final(tileset).tiles() == old(tileset).tiles(),
            final(tileset).sheet_dimensions() == old(tileset).sheet_dimensions(),
    {
        let ghost requests = self.draw_list();
        let mut i: usize = 0;
        while i < self.finale_card_positions.len()
            invariant
                i <= self@.len(),
                requests == self.draw_list(),
                tileset.has_all(requests),
                tileset.tiles() == old(tileset).tiles(),
                tileset.sheet_dimensions() == old(tileset).sheet_dimensions(),
                tileset.queue() == old(tileset).queue() + old(tileset).sprites(requests).subrange(
                    0,
                    i as int,
                ),
            decreases self@.len() - i,
        {
            let (card, pos) = self.finale_card_positions[i];
            assert(tileset.tiles().contains_key(requests[i as int].key));
            let queued = tileset.queue_tile(Some(card), pos);
            assert(queued is Ok);
            assert(tileset.queue() =~= old(tileset).queue() + old(tileset).sprites(
                requests,
            ).subrange(0, i + 1));
            i += 1;
        }
        assert(old(tileset).sprites(requests).subrange(0, i as int) =~= old(tileset).sprites(
            requests,
        ));
    }
}

} // verus!
