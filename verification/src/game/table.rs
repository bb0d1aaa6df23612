//! The state of a game as plain mathematics, and the moves as functions on it.

use vstd::prelude::*;
use vstd::multiset::Multiset;
use crate::card::{deck_seq, Card};
use crate::components::cascade::{
    cascade_accepts, cascade_covers, cascade_requests, grab_count, is_run, last_cards,
    without_last,
};
use crate::components::foundation::{foundation_accepts, foundation_requests, is_ace_up};
use crate::components::{card_covers, fan, single};
use crate::game::init::{
    cascade_position, cell_position, dealt, foundation_position, is_fresh_row,
};
use crate::geometry::Position;
use crate::tileset::DrawRequest;

verus! {

/// The pile that the cards in the hand were taken from.
#[derive(PartialEq, Eq, Structural, Clone, Copy, Debug)]
pub enum CardSource {
    Cell(usize),
    Cascade(usize),
    Foundation(usize),
}

/// A button of the pointing device.
#[derive(PartialEq, Eq, Structural, Clone, Copy, Debug)]
pub enum MouseButton {
    Left,
    Right,
    Middle,
    Other,
}

/// A sound for the front end to play after an event.
#[derive(PartialEq, Eq, Structural, Clone, Copy, Debug)]
pub enum Sound {
    /// Cards were picked up.
    Take,
    /// The hand was emptied onto a pile.
    Drop,
    /// A card was sent straight to a foundation.
    Send,
    /// A new game was dealt.
    Deal,
}

/// What the pointing device reports: a button went down or up at a point.
#[derive(PartialEq, Eq, Structural, Clone, Copy, Debug)]
pub enum PointerEvent {
    Down(MouseButton, Position),
    Up(MouseButton, Position),
}

/// The first index in `from..to` at which `pred` holds.
pub open spec fn first_index(from: int, to: int, pred: spec_fn(int) -> bool) -> Option<int>
    decreases to - from,
{
    if from >= to {
        None
    } else if pred(from) {
        Some(from)
    } else {
        first_index(from + 1, to, pred)
    }
}

/// What `first_index` finds is in range, satisfies the predicate, and nothing
/// before it does; it finds nothing only where nothing satisfies it.
pub proof fn lemma_first_index(from: int, to: int, pred: spec_fn(int) -> bool)
    ensures
        match first_index(from, to, pred) {
            Some(i) => {
                &&& from <= i < to
                &&& pred(i)
                &&& forall|j: int| from <= j < i ==> !#[trigger] pred(j)
            },
            None => forall|j: int| from <= j < to ==> !#[trigger] pred(j),
        },
    decreases to - from,
{
    if from < to && !pred(from) {
        lemma_first_index(from + 1, to, pred);
    }
}

/// The cards of a free cell as a sequence of at most one card.
pub open spec fn slot_cards(slot: Option<Card>) -> Seq<Card> {
    match slot {
        Some(c) => seq![c],
        None => Seq::empty(),
    }
}

/// All the cards of a row of piles, as a multiset.
pub open spec fn cards_in(piles: Seq<Seq<Card>>) -> Multiset<Card>
    decreases piles.len(),
{
    if piles.len() == 0 {
        Multiset::empty()
    } else {
        cards_in(piles.drop_last()).add(piles.last().to_multiset())
    }
}

/// The number of cards in a row of piles.
pub open spec fn count_in(piles: Seq<Seq<Card>>) -> nat
    decreases piles.len(),
{
    if piles.len() == 0 {
        0
    } else {
        count_in(piles.drop_last()) + piles.last().len()
    }
}

/// The first `k + 1` piles of a row hold what the first `k` hold and pile `k`.
pub proof fn lemma_count_in_step(piles: Seq<Seq<Card>>, k: int)
    requires
        0 <= k < piles.len(),
    ensures
        count_in(piles.subrange(0, k + 1)) == count_in(piles.subrange(0, k)) + piles[k].len(),
{
    assert(piles.subrange(0, k + 1).drop_last() =~= piles.subrange(0, k));
}

/// The multiset of a row of piles has as many cards as the piles together.
pub proof fn lemma_count_in(piles: Seq<Seq<Card>>)
    ensures
        cards_in(piles).len() == count_in(piles),
    decreases piles.len(),
{
    if piles.len() > 0 {
        lemma_count_in(piles.drop_last());
        piles.last().to_multiset_ensures();
    }
}

/// Replacing pile `i` by `pile` trades the old pile's cards for the new one's.
pub proof fn lemma_cards_in_update(piles: Seq<Seq<Card>>, i: int, pile: Seq<Card>)
    requires
        0 <= i < piles.len(),
    ensures
        cards_in(piles.update(i, pile)).add(piles[i].to_multiset()) =~= cards_in(piles).add(
            pile.to_multiset(),
        ),
    decreases piles.len(),
{
    let updated = piles.update(i, pile);
    let rest = piles.drop_last();
    assert(cards_in(piles) == cards_in(rest).add(piles.last().to_multiset()));
    assert(cards_in(updated) == cards_in(updated.drop_last()).add(updated.last().to_multiset()));
    if i == piles.len() - 1 {
        assert(updated.drop_last() =~= rest);
    } else {
        lemma_cards_in_update(rest, i, pile);
        assert(updated.drop_last() =~= rest.update(i, pile));
        assert(rest[i] == piles[i]);
        let left = cards_in(rest.update(i, pile)).add(piles[i].to_multiset());
        let right = cards_in(rest).add(pile.to_multiset());
        assert forall|c: Card|
            cards_in(updated).add(piles[i].to_multiset()).count(c) == cards_in(piles).add(
                pile.to_multiset(),
            ).count(c) by {
            assert(left.count(c) == right.count(c));
        }
    }
}

/// A row of empty piles holds no card.
pub proof fn lemma_cards_in_empty(piles: Seq<Seq<Card>>)
    requires
        forall|i: int| 0 <= i < piles.len() ==> (#[trigger] piles[i]).len() == 0,
    ensures
        cards_in(piles) == Multiset::<Card>::empty(),
    decreases piles.len(),
{
    if piles.len() > 0 {
        lemma_cards_in_empty(piles.drop_last());
        piles.last().to_multiset_ensures();
        vstd::multiset::lemma_multiset_empty_len(piles.last().to_multiset());
        assert(cards_in(piles) =~= Multiset::<Card>::empty());
    }
}

/// Every card of pile `i` is among the cards of the row.
pub proof fn lemma_cards_in_has(piles: Seq<Seq<Card>>, i: int, card: Card)
    requires
        0 <= i < piles.len(),
    ensures
        piles[i].to_multiset().count(card) <= cards_in(piles).count(card),
    decreases piles.len(),
{
    if i < piles.len() - 1 {
        lemma_cards_in_has(piles.drop_last(), i, card);
    }
}

/// The free cells as a row of piles of at most one card each.
pub open spec fn cell_piles(cells: Seq<Option<Card>>) -> Seq<Seq<Card>> {
    cells.map_values(|slot: Option<Card>| slot_cards(slot))
}

/// The rules' view of a game: what every pile and the hand hold, and where the
/// hand's cards came from.
pub struct Table {
    pub cascades: Seq<Seq<Card>>,
    pub cells: Seq<Option<Card>>,
    pub foundations: Seq<Seq<Card>>,
    pub hand: Seq<Card>,
    pub origin: Option<CardSource>,
}

impl Table {
    /// Eight cascades, four free cells, four foundations.
    pub open spec fn shape(self) -> bool {
        &&& self.cascades.len() == 8
        &&& self.cells.len() == 4
        &&& self.foundations.len() == 4
    }

    /// Every card on the table and in the hand, as a multiset.
    pub open spec fn all_cards(self) -> Multiset<Card> {
        cards_in(self.cascades).add(cards_in(cell_piles(self.cells))).add(
            cards_in(self.foundations),
        ).add(self.hand.to_multiset())
    }

    /// The number of cards on the table and in the hand.
    pub open spec fn card_count(self) -> nat {
        count_in(self.cascades) + count_in(cell_piles(self.cells)) + count_in(self.foundations)
            + self.hand.len()
    }

    /// The hand is empty exactly when no origin is remembered, and a
    /// remembered origin is a pile that can have the hand's cards back: any
    /// cascade, or a free cell that is still empty, or a foundation, the last
    /// two for a single card.
    pub open spec fn origin_valid(self) -> bool {
        match self.origin {
            None => self.hand.len() == 0,
            Some(CardSource::Cascade(n)) => self.hand.len() > 0 && n < 8,
            Some(CardSource::Cell(n)) => self.hand.len() == 1 && n < 4 && self.cells[n as int]
                is None,
            Some(CardSource::Foundation(n)) => self.hand.len() == 1 && n < 4,
        }
    }

    /// The state is one that a game can be in: the piles are all there, the
    /// cards are those of one deck, and the hand and its origin agree.
    pub open spec fn wf(self) -> bool {
        &&& self.shape()
        &&& self.all_cards() == deck_seq().to_multiset()
        &&& self.origin_valid()
    }

    /// Every foundation holds one suit from the ace upwards without a gap, and
    /// a card taken from a foundation can go back on it.
    pub open spec fn regular(self) -> bool {
        &&& forall|i: int| 0 <= i < 4 ==> is_ace_up(#[trigger] self.foundations[i])
        &&& self.origin matches Some(CardSource::Foundation(n)) ==> foundation_accepts(
            self.foundations[n as int],
            self.hand.first(),
        )
    }

    /// The event sends a card to the very foundation that the card in the hand
    /// was taken from, so that this card no longer fits there.
    pub open spec fn send_fills_origin(self, button: MouseButton, p: Position) -> bool {
        &&& button == MouseButton::Right
        &&& self.origin matches Some(CardSource::Foundation(n))
        &&& self.send_target(p) == Some(n as int)
    }

    /// The game is won: every cascade is one movable run from back to front.
    /// The foundations need not be full: from such a state the game can always
    /// be played out.
    pub open spec fn is_won(self) -> bool {
        forall|i: int| 0 <= i < 8 ==> is_run(#[trigger] self.cascades[i])
    }

    /// The state right after `deck` was dealt: the cascades hold the deal, and
    /// everything else is empty.
    pub open spec fn new_game(deck: Seq<Card>) -> Table {
        Table {
            cascades: dealt(deck),
            cells: Seq::new(4, |i: int| None),
            foundations: Seq::new(4, |i: int| Seq::empty()),
            hand: Seq::empty(),
            origin: None,
        }
    }

    /// The state is that of a new game: a fresh deal in the cascades, and
    /// everything else empty.
    pub open spec fn is_fresh_deal(self) -> bool {
        &&& self.shape()
        &&& is_fresh_row(self.cascades)
        &&& forall|i: int| 0 <= i < 4 ==> (#[trigger] self.cells[i]) is None
        &&& forall|i: int| 0 <= i < 4 ==> (#[trigger] self.foundations[i]).len() == 0
        &&& self.hand.len() == 0
        &&& self.origin is None
    }

    /// `p` lies on cascade `i`.
    pub open spec fn cascade_hit(self, i: int, p: Position) -> bool {
        cascade_covers(cascade_position(i), self.cascades[i].len(), p)
    }

    /// The number of cards that a press at `p` grabs from cascade `i`.
    pub open spec fn cascade_grab(self, i: int, p: Position) -> nat {
        grab_count(cascade_position(i), self.cascades[i].len(), p)
    }

    /// `p` lies on free cell `i`.
    pub open spec fn cell_hit(i: int, p: Position) -> bool {
        card_covers(cell_position(i), p)
    }

    /// `p` lies on foundation `i`.
    pub open spec fn foundation_hit(i: int, p: Position) -> bool {
        card_covers(foundation_position(i), p)
    }

    // Picking up.

    /// A press at `p` hits cascade `i` on cards that form a movable run.
    pub open spec fn can_grab_cascade(self, i: int, p: Position) -> bool {
        self.cascade_hit(i, p) && is_run(last_cards(self.cascades[i], self.cascade_grab(i, p)))
    }

    pub open spec fn grab_cascade_pred(self, p: Position) -> spec_fn(int) -> bool {
        |i: int| self.can_grab_cascade(i, p)
    }

    /// A press at `p` hits free cell `i`, which holds a card.
    pub open spec fn can_grab_cell(self, i: int, p: Position) -> bool {
        Self::cell_hit(i, p) && self.cells[i] is Some
    }

    pub open spec fn grab_cell_pred(self, p: Position) -> spec_fn(int) -> bool {
        |i: int| self.can_grab_cell(i, p)
    }

    /// A press at `p` hits foundation `i`, which holds a card.
    pub open spec fn can_grab_foundation(self, i: int, p: Position) -> bool {
        Self::foundation_hit(i, p) && self.foundations[i].len() > 0
    }

    pub open spec fn grab_foundation_pred(self, p: Position) -> spec_fn(int) -> bool {
        |i: int| self.can_grab_foundation(i, p)
    }

    /// The last `n` cards of cascade `i` move into the hand, which remembers
    /// the cascade. Nothing changes where that leaves nothing to move.
    pub open spec fn take_from_cascade(self, i: int, n: nat) -> Table {
        if last_cards(self.cascades[i], n).len() == 0 {
            self
        } else {
            Table {
                cascades: self.cascades.update(i, without_last(self.cascades[i], n)),
                hand: self.hand + last_cards(self.cascades[i], n),
                origin: Some(CardSource::Cascade(i as usize)),
                ..self
            }
        }
    }

    /// The card of free cell `i` moves into the hand, which remembers the cell.
    pub open spec fn take_from_cell(self, i: int) -> Table {
        Table {
            cells: self.cells.update(i, None),
            hand: self.hand.push(self.cells[i]->0),
            origin: Some(CardSource::Cell(i as usize)),
            ..self
        }
    }

    /// The top card of foundation `i` moves into the hand, which remembers the
    /// foundation.
    pub open spec fn take_from_foundation(self, i: int) -> Table {
        Table {
            foundations: self.foundations.update(i, self.foundations[i].drop_last()),
            hand: self.hand.push(self.foundations[i].last()),
            origin: Some(CardSource::Foundation(i as usize)),
            ..self
        }
    }

    /// A press of the main button at `p` with an empty hand: the first cascade
    /// that is hit on a movable run gives that run; failing that, the first
    /// free cell that is hit and holds a card gives it; failing that, the first
    /// foundation that is hit and holds a card gives its top card.
    pub open spec fn grab(self, p: Position) -> Table {
        match first_index(0, 8, self.grab_cascade_pred(p)) {
            Some(i) => self.take_from_cascade(i, self.cascade_grab(i, p)),
            None => match first_index(0, 4, self.grab_cell_pred(p)) {
                Some(i) => self.take_from_cell(i),
                None => match first_index(0, 4, self.grab_foundation_pred(p)) {
                    Some(i) => self.take_from_foundation(i),
                    None => self,
                },
            },
        }
    }

    // Sending straight to a foundation.

    pub open spec fn accepts_pred(self, card: Card) -> spec_fn(int) -> bool {
        |j: int| foundation_accepts(self.foundations[j], card)
    }

    /// The first foundation that takes `card`.
    pub open spec fn accepting_foundation(self, card: Card) -> Option<int> {
        first_index(0, 4, self.accepts_pred(card))
    }

    /// A press at `p` hits the front card of cascade `i`, and some foundation
    /// takes that card.
    pub open spec fn can_send_cascade(self, i: int, p: Position) -> bool {
        &&& self.cascade_hit(i, p)
        &&& self.cascade_grab(i, p) == 1
        &&& self.cascades[i].len() > 0
        &&& self.accepting_foundation(self.cascades[i].last()) is Some
    }

    pub open spec fn send_cascade_pred(self, p: Position) -> spec_fn(int) -> bool {
        |i: int| self.can_send_cascade(i, p)
    }

    /// A press at `p` hits free cell `i`, and some foundation takes its card.
    pub open spec fn can_send_cell(self, i: int, p: Position) -> bool {
        &&& Self::cell_hit(i, p)
        &&& self.cells[i] is Some
        &&& self.accepting_foundation(self.cells[i]->0) is Some
    }

    pub open spec fn send_cell_pred(self, p: Position) -> spec_fn(int) -> bool {
        |i: int| self.can_send_cell(i, p)
    }

    /// The front card of cascade `i` moves onto foundation `j`.
    pub open spec fn send_from_cascade(self, i: int, j: int) -> Table {
        Table {
            cascades: self.cascades.update(i, self.cascades[i].drop_last()),
            foundations: self.foundations.update(
                j,
                self.foundations[j].push(self.cascades[i].last()),
            ),
            ..self
        }
    }

    /// The card of free cell `i` moves onto foundation `j`.
    pub open spec fn send_from_cell(self, i: int, j: int) -> Table {
        Table {
            cells: self.cells.update(i, None),
            foundations: self.foundations.update(j, self.foundations[j].push(self.cells[i]->0)),
            ..self
        }
    }

    /// The pile that a press of the secondary button at `p` sends a card from.
    pub open spec fn send_source(self, p: Position) -> Option<CardSource> {
        match first_index(0, 8, self.send_cascade_pred(p)) {
            Some(i) => Some(CardSource::Cascade(i as usize)),
            None => match first_index(0, 4, self.send_cell_pred(p)) {
                Some(i) => Some(CardSource::Cell(i as usize)),
                None => None,
            },
        }
    }

    /// The foundation that a press of the secondary button at `p` sends a card
    /// to.
    pub open spec fn send_target(self, p: Position) -> Option<int> {
        match self.send_source(p) {
            Some(CardSource::Cascade(i)) => self.accepting_foundation(
                self.cascades[i as int].last(),
            ),
            Some(CardSource::Cell(i)) => self.accepting_foundation(self.cells[i as int]->0),
            _ => None,
        }
    }

    /// A press of the secondary button at `p`: the first cascade that is hit
    /// on its front card, where a foundation takes that card, sends it to the
    /// first such foundation; failing that, the first free cell that is hit
    /// and whose card a foundation takes does the same. The hand and its
    /// origin stay as they are.
    pub open spec fn send(self, p: Position) -> Table {
        match self.send_source(p) {
            Some(CardSource::Cascade(i)) => self.send_from_cascade(
                i as int,
                self.send_target(p)->0,
            ),
            Some(CardSource::Cell(i)) => self.send_from_cell(i as int, self.send_target(p)->0),
            _ => self,
        }
    }

    // Putting down.

    /// A release at `p` hits cascade `i`, which takes the hand's first card.
    pub open spec fn can_drop_on_cascade(self, i: int, p: Position) -> bool {
        &&& self.hand.len() > 0
        &&& self.cascade_hit(i, p)
        &&& cascade_accepts(self.cascades[i], self.hand.first())
    }

    pub open spec fn drop_cascade_pred(self, p: Position) -> spec_fn(int) -> bool {
        |i: int| self.can_drop_on_cascade(i, p)
    }

    /// A release at `p` hits free cell `i`, which is empty, with one card in
    /// the hand.
    pub open spec fn can_drop_on_cell(self, i: int, p: Position) -> bool {
        &&& self.hand.len() == 1
        &&& Self::cell_hit(i, p)
        &&& self.cells[i] is None
    }

    pub open spec fn drop_cell_pred(self, p: Position) -> spec_fn(int) -> bool {
        |i: int| self.can_drop_on_cell(i, p)
    }

    /// A release at `p` hits foundation `i`, which takes the one card in the
    /// hand.
    pub open spec fn can_drop_on_foundation(self, i: int, p: Position) -> bool {
        &&& self.hand.len() == 1
        &&& Self::foundation_hit(i, p)
        &&& foundation_accepts(self.foundations[i], self.hand.first())
    }

    pub open spec fn drop_foundation_pred(self, p: Position) -> spec_fn(int) -> bool {
        |i: int| self.can_drop_on_foundation(i, p)
    }

    /// The hand's cards move onto cascade `i`.
    pub open spec fn put_on_cascade(self, i: int) -> Table {
        Table {
            cascades: self.cascades.update(i, self.cascades[i] + self.hand),
            hand: Seq::empty(),
            origin: None,
            ..self
        }
    }

    /// The hand's card moves into free cell `i`.
    pub open spec fn put_on_cell(self, i: int) -> Table {
        Table {
            cells: self.cells.update(i, Some(self.hand.last())),
            hand: Seq::empty(),
            origin: None,
            ..self
        }
    }

    /// The hand's card moves onto foundation `i`.
    pub open spec fn put_on_foundation(self, i: int) -> Table {
        Table {
            foundations: self.foundations.update(i, self.foundations[i].push(self.hand.last())),
            hand: Seq::empty(),
            origin: None,
            ..self
        }
    }

    /// The hand's cards go back to the pile they were taken from.
    pub open spec fn give_back(self) -> Table {
        match self.origin {
            Some(CardSource::Cell(n)) => self.put_on_cell(n as int),
            Some(CardSource::Cascade(n)) => self.put_on_cascade(n as int),
            Some(CardSource::Foundation(n)) => self.put_on_foundation(n as int),
            None => self,
        }
    }

    /// A release at `p` finds a pile that takes the hand's cards.
    pub open spec fn has_destination(self, p: Position) -> bool {
        ||| first_index(0, 8, self.drop_cascade_pred(p)) is Some
        ||| first_index(0, 4, self.drop_cell_pred(p)) is Some
        ||| first_index(0, 4, self.drop_foundation_pred(p)) is Some
    }

    /// A release of the main button at `p` with cards in the hand: they go to
    /// the first cascade that is hit and takes them; failing that, to the
    /// first free cell that is hit and takes them; failing that, to the first
    /// foundation that is hit and takes them; failing that, back to where they
    /// came from.
    pub open spec fn put_down(self, p: Position) -> Table {
        match first_index(0, 8, self.drop_cascade_pred(p)) {
            Some(i) => self.put_on_cascade(i),
            None => match first_index(0, 4, self.drop_cell_pred(p)) {
                Some(i) => self.put_on_cell(i),
                None => match first_index(0, 4, self.drop_foundation_pred(p)) {
                    Some(i) => self.put_on_foundation(i),
                    None => self.give_back(),
                },
            },
        }
    }

    // Drawing.

    /// What draws the first `k` foundations.
    pub open spec fn foundation_draws(self, k: int) -> Seq<DrawRequest>
        decreases k,
    {
        if k <= 0 {
            Seq::empty()
        } else {
            self.foundation_draws(k - 1) + foundation_requests(
                foundation_position(k - 1),
                self.foundations[k - 1],
            )
        }
    }

    /// What draws the first `k` free cells.
    pub open spec fn cell_draws(self, k: int) -> Seq<DrawRequest>
        decreases k,
    {
        if k <= 0 {
            Seq::empty()
        } else {
            self.cell_draws(k - 1) + single(cell_position(k - 1), self.cells[k - 1])
        }
    }

    /// What draws the first `k` cascades.
    pub open spec fn cascade_draws(self, k: int) -> Seq<DrawRequest>
        decreases k,
    {
        if k <= 0 {
            Seq::empty()
        } else {
            self.cascade_draws(k - 1) + cascade_requests(
                cascade_position(k - 1),
                self.cascades[k - 1],
            )
        }
    }

    /// What draws the table, back to front: the foundations, the free cells,
    /// the cascades, and the hand at `hand_pos` on top of them.
    pub open spec fn draw_list(self, hand_pos: Position) -> Seq<DrawRequest> {
        self.foundation_draws(4) + self.cell_draws(4) + self.cascade_draws(8) + fan(
            hand_pos,
            self.hand,
        )
    }

    // Events.

    /// The state after a button goes down at `p` in a game that is not won.
    pub open spec fn press(self, button: MouseButton, p: Position) -> Table {
        match button {
            MouseButton::Left => if self.hand.len() == 0 {
                self.grab(p)
            } else {
                self
            },
            MouseButton::Right => self.send(p),
            _ => self,
        }
    }

    /// The sound that goes with `press`.
    pub open spec fn press_cue(self, button: MouseButton, p: Position) -> Option<Sound> {
        match button {
            MouseButton::Left => if self.hand.len() == 0 && self.grab(p).hand.len() > 0 {
                Some(Sound::Take)
            } else {
                None
            },
            MouseButton::Right => if self.send_source(p) is Some {
                Some(Sound::Send)
            } else {
                None
            },
            _ => None,
        }
    }

    /// The state after a button goes up at `p`, away from the reset button, in
    /// a game that is not won.
    pub open spec fn release(self, button: MouseButton, p: Position) -> Table {
        if button == MouseButton::Left && self.hand.len() > 0 {
            self.put_down(p)
        } else {
            self
        }
    }

    /// The sound that goes with `release`.
    pub open spec fn release_cue(self, button: MouseButton, p: Position) -> Option<Sound> {
        if button == MouseButton::Left && self.hand.len() > 0 {
            Some(Sound::Drop)
        } else {
            None
        }
    }

    /// The state after one event that deals no new game: a won game ignores
    /// it, any other game presses or releases.
    pub open spec fn step(self, event: PointerEvent) -> Table {
        if self.is_won() {
            self
        } else {
            match event {
                PointerEvent::Down(button, p) => self.press(button, p),
                PointerEvent::Up(button, p) => self.release(button, p),
            }
        }
    }

    /// The state after a sequence of events, none of which deals a new game.
    pub open spec fn run(self, events: Seq<PointerEvent>) -> Table
        decreases events.len(),
    {
        if events.len() == 0 {
            self
        } else {
            self.run(events.drop_last()).step(events.last())
        }
    }
}

} // verus!
