//! The game controller: it owns every pile and turns pointer events into moves.

use vstd::prelude::*;
use crate::card::{deck_seq, Card};
use crate::components::cascade::{is_run, without_last};
use crate::components::hand::{HAND_OFFSET_X, HAND_OFFSET_Y};
use crate::components::{
    fan_fits, lemma_sprites_concat, Button, Cascade, Cell, Finale, Foundation, Hand,
    CARD_STACK_INCREMENT,
};
use crate::game::init::{
    button_position, cascade_position, cascade_views, cascades_placed, cell_position,
    cells_placed, foundation_position, foundations_placed,
};
use crate::game::laws::{
    lemma_card_count, lemma_fresh_deal_is_wf, lemma_pile_sizes, lemma_press_keeps_regular,
    lemma_press_keeps_wf, lemma_release_keeps_regular, lemma_release_keeps_wf,
    lemma_table_cards_in_deck,
};
use crate::game::table::{
    cell_piles, count_in, first_index, lemma_count_in_step, lemma_first_index,
};
use crate::geometry::Position;
use crate::tileset::{DrawRequest, TileSet};

pub mod init;
pub mod laws;
pub mod table;

pub use table::{CardSource, MouseButton, PointerEvent, Sound, Table};

verus! {

/// Something on the screen that a pointer can hit.
pub trait Collision {
    /// The screen points that belong to this object.
    spec fn covers(&self, pos: Position) -> bool;

    /// Hit test: does `pos` fall on this object?
    fn inside(&self, pos: Position) -> (hit: bool)
        ensures
            hit == self.covers(pos),
    ;
}

/// A game of FreeCell: eight cascades, four free cells, four foundations, the
/// hand, the reset button and the victory animation.
pub struct Game {
    cascades: [Cascade; 8],
    open_cells: [Cell; 4],
    foundations: [Foundation; 4],
    hand: Hand,
    hand_card_source: Option<CardSource>,
    button: Button,
    finale: Finale,
}

impl Game {
    /// What the piles and the hand hold.
    pub closed spec fn view(&self) -> Table {
        Table {
            cascades: cascade_views(self.cascades),
            cells: Seq::new(4, |i: int| self.open_cells[i]@),
            foundations: Seq::new(4, |i: int| self.foundations[i]@),
            hand: self.hand@,
            origin: self.hand_card_source,
        }
    }

    /// The reset button.
    pub closed spec fn button(&self) -> Button {
        self.button
    }

    /// Where the hand is drawn.
    pub closed spec fn hand_position(&self) -> Position {
        self.hand.position()
    }

    /// The victory animation.
    pub closed spec fn finale(&self) -> Finale {
        self.finale
    }

    /// Every pile stands at its place on the table.
    pub closed spec fn placed(&self) -> bool {
        &&& cascades_placed(self.cascades)
        &&& cells_placed(self.open_cells)
        &&& foundations_placed(self.foundations)
    }

    /// The game is in a state that play can reach.
    pub open spec fn wf(&self) -> bool {
        &&& self.placed()
        &&& self@.wf()
        &&& self.finale().wf()
    }

    /// What an event leaves alone unless it says otherwise: where the piles
    /// stand, the button, the hand's place and the animation.
    pub open spec fn same_frame(&self, before: &Game) -> bool {
        &&& self.placed() == before.placed()
        &&& self.button() == before.button()
        &&& self.hand_position() == before.hand_position()
        &&& self.finale() == before.finale()
    }

    /// Cascade `i`.
    pub fn cascade(&self, i: usize) -> (c: &Cascade)
        requires
            i < 8,
        ensures
            c@ == self@.cascades[i as int],
            self.placed() ==> c.position() == cascade_position(i as int),
    {
        &self.cascades[i]
    }

    /// Free cell `i`.
    pub fn open_cell(&self, i: usize) -> (c: &Cell)
        requires
            i < 4,
        ensures
            c@ == self@.cells[i as int],
            self.placed() ==> c.position() == cell_position(i as int),
    {
        &self.open_cells[i]
    }

    /// Foundation `i`.
    pub fn foundation(&self, i: usize) -> (f: &Foundation)
        requires
            i < 4,
        ensures
            f@ == self@.foundations[i as int],
            self.placed() ==> f.position() == foundation_position(i as int),
    {
        &self.foundations[i]
    }

    /// The hand.
    pub fn hand(&self) -> (h: &Hand)
        ensures
            h@ == self@.hand,
            h.position() == self.hand_position(),
    {
        &self.hand
    }

    /// The pile that the hand's cards came from.
    pub fn hand_card_source(&self) -> (source: Option<CardSource>)
        ensures
            source == self@.origin,
    {
        self.hand_card_source
    }

    /// The reset button.
    pub fn reset_button(&self) -> (b: Button)
        ensures
            b == self.button(),
    {
        self.button
    }

    /// The victory animation.
    pub fn animation(&self) -> (f: &Finale)
        ensures
            *f == self.finale(),
    {
        &self.finale
    }

    /// The number of cards in the game, the piles and the hand counted
    /// together: always 52.
    pub fn card_count(&self) -> (n: usize)
        requires
            self.wf(),
        ensures
            n == self@.card_count(),
            n == 52,
    {
        let ghost table = self@;
        proof {
            lemma_card_count(table);
            lemma_pile_sizes(table);
            assert(table.cascades.subrange(0, 8) =~= table.cascades);
            assert(table.foundations.subrange(0, 4) =~= table.foundations);
            assert(cell_piles(table.cells).subrange(0, 4) =~= cell_piles(table.cells));
        }
        let mut n: usize = 0;
        let mut i: usize = 0;
        while i < 8
            invariant
                i <= 8,
                table == self@,
                forall|i: int| 0 <= i < 8 ==> (#[trigger] table.cascades[i]).len() <= 52,
                n == count_in(table.cascades.subrange(0, i as int)),
                n <= 52 * i,
            decreases 8 - i,
        {
            proof {
                lemma_count_in_step(table.cascades, i as int);
            }
            n += self.cascades[i].cards().len();
            i += 1;
        }
        let in_cascades: usize = n;
        n = 0;
        i = 0;
        while i < 4
            invariant
                i <= 4,
                table == self@,
                n == count_in(cell_piles(table.cells).subrange(0, i as int)),
                n <= i,
            decreases 4 - i,
        {
            proof {
                lemma_count_in_step(cell_piles(table.cells), i as int);
            }
            if !self.open_cells[i].is_empty() {
                n += 1;
            }
            i += 1;
        }
        let in_cells: usize = n;
        n = 0;
        i = 0;
        while i < 4
            invariant
                i <= 4,
                table == self@,
                forall|i: int| 0 <= i < 4 ==> (#[trigger] table.foundations[i]).len() <= 52,
                n == count_in(table.foundations.subrange(0, i as int)),
                n <= 52 * i,
            decreases 4 - i,
        {
            proof {
                lemma_count_in_step(table.foundations, i as int);
            }
            n += self.foundations[i].cards().len();
            i += 1;
        }
        in_cascades + in_cells + n + self.hand.len()
    }

    /// Whether the game is won.
    pub fn is_victory(&self) -> (won: bool)
        ensures
            won == self@.is_won(),
    {
        let mut i: usize = 0;
        while i < 8
            invariant
                i <= 8,
                forall|j: int| 0 <= j < i ==> is_run(#[trigger] self@.cascades[j]),
            decreases 8 - i,
        {
            if !self.cascades[i].has_all_alternating() {
                assert(!is_run(self@.cascades[i as int]));
                return false;
            }
            i += 1;
        }
        true
    }

    fn find_grab_cascade(&self, pos: Position) -> (found: Option<usize>)
        requires
            self.placed(),
        ensures
            found matches Some(i) ==> i < 8,
            first_index(0, 8, self@.grab_cascade_pred(pos)) == (match found {
                Some(i) => Some(i as int),
                None => None,
            }),
    {
        let ghost pred = self@.grab_cascade_pred(pos);
        let mut i: usize = 0;
        while i < 8
            invariant
                i <= 8,
                self.placed(),
                pred == self@.grab_cascade_pred(pos),
                first_index(0, 8, pred) == first_index(i as int, 8, pred),
            decreases 8 - i,
        {
            let c = &self.cascades[i];
            if c.inside(pos) {
                let cards_to_take = c.cards_to_take(pos);
                if c.has_alternating_color_cards(cards_to_take) {
                    assert(pred(i as int));
                    return Some(i);
                }
            }
            assert(!pred(i as int));
            i += 1;
        }
        None
    }

    fn find_grab_cell(&self, pos: Position) -> (found: Option<usize>)
        requires
            self.placed(),
        ensures
            found matches Some(i) ==> i < 4,
            first_index(0, 4, self@.grab_cell_pred(pos)) == (match found {
                Some(i) => Some(i as int),
                None => None,
            }),
    {
        let ghost pred = self@.grab_cell_pred(pos);
        let mut i: usize = 0;
        while i < 4
            invariant
                i <= 4,
                self.placed(),
                pred == self@.grab_cell_pred(pos),
                first_index(0, 4, pred) == first_index(i as int, 4, pred),
            decreases 4 - i,
        {
            let c = &self.open_cells[i];
            if c.inside(pos) && !c.is_empty() {
                assert(pred(i as int));
                return Some(i);
            }
            assert(!pred(i as int));
            i += 1;
        }
        None
    }

    fn find_grab_foundation(&self, pos: Position) -> (found: Option<usize>)
        requires
            self.placed(),
        ensures
            found matches Some(i) ==> i < 4,
            first_index(0, 4, self@.grab_foundation_pred(pos)) == (match found {
                Some(i) => Some(i as int),
                None => None,
            }),
    {
        let ghost pred = self@.grab_foundation_pred(pos);
        let mut i: usize = 0;
        while i < 4
            invariant
                i <= 4,
                self.placed(),
                pred == self@.grab_foundation_pred(pos),
                first_index(0, 4, pred) == first_index(i as int, 4, pred),
            decreases 4 - i,
        {
            let f = &self.foundations[i];
            if f.inside(pos) && !f.is_empty() {
                assert(pred(i as int));
                return Some(i);
            }
            assert(!pred(i as int));
            i += 1;
        }
        None
    }

    fn find_acceptor(&self, card: &Card) -> (found: Option<usize>)
        ensures
            found matches Some(j) ==> j < 4,
            self@.accepting_foundation(*card) == (match found {
                Some(j) => Some(j as int),
                None => None,
            }),
    {
        let ghost pred = self@.accepts_pred(*card);
        let mut j: usize = 0;
        while j < 4
            invariant
                j <= 4,
                pred == self@.accepts_pred(*card),
                first_index(0, 4, pred) == first_index(j as int, 4, pred),
            decreases 4 - j,
        {
            if self.foundations[j].can_stack(card) {
                assert(pred(j as int));
                return Some(j);
            }
            assert(!pred(j as int));
            j += 1;
        }
        None
    }

    fn find_send_cascade(&self, pos: Position) -> (found: Option<(usize, usize)>)
        requires
            self.placed(),
        ensures
            found matches Some((i, j)) ==> i < 8 && j < 4,
            match found {
                Some((i, j)) => first_index(0, 8, self@.send_cascade_pred(pos)) == Some(i as int)
                    && self@.accepting_foundation(self@.cascades[i as int].last()) == Some(
                    j as int,
                ),
                None => first_index(0, 8, self@.send_cascade_pred(pos)) is None,
            },
    {
        let ghost pred = self@.send_cascade_pred(pos);
        let mut i: usize = 0;
        while i < 8
            invariant
                i <= 8,
                self.placed(),
                pred == self@.send_cascade_pred(pos),
                first_index(0, 8, pred) == first_index(i as int, 8, pred),
            decreases 8 - i,
        {
            let c = &self.cascades[i];
            if c.inside(pos) && c.cards_to_take(pos) == 1 {
                if let Some(card_to_stack) = c.bottom_card() {
                    if let Some(j) = self.find_acceptor(card_to_stack) {
                        assert(pred(i as int));
                        return Some((i, j));
                    }
                }
            }
            assert(!pred(i as int));
            i += 1;
        }
        None
    }

    fn find_send_cell(&self, pos: Position) -> (found: Option<(usize, usize)>)
        requires
            self.placed(),
        ensures
            found matches Some((i, j)) ==> i < 4 && j < 4,
            match found {
                Some((i, j)) => first_index(0, 4, self@.send_cell_pred(pos)) == Some(i as int)
                    && self@.cells[i as int] is Some && self@.accepting_foundation(
                    self@.cells[i as int]->0,
                ) == Some(j as int),
                None => first_index(0, 4, self@.send_cell_pred(pos)) is None,
            },
    {
        let ghost pred = self@.send_cell_pred(pos);
        let mut i: usize = 0;
        while i < 4
            invariant
                i <= 4,
                self.placed(),
                pred == self@.send_cell_pred(pos),
                first_index(0, 4, pred) == first_index(i as int, 4, pred),
            decreases 4 - i,
        {
            let c = &self.open_cells[i];
            if c.inside(pos) {
                if let Some(card_to_stack) = c.card() {
                    if let Some(j) = self.find_acceptor(card_to_stack) {
                        assert(pred(i as int));
                        return Some((i, j));
                    }
                }
            }
            assert(!pred(i as int));
            i += 1;
        }
        None
    }

    fn find_drop_cascade(&self, pos: Position) -> (found: Option<usize>)
        requires
            self.placed(),
            self@.hand.len() > 0,
        ensures
            found matches Some(i) ==> i < 8,
            first_index(0, 8, self@.drop_cascade_pred(pos)) == (match found {
                Some(i) => Some(i as int),
                None => None,
            }),
    {
        let ghost pred = self@.drop_cascade_pred(pos);
        let mut i: usize = 0;
        while i < 8
            invariant
                i <= 8,
                self.placed(),
                self@.hand.len() > 0,
                pred == self@.drop_cascade_pred(pos),
                first_index(0, 8, pred) == first_index(i as int, 8, pred),
            decreases 8 - i,
        {
            let c = &self.cascades[i];
            if c.inside(pos) {
                if let Some(first) = self.hand.top_card() {
                    if c.can_stack(first) {
                        assert(pred(i as int));
                        return Some(i);
                    }
                }
            }
            assert(!pred(i as int));
            i += 1;
        }
        None
    }

    fn find_drop_cell(&self, pos: Position) -> (found: Option<usize>)
        requires
            self.placed(),
        ensures
            found matches Some(i) ==> i < 4,
            first_index(0, 4, self@.drop_cell_pred(pos)) == (match found {
                Some(i) => Some(i as int),
                None => None,
            }),
    {
        let ghost pred = self@.drop_cell_pred(pos);
        let mut i: usize = 0;
        while i < 4
            invariant
                i <= 4,
                self.placed(),
                pred == self@.drop_cell_pred(pos),
                first_index(0, 4, pred) == first_index(i as int, 4, pred),
            decreases 4 - i,
        {
            let c = &self.open_cells[i];
            if c.inside(pos) && self.hand.is_single_card() && c.is_empty() {
                assert(pred(i as int));
                return Some(i);
            }
            assert(!pred(i as int));
            i += 1;
        }
        None
    }

    fn find_drop_foundation(&self, pos: Position) -> (found: Option<usize>)
        requires
            self.placed(),
        ensures
            found matches Some(i) ==> i < 4,
            first_index(0, 4, self@.drop_foundation_pred(pos)) == (match found {
                Some(i) => Some(i as int),
                None => None,
            }),
    {
        let ghost pred = self@.drop_foundation_pred(pos);
        let mut i: usize = 0;
        while i < 4
            invariant
                i <= 4,
                self.placed(),
                pred == self@.drop_foundation_pred(pos),
                first_index(0, 4, pred) == first_index(i as int, 4, pred),
            decreases 4 - i,
        {
            let f = &self.foundations[i];
            if f.inside(pos) && self.hand.is_single_card() {
                if let Some(first) = self.hand.top_card() {
                    if f.can_stack(first) {
                        assert(pred(i as int));
                        return Some(i);
                    }
                }
            }
            assert(!pred(i as int));
            i += 1;
        }
        None
    }

    /// Picks up what a press of the main button at `pos` grabs.
    fn grab(&mut self, pos: Position) -> (cue: Option<Sound>)
        requires
            old(self).placed(),
            old(self)@.hand.len() == 0,
        ensures
            final(self)@ == old(self)@.grab(pos),
            cue == old(self)@.press_cue(MouseButton::Left, pos),
            final(self).placed(),
            final(self).same_frame(old(self)),
    {
        let ghost before = self@;
        if let Some(i) = self.find_grab_cascade(pos) {
            let cards_to_take = self.cascades[i].cards_to_take(pos);
            let cards = self.cascades[i].take(cards_to_take);
            if cards.len() > 0 {
                self.hand.put(cards);
                self.hand_card_source = Some(CardSource::Cascade(i));
                assert(self@.cascades =~= before.cascades.update(
                    i as int,
                    without_last(before.cascades[i as int], cards_to_take as nat),
                ));
                assert(self@.cells =~= before.cells);
                assert(self@.foundations =~= before.foundations);
                return Some(Sound::Take);
            }
            assert(self@.cascades =~= before.cascades) by {
                assert(self@.cascades[i as int] =~= before.cascades[i as int]);
            }
            assert(self@.cells =~= before.cells);
            assert(self@.foundations =~= before.foundations);
            return None;
        }
        if let Some(i) = self.find_grab_cell(pos) {
            proof {
                lemma_first_index(0, 4, before.grab_cell_pred(pos));
            }
            if let Some(card) = self.open_cells[i].take() {
                self.hand.put(vec![card]);
                self.hand_card_source = Some(CardSource::Cell(i));
                assert(self@.cascades =~= before.cascades);
                assert(self@.cells =~= before.cells.update(i as int, None));
                assert(self@.foundations =~= before.foundations);
                assert(self@.hand =~= before.hand.push(card));
                return Some(Sound::Take);
            }
        }
        if let Some(i) = self.find_grab_foundation(pos) {
            proof {
                lemma_first_index(0, 4, before.grab_foundation_pred(pos));
            }
            if let Some(card) = self.foundations[i].take() {
                self.hand.put(vec![card]);
                self.hand_card_source = Some(CardSource::Foundation(i));
                assert(self@.cascades =~= before.cascades);
                assert(self@.cells =~= before.cells);
                assert(self@.foundations =~= before.foundations.update(
                    i as int,
                    before.foundations[i as int].drop_last(),
                ));
                assert(self@.hand =~= before.hand.push(card));
                return Some(Sound::Take);
            }
        }
        None
    }

    /// Sends the card that a press of the secondary button at `pos` hits to a
    /// foundation that takes it.
    fn send(&mut self, pos: Position) -> (cue: Option<Sound>)
        requires
            old(self).placed(),
        ensures
            final(self)@ == old(self)@.send(pos),
            cue == old(self)@.press_cue(MouseButton::Right, pos),
            final(self).placed(),
            final(self).same_frame(old(self)),
    {
        let ghost before = self@;
        if let Some((i, j)) = self.find_send_cascade(pos) {
            proof {
                lemma_first_index(0, 8, before.send_cascade_pred(pos));
            }
            assert(before.can_send_cascade(i as int, pos));
            let mut sent = self.cascades[i].take(1);
            if let Some(card) = sent.pop() {
                self.foundations[j].put(card);
                assert(card == before.cascades[i as int].last());
                assert(self@.cascades[i as int] =~= before.cascades[i as int].drop_last());
                assert(self@.cascades =~= before.cascades.update(
                    i as int,
                    before.cascades[i as int].drop_last(),
                ));
                assert(self@.cells =~= before.cells);
                assert(self@.foundations =~= before.foundations.update(
                    j as int,
                    before.foundations[j as int].push(card),
                ));
                return Some(Sound::Send);
            }
        }
        if let Some((i, j)) = self.find_send_cell(pos) {
            if let Some(card) = self.open_cells[i].take() {
                self.foundations[j].put(card);
                assert(self@.cascades =~= before.cascades);
                assert(self@.cells =~= before.cells.update(i as int, None));
                assert(self@.foundations =~= before.foundations.update(
                    j as int,
                    before.foundations[j as int].push(card),
                ));
                return Some(Sound::Send);
            }
        }
        None
    }

    /// Puts the hand's cards down where a release of the main button at `pos`
    /// sends them.
    fn drop_hand(&mut self, pos: Position) -> (cue: Option<Sound>)
        requires
            old(self).placed(),
            old(self)@.wf(),
            old(self)@.hand.len() > 0,
        ensures
            final(self)@ == old(self)@.put_down(pos),
            cue == Some(Sound::Drop),
            final(self).placed(),
            final(self).same_frame(old(self)),
    {
        let ghost before = self@;
        if let Some(i) = self.find_drop_cascade(pos) {
            let cards = self.hand.take();
            self.cascades[i].put(cards);
            self.hand_card_source = None;
            assert(self@.cascades =~= before.cascades.update(
                i as int,
                before.cascades[i as int] + before.hand,
            ));
            assert(self@.cells =~= before.cells);
            assert(self@.foundations =~= before.foundations);
            return Some(Sound::Drop);
        }
        if let Some(i) = self.find_drop_cell(pos) {
            proof {
                lemma_first_index(0, 4, before.drop_cell_pred(pos));
            }
            let mut cards = self.hand.take();
            if let Some(card) = cards.pop() {
                self.open_cells[i].put(card);
                self.hand_card_source = None;
                assert(self@.cascades =~= before.cascades);
                assert(self@.cells =~= before.cells.update(i as int, Some(card)));
                assert(self@.foundations =~= before.foundations);
                return Some(Sound::Drop);
            }
        }
        if let Some(i) = self.find_drop_foundation(pos) {
            proof {
                lemma_first_index(0, 4, before.drop_foundation_pred(pos));
            }
            let mut cards = self.hand.take();
            if let Some(card) = cards.pop() {
                self.foundations[i].put(card);
                self.hand_card_source = None;
                assert(self@.cascades =~= before.cascades);
                assert(self@.cells =~= before.cells);
                assert(self@.foundations =~= before.foundations.update(
                    i as int,
                    before.foundations[i as int].push(card),
                ));
                return Some(Sound::Drop);
            }
        }
        // Nothing took the cards: they go back where they came from.
        let mut cards = self.hand.take();
        match self.hand_card_source {
            Some(CardSource::Cell(n)) => {
                if let Some(card) = cards.pop() {
                    self.open_cells[n].put(card);
                    assert(self@.cells =~= before.cells.update(n as int, Some(card)));
                }
            },
            Some(CardSource::Cascade(n)) => {
                self.cascades[n].put(cards);
                assert(self@.cascades =~= before.cascades.update(
                    n as int,
                    before.cascades[n as int] + before.hand,
                ));
            },
            Some(CardSource::Foundation(n)) => {
                if let Some(card) = cards.pop() {
                    self.foundations[n].put(card);
                    assert(self@.foundations =~= before.foundations.update(
                        n as int,
                        before.foundations[n as int].push(card),
                    ));
                }
            },
            None => {
                assert(false);
            },
        }
        self.hand_card_source = None;
        assert(self@.cascades =~= before.give_back().cascades);
        assert(self@.cells =~= before.give_back().cells);
        assert(self@.foundations =~= before.give_back().foundations);
        Some(Sound::Drop)
    }

    /// The game has just been set up: a fresh deal, the hand at the screen's
    /// origin, the animation not begun.
    pub open spec fn is_new(&self) -> bool {
        &&& self.wf()
        &&& self@.is_fresh_deal()
        &&& self@.regular()
        &&& self.hand_position() == (Position { x: 0, y: 0 })
        &&& self.finale()@.len() == 0
        &&& self.finale().elapsed() == 0
    }

    /// Sets up a game from `deck`, which holds the cards of one deck in the
    /// order to deal them from its end. The reset button gets the size of its
    /// icon.
    pub fn with_deck(deck: Vec<Card>, button_width: i32, button_height: i32) -> (game: Self)
        requires
            deck@.to_multiset() == deck_seq().to_multiset(),
        ensures
            game.is_new(),
            game@ == Table::new_game(deck@),
            game.button() == (Button {
                pos: button_position(),
                width: button_width,
                height: button_height,
            }),
    {
        let ghost dealt_from = deck@;
        let cascades = init::deal(deck);
        let open_cells = init::open_cells();
        let foundations = init::foundations();
        let game = Self {
            cascades,
            open_cells,
            foundations,
            hand: Hand::new(),
            hand_card_source: None,
            button: init::button(button_width, button_height),
            finale: Finale::new(),
        };
        proof {
            init::lemma_dealt_is_fresh(dealt_from);
            assert(game@.cells =~= Table::new_game(dealt_from).cells);
            assert(game@.foundations =~= Table::new_game(dealt_from).foundations);
            assert(game@.hand =~= Table::new_game(dealt_from).hand);
            lemma_fresh_deal_is_wf(game@);
        }
        game
    }

    /// Sets up a game from a shuffled deck. The reset button gets the size of
    /// its icon.
    pub fn new(button_width: i32, button_height: i32) -> (game: Self)
        ensures
            game.is_new(),
            game.button() == (Button {
                pos: button_position(),
                width: button_width,
                height: button_height,
            }),
    {
        let cascades = init::cascades();
        let open_cells = init::open_cells();
        let foundations = init::foundations();
        let game = Self {
            cascades,
            open_cells,
            foundations,
            hand: Hand::new(),
            hand_card_source: None,
            button: init::button(button_width, button_height),
            finale: Finale::new(),
        };
        proof {
            lemma_fresh_deal_is_wf(game@);
        }
        game
    }

    /// Starts over with a shuffled deck. The reset button stays.
    pub fn reset(&mut self)
        ensures
            final(self).is_new(),
            final(self).button() == old(self).button(),
    {
        self.cascades = init::cascades();
        self.open_cells = init::open_cells();
        self.foundations = init::foundations();
        self.hand = Hand::new();
        self.hand_card_source = None;
        self.finale = Finale::new();
        proof {
            lemma_fresh_deal_is_wf(self@);
        }
    }

    /// A button of the pointing device went up at `pos`.
    ///
    /// Nothing happens in a game that is won. Otherwise the main button, let
    /// go on the reset button, starts a new game; let go anywhere else with
    /// cards in the hand, it puts them down. Returns the sound to play.
    pub fn mouse_button_up_event(&mut self, button: MouseButton, pos: Position) -> (cue: Option<
        Sound,
    >)
        requires
            old(self).wf(),
        ensures
            final(self).wf(),
            final(self).button() == old(self).button(),
            old(self)@.is_won() ==> {
                &&& final(self)@ == old(self)@
                &&& cue is None
                &&& final(self).same_frame(old(self))
            },
            !old(self)@.is_won() && button == MouseButton::Left && old(self).button().covers(pos)
                ==> final(self).is_new() && cue == Some(Sound::Deal),
            !old(self)@.is_won() && !(button == MouseButton::Left && old(self).button().covers(pos))
                ==> {
                &&& final(self)@ == old(self)@.release(button, pos)
                &&& cue == old(self)@.release_cue(button, pos)
                &&& final(self).same_frame(old(self))
            },
            old(self)@.regular() ==> final(self)@.regular(),
    {
        if self.is_victory() {
            return None;
        }
        if button == MouseButton::Left {
            if self.button.inside(pos) {
                self.reset();
                return Some(Sound::Deal);
            }
            if !self.hand.is_empty() {
                proof {
                    lemma_release_keeps_wf(self@, button, pos);
                    if self@.regular() {
                        lemma_release_keeps_regular(self@, button, pos);
                    }
                }
                return self.drop_hand(pos);
            }
        }
        None
    }

    /// A button of the pointing device went down at `pos`.
    ///
    /// In a game that is won, a press starts a new game once the victory
    /// animation has begun, and does nothing before. Otherwise the main button
    /// picks up cards where the hand is empty, and the secondary button sends
    /// a card to a foundation. Returns the sound to play.
    pub fn mouse_button_down_event(&mut self, button: MouseButton, pos: Position) -> (cue:
        Option<Sound>)
        requires
            old(self).wf(),
        ensures
            final(self).wf(),
            final(self).button() == old(self).button(),
            old(self)@.is_won() && old(self).finale()@.len() > 0 ==> final(self).is_new() && cue
                == Some(Sound::Deal),
            old(self)@.is_won() && old(self).finale()@.len() == 0 ==> {
                &&& final(self)@ == old(self)@
                &&& cue is None
                &&& final(self).same_frame(old(self))
            },
            !old(self)@.is_won() ==> {
                &&& final(self)@ == old(self)@.press(button, pos)
                &&& cue == old(self)@.press_cue(button, pos)
                &&& final(self).same_frame(old(self))
            },
            old(self)@.regular() && !old(self)@.send_fills_origin(button, pos)
                ==> final(self)@.regular(),
    {
        if self.is_victory() {
            if self.finale.is_playing() {
                self.reset();
                return Some(Sound::Deal);
            }
            return None;
        }
        proof {
            lemma_press_keeps_wf(self@, button, pos);
            if self@.regular() && !self@.send_fills_origin(button, pos) {
                lemma_press_keeps_regular(self@, button, pos);
            }
        }
        match button {
            MouseButton::Right => self.send(pos),
            MouseButton::Left => {
                if self.hand.is_empty() {
                    self.grab(pos)
                } else {
                    None
                }
            },
            _ => None,
        }
    }

    /// One frame went by: the hand follows the pointer, and in a game that is
    /// won the victory animation gets `delta` more milliseconds. Returns
    /// whether the animation showed a new card.
    pub fn update(&mut self, pointer: Position, delta: u64) -> (ticked: bool)
        requires
            old(self).wf(),
            Hand::can_follow(pointer),
        ensures
            final(self).wf(),
            final(self)@ == old(self)@,
            final(self).button() == old(self).button(),
            final(self).hand_position() == pointer.shifted(-HAND_OFFSET_X, -HAND_OFFSET_Y),
            old(self)@.is_won() ==> final(self).finale().follows(
                &old(self).finale(),
                delta,
                ticked,
            ),
            !old(self)@.is_won() ==> !ticked && final(self).finale() == old(self).finale(),
    {
        self.hand.update(pointer);
        if self.is_victory() {
            self.finale.update(delta)
        } else {
            false
        }
    }

    /// What draws the game, back to front: the table with the hand, and over
    /// it the victory animation once the game is won.
    pub open spec fn draw_list(&self) -> Seq<DrawRequest> {
        self@.draw_list(self.hand_position()) + (if self@.is_won() {
            self.finale().draw_list()
        } else {
            Seq::empty()
        })
    }

    /// The hand's cards can be drawn where the hand is.
    pub open spec fn hand_fits(&self) -> bool {
        fan_fits(self.hand_position(), self@.hand.len())
    }

    /// Whether the hand's cards can be drawn where the hand is.
    pub fn can_draw(&self) -> (r: bool)
        requires
            self.wf(),
        ensures
            r == self.hand_fits(),
    {
        proof {
            lemma_pile_sizes(self@);
        }
        let n: usize = self.hand.len();
        let step: i64 = CARD_STACK_INCREMENT as i64;
        assert(step == 24);
        n == 0 || self.hand.pos().y as i64 + (n as i64 - 1) * step <= i32::MAX as i64
    }

    /// Empties the queue of `tileset` and fills it with the tiles that draw
    /// the game.
    pub fn draw(&self, tileset: &mut TileSet)
        requires
            self.wf(),
            self.hand_fits(),
            old(tileset).is_complete(),
        ensures
            final(tileset).queue() == old(tileset).sprites(self.draw_list()),
            final(tileset).tiles() == old(tileset).tiles(),
            final(tileset).sheet_dimensions() == old(tileset).sheet_dimensions(),
    {
        let ghost table = self@;
        let ghost set = *old(tileset);
        proof {
            lemma_table_cards_in_deck(table);
            lemma_pile_sizes(table);
        }
        tileset.clear_queue();
        assert(tileset.queue() =~= set.sprites(table.foundation_draws(0)));
        let mut i: usize = 0;
        while i < 4
            invariant
                i <= 4,
                self.wf(),
                table == self@,
                set.is_complete(),
                tileset.tiles() == set.tiles(),
                tileset.sheet_dimensions() == set.sheet_dimensions(),
                forall|i: int, k: int|
                    0 <= i < 4 && 0 <= k < table.foundations[i].len() ==> (
                    #[trigger] table.foundations[i][k]).in_deck(),
                tileset.queue() == set.sprites(table.foundation_draws(i as int)),
            decreases 4 - i,
        {
            let f = &self.foundations[i];
            assert(f@ == table.foundations[i as int]);
            assert(tileset.has_all(f.draw_list())) by {
                if f@.len() > 0 {
                    assert(table.foundations[i as int][f@.len() - 1].in_deck());
                }
            }
            f.draw(tileset);
            proof {
                lemma_sprites_concat(&set, table.foundation_draws(i as int), f.draw_list());
                assert(tileset.sprites(f.draw_list()) =~= set.sprites(f.draw_list()));
            }
            i += 1;
        }
        let ghost below = table.foundation_draws(4);
        assert(below + table.cell_draws(0) =~= below);
        let mut i: usize = 0;
        while i < 4
            invariant
                i <= 4,
                self.wf(),
                table == self@,
                set.is_complete(),
                tileset.tiles() == set.tiles(),
                tileset.sheet_dimensions() == set.sheet_dimensions(),
                forall|i: int|
                    0 <= i < 4 && (#[trigger] table.cells[i]) is Some
                        ==> table.cells[i]->0.in_deck(),
                tileset.queue() == set.sprites(below + table.cell_draws(i as int)),
            decreases 4 - i,
        {
            let c = &self.open_cells[i];
            assert(c@ == table.cells[i as int]);
            assert(tileset.has_all(c.draw_list()));
            c.draw(tileset);
            proof {
                lemma_sprites_concat(&set, below + table.cell_draws(i as int), c.draw_list());
                assert(tileset.sprites(c.draw_list()) =~= set.sprites(c.draw_list()));
                assert(below + table.cell_draws(i + 1) =~= below + table.cell_draws(i as int)
                    + c.draw_list());
            }
            i += 1;
        }
        let ghost below = table.foundation_draws(4) + table.cell_draws(4);
        assert(below + table.cascade_draws(0) =~= below);
        let mut i: usize = 0;
        while i < 8
            invariant
                i <= 8,
                self.wf(),
                table == self@,
                set.is_complete(),
                tileset.tiles() == set.tiles(),
                tileset.sheet_dimensions() == set.sheet_dimensions(),
                forall|i: int, k: int|
                    0 <= i < 8 && 0 <= k < table.cascades[i].len() ==> (
                    #[trigger] table.cascades[i][k]).in_deck(),
                forall|i: int| 0 <= i < 8 ==> (#[trigger] table.cascades[i]).len() <= 52,
                tileset.queue() == set.sprites(below + table.cascade_draws(i as int)),
            decreases 8 - i,
        {
            let c = &self.cascades[i];
            assert(c@ == table.cascades[i as int]);
            assert(table.cascades[i as int].len() <= 52);
            assert(tileset.has_all(c.draw_list())) by {
                assert forall|k: int| 0 <= k < c.draw_list().len() implies tileset.tiles()
                    .contains_key((#[trigger] c.draw_list()[k]).key) by {
                    if c@.len() > 0 {
                        assert(table.cascades[i as int][k].in_deck());
                    }
                }
            }
            c.draw(tileset);
            proof {
                lemma_sprites_concat(&set, below + table.cascade_draws(i as int), c.draw_list());
                assert(tileset.sprites(c.draw_list()) =~= set.sprites(c.draw_list()));
                assert(below + table.cascade_draws(i + 1) =~= below + table.cascade_draws(
                    i as int,
                ) + c.draw_list());
            }
            i += 1;
        }
        let ghost below = table.foundation_draws(4) + table.cell_draws(4) + table.cascade_draws(8);
        assert(tileset.has_all(self.hand.draw_list())) by {
            assert forall|k: int| 0 <= k < self.hand.draw_list().len() implies tileset.tiles()
                .contains_key((#[trigger] self.hand.draw_list()[k]).key) by {
                assert(table.hand[k].in_deck());
            }
        }
        self.hand.draw(tileset);
        proof {
            lemma_sprites_concat(&set, below, self.hand.draw_list());
            assert(tileset.sprites(self.hand.draw_list()) =~= set.sprites(self.hand.draw_list()));
        }
        if self.is_victory() {
            assert(tileset.has_all(self.finale.draw_list())) by {
                assert forall|k: int| 0 <= k < self.finale.draw_list().len() implies tileset.tiles()
                    .contains_key((#[trigger] self.finale.draw_list()[k]).key) by {
                    assert(self.finale@[k].0.in_deck());
                }
            }
            self.finale.draw(tileset);
            proof {
                lemma_sprites_concat(
                    &set,
                    table.draw_list(self.hand_position()),
                    self.finale.draw_list(),
                );
                assert(tileset.sprites(self.finale.draw_list()) =~= set.sprites(
                    self.finale.draw_list(),
                ));
            }
        } else {
            assert(self.draw_list() =~= table.draw_list(self.hand_position()));
        }
    }
}

} // verus!
