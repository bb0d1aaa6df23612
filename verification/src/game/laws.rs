//! What holds of every game, whatever is pressed or released: no card is lost
//! or made, the foundations stay in order, and cards that no pile takes go
//! back where they were.

use vstd::prelude::*;
use vstd::seq_lib::lemma_multiset_commutative;
use crate::card::{deck_seq, Card};
use crate::components::cascade::{last_cards, without_last};
use crate::components::foundation::is_ace_up;
use crate::game::table::{
    cards_in, cell_piles, count_in, first_index, lemma_cards_in_empty, lemma_cards_in_has,
    lemma_cards_in_update, lemma_count_in, lemma_first_index, slot_cards, CardSource,
    MouseButton, PointerEvent, Table,
};
use crate::geometry::Position;

verus! {

/// Replacing the card of free cell `i` replaces pile `i` of the cells' row.
proof fn lemma_cell_piles_update(cells: Seq<Option<Card>>, i: int, slot: Option<Card>)
    requires
        0 <= i < cells.len(),
    ensures
        cell_piles(cells.update(i, slot)) == cell_piles(cells).update(i, slot_cards(slot)),
        cell_piles(cells)[i] == slot_cards(cells[i]),
{
    assert(cell_piles(cells.update(i, slot)) =~= cell_piles(cells).update(i, slot_cards(slot)));
}

/// An empty pile holds no card.
proof fn lemma_empty_pile(c: Card)
    ensures
        Seq::<Card>::empty().to_multiset().count(c) == 0,
{
    vstd::seq_lib::to_multiset_contains(Seq::<Card>::empty(), c);
}

/// A pile of one card holds that card once and nothing else.
proof fn lemma_single_pile(card: Card, c: Card)
    ensures
        seq![card].to_multiset().count(c) == (if c == card { 1nat } else { 0nat }),
{
    lemma_empty_pile(c);
    vstd::seq_lib::to_multiset_build(Seq::<Card>::empty(), card);
    assert(seq![card] =~= Seq::<Card>::empty().push(card));
}

/// The cards of a free cell, counted.
proof fn lemma_slot_pile(slot: Option<Card>, c: Card)
    ensures
        slot_cards(slot).to_multiset().count(c) == (if slot == Some(c) { 1nat } else { 0nat }),
{
    match slot {
        Some(card) => lemma_single_pile(card, c),
        None => lemma_empty_pile(c),
    }
}

/// A pile with one more card on top holds that card once more.
proof fn lemma_pushed_pile(s: Seq<Card>, card: Card, c: Card)
    ensures
        s.push(card).to_multiset().count(c) == s.to_multiset().count(c) + (if c == card {
            1nat
        } else {
            0nat
        }),
{
    vstd::seq_lib::to_multiset_build(s, card);
}

/// A pile is its lower part followed by its last `n` cards.
proof fn lemma_split(s: Seq<Card>, n: nat, c: Card)
    ensures
        s =~= without_last(s, n) + last_cards(s, n),
        s.to_multiset().count(c) == without_last(s, n).to_multiset().count(c) + last_cards(
            s,
            n,
        ).to_multiset().count(c),
{
    assert(s =~= without_last(s, n) + last_cards(s, n));
    lemma_multiset_commutative(without_last(s, n), last_cards(s, n));
}

/// Two piles laid on each other hold what both held.
proof fn lemma_joined_pile(a: Seq<Card>, b: Seq<Card>, c: Card)
    ensures
        (a + b).to_multiset().count(c) == a.to_multiset().count(c) + b.to_multiset().count(c),
{
    lemma_multiset_commutative(a, b);
}

/// Replacing pile `i` of a row changes the row's count of a card by the
/// difference between the two piles.
proof fn lemma_row_update(piles: Seq<Seq<Card>>, i: int, pile: Seq<Card>, c: Card)
    requires
        0 <= i < piles.len(),
    ensures
        cards_in(piles.update(i, pile)).count(c) + piles[i].to_multiset().count(c) == cards_in(
            piles,
        ).count(c) + pile.to_multiset().count(c),
{
    lemma_cards_in_update(piles, i, pile);
    let left = cards_in(piles.update(i, pile)).add(piles[i].to_multiset());
    let right = cards_in(piles).add(pile.to_multiset());
    assert(left.count(c) == right.count(c));
}

/// Replacing the card of free cell `i` changes the cells' count of a card by
/// the difference between the two.
proof fn lemma_cells_update(cells: Seq<Option<Card>>, i: int, slot: Option<Card>, c: Card)
    requires
        0 <= i < cells.len(),
    ensures
        cards_in(cell_piles(cells.update(i, slot))).count(c) + (if cells[i] == Some(c) {
            1nat
        } else {
            0nat
        }) == cards_in(cell_piles(cells)).count(c) + (if slot == Some(c) {
            1nat
        } else {
            0nat
        }),
{
    lemma_cell_piles_update(cells, i, slot);
    lemma_row_update(cell_piles(cells), i, slot_cards(slot), c);
    lemma_slot_pile(slot, c);
    lemma_slot_pile(cells[i], c);
}

/// Picking up from a cascade loses and adds no card.
pub proof fn lemma_take_from_cascade(t: Table, i: int, n: nat)
    requires
        t.shape(),
        0 <= i < 8,
    ensures
        t.take_from_cascade(i, n).shape(),
        t.take_from_cascade(i, n).all_cards() == t.all_cards(),
{
    let pile = t.cascades[i];
    let after = t.take_from_cascade(i, n);
    if last_cards(pile, n).len() > 0 {
        assert forall|c: Card| after.all_cards().count(c) == t.all_cards().count(c) by {
            lemma_row_update(t.cascades, i, without_last(pile, n), c);
            lemma_split(pile, n, c);
            lemma_joined_pile(t.hand, last_cards(pile, n), c);
        }
        assert(after.all_cards() =~= t.all_cards());
    }
}

/// Picking up from a free cell loses and adds no card.
pub proof fn lemma_take_from_cell(t: Table, i: int)
    requires
        t.shape(),
        0 <= i < 4,
        t.cells[i] is Some,
    ensures
        t.take_from_cell(i).shape(),
        t.take_from_cell(i).all_cards() == t.all_cards(),
{
    let after = t.take_from_cell(i);
    assert forall|c: Card| after.all_cards().count(c) == t.all_cards().count(c) by {
        lemma_cells_update(t.cells, i, None, c);
        lemma_pushed_pile(t.hand, t.cells[i]->0, c);
    }
    assert(after.all_cards() =~= t.all_cards());
}

/// Picking up from a foundation loses and adds no card.
pub proof fn lemma_take_from_foundation(t: Table, i: int)
    requires
        t.shape(),
        0 <= i < 4,
        t.foundations[i].len() > 0,
    ensures
        t.take_from_foundation(i).shape(),
        t.take_from_foundation(i).all_cards() == t.all_cards(),
{
    let after = t.take_from_foundation(i);
    let pile = t.foundations[i];
    assert forall|c: Card| after.all_cards().count(c) == t.all_cards().count(c) by {
        lemma_row_update(t.foundations, i, pile.drop_last(), c);
        lemma_pushed_pile(pile.drop_last(), pile.last(), c);
        assert(pile.drop_last().push(pile.last()) =~= pile);
        lemma_pushed_pile(t.hand, pile.last(), c);
    }
    assert(after.all_cards() =~= t.all_cards());
}

/// Sending a cascade's front card to a foundation loses and adds no card.
pub proof fn lemma_send_from_cascade(t: Table, i: int, j: int)
    requires
        t.shape(),
        0 <= i < 8,
        0 <= j < 4,
        t.cascades[i].len() > 0,
    ensures
        t.send_from_cascade(i, j).shape(),
        t.send_from_cascade(i, j).all_cards() == t.all_cards(),
{
    let after = t.send_from_cascade(i, j);
    let pile = t.cascades[i];
    assert forall|c: Card| after.all_cards().count(c) == t.all_cards().count(c) by {
        lemma_row_update(t.cascades, i, pile.drop_last(), c);
        lemma_pushed_pile(pile.drop_last(), pile.last(), c);
        assert(pile.drop_last().push(pile.last()) =~= pile);
        lemma_row_update(t.foundations, j, t.foundations[j].push(pile.last()), c);
        lemma_pushed_pile(t.foundations[j], pile.last(), c);
    }
    assert(after.all_cards() =~= t.all_cards());
}

/// Sending a free cell's card to a foundation loses and adds no card.
pub proof fn lemma_send_from_cell(t: Table, i: int, j: int)
    requires
        t.shape(),
        0 <= i < 4,
        0 <= j < 4,
        t.cells[i] is Some,
    ensures
        t.send_from_cell(i, j).shape(),
        t.send_from_cell(i, j).all_cards() == t.all_cards(),
{
    let after = t.send_from_cell(i, j);
    let card = t.cells[i]->0;
    assert forall|c: Card| after.all_cards().count(c) == t.all_cards().count(c) by {
        lemma_cells_update(t.cells, i, None, c);
        lemma_row_update(t.foundations, j, t.foundations[j].push(card), c);
        lemma_pushed_pile(t.foundations[j], card, c);
    }
    assert(after.all_cards() =~= t.all_cards());
}

/// Laying the hand on a cascade loses and adds no card.
pub proof fn lemma_put_on_cascade(t: Table, i: int)
    requires
        t.shape(),
        0 <= i < 8,
    ensures
        t.put_on_cascade(i).shape(),
        t.put_on_cascade(i).all_cards() == t.all_cards(),
{
    let after = t.put_on_cascade(i);
    assert forall|c: Card| after.all_cards().count(c) == t.all_cards().count(c) by {
        lemma_row_update(t.cascades, i, t.cascades[i] + t.hand, c);
        lemma_joined_pile(t.cascades[i], t.hand, c);
        lemma_empty_pile(c);
    }
    assert(after.all_cards() =~= t.all_cards());
}

/// Laying the hand's one card in an empty free cell loses and adds no card.
pub proof fn lemma_put_on_cell(t: Table, i: int)
    requires
        t.shape(),
        0 <= i < 4,
        t.hand.len() == 1,
        t.cells[i] is None,
    ensures
        t.put_on_cell(i).shape(),
        t.put_on_cell(i).all_cards() == t.all_cards(),
{
    let after = t.put_on_cell(i);
    assert forall|c: Card| after.all_cards().count(c) == t.all_cards().count(c) by {
        lemma_cells_update(t.cells, i, Some(t.hand.last()), c);
        lemma_single_pile(t.hand.last(), c);
        assert(t.hand =~= seq![t.hand.last()]);
        lemma_empty_pile(c);
    }
    assert(after.all_cards() =~= t.all_cards());
}

/// Laying the hand's one card on a foundation loses and adds no card.
pub proof fn lemma_put_on_foundation(t: Table, i: int)
    requires
        t.shape(),
        0 <= i < 4,
        t.hand.len() == 1,
    ensures
        t.put_on_foundation(i).shape(),
        t.put_on_foundation(i).all_cards() == t.all_cards(),
{
    let after = t.put_on_foundation(i);
    assert forall|c: Card| after.all_cards().count(c) == t.all_cards().count(c) by {
        lemma_row_update(t.foundations, i, t.foundations[i].push(t.hand.last()), c);
        lemma_pushed_pile(t.foundations[i], t.hand.last(), c);
        lemma_single_pile(t.hand.last(), c);
        assert(t.hand =~= seq![t.hand.last()]);
        lemma_empty_pile(c);
    }
    assert(after.all_cards() =~= t.all_cards());
}

/// A new game is well-formed.
pub proof fn lemma_fresh_deal_is_wf(t: Table)
    requires
        t.is_fresh_deal(),
    ensures
        t.wf(),
{
    assert forall|i: int| 0 <= i < 4 implies (#[trigger] cell_piles(t.cells)[i]).len() == 0 by {
        assert(t.cells[i] is None);
    }
    lemma_cards_in_empty(cell_piles(t.cells));
    lemma_cards_in_empty(t.foundations);
    assert forall|c: Card| t.all_cards().count(c) == cards_in(t.cascades).count(c) by {
        lemma_empty_pile(c);
        assert(t.hand =~= Seq::<Card>::empty());
    }
    assert(t.all_cards() =~= cards_in(t.cascades));
}

/// Picking up keeps the game well-formed.
pub proof fn lemma_grab_keeps_wf(t: Table, p: Position)
    requires
        t.wf(),
        t.hand.len() == 0,
    ensures
        t.grab(p).wf(),
        t.grab(p).all_cards() == t.all_cards(),
{
    lemma_first_index(0, 8, t.grab_cascade_pred(p));
    lemma_first_index(0, 4, t.grab_cell_pred(p));
    lemma_first_index(0, 4, t.grab_foundation_pred(p));
    match first_index(0, 8, t.grab_cascade_pred(p)) {
        Some(i) => {
            lemma_take_from_cascade(t, i, t.cascade_grab(i, p));
        },
        None => match first_index(0, 4, t.grab_cell_pred(p)) {
            Some(i) => {
                lemma_take_from_cell(t, i);
            },
            None => match first_index(0, 4, t.grab_foundation_pred(p)) {
                Some(i) => {
                    lemma_take_from_foundation(t, i);
                },
                None => {},
            },
        },
    }
}

/// Sending a card to a foundation keeps the game well-formed.
pub proof fn lemma_send_keeps_wf(t: Table, p: Position)
    requires
        t.wf(),
    ensures
        t.send(p).wf(),
        t.send(p).all_cards() == t.all_cards(),
        t.send(p).hand == t.hand,
        t.send(p).origin == t.origin,
{
    lemma_first_index(0, 8, t.send_cascade_pred(p));
    lemma_first_index(0, 4, t.send_cell_pred(p));
    match t.send_source(p) {
        Some(CardSource::Cascade(i)) => {
            let card = t.cascades[i as int].last();
            lemma_first_index(0, 4, t.accepts_pred(card));
            lemma_send_from_cascade(t, i as int, t.send_target(p)->0);
        },
        Some(CardSource::Cell(i)) => {
            let card = t.cells[i as int]->0;
            lemma_first_index(0, 4, t.accepts_pred(card));
            lemma_send_from_cell(t, i as int, t.send_target(p)->0);
        },
        _ => {},
    }
}

/// Giving the hand back to its origin keeps the game well-formed.
pub proof fn lemma_give_back_keeps_wf(t: Table)
    requires
        t.wf(),
    ensures
        t.give_back().wf(),
        t.give_back().all_cards() == t.all_cards(),
        t.give_back().hand.len() == 0,
{
    match t.origin {
        Some(CardSource::Cell(n)) => lemma_put_on_cell(t, n as int),
        Some(CardSource::Cascade(n)) => lemma_put_on_cascade(t, n as int),
        Some(CardSource::Foundation(n)) => lemma_put_on_foundation(t, n as int),
        None => {},
    }
}

/// Putting the hand down keeps the game well-formed, and empties the hand.
pub proof fn lemma_drop_keeps_wf(t: Table, p: Position)
    requires
        t.wf(),
    ensures
        t.put_down(p).wf(),
        t.put_down(p).all_cards() == t.all_cards(),
        t.put_down(p).hand.len() == 0,
{
    lemma_first_index(0, 8, t.drop_cascade_pred(p));
    lemma_first_index(0, 4, t.drop_cell_pred(p));
    lemma_first_index(0, 4, t.drop_foundation_pred(p));
    match first_index(0, 8, t.drop_cascade_pred(p)) {
        Some(i) => lemma_put_on_cascade(t, i),
        None => match first_index(0, 4, t.drop_cell_pred(p)) {
            Some(i) => lemma_put_on_cell(t, i),
            None => match first_index(0, 4, t.drop_foundation_pred(p)) {
                Some(i) => lemma_put_on_foundation(t, i),
                None => lemma_give_back_keeps_wf(t),
            },
        },
    }
}

/// No card is lost or made when a button goes down: the state stays
/// well-formed and holds the same cards.
pub proof fn lemma_press_keeps_wf(t: Table, button: MouseButton, p: Position)
    requires
        t.wf(),
    ensures
        t.press(button, p).wf(),
        t.press(button, p).all_cards() == t.all_cards(),
{
    match button {
        MouseButton::Left => {
            if t.hand.len() == 0 {
                lemma_grab_keeps_wf(t, p);
            }
        },
        MouseButton::Right => lemma_send_keeps_wf(t, p),
        _ => {},
    }
}

/// No card is lost or made when a button goes up: the state stays well-formed
/// and holds the same cards.
pub proof fn lemma_release_keeps_wf(t: Table, button: MouseButton, p: Position)
    requires
        t.wf(),
    ensures
        t.release(button, p).wf(),
        t.release(button, p).all_cards() == t.all_cards(),
{
    if button == MouseButton::Left && t.hand.len() > 0 {
        lemma_drop_keeps_wf(t, p);
    }
}

/// A well-formed game holds 52 cards, the piles and the hand counted together.
pub proof fn lemma_card_count(t: Table)
    requires
        t.wf(),
    ensures
        t.card_count() == 52,
{
    lemma_count_in(t.cascades);
    lemma_count_in(cell_piles(t.cells));
    lemma_count_in(t.foundations);
    t.hand.to_multiset_ensures();
    deck_seq().to_multiset_ensures();
}

/// Whatever is pressed and released, in whatever order, the game stays
/// well-formed and holds the same cards, 52 of them.
pub proof fn lemma_play_conserves_cards(t: Table, events: Seq<PointerEvent>)
    requires
        t.wf(),
    ensures
        t.run(events).wf(),
        t.run(events).all_cards() == t.all_cards(),
        t.run(events).card_count() == 52,
    decreases events.len(),
{
    if events.len() > 0 {
        lemma_play_conserves_cards(t, events.drop_last());
        let before = t.run(events.drop_last());
        match events.last() {
            PointerEvent::Down(button, p) => lemma_press_keeps_wf(before, button, p),
            PointerEvent::Up(button, p) => lemma_release_keeps_wf(before, button, p),
        }
    }
    lemma_card_count(t.run(events));
}

/// The deck holds each of its 52 cards once, and no other card.
pub proof fn lemma_deck_counts(c: Card)
    ensures
        deck_seq().to_multiset().count(c) == (if c.in_deck() { 1nat } else { 0nat }),
{
    let deck = deck_seq();
    assert(deck.no_duplicates());
    deck.lemma_multiset_has_no_duplicates();
    vstd::seq_lib::to_multiset_contains(deck, c);
    if c.in_deck() {
        assert(deck[c.suit * 13 + c.value] == c);
    }
}

/// In a well-formed game each card of the deck is there once, in a pile or in
/// the hand, and no other card is there at all.
pub proof fn lemma_each_card_once(t: Table, c: Card)
    requires
        t.wf(),
    ensures
        t.all_cards().count(c) == (if c.in_deck() { 1nat } else { 0nat }),
{
    lemma_deck_counts(c);
}

/// Right after a deal each card of the deck lies in the cascades once, and no
/// other card does.
pub proof fn lemma_fresh_deal_has_each_card_once(t: Table, c: Card)
    requires
        t.is_fresh_deal(),
    ensures
        cards_in(t.cascades).count(c) == (if c.in_deck() { 1nat } else { 0nat }),
{
    lemma_deck_counts(c);
}

/// A new game has its foundations in order.
pub proof fn lemma_fresh_deal_is_regular(t: Table)
    requires
        t.is_fresh_deal(),
    ensures
        t.regular(),
{
}

/// The foundations stay in order when a button goes down: each still climbs
/// from its ace within one suit, and a card taken from a foundation still fits
/// on it. The one press that breaks this sends a card to the foundation that
/// the card in the hand came from.
pub proof fn lemma_press_keeps_regular(t: Table, button: MouseButton, p: Position)
    requires
        t.wf(),
        t.regular(),
        !t.send_fills_origin(button, p),
    ensures
        t.press(button, p).regular(),
{
    let after = t.press(button, p);
    match button {
        MouseButton::Left => {
            if t.hand.len() == 0 {
                lemma_first_index(0, 8, t.grab_cascade_pred(p));
                lemma_first_index(0, 4, t.grab_cell_pred(p));
                lemma_first_index(0, 4, t.grab_foundation_pred(p));
                assert forall|i: int| 0 <= i < 4 implies is_ace_up(
                    #[trigger] after.foundations[i],
                ) by {
                    assert(is_ace_up(t.foundations[i]));
                }
            }
        },
        MouseButton::Right => {
            lemma_first_index(0, 8, t.send_cascade_pred(p));
            lemma_first_index(0, 4, t.send_cell_pred(p));
            match t.send_source(p) {
                Some(CardSource::Cascade(i)) => {
                    lemma_first_index(0, 4, t.accepts_pred(t.cascades[i as int].last()));
                },
                Some(CardSource::Cell(i)) => {
                    lemma_first_index(0, 4, t.accepts_pred(t.cells[i as int]->0));
                },
                _ => {},
            }
            assert forall|i: int| 0 <= i < 4 implies is_ace_up(#[trigger] after.foundations[i]) by {
                assert(is_ace_up(t.foundations[i]));
            }
        },
        _ => {},
    }
}

/// The foundations stay in order when a button goes up: a card goes onto a
/// foundation only where `can_stack` allows it, or back where it was.
pub proof fn lemma_release_keeps_regular(t: Table, button: MouseButton, p: Position)
    requires
        t.wf(),
        t.regular(),
    ensures
        t.release(button, p).regular(),
{
    let after = t.release(button, p);
    if button == MouseButton::Left && t.hand.len() > 0 {
        lemma_first_index(0, 8, t.drop_cascade_pred(p));
        lemma_first_index(0, 4, t.drop_cell_pred(p));
        lemma_first_index(0, 4, t.drop_foundation_pred(p));
        assert forall|i: int| 0 <= i < 4 implies is_ace_up(#[trigger] after.foundations[i]) by {
            assert(is_ace_up(t.foundations[i]));
        }
    }
}

/// In a game whose foundations are in order, whatever lies on a foundation
/// follows the card under it, and the bottom card is an ace.
pub proof fn lemma_foundation_order(t: Table, f: int, i: int)
    requires
        t.regular(),
        0 <= f < 4,
        0 < i < t.foundations[f].len(),
    ensures
        t.foundations[f][i].spec_follows(&t.foundations[f][i - 1]),
        t.foundations[f][0].spec_is_ace(),
{
    assert(is_ace_up(t.foundations[f]));
}

/// Cards that are picked up and find no pile to take them go back to exactly
/// where they were: the press and the release together change nothing.
///
/// The press has to leave the game unwon, for a won game ignores the release.
pub proof fn lemma_rejected_drop_restores(t: Table, p: Position, q: Position)
    requires
        t.wf(),
        t.hand.len() == 0,
        !t.press(MouseButton::Left, p).is_won(),
        !t.press(MouseButton::Left, p).has_destination(q),
    ensures
        t.press(MouseButton::Left, p).release(MouseButton::Left, q) == t,
{
    let held = t.press(MouseButton::Left, p);
    let after = held.release(MouseButton::Left, q);
    lemma_first_index(0, 8, t.grab_cascade_pred(p));
    lemma_first_index(0, 4, t.grab_cell_pred(p));
    lemma_first_index(0, 4, t.grab_foundation_pred(p));
    assert(t.hand =~= Seq::<Card>::empty());
    if held.hand.len() > 0 {
        match first_index(0, 8, t.grab_cascade_pred(p)) {
            Some(i) => {
                let n = t.cascade_grab(i, p);
                lemma_split(t.cascades[i], n, t.cascades[i][0]);
                assert(after.cascades =~= t.cascades);
            },
            None => match first_index(0, 4, t.grab_cell_pred(p)) {
                Some(i) => {
                    assert(after.cells =~= t.cells);
                },
                None => match first_index(0, 4, t.grab_foundation_pred(p)) {
                    Some(i) => {
                        assert(after.foundations[i] =~= t.foundations[i]);
                        assert(after.foundations =~= t.foundations);
                    },
                    None => {},
                },
            },
        }
        assert(after.hand =~= t.hand);
    }
}

/// A card that lies in a row of piles whose cards all belong to the game is a
/// card of the deck.
proof fn lemma_row_card_in_deck(t: Table, row: Seq<Seq<Card>>, i: int, k: int)
    requires
        t.wf(),
        0 <= i < row.len(),
        0 <= k < row[i].len(),
        forall|c: Card| cards_in(row).count(c) <= t.all_cards().count(c),
    ensures
        row[i][k].in_deck(),
{
    let c = row[i][k];
    assert(row[i].contains(c));
    vstd::seq_lib::to_multiset_contains(row[i], c);
    lemma_cards_in_has(row, i, c);
    lemma_deck_counts(c);
}

/// Every card on the table and in the hand is a card of the deck.
pub proof fn lemma_table_cards_in_deck(t: Table)
    requires
        t.wf(),
    ensures
        forall|i: int, k: int|
            0 <= i < 8 && 0 <= k < t.cascades[i].len() ==> (#[trigger] t.cascades[i][k]).in_deck(),
        forall|i: int, k: int|
            0 <= i < 4 && 0 <= k < t.foundations[i].len() ==> (
            #[trigger] t.foundations[i][k]).in_deck(),
        forall|i: int| 0 <= i < 4 && (#[trigger] t.cells[i]) is Some ==> t.cells[i]->0.in_deck(),
        forall|k: int| 0 <= k < t.hand.len() ==> (#[trigger] t.hand[k]).in_deck(),
{
    assert forall|i: int, k: int| 0 <= i < 8 && 0 <= k < t.cascades[i].len() implies (
    #[trigger] t.cascades[i][k]).in_deck() by {
        lemma_row_card_in_deck(t, t.cascades, i, k);
    }
    assert forall|i: int, k: int| 0 <= i < 4 && 0 <= k < t.foundations[i].len() implies (
    #[trigger] t.foundations[i][k]).in_deck() by {
        lemma_row_card_in_deck(t, t.foundations, i, k);
    }
    assert forall|i: int| 0 <= i < 4 && (#[trigger] t.cells[i]) is Some implies t.cells[i]->0
        .in_deck() by {
        assert(cell_piles(t.cells)[i] == slot_cards(t.cells[i]));
        assert(cell_piles(t.cells)[i][0] == t.cells[i]->0);
        lemma_row_card_in_deck(t, cell_piles(t.cells), i, 0);
    }
    assert forall|k: int| 0 <= k < t.hand.len() implies (#[trigger] t.hand[k]).in_deck() by {
        let c = t.hand[k];
        assert(t.hand.contains(c));
        vstd::seq_lib::to_multiset_contains(t.hand, c);
        lemma_deck_counts(c);
    }
}

/// A pile of a row has no more cards than the row.
proof fn lemma_count_in_has(piles: Seq<Seq<Card>>, i: int)
    requires
        0 <= i < piles.len(),
    ensures
        piles[i].len() <= count_in(piles),
    decreases piles.len(),
{
    if i < piles.len() - 1 {
        lemma_count_in_has(piles.drop_last(), i);
    }
}

/// No pile and no hand holds more than the 52 cards of the deck.
pub proof fn lemma_pile_sizes(t: Table)
    requires
        t.wf(),
    ensures
        forall|i: int| 0 <= i < 8 ==> (#[trigger] t.cascades[i]).len() <= 52,
        forall|i: int| 0 <= i < 4 ==> (#[trigger] t.foundations[i]).len() <= 52,
        t.hand.len() <= 52,
{
    lemma_card_count(t);
    assert forall|i: int| 0 <= i < 8 implies (#[trigger] t.cascades[i]).len() <= 52 by {
        lemma_count_in_has(t.cascades, i);
    }
    assert forall|i: int| 0 <= i < 4 implies (#[trigger] t.foundations[i]).len() <= 52 by {
        lemma_count_in_has(t.foundations, i);
    }
}

} // verus!
