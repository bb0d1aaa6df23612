//! Where the piles stand on the screen, and how a game is set up.

use vstd::prelude::*;
use crate::card::{deck_seq, Card, CARD_HEIGHT, CARD_WIDTH};
use crate::components::{Button, Cascade, Cell, Foundation};
use crate::game::table::{cards_in, lemma_cards_in_empty, lemma_cards_in_update};
use crate::geometry::Position;
use crate::random::shuffle;
use crate::tileset::{QueuedTile, TileSet, TileSetError};

verus! {

/// Gap between two neighbouring piles, and between the piles and the window.
pub const MARGIN_LENGTH: i32 = 20;

/// Side of the square icon of the reset button.
pub const ICON_SIDE: i32 = 38;

/// Horizontal distance from one pile to the next.
pub open spec fn column_step() -> int {
    CARD_WIDTH + MARGIN_LENGTH
}

/// Top-left corner of cascade `i`, in the lower row.
pub open spec fn cascade_position(i: int) -> Position {
    Position {
        x: (2 * MARGIN_LENGTH + i * column_step()) as i32,
        y: (MARGIN_LENGTH + CARD_HEIGHT + MARGIN_LENGTH) as i32,
    }
}

/// Top-left corner of free cell `i`, in the right half of the upper row.
pub open spec fn cell_position(i: int) -> Position {
    Position { x: (3 * MARGIN_LENGTH + (4 + i) * column_step()) as i32, y: MARGIN_LENGTH }
}

/// Top-left corner of foundation `i`, in the left half of the upper row.
pub open spec fn foundation_position(i: int) -> Position {
    Position { x: (MARGIN_LENGTH + i * column_step()) as i32, y: MARGIN_LENGTH }
}

/// Top-left corner of the reset button, between the foundations and the cells.
pub open spec fn button_position() -> Position {
    Position {
        x: (3 * MARGIN_LENGTH / 2 - ICON_SIDE / 2 + 4 * column_step()) as i32,
        y: MARGIN_LENGTH,
    }
}

/// How many of the first `k` cards dealt go to cascade `i`: the cards go round
/// the eight cascades, starting at cascade 0.
pub open spec fn dealt_len(k: nat, i: int) -> nat {
    if 0 <= i < 8 && k > i {
        ((k - i + 7) / 8) as nat
    } else {
        0
    }
}

/// Cascade `i` after the first `k` cards of `deck` were dealt. The deck is
/// dealt from its end.
pub open spec fn dealt_pile(deck: Seq<Card>, k: nat, i: int) -> Seq<Card> {
    Seq::new(dealt_len(k, i), |j: int| deck[deck.len() - 1 - i - 8 * j])
}

/// The eight cascades after all of `deck` was dealt.
pub open spec fn dealt(deck: Seq<Card>) -> Seq<Seq<Card>> {
    Seq::new(8, |i: int| dealt_pile(deck, deck.len(), i))
}

/// The views of a row of cascades.
pub open spec fn cascade_views(cascades: [Cascade; 8]) -> Seq<Seq<Card>> {
    Seq::new(8, |i: int| cascades[i]@)
}

/// Every cascade stands at its place in the lower row.
pub open spec fn cascades_placed(cascades: [Cascade; 8]) -> bool {
    forall|i: int| 0 <= i < 8 ==> (#[trigger] cascades[i]).position() == cascade_position(i)
}

/// Every free cell stands at its place in the upper row.
pub open spec fn cells_placed(cells: [Cell; 4]) -> bool {
    forall|i: int| 0 <= i < 4 ==> (#[trigger] cells[i]).position() == cell_position(i)
}

/// Every foundation stands at its place in the upper row.
pub open spec fn foundations_placed(foundations: [Foundation; 4]) -> bool {
    forall|i: int| 0 <= i < 4 ==> (#[trigger] foundations[i]).position() == foundation_position(i)
}

fn cascade_at(i: i32) -> (c: Cascade)
    requires
        0 <= i < 8,
    ensures
        c@ == Seq::<Card>::empty(),
        c.position() == cascade_position(i as int),
{
    let step: i32 = CARD_WIDTH + MARGIN_LENGTH;
    assert(step == 91);
    Cascade::new(
        Position {
            x: 2 * MARGIN_LENGTH + (i * step),
            y: MARGIN_LENGTH + CARD_HEIGHT + MARGIN_LENGTH,
        },
        Vec::new(),
    )
}

/// Deals `deck` from its end, one card to each cascade in turn.
pub fn deal(deck: Vec<Card>) -> (cascades: [Cascade; 8])
    ensures
        cascade_views(cascades) == dealt(deck@),
        cards_in(cascade_views(cascades)) == deck@.to_multiset(),
        cascades_placed(cascades),
{
    let mut deck = deck;
    let ghost full = deck@;
    let mut cascades: [Cascade; 8] = [
        cascade_at(0),
        cascade_at(1),
        cascade_at(2),
        cascade_at(3),
        cascade_at(4),
        cascade_at(5),
        cascade_at(6),
        cascade_at(7),
    ];
    let mut selected_column: usize = 0;
    let ghost mut k: nat = 0;
    proof {
        assert forall|i: int| 0 <= i < 8 implies cascade_views(cascades)[i] == dealt_pile(
            full,
            0,
            i,
        ) by {
            assert(cascades[i]@ =~= dealt_pile(full, 0, i));
        }
        lemma_cards_in_empty(cascade_views(cascades));
        assert(cards_in(cascade_views(cascades)).add(deck@.to_multiset()) =~= full.to_multiset());
    }
    loop
        invariant
            k + deck@.len() == full.len(),
            deck@ == full.subrange(0, deck@.len() as int),
            selected_column == k % 8,
            cascades_placed(cascades),
            forall|i: int| 0 <= i < 8 ==> (#[trigger] cascades[i])@ == dealt_pile(full, k, i),
            cards_in(cascade_views(cascades)).add(deck@.to_multiset()) == full.to_multiset(),
        ensures
            deck@.len() == 0,
            k == full.len(),
            cascades_placed(cascades),
            forall|i: int| 0 <= i < 8 ==> (#[trigger] cascades[i])@ == dealt_pile(full, k, i),
            cards_in(cascade_views(cascades)) == full.to_multiset(),
        decreases deck@.len(),
    {
        let ghost before = cascades;
        let ghost rest = deck@;
        match deck.pop() {
            Some(card) => {
                let mut one: Vec<Card> = Vec::new();
                one.push(card);
                cascades[selected_column].put(one);
                proof {
                    let s = selected_column as int;
                    let pile = before[s]@;
                    assert(card == full[full.len() - 1 - k]);
                    assert(cascades[s]@ =~= dealt_pile(full, k + 1, s)) by {
                        assert(dealt_len(k + 1, s) == dealt_len(k, s) + 1);
                        assert(full.len() - 1 - s - 8 * dealt_len(k, s) == full.len() - 1 - k);
                    }
                    assert forall|i: int| 0 <= i < 8 implies (#[trigger] cascades[i])@
                        == dealt_pile(full, k + 1, i) by {
                        if i != s {
                            assert(cascades[i] == before[i]);
                            assert(dealt_len(k + 1, i) == dealt_len(k, i));
                        }
                    }
                    assert(cascade_views(cascades) =~= cascade_views(before).update(
                        s,
                        pile.push(card),
                    )) by {
                        assert(pile + seq![card] =~= pile.push(card));
                    }
                    lemma_cards_in_update(cascade_views(before), s, pile.push(card));
                    vstd::seq_lib::to_multiset_build(pile, card);
                    vstd::seq_lib::to_multiset_build(deck@, card);
                    assert(rest =~= deck@.push(card));
                    assert(cards_in(cascade_views(cascades)).add(deck@.to_multiset())
                        =~= full.to_multiset()) by {
                        let a = cards_in(cascade_views(cascades)).add(pile.to_multiset());
                        let b = cards_in(cascade_views(before)).add(pile.push(card).to_multiset());
                        assert forall|c: Card|
                            cards_in(cascade_views(cascades)).add(deck@.to_multiset()).count(c)
                                == full.to_multiset().count(c) by {
                            assert(a.count(c) == b.count(c));
                            assert(cards_in(cascade_views(before)).add(rest.to_multiset()).count(c)
                                == full.to_multiset().count(c));
                        }
                    }
                    k = k + 1;
                }
                selected_column = (selected_column + 1) % 8;
            },
            None => {
                proof {
                    assert(deck@.to_multiset() =~= vstd::multiset::Multiset::empty()) by {
                        deck@.to_multiset_ensures();
                        vstd::multiset::lemma_multiset_empty_len(deck@.to_multiset());
                    }
                    assert(cards_in(cascade_views(cascades)) =~= full.to_multiset());
                }
                break ;
            },
        }
    }
    proof {
        assert(cascade_views(cascades) =~= dealt(full));
    }
    cascades
}

/// A row of cascades as a fresh deal leaves it: the cards of one deck, each
/// once, dealt round the eight cascades.
pub open spec fn is_fresh_row(piles: Seq<Seq<Card>>) -> bool {
    &&& piles.len() == 8
    &&& forall|i: int| 0 <= i < 8 ==> (#[trigger] piles[i]).len() == dealt_len(52, i)
    &&& cards_in(piles) == deck_seq().to_multiset()
}

/// Dealing the cards of one deck, in whatever order, leaves a fresh row.
pub proof fn lemma_dealt_is_fresh(deck: Seq<Card>)
    requires
        deck.to_multiset() == deck_seq().to_multiset(),
        cards_in(dealt(deck)) == deck.to_multiset(),
    ensures
        is_fresh_row(dealt(deck)),
{
    deck.to_multiset_ensures();
    deck_seq().to_multiset_ensures();
}

/// Shuffles a new deck and deals it to the eight cascades.
pub fn cascades() -> (cascades: [Cascade; 8])
    ensures
        is_fresh_row(cascade_views(cascades)),
        cascades_placed(cascades),
{
    let mut deck = Card::deck();
    shuffle(&mut deck);
    let ghost shuffled = deck@;
    let cascades = deal(deck);
    proof {
        lemma_dealt_is_fresh(shuffled);
    }
    cascades
}

/// The four free cells, empty, at their places.
pub fn open_cells() -> (cells: [Cell; 4])
    ensures
        cells_placed(cells),
        forall|i: int| 0 <= i < 4 ==> (#[trigger] cells[i])@ is None,
{
    let step: i32 = CARD_WIDTH + MARGIN_LENGTH;
    assert(step == 91);
    [
        Cell::new(Position { x: 3 * MARGIN_LENGTH + (4 * step), y: MARGIN_LENGTH }, None),
        Cell::new(Position { x: 3 * MARGIN_LENGTH + (5 * step), y: MARGIN_LENGTH }, None),
        Cell::new(Position { x: 3 * MARGIN_LENGTH + (6 * step), y: MARGIN_LENGTH }, None),
        Cell::new(Position { x: 3 * MARGIN_LENGTH + (7 * step), y: MARGIN_LENGTH }, None),
    ]
}

/// The four foundations, empty, at their places.
pub fn foundations() -> (foundations: [Foundation; 4])
    ensures
        foundations_placed(foundations),
        forall|i: int| 0 <= i < 4 ==> (#[trigger] foundations[i])@ == Seq::<Card>::empty(),
{
    let step: i32 = CARD_WIDTH + MARGIN_LENGTH;
    assert(step == 91);
    let foundations: [Foundation; 4] = [
        Foundation::new(Position { x: MARGIN_LENGTH, y: MARGIN_LENGTH }, Vec::new()),
        Foundation::new(Position { x: MARGIN_LENGTH + step, y: MARGIN_LENGTH }, Vec::new()),
        Foundation::new(Position { x: MARGIN_LENGTH + (2 * step), y: MARGIN_LENGTH }, Vec::new()),
        Foundation::new(Position { x: MARGIN_LENGTH + (3 * step), y: MARGIN_LENGTH }, Vec::new()),
    ];
    assert(foundations[0].position() == foundation_position(0));
    assert(foundations[1].position() == foundation_position(1));
    assert(foundations[2].position() == foundation_position(2));
    assert(foundations[3].position() == foundation_position(3));
    foundations
}

/// The reset button at its place, for an icon of the given size.
pub fn button(width: i32, height: i32) -> (b: Button)
    ensures
        b == (Button { pos: button_position(), width, height }),
{
    let step: i32 = CARD_WIDTH + MARGIN_LENGTH;
    assert(step == 91);
    Button::new(
        Position { x: 3 * MARGIN_LENGTH / 2 - ICON_SIDE / 2 + (4 * step), y: MARGIN_LENGTH },
        width,
        height,
    )
}

/// Where each tile lies on the sheet of cards: a card in the column of its
/// rank and the row of its suit, the mark of an empty place in the last column
/// of a fifth row.
pub open spec fn card_tiles() -> Map<Option<Card>, Position> {
    Map::new(
        |key: Option<Card>|
            match key {
                Some(card) => card.in_deck(),
                None => true,
            },
        |key: Option<Card>|
            match key {
                Some(card) => Position { x: card.value as i32, y: card.suit as i32 },
                None => Position { x: 12, y: 4 },
            },
    )
}

/// How many whole cards a sheet of `sheet_width` by `sheet_height` pixels
/// holds across and down.
pub open spec fn sheet_tiles(sheet_width: u16, sheet_height: u16) -> Position {
    Position {
        x: (sheet_width as int / CARD_WIDTH as int) as i32,
        y: (sheet_height as int / CARD_HEIGHT as int) as i32,
    }
}

/// The sheet of cards has room for every tile: the last column and the last
/// row that a tile is registered in do not lie beyond the number of whole
/// cards across and down.
pub open spec fn sheet_holds_cards(sheet_width: u16, sheet_height: u16) -> bool {
    sheet_tiles(sheet_width, sheet_height).x >= 12 && sheet_tiles(sheet_width, sheet_height).y
        >= 4
}

/// The tile set of the sheet of cards, with a tile registered for every card
/// and for the empty place. A sheet too small for that is refused.
pub fn tileset(sheet_width: u16, sheet_height: u16) -> (r: Result<TileSet, TileSetError>)
    ensures
        match r {
            Ok(set) => {
                &&& sheet_holds_cards(sheet_width, sheet_height)
                &&& set.tiles() == card_tiles()
                &&& set.is_complete()
                &&& set.queue() == Seq::<QueuedTile>::empty()
                &&& set.sheet_dimensions() == sheet_tiles(sheet_width, sheet_height)
            },
            Err(e) => e == TileSetError::OutOfRange && !sheet_holds_cards(
                sheet_width,
                sheet_height,
            ),
        },
{
    let mut tileset = TileSet::new(
        sheet_width,
        sheet_height,
        Position { x: CARD_WIDTH, y: CARD_HEIGHT },
    );
    let ghost dims = tileset.sheet_dimensions();
    let mut suit: u8 = 0;
    while suit < 4
        invariant
            suit <= 4,
            tileset.sheet_dimensions() == dims,
            dims == sheet_tiles(sheet_width, sheet_height),
            tileset.queue() == Seq::<QueuedTile>::empty(),
            suit > 0 ==> dims.x >= 12 && dims.y >= suit - 1,
            tileset.tiles() == card_tiles().restrict(
                Set::new(|key: Option<Card>| key matches Some(c) && c.suit < suit),
            ),
        decreases 4 - suit,
    {
        let mut value: u8 = 0;
        while value < 13
            invariant
                suit < 4,
                value <= 13,
                tileset.sheet_dimensions() == dims,
                dims == sheet_tiles(sheet_width, sheet_height),
                tileset.queue() == Seq::<QueuedTile>::empty(),
                suit > 0 ==> dims.x >= 12 && dims.y >= suit - 1,
                value > 0 ==> dims.x >= value - 1 && dims.y >= suit,
                tileset.tiles() == card_tiles().restrict(
                    Set::new(
                        |key: Option<Card>|
                            key matches Some(c) && (c.suit < suit || (c.suit == suit && c.value
                                < value)),
                    ),
                ),
            decreases 13 - value,
        {
            let ghost before = tileset.tiles();
            match tileset.register_tile(
                Some(Card { suit, value }),
                Position { x: value as i32, y: suit as i32 },
            ) {
                Ok(_) => {},
                Err(e) => {
                    return Err(e);
                },
            }
            assert(tileset.tiles() =~= card_tiles().restrict(
                Set::new(
                    |key: Option<Card>|
                        key matches Some(c) && (c.suit < suit || (c.suit == suit && c.value
                            < value + 1)),
                ),
            ));
            value += 1;
        }
        assert(tileset.tiles() =~= card_tiles().restrict(
            Set::new(|key: Option<Card>| key matches Some(c) && c.suit < suit + 1),
        ));
        suit += 1;
    }
    match tileset.register_tile(None, Position { x: 12, y: 4 }) {
        Ok(_) => {},
        Err(e) => {
            return Err(e);
        },
    }
    assert(tileset.tiles() =~= card_tiles());
    Ok(tileset)
}

} // verus!
