//! The things on the table: the piles, the hand, the reset button and the
//! victory animation.

use vstd::prelude::*;
use crate::card::{Card, CARD_HEIGHT, CARD_WIDTH};
use crate::geometry::{rect_covers, translate, Position};
use crate::tileset::{DrawRequest, TileSet};

pub mod button;
pub mod cascade;
pub mod cell;
pub mod finale;
pub mod foundation;
pub mod hand;

pub use button::Button;
pub use cascade::Cascade;
pub use cell::Cell;
pub use finale::Finale;
pub use foundation::Foundation;
pub use hand::Hand;

verus! {

/// Vertical distance between two cards stacked in a cascade or in the hand: a
/// quarter of a card.
pub const CARD_STACK_INCREMENT: i32 = 24;

/// `p` lies on a single card whose top-left corner is at `corner`.
pub open spec fn card_covers(corner: Position, p: Position) -> bool {
    rect_covers(corner, CARD_WIDTH as int, CARD_HEIGHT as int, p)
}

/// Hit test against a single card at `corner`.
pub fn card_contains(corner: Position, p: Position) -> (hit: bool)
    ensures
        hit == card_covers(corner, p),
{
    let dx: i64 = p.x as i64 - corner.x as i64;
    let dy: i64 = p.y as i64 - corner.y as i64;
    0 <= dx && dx <= CARD_WIDTH as i64 && 0 <= dy && dy <= CARD_HEIGHT as i64
}

/// The requests that draw `cards` fanned downwards from `corner`, each card a
/// step below the one before it.
pub open spec fn fan(corner: Position, cards: Seq<Card>) -> Seq<DrawRequest> {
    Seq::new(
        cards.len(),
        |i: int|
            DrawRequest {
                key: Some(cards[i]),
                pos: corner.shifted(0, i * CARD_STACK_INCREMENT),
            },
    )
}

/// A fan of `len` cards from `corner` stays within the coordinate range.
pub open spec fn fan_fits(corner: Position, len: nat) -> bool {
    len > 0 ==> (len - 1) * CARD_STACK_INCREMENT <= i32::MAX && corner.can_shift(
        0,
        (len - 1) * CARD_STACK_INCREMENT,
    )
}

/// The request that draws one card, or the mark of an empty place, at `corner`.
pub open spec fn single(corner: Position, key: Option<Card>) -> Seq<DrawRequest> {
    seq![DrawRequest { key, pos: corner }]
}

/// The tiles of two lists of requests are those of the first list and then
/// those of the second.
pub proof fn lemma_sprites_concat(tileset: &TileSet, a: Seq<DrawRequest>, b: Seq<DrawRequest>)
    ensures
        tileset.sprites(a + b) == tileset.sprites(a) + tileset.sprites(b),
        tileset.has_all(a + b) == (tileset.has_all(a) && tileset.has_all(b)),
{
    assert(tileset.sprites(a + b) =~= tileset.sprites(a) + tileset.sprites(b));
    if tileset.has_all(a) && tileset.has_all(b) {
        assert forall|i: int| 0 <= i < (a + b).len() implies tileset.tiles().contains_key(
            (#[trigger] (a + b)[i]).key,
        ) by {
            if i < a.len() {
                assert((a + b)[i] == a[i]);
            } else {
                assert((a + b)[i] == b[i - a.len()]);
            }
        }
    }
    if tileset.has_all(a + b) {
        assert forall|i: int| 0 <= i < a.len() implies tileset.tiles().contains_key(
            (#[trigger] a[i]).key,
        ) by {
            assert((a + b)[i] == a[i]);
        }
        assert forall|i: int| 0 <= i < b.len() implies tileset.tiles().contains_key(
            (#[trigger] b[i]).key,
        ) by {
            assert((a + b)[i + a.len()] == b[i]);
        }
    }
}

/// Queues one tile that is known to be registered.
pub(crate) fn queue_single(corner: Position, key: Option<Card>, tileset: &mut TileSet)
    requires
        old(tileset).tiles().contains_key(key),
    ensures
        final(tileset).queue() == old(tileset).queue() + old(tileset).sprites(single(corner, key)),
        final(tileset).tiles() == old(tileset).tiles(),
        final(tileset).sheet_dimensions() == old(tileset).sheet_dimensions(),
{
    let queued = tileset.queue_tile(key, corner);
    assert(queued is Ok);
    assert(tileset.queue() =~= old(tileset).queue() + old(tileset).sprites(single(corner, key)));
}

/// Queues `cards` fanned downwards from `corner`.
pub(crate) fn queue_fan(corner: Position, cards: &Vec<Card>, tileset: &mut TileSet)
    requires
        fan_fits(corner, cards@.len()),
        old(tileset).has_all(fan(corner, cards@)),
    ensures
        final(tileset).queue() == old(tileset).queue() + old(tileset).sprites(fan(corner, cards@)),
        final(tileset).tiles() == old(tileset).tiles(),
        final(tileset).sheet_dimensions() == old(tileset).sheet_dimensions(),
{
    let ghost requests = fan(corner, cards@);
    let mut y: usize = 0;
    while y < cards.len()
        invariant
            y <= cards@.len(),
            fan_fits(corner, cards@.len()),
            requests == fan(corner, cards@),
            tileset.has_all(requests),
            tileset.tiles() == old(tileset).tiles(),
            tileset.sheet_dimensions() == old(tileset).sheet_dimensions(),
            tileset.queue() == old(tileset).queue() + old(tileset).sprites(requests).subrange(
                0,
                y as int,
            ),
        decreases cards@.len() - y,
    {
        let down: i32 = y as i32 * CARD_STACK_INCREMENT;
        let pos = translate(Position { x: 0, y: down }, corner);
        assert(pos == requests[y as int].pos);
        assert(tileset.tiles().contains_key(requests[y as int].key));
        let queued = tileset.queue_tile(Some(cards[y]), pos);
        assert(queued is Ok);
        assert(tileset.queue() =~= old(tileset).queue() + old(tileset).sprites(requests).subrange(
            0,
            y + 1,
        ));
        y += 1;
    }
    assert(old(tileset).sprites(requests).subrange(0, y as int) =~= old(tileset).sprites(requests));
}

} // verus!
