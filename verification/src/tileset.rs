//! A set of tiles cut from one sheet, and the queue of tiles to draw.

use vstd::prelude::*;
use std::collections::HashMap;
use crate::card::Card;
use crate::geometry::Position;

verus! {

/// Possible errors from `TileSet` operations.
#[derive(PartialEq, Eq, Structural, Clone, Copy, Debug)]
pub enum TileSetError {
    /// The tile position to register was outside the tilesheet bounds.
    OutOfRange,
    /// Tile not found.
    TileNotFound,
}

impl TileSetError {
    /// The error in words.
    pub fn message(&self) -> (text: String)
        ensures
            text@ == (match self {
                TileSetError::OutOfRange => "Position out of range of tilesheet dimensions"@,
                TileSetError::TileNotFound => "Tile not found during lookup"@,
            }),
    {
        match self {
            TileSetError::OutOfRange => "Position out of range of tilesheet dimensions".to_owned(),
            TileSetError::TileNotFound => "Tile not found during lookup".to_owned(),
        }
    }
}

/// A request to draw: the face of a card, or the mark of an empty place for
/// `None`, with its top-left corner at `pos`.
#[derive(PartialEq, Eq, Structural, Clone, Copy, Debug)]
pub struct DrawRequest {
    pub key: Option<Card>,
    pub pos: Position,
}

/// A tile waiting to be drawn: its column and row on the sheet, and where its
/// top-left corner goes on the screen.
#[derive(PartialEq, Eq, Structural, Clone, Copy, Debug)]
pub struct QueuedTile {
    pub tile: Position,
    pub dest: Position,
}

/// The number under which a tile is filed: 0 for the empty place, and a number
/// of its own for every card.
pub open spec fn tile_key(key: Option<Card>) -> u32 {
    match key {
        None => 0,
        Some(card) => (1 + card.suit * 256 + card.value) as u32,
    }
}

fn key_code(key: &Option<Card>) -> (code: u32)
    ensures
        code == tile_key(*key),
{
    match key {
        None => 0,
        Some(card) => 1 + (card.suit as u32) * 256 + (card.value as u32),
    }
}

/// A set of tiles made from a tilesheet image.
pub struct TileSet {
    tile_cache: HashMap<u32, Position>,
    sheet_dimensions: Position,
    queue: Vec<QueuedTile>,
}

impl TileSet {
    /// The tiles registered: for each key the column and row of its tile.
    pub closed spec fn tiles(&self) -> Map<Option<Card>, Position> {
        Map::new(
            |key: Option<Card>| self.tile_cache@.contains_key(tile_key(key)),
            |key: Option<Card>| self.tile_cache@[tile_key(key)],
        )
    }

    /// How many tiles the sheet holds across and down.
    pub closed spec fn sheet_dimensions(&self) -> Position {
        self.sheet_dimensions
    }

    /// The tiles queued, first to be drawn first.
    pub closed spec fn queue(&self) -> Seq<QueuedTile> {
        self.queue@
    }

    /// The tile registered for `key`, if any.
    pub open spec fn tile(&self, key: Option<Card>) -> Option<Position> {
        if self.tiles().contains_key(key) {
            Some(self.tiles()[key])
        } else {
            None
        }
    }

    /// A tile is registered for every request of `requests`.
    pub open spec fn has_all(&self, requests: Seq<DrawRequest>) -> bool {
        forall|i: int| 0 <= i < requests.len() ==> self.tiles().contains_key(
            (#[trigger] requests[i]).key,
        )
    }

    /// The tiles that `requests` put on the queue.
    pub open spec fn sprites(&self, requests: Seq<DrawRequest>) -> Seq<QueuedTile> {
        Seq::new(
            requests.len(),
            |i: int| QueuedTile { tile: self.tiles()[requests[i].key], dest: requests[i].pos },
        )
    }

    /// A tile is registered for the empty place and for every card of the deck.
    pub open spec fn is_complete(&self) -> bool {
        &&& self.tiles().contains_key(None)
        &&& forall|card: Card| #[trigger] card.in_deck() ==> self.tiles().contains_key(Some(card))
    }

    /// A tile set for a sheet of `sheet_width` by `sheet_height` pixels, cut
    /// into tiles of `tile_size`. No tile is registered yet.
    pub fn new(sheet_width: u16, sheet_height: u16, tile_size: Position) -> (set: Self)
        requires
            tile_size.x != 0,
            tile_size.y != 0,
        ensures
            set.tiles() == Map::<Option<Card>, Position>::empty(),
            set.queue() == Seq::<QueuedTile>::empty(),
            set.sheet_dimensions() == (Position {
                x: (sheet_width as int / tile_size.x as int) as i32,
                y: (sheet_height as int / tile_size.y as int) as i32,
            }),
    {
        let sheet_dimensions = Position {
            x: sheet_width as i32 / tile_size.x,
            y: sheet_height as i32 / tile_size.y,
        };
        let set = Self { tile_cache: HashMap::new(), sheet_dimensions, queue: Vec::new() };
        assert(set.tiles() =~= Map::<Option<Card>, Position>::empty());
        set
    }

    /// Register a tile from the tilesheet to the `TileSet` with the lookup
    /// value of `key`. A tile beyond the sheet's last column or row is
    /// refused.
    pub fn register_tile(&mut self, key: Option<Card>, index: Position) -> (r: Result<
        (),
        TileSetError,
    >)
        ensures
            final(self).sheet_dimensions() == old(self).sheet_dimensions(),
            final(self).queue() == old(self).queue(),
            index.x > old(self).sheet_dimensions().x || index.y > old(self).sheet_dimensions().y
                ==> r == Err::<(), TileSetError>(TileSetError::OutOfRange) && final(self).tiles()
                == old(self).tiles(),
            index.x <= old(self).sheet_dimensions().x && index.y <= old(self).sheet_dimensions().y
                ==> r is Ok && final(self).tiles() == old(self).tiles().insert(key, index),
    {
        if index.x > self.sheet_dimensions.x || index.y > self.sheet_dimensions.y {
            return Err(TileSetError::OutOfRange);
        }
        self.tile_cache.insert(key_code(&key), index);
        assert(self.tiles() =~= old(self).tiles().insert(key, index));
        Ok(())
    }

    /// Queue a tile with the lookup value `key` to be drawn at `draw_location`.
    pub fn queue_tile(&mut self, key: Option<Card>, draw_location: Position) -> (r: Result<
        (),
        TileSetError,
    >)
        ensures
            final(self).sheet_dimensions() == old(self).sheet_dimensions(),
            final(self).tiles() == old(self).tiles(),
            match old(self).tile(key) {
                Some(tile) => r is Ok && final(self).queue() == old(self).queue().push(
                    QueuedTile { tile, dest: draw_location },
                ),
                None => {
                    &&& r == Err::<(), TileSetError>(TileSetError::TileNotFound)
                    &&& final(self).queue() == old(self).queue()
                },
            },
    {
        let code = key_code(&key);
        match self.tile_cache.get(&code) {
            Some(tile) => {
                let queued = QueuedTile { tile: *tile, dest: draw_location };
                self.queue.push(queued);
                Ok(())
            },
            None => Err(TileSetError::TileNotFound),
        }
    }

    /// The tiles queued, first to be drawn first.
    pub fn queued(&self) -> (queue: &Vec<QueuedTile>)
        ensures
            queue@ == self.queue(),
    {
        &self.queue
    }

    /// How many tiles the sheet holds across and down.
    pub fn dimensions(&self) -> (dims: Position)
        ensures
            dims == self.sheet_dimensions(),
    {
        self.sheet_dimensions
    }

    /// Clear the tile queue.
    pub fn clear_queue(&mut self)
        ensures
            final(self).queue() == Seq::<QueuedTile>::empty(),
            final(self).tiles() == old(self).tiles(),
            final(self).sheet_dimensions() == old(self).sheet_dimensions(),
    {
        self.queue.clear();
    }
}

} // verus!
