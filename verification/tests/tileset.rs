use freecell::card::Card;
use freecell::components::{Cascade, Cell, Finale, Foundation, Hand};
use freecell::game::init;
use freecell::geometry::Position;
use freecell::tileset::{QueuedTile, TileSet, TileSetError};

fn card(suit: u8, value: u8) -> Card {
    Card { suit, value }
}

fn at(x: i32, y: i32) -> Position {
    Position { x, y }
}

fn sheet() -> TileSet {
    init::tileset(923, 480).unwrap()
}

#[test]
fn new_tileset_counts_whole_tiles() {
    let t = TileSet::new(923, 480, at(71, 96));
    assert_eq!(t.dimensions(), at(13, 5));
    assert!(t.queued().is_empty());
    let odd = TileSet::new(100, 100, at(30, 40));
    assert_eq!(odd.dimensions(), at(3, 2));
}

#[test]
fn register_refuses_a_tile_off_the_sheet() {
    let mut t = TileSet::new(142, 96, at(71, 96));
    assert_eq!(t.dimensions(), at(2, 1));
    assert_eq!(t.register_tile(None, at(3, 0)), Err(TileSetError::OutOfRange));
    assert_eq!(t.register_tile(None, at(0, 2)), Err(TileSetError::OutOfRange));
    assert_eq!(t.queue_tile(None, at(0, 0)), Err(TileSetError::TileNotFound));
    assert_eq!(t.register_tile(None, at(2, 1)), Ok(()));
    assert_eq!(t.queue_tile(None, at(0, 0)), Ok(()));
}

#[test]
fn queue_tile_needs_a_registered_key() {
    let mut t = TileSet::new(923, 480, at(71, 96));
    assert_eq!(t.queue_tile(Some(card(0, 0)), at(1, 1)), Err(TileSetError::TileNotFound));
    assert!(t.queued().is_empty());
    assert_eq!(t.register_tile(Some(card(0, 0)), at(0, 0)), Ok(()));
    assert_eq!(t.queue_tile(Some(card(0, 0)), at(1, 1)), Ok(()));
    assert_eq!(t.queue_tile(Some(card(0, 1)), at(1, 1)), Err(TileSetError::TileNotFound));
    assert_eq!(t.queue_tile(None, at(1, 1)), Err(TileSetError::TileNotFound));
    assert_eq!(*t.queued(), vec![QueuedTile { tile: at(0, 0), dest: at(1, 1) }]);
}

#[test]
fn register_again_replaces_the_tile() {
    let mut t = TileSet::new(923, 480, at(71, 96));
    t.register_tile(Some(card(1, 1)), at(1, 1)).unwrap();
    t.register_tile(Some(card(1, 1)), at(5, 2)).unwrap();
    t.queue_tile(Some(card(1, 1)), at(9, 9)).unwrap();
    assert_eq!(*t.queued(), vec![QueuedTile { tile: at(5, 2), dest: at(9, 9) }]);
}

#[test]
fn keys_do_not_collide() {
    let mut t = TileSet::new(60000, 60000, at(1, 1));
    t.register_tile(None, at(1, 1)).unwrap();
    t.register_tile(Some(card(0, 0)), at(2, 2)).unwrap();
    t.register_tile(Some(card(1, 0)), at(3, 3)).unwrap();
    t.register_tile(Some(card(0, 255)), at(4, 4)).unwrap();
    t.register_tile(Some(card(255, 255)), at(5, 5)).unwrap();
    t.queue_tile(None, at(0, 0)).unwrap();
    t.queue_tile(Some(card(0, 0)), at(0, 0)).unwrap();
    t.queue_tile(Some(card(1, 0)), at(0, 0)).unwrap();
    t.queue_tile(Some(card(0, 255)), at(0, 0)).unwrap();
    t.queue_tile(Some(card(255, 255)), at(0, 0)).unwrap();
    let tiles: Vec<Position> = t.queued().iter().map(|q| q.tile).collect();
    assert_eq!(tiles, vec![at(1, 1), at(2, 2), at(3, 3), at(4, 4), at(5, 5)]);
}

#[test]
fn clear_queue_keeps_the_tiles() {
    let mut t = sheet();
    t.queue_tile(None, at(3, 4)).unwrap();
    t.queue_tile(Some(card(2, 7)), at(5, 6)).unwrap();
    assert_eq!(t.queued().len(), 2);
    t.clear_queue();
    assert!(t.queued().is_empty());
    assert_eq!(t.queue_tile(Some(card(2, 7)), at(5, 6)), Ok(()));
}

#[test]
fn error_messages() {
    assert_eq!(
        TileSetError::OutOfRange.message(),
        "Position out of range of tilesheet dimensions"
    );
    assert_eq!(TileSetError::TileNotFound.message(), "Tile not found during lookup");
}

#[test]
fn card_sheet_registers_every_card_and_the_empty_place() {
    let mut t = sheet();
    assert_eq!(t.dimensions(), at(13, 5));
    for c in Card::deck() {
        t.queue_tile(Some(c), at(0, 0)).unwrap();
    }
    t.queue_tile(None, at(0, 0)).unwrap();
    let queue = t.queued();
    assert_eq!(queue.len(), 53);
    for (i, c) in Card::deck().iter().enumerate() {
        assert_eq!(queue[i].tile, at(c.value as i32, c.suit as i32));
    }
    assert_eq!(queue[52].tile, at(12, 4));
    assert_eq!(t.queue_tile(Some(card(4, 0)), at(0, 0)), Err(TileSetError::TileNotFound));
    assert_eq!(t.queue_tile(Some(card(0, 13)), at(0, 0)), Err(TileSetError::TileNotFound));
}

#[test]
fn card_sheet_too_small_is_refused() {
    assert_eq!(init::tileset(851, 480).err(), Some(TileSetError::OutOfRange));
    assert_eq!(init::tileset(923, 383).err(), Some(TileSetError::OutOfRange));
    assert_eq!(init::tileset(0, 0).err(), Some(TileSetError::OutOfRange));
    assert!(init::tileset(852, 384).is_ok());
}

#[test]
fn cascade_draws_its_cards_fanned_downwards() {
    let mut t = sheet();
    let c = Cascade::new(at(40, 136), vec![card(0, 9), card(1, 8), card(2, 7)]);
    c.draw(&mut t);
    assert_eq!(
        *t.queued(),
        vec![
            QueuedTile { tile: at(9, 0), dest: at(40, 136) },
            QueuedTile { tile: at(8, 1), dest: at(40, 160) },
            QueuedTile { tile: at(7, 2), dest: at(40, 184) },
        ]
    );
}

#[test]
fn empty_cascade_draws_the_empty_place() {
    let mut t = sheet();
    t.queue_tile(Some(card(0, 0)), at(1, 2)).unwrap();
    Cascade::new(at(131, 136), vec![]).draw(&mut t);
    assert_eq!(
        *t.queued(),
        vec![
            QueuedTile { tile: at(0, 0), dest: at(1, 2) },
            QueuedTile { tile: at(12, 4), dest: at(131, 136) },
        ]
    );
}

#[test]
fn cell_draws_its_card_or_the_empty_place() {
    let mut t = sheet();
    Cell::new(at(424, 20), None).draw(&mut t);
    Cell::new(at(515, 20), Some(card(3, 11))).draw(&mut t);
    assert_eq!(
        *t.queued(),
        vec![
            QueuedTile { tile: at(12, 4), dest: at(424, 20) },
            QueuedTile { tile: at(11, 3), dest: at(515, 20) },
        ]
    );
}

#[test]
fn foundation_draws_its_top_card_only() {
    let mut t = sheet();
    Foundation::new(at(20, 20), vec![]).draw(&mut t);
    Foundation::new(at(111, 20), vec![card(1, 0), card(1, 1), card(1, 2)]).draw(&mut t);
    assert_eq!(
        *t.queued(),
        vec![
            QueuedTile { tile: at(12, 4), dest: at(20, 20) },
            QueuedTile { tile: at(2, 1), dest: at(111, 20) },
        ]
    );
}

#[test]
fn hand_draws_nothing_when_empty() {
    let mut t = sheet();
    let mut h = Hand::new();
    h.draw(&mut t);
    assert!(t.queued().is_empty());
    h.update(at(300, 200));
    h.put(vec![card(0, 5), card(1, 4)]);
    h.draw(&mut t);
    assert_eq!(
        *t.queued(),
        vec![
            QueuedTile { tile: at(5, 0), dest: at(265, 168) },
            QueuedTile { tile: at(4, 1), dest: at(265, 192) },
        ]
    );
}

#[test]
fn finale_draws_its_cards_oldest_first() {
    let mut t = sheet();
    let mut f = Finale::new();
    f.emit(card(2, 2), at(-10, 609));
    f.emit(card(0, 12), at(809, -10));
    f.draw(&mut t);
    assert_eq!(
        *t.queued(),
        vec![
            QueuedTile { tile: at(2, 2), dest: at(-10, 609) },
            QueuedTile { tile: at(12, 0), dest: at(809, -10) },
        ]
    );
}
