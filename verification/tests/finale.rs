use freecell::card::Card;
use freecell::components::finale::{FINALE_CAPACITY, FINALE_INTERVAL};
use freecell::components::Finale;
use freecell::geometry::Position;

fn card(suit: u8, value: u8) -> Card {
    Card { suit, value }
}

fn at(x: i32, y: i32) -> Position {
    Position { x, y }
}

#[test]
fn finale_constants() {
    assert_eq!(FINALE_CAPACITY, 300);
    assert_eq!(FINALE_INTERVAL, 35);
}

#[test]
fn finale_starts_silent() {
    let f = Finale::new();
    assert!(!f.is_playing());
    assert_eq!(f.len(), 0);
}

#[test]
fn finale_emit_appends() {
    let mut f = Finale::new();
    f.emit(card(1, 1), at(5, 6));
    f.emit(card(2, 2), at(7, 8));
    assert!(f.is_playing());
    assert_eq!(f.len(), 2);
    assert_eq!(f.particle(0), (card(1, 1), at(5, 6)));
    assert_eq!(f.particle(1), (card(2, 2), at(7, 8)));
}

#[test]
fn finale_drops_the_oldest_when_full() {
    let mut f = Finale::new();
    for i in 0..300 {
        f.emit(card(0, 0), at(i, 0));
    }
    assert_eq!(f.len(), 300);
    assert_eq!(f.particle(0), (card(0, 0), at(0, 0)));
    f.emit(card(3, 3), at(-1, -1));
    assert_eq!(f.len(), 300);
    assert_eq!(f.particle(0), (card(0, 0), at(1, 0)));
    assert_eq!(f.particle(299), (card(3, 3), at(-1, -1)));
}

#[test]
fn finale_waits_for_more_than_one_interval() {
    let mut f = Finale::new();
    assert!(!f.update(20));
    assert_eq!(f.len(), 0);
    assert!(!f.update(15));
    assert_eq!(f.len(), 0);
    assert!(f.update(1));
    assert_eq!(f.len(), 1);
    assert!(!f.update(34));
    assert!(f.update(1));
    assert_eq!(f.len(), 2);
}

#[test]
fn finale_shows_one_card_for_each_update_at_most() {
    let mut f = Finale::new();
    assert!(f.update(106));
    assert_eq!(f.len(), 1);
    assert!(f.update(0));
    assert!(f.update(0));
    assert_eq!(f.len(), 3);
    assert!(!f.update(0));
    assert_eq!(f.len(), 3);
}

#[test]
fn finale_clock_stops_at_the_top() {
    let mut f = Finale::new();
    assert!(f.update(u64::MAX));
    assert!(f.update(u64::MAX));
    assert_eq!(f.len(), 2);
}

#[test]
fn finale_cards_are_of_the_deck_and_near_the_window() {
    let deck = Card::deck();
    let mut f = Finale::new();
    for _ in 0..400 {
        assert!(f.update(36));
    }
    assert_eq!(f.len(), 300);
    let mut xs = std::collections::HashSet::new();
    let mut cards = std::collections::HashSet::new();
    for i in 0..f.len() {
        let (c, p) = f.particle(i);
        assert!(deck.contains(&c));
        assert!(-10 <= p.x && p.x < 810);
        assert!(-10 <= p.y && p.y < 610);
        xs.insert(p.x);
        cards.insert(c);
    }
    assert!(xs.len() > 1);
    assert!(cards.len() > 1);
}
