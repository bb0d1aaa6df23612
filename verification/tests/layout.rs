use freecell::card::Card;
use freecell::game::init;
use freecell::game::init::{ICON_SIDE, MARGIN_LENGTH};
use freecell::geometry::Position;

fn at(x: i32, y: i32) -> Position {
    Position { x, y }
}

#[test]
fn layout_constants() {
    assert_eq!(MARGIN_LENGTH, 20);
    assert_eq!(ICON_SIDE, 38);
}

#[test]
fn cascades_stand_in_the_lower_row() {
    let cascades = init::deal(Card::deck());
    for (i, c) in cascades.iter().enumerate() {
        assert_eq!(c.pos(), at(40 + 91 * i as i32, 136));
    }
    assert_eq!(cascades[7].pos(), at(677, 136));
}

#[test]
fn cells_stand_right_in_the_upper_row() {
    let cells = init::open_cells();
    let xs: Vec<i32> = cells.iter().map(|c| c.pos().x).collect();
    assert_eq!(xs, vec![424, 515, 606, 697]);
    for c in cells.iter() {
        assert_eq!(c.pos().y, 20);
        assert!(c.is_empty());
    }
}

#[test]
fn foundations_stand_left_in_the_upper_row() {
    let foundations = init::foundations();
    let xs: Vec<i32> = foundations.iter().map(|f| f.pos().x).collect();
    assert_eq!(xs, vec![20, 111, 202, 293]);
    for f in foundations.iter() {
        assert_eq!(f.pos().y, 20);
        assert!(f.is_empty());
    }
}

#[test]
fn button_stands_between_foundations_and_cells() {
    let b = init::button(38, 40);
    assert_eq!(b.pos, at(375, 20));
    assert_eq!(b.width, 38);
    assert_eq!(b.height, 40);
}

#[test]
fn deal_goes_round_the_cascades_from_the_end_of_the_deck() {
    let deck = Card::deck();
    let cascades = init::deal(deck.clone());
    let lens: Vec<usize> = cascades.iter().map(|c| c.cards().len()).collect();
    assert_eq!(lens, vec![7, 7, 7, 7, 6, 6, 6, 6]);
    for (i, c) in cascades.iter().enumerate() {
        for (j, card) in c.cards().iter().enumerate() {
            assert_eq!(*card, deck[51 - i - 8 * j]);
        }
    }
    assert_eq!(cascades[0].cards()[0], Card { suit: 3, value: 12 });
    assert_eq!(cascades[1].cards()[0], Card { suit: 3, value: 11 });
    assert_eq!(cascades[0].cards()[1], Card { suit: 3, value: 4 });
    assert_eq!(cascades[3].cards()[6], Card { suit: 0, value: 0 });
}

#[test]
fn deal_of_a_short_deck() {
    let deck: Vec<Card> = (1..4).map(|value| Card { suit: 0, value }).collect();
    let cascades = init::deal(deck);
    assert_eq!(*cascades[0].cards(), vec![Card { suit: 0, value: 3 }]);
    assert_eq!(*cascades[1].cards(), vec![Card { suit: 0, value: 2 }]);
    assert_eq!(*cascades[2].cards(), vec![Card { suit: 0, value: 1 }]);
    for i in 3..8 {
        assert!(cascades[i].is_empty());
    }
    let none = init::deal(vec![]);
    assert!(none.iter().all(|c| c.is_empty()));
}

#[test]
fn deal_of_nine_cards_comes_round_again() {
    let deck: Vec<Card> = (0..9).map(|v| Card { suit: 1, value: v }).collect();
    let cascades = init::deal(deck);
    assert_eq!(*cascades[0].cards(), vec![Card { suit: 1, value: 8 }, Card { suit: 1, value: 0 }]);
    assert_eq!(*cascades[7].cards(), vec![Card { suit: 1, value: 1 }]);
}

#[test]
fn fresh_cascades_hold_each_card_once() {
    let cascades = init::cascades();
    let mut seen: Vec<Card> = Vec::new();
    for c in cascades.iter() {
        seen.extend(c.cards().iter().cloned());
    }
    assert_eq!(seen.len(), 52);
    for card in Card::deck() {
        assert_eq!(seen.iter().filter(|c| **c == card).count(), 1);
    }
    let lens: Vec<usize> = cascades.iter().map(|c| c.cards().len()).collect();
    assert_eq!(lens, vec![7, 7, 7, 7, 6, 6, 6, 6]);
}

#[test]
fn fresh_cascades_are_shuffled() {
    let plain = init::deal(Card::deck());
    let mut differs = false;
    for _ in 0..3 {
        let shuffled = init::cascades();
        for i in 0..8 {
            if shuffled[i].cards() != plain[i].cards() {
                differs = true;
            }
        }
    }
    assert!(differs);
}
