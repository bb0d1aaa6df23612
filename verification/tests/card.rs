use freecell::card::{Card, CARD_HEIGHT, CARD_WIDTH};

fn card(suit: u8, value: u8) -> Card {
    Card { suit, value }
}

#[test]
fn card_size_is_that_of_the_sprites() {
    assert_eq!(CARD_WIDTH, 71);
    assert_eq!(CARD_HEIGHT, 96);
}

#[test]
fn deck_has_every_suit_and_rank_in_order() {
    let deck = Card::deck();
    assert_eq!(deck.len(), 52);
    for (i, c) in deck.iter().enumerate() {
        assert_eq!(*c, card((i / 13) as u8, (i % 13) as u8));
    }
    assert_eq!(deck[0], card(0, 0));
    assert_eq!(deck[12], card(0, 12));
    assert_eq!(deck[13], card(1, 0));
    assert_eq!(deck[51], card(3, 12));
}

#[test]
fn deck_holds_no_card_twice() {
    let deck = Card::deck();
    for i in 0..deck.len() {
        for j in 0..i {
            assert_ne!(deck[i], deck[j]);
        }
    }
}

#[test]
fn only_rank_zero_is_an_ace() {
    assert!(card(0, 0).is_ace());
    assert!(card(3, 0).is_ace());
    assert!(!card(0, 1).is_ace());
    assert!(!card(2, 12).is_ace());
}

#[test]
fn even_suits_are_red() {
    assert!(card(0, 5).is_red());
    assert!(!card(1, 5).is_red());
    assert!(card(2, 5).is_red());
    assert!(!card(3, 5).is_red());
}

#[test]
fn follows_wants_same_suit_and_next_rank() {
    assert!(card(0, 1).follows(&card(0, 0)));
    assert!(card(2, 12).follows(&card(2, 11)));
    assert!(!card(1, 1).follows(&card(0, 0)));
    assert!(!card(0, 2).follows(&card(0, 0)));
    assert!(!card(0, 0).follows(&card(0, 1)));
    assert!(!card(0, 0).follows(&card(0, 0)));
}

#[test]
fn follows_alternating_wants_other_colour_and_next_rank() {
    assert!(card(0, 5).follows_alternating(&card(1, 4)));
    assert!(card(0, 5).follows_alternating(&card(3, 4)));
    assert!(card(3, 1).follows_alternating(&card(2, 0)));
    assert!(!card(0, 5).follows_alternating(&card(2, 4)));
    assert!(!card(0, 5).follows_alternating(&card(0, 4)));
    assert!(!card(0, 5).follows_alternating(&card(1, 5)));
    assert!(!card(0, 4).follows_alternating(&card(1, 5)));
}

#[test]
fn nothing_follows_the_highest_byte() {
    assert!(!card(0, 0).follows(&card(0, 255)));
    assert!(!card(1, 0).follows_alternating(&card(0, 255)));
    assert!(card(0, 255).follows(&card(0, 254)));
}

#[test]
fn cards_compare_by_suit_and_value() {
    assert_eq!(card(1, 2), card(1, 2));
    assert_ne!(card(1, 2), card(2, 1));
    let c = card(3, 7);
    let d = c;
    assert_eq!(c, d);
}
