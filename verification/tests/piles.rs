use freecell::card::Card;
use freecell::components::{Button, Cascade, Cell, Foundation, Hand, CARD_STACK_INCREMENT};
use freecell::game::Collision;
use freecell::geometry::Position;

fn card(suit: u8, value: u8) -> Card {
    Card { suit, value }
}

fn at(x: i32, y: i32) -> Position {
    Position { x, y }
}

fn five() -> Vec<Card> {
    vec![card(0, 9), card(1, 8), card(2, 7), card(2, 3), card(1, 2)]
}

#[test]
fn position_new_keeps_coordinates() {
    assert_eq!(Position::new(3, -4), at(3, -4));
}

#[test]
fn stack_increment_is_a_quarter_card() {
    assert_eq!(CARD_STACK_INCREMENT, 24);
}

#[test]
fn cascade_take_gives_last_cards_in_order() {
    let mut c = Cascade::new(at(0, 0), five());
    let taken = c.take(2);
    assert_eq!(taken, vec![card(2, 3), card(1, 2)]);
    assert_eq!(*c.cards(), vec![card(0, 9), card(1, 8), card(2, 7)]);
    let none = c.take(0);
    assert!(none.is_empty());
    assert_eq!(c.cards().len(), 3);
}

#[test]
fn cascade_take_from_empty_gives_nothing() {
    let mut c = Cascade::new(at(0, 0), vec![]);
    assert!(c.take(1).is_empty());
    assert!(c.take(5).is_empty());
    assert!(c.is_empty());
}

#[test]
fn cascade_take_more_than_it_holds_gives_all() {
    let mut c = Cascade::new(at(0, 0), five());
    assert_eq!(c.take(9), five());
    assert!(c.is_empty());
}

#[test]
fn cascade_put_appends_in_order() {
    let mut c = Cascade::new(at(7, 8), vec![card(0, 9)]);
    c.put(vec![card(1, 8), card(2, 7)]);
    assert_eq!(*c.cards(), vec![card(0, 9), card(1, 8), card(2, 7)]);
    assert_eq!(c.pos(), at(7, 8));
    c.put(vec![]);
    assert_eq!(c.cards().len(), 3);
}

#[test]
fn cascade_take_then_put_restores() {
    let mut c = Cascade::new(at(0, 0), five());
    let taken = c.take(3);
    c.put(taken);
    assert_eq!(*c.cards(), five());
}

#[test]
fn cascade_footprint_grows_with_cards() {
    let c = Cascade::new(at(40, 136), five());
    assert!(c.inside(at(40, 136)));
    assert!(c.inside(at(111, 136)));
    assert!(!c.inside(at(112, 136)));
    assert!(!c.inside(at(39, 136)));
    assert!(!c.inside(at(40, 135)));
    assert!(c.inside(at(40, 136 + 192)));
    assert!(!c.inside(at(40, 136 + 193)));
}

#[test]
fn empty_cascade_footprint_is_one_card() {
    let c = Cascade::new(at(40, 136), vec![]);
    assert!(c.inside(at(40, 136)));
    assert!(c.inside(at(111, 232)));
    assert!(!c.inside(at(111, 233)));
}

#[test]
fn cascade_footprint_at_the_edge_of_the_coordinates() {
    let c = Cascade::new(at(i32::MAX - 10, i32::MAX - 10), five());
    assert!(c.inside(at(i32::MAX, i32::MAX)));
    assert!(!c.inside(at(i32::MIN, i32::MIN)));
    let d = Cascade::new(at(i32::MIN, i32::MIN), vec![]);
    assert!(d.inside(at(i32::MIN + 71, i32::MIN + 96)));
    assert!(!d.inside(at(i32::MAX, i32::MAX)));
}

#[test]
fn cards_to_take_counts_from_the_pressed_row() {
    let c = Cascade::new(at(40, 136), five());
    assert_eq!(c.cards_to_take(at(50, 136)), 5);
    assert_eq!(c.cards_to_take(at(50, 136 + 24)), 5);
    assert_eq!(c.cards_to_take(at(50, 136 + 25)), 4);
    assert_eq!(c.cards_to_take(at(50, 136 + 48)), 4);
    assert_eq!(c.cards_to_take(at(50, 136 + 49)), 3);
    assert_eq!(c.cards_to_take(at(50, 136 + 73)), 2);
    assert_eq!(c.cards_to_take(at(50, 136 + 97)), 1);
    assert_eq!(c.cards_to_take(at(50, 136 + 120)), 1);
}

#[test]
fn cards_to_take_below_the_rows_is_one() {
    let c = Cascade::new(at(40, 136), five());
    assert_eq!(c.cards_to_take(at(50, 136 + 121)), 1);
    assert_eq!(c.cards_to_take(at(50, 136 + 192)), 1);
}

#[test]
fn cards_to_take_off_the_pile_is_zero() {
    let c = Cascade::new(at(40, 136), five());
    assert_eq!(c.cards_to_take(at(50, 136 + 193)), 0);
    assert_eq!(c.cards_to_take(at(39, 140)), 0);
    assert_eq!(c.cards_to_take(at(50, 135)), 0);
    assert_eq!(c.cards_to_take(at(112, 140)), 0);
}

#[test]
fn cards_to_take_on_an_empty_cascade_is_one() {
    let c = Cascade::new(at(40, 136), vec![]);
    assert_eq!(c.cards_to_take(at(50, 140)), 1);
    assert_eq!(c.cards_to_take(at(50, 233)), 0);
}

#[test]
fn alternating_run_example() {
    let legal = Cascade::new(at(0, 0), vec![card(0, 5), card(1, 4), card(2, 3)]);
    assert!(legal.has_alternating_color_cards(3));
    assert!(legal.has_all_alternating());
    let red_red = Cascade::new(at(0, 0), vec![card(0, 5), card(2, 4)]);
    assert!(!red_red.has_alternating_color_cards(2));
    assert!(!red_red.has_all_alternating());
}

#[test]
fn run_check_looks_at_the_last_cards_only() {
    let c = Cascade::new(at(0, 0), five());
    assert!(c.has_alternating_color_cards(0));
    assert!(c.has_alternating_color_cards(1));
    assert!(c.has_alternating_color_cards(2));
    assert!(!c.has_alternating_color_cards(3));
    assert!(!c.has_alternating_color_cards(5));
    assert!(!c.has_all_alternating());
}

#[test]
fn run_check_agrees_with_looking_at_each_pair() {
    let c = Cascade::new(at(40, 136), five());
    for dy in 0..=192 {
        let n = c.cards_to_take(at(50, 136 + dy));
        let cards = c.cards();
        let run = &cards[cards.len() - n..];
        let mut by_hand = true;
        for k in 1..run.len() {
            if !(run[k - 1].value == run[k].value + 1 && run[k - 1].is_red() != run[k].is_red()) {
                by_hand = false;
            }
        }
        assert_eq!(c.has_alternating_color_cards(n), by_hand);
    }
}

#[test]
fn run_check_with_too_many_cards_checks_all() {
    let run = Cascade::new(at(0, 0), vec![card(3, 2), card(0, 1)]);
    assert!(run.has_alternating_color_cards(7));
    let empty = Cascade::new(at(0, 0), vec![]);
    assert!(empty.has_alternating_color_cards(1));
    assert!(empty.has_all_alternating());
}

#[test]
fn run_must_descend() {
    let up = Cascade::new(at(0, 0), vec![card(0, 3), card(1, 4)]);
    assert!(!up.has_all_alternating());
    let gap = Cascade::new(at(0, 0), vec![card(0, 5), card(1, 3)]);
    assert!(!gap.has_all_alternating());
}

#[test]
fn cascade_bottom_card_is_the_last() {
    let c = Cascade::new(at(0, 0), five());
    assert_eq!(c.bottom_card(), Some(&card(1, 2)));
    let e = Cascade::new(at(0, 0), vec![]);
    assert_eq!(e.bottom_card(), None);
}

#[test]
fn cascade_can_stack_lower_rank_of_other_colour() {
    let c = Cascade::new(at(0, 0), five());
    assert!(c.can_stack(&card(0, 1)));
    assert!(c.can_stack(&card(2, 1)));
    assert!(!c.can_stack(&card(1, 1)));
    assert!(!c.can_stack(&card(0, 3)));
    assert!(!c.can_stack(&card(0, 2)));
    let e = Cascade::new(at(0, 0), vec![]);
    assert!(e.can_stack(&card(3, 12)));
    assert!(e.can_stack(&card(0, 0)));
}

#[test]
fn cell_holds_one_card() {
    let mut c = Cell::new(at(424, 20), None);
    assert!(c.is_empty());
    assert_eq!(c.card(), None);
    assert_eq!(c.take(), None);
    c.put(card(1, 4));
    assert!(!c.is_empty());
    assert_eq!(c.card(), Some(&card(1, 4)));
    assert_eq!(c.take(), Some(card(1, 4)));
    assert!(c.is_empty());
    assert_eq!(c.pos(), at(424, 20));
}

#[test]
fn cell_put_overwrites() {
    let mut c = Cell::new(at(0, 0), Some(card(0, 1)));
    c.put(card(2, 9));
    assert_eq!(c.card(), Some(&card(2, 9)));
}

#[test]
fn cell_footprint_is_one_card() {
    let c = Cell::new(at(424, 20), None);
    assert!(c.inside(at(424, 20)));
    assert!(c.inside(at(495, 116)));
    assert!(!c.inside(at(496, 116)));
    assert!(!c.inside(at(495, 117)));
    assert!(!c.inside(at(423, 20)));
    assert!(!c.inside(at(424, 19)));
}

#[test]
fn foundation_acceptance_example() {
    let mut f = Foundation::new(at(20, 20), vec![]);
    assert!(f.can_stack(&card(0, 0)));
    assert!(!f.can_stack(&card(0, 1)));
    f.put(card(0, 0));
    assert!(f.can_stack(&card(0, 1)));
    assert!(!f.can_stack(&card(1, 1)));
}

#[test]
fn foundation_takes_any_ace_when_empty() {
    let f = Foundation::new(at(20, 20), vec![]);
    for suit in 0..4 {
        assert!(f.can_stack(&card(suit, 0)));
        assert!(!f.can_stack(&card(suit, 5)));
    }
}

#[test]
fn foundation_built_by_can_stack_is_in_order() {
    let mut f = Foundation::new(at(20, 20), vec![]);
    for c in Card::deck() {
        if f.can_stack(&c) {
            f.put(c);
        }
    }
    let cards = f.cards();
    assert_eq!(cards.len(), 13);
    assert!(cards[0].is_ace());
    for i in 1..cards.len() {
        assert!(cards[i].follows(&cards[i - 1]));
    }
}

#[test]
fn foundation_take_pops_the_top() {
    let mut f = Foundation::new(at(20, 20), vec![card(2, 0), card(2, 1)]);
    assert!(!f.is_empty());
    assert_eq!(f.top_card(), Some(&card(2, 1)));
    assert_eq!(f.take(), Some(card(2, 1)));
    assert_eq!(f.take(), Some(card(2, 0)));
    assert_eq!(f.take(), None);
    assert!(f.is_empty());
    assert_eq!(f.top_card(), None);
    assert_eq!(f.pos(), at(20, 20));
}

#[test]
fn foundation_footprint_is_one_card() {
    let f = Foundation::new(at(20, 20), vec![card(0, 0), card(0, 1), card(0, 2)]);
    assert!(f.inside(at(20, 20)));
    assert!(f.inside(at(91, 116)));
    assert!(!f.inside(at(92, 116)));
    assert!(!f.inside(at(91, 117)));
}

#[test]
fn hand_starts_empty_at_the_origin() {
    let h = Hand::new();
    assert!(h.is_empty());
    assert!(!h.is_single_card());
    assert_eq!(h.top_card(), None);
    assert_eq!(h.len(), 0);
    assert_eq!(h.pos(), at(0, 0));
}

#[test]
fn hand_put_and_take_keep_order() {
    let mut h = Hand::new();
    h.put(vec![card(0, 5), card(1, 4)]);
    assert!(!h.is_empty());
    assert!(!h.is_single_card());
    assert_eq!(h.top_card(), Some(&card(0, 5)));
    assert_eq!(*h.cards(), vec![card(0, 5), card(1, 4)]);
    assert_eq!(h.take(), vec![card(0, 5), card(1, 4)]);
    assert!(h.is_empty());
    h.put(vec![card(3, 3)]);
    assert!(h.is_single_card());
}

#[test]
fn hand_hangs_under_the_pointer() {
    let mut h = Hand::new();
    h.update(at(100, 100));
    assert_eq!(h.pos(), at(65, 68));
    h.update(at(0, 0));
    assert_eq!(h.pos(), at(-35, -32));
}

#[test]
fn button_footprint_is_its_icon() {
    let b = Button::new(at(375, 20), 38, 38);
    assert!(b.inside(at(375, 20)));
    assert!(b.inside(at(413, 58)));
    assert!(!b.inside(at(414, 58)));
    assert!(!b.inside(at(413, 59)));
    assert!(!b.inside(at(374, 20)));
}
