use hanabi::{Card, Color, Hint, Suit};

fn all_cards() -> Vec<Card> {
    (0u8..25).map(Card::from_id).collect()
}

fn matching(hint: &Hint) -> Vec<u8> {
    all_cards().into_iter().filter(|&c| hint.matches(c)).map(|c| c.id()).collect()
}

#[test]
fn the_empty_hint_matches_every_card() {
    let hint = Hint::empty();
    assert_eq!((hint.color, hint.suit), (0b011111, 0b011111));
    assert!(hint.is_some());
    assert!(!hint.is_none());
    assert_eq!(matching(&hint).len(), 25);
}

#[test]
fn the_hint_of_an_empty_slot_matches_no_card() {
    let hint = Hint::none();
    assert_eq!((hint.color, hint.suit), (0b100000, 0b100000));
    assert!(hint.is_none());
    assert!(!hint.is_some());
    assert!(hint != Hint::empty());
    assert_eq!(matching(&hint).len(), 0);
}

#[test]
fn a_hint_with_one_mask_of_an_empty_slot_is_none() {
    assert!(Hint { color: 0b100000, suit: 0b011111 }.is_none());
    assert!(Hint { color: 0b011111, suit: 0b100000 }.is_none());
    assert!(Hint { color: 0b000001, suit: 0b010000 }.is_some());
}

#[test]
fn set_true_color_leaves_one_color() {
    let mut hint = Hint::empty();
    hint.set_true_color(Color::Blue);
    assert_eq!((hint.color, hint.suit), (0b00100, 0b11111));
    assert_eq!(matching(&hint), vec![10, 11, 12, 13, 14]);
    assert!(hint.matches_color(Color::Blue));
    assert!(!hint.matches_color(Color::White));
}

#[test]
fn disable_color_clears_one_bit() {
    let mut hint = Hint::empty();
    hint.disable_color(Color::Blue);
    assert_eq!((hint.color, hint.suit), (0b11011, 0b11111));
    assert_eq!(matching(&hint).len(), 20);
    assert!(!hint.matches(Card::new(Color::Blue, Suit::One)));
    assert!(hint.matches(Card::new(Color::Green, Suit::One)));
    hint.disable_color(Color::Blue);
    assert_eq!(hint.color, 0b11011);
    hint.disable_color(Color::White);
    assert_eq!(hint.color, 0b11010);
}

#[test]
fn set_true_suit_and_disable_suit() {
    let mut hint = Hint::empty();
    hint.set_true_suit(Suit::Five);
    assert_eq!((hint.color, hint.suit), (0b11111, 0b10000));
    assert_eq!(matching(&hint), vec![4, 9, 14, 19, 24]);
    assert!(hint.matches_suit(Suit::Five));
    assert!(!hint.matches_suit(Suit::One));

    let mut other = Hint::empty();
    other.disable_suit(Suit::One);
    other.disable_suit(Suit::Three);
    assert_eq!((other.color, other.suit), (0b11111, 0b11010));
    assert_eq!(matching(&other).len(), 15);
}

#[test]
fn a_card_matches_when_both_masks_allow_it() {
    let hint = Hint { color: 0b00011, suit: 0b00110 };
    assert_eq!(matching(&hint), vec![1, 2, 6, 7]);
}

#[test]
fn narrowing_a_hint_never_adds_a_card() {
    let colors = [Color::White, Color::Red, Color::Blue, Color::Yellow, Color::Green];
    let suits = [Suit::One, Suit::Two, Suit::Three, Suit::Four, Suit::Five];
    for color_mask in 0u8..32 {
        for suit_mask in [0b11111u8, 0b01010, 0b00001] {
            let hint = Hint { color: color_mask, suit: suit_mask };
            let before = matching(&hint);
            for &color in colors.iter() {
                let mut cleared = hint;
                cleared.disable_color(color);
                assert!(matching(&cleared).iter().all(|id| before.contains(id)));
                if hint.matches_color(color) {
                    let mut told = hint;
                    told.set_true_color(color);
                    assert!(matching(&told).iter().all(|id| before.contains(id)));
                }
            }
            for &suit in suits.iter() {
                let mut cleared = hint;
                cleared.disable_suit(suit);
                assert!(matching(&cleared).iter().all(|id| before.contains(id)));
                if hint.matches_suit(suit) {
                    let mut told = hint;
                    told.set_true_suit(suit);
                    assert!(matching(&told).iter().all(|id| before.contains(id)));
                }
            }
        }
    }
}
