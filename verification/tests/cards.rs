use hanabi::{Card, Color, Suit};

#[test]
fn card_ids_are_color_times_five_plus_rank() {
    assert_eq!(Card::parts_id(0, 0), 0);
    assert_eq!(Card::parts_id(2, 3), 13);
    assert_eq!(Card::parts_id(4, 4), 24);
    assert_eq!(Card::new(Color::White, Suit::One).id(), 0);
    assert_eq!(Card::new(Color::Red, Suit::Five).id(), 9);
    assert_eq!(Card::new(Color::Blue, Suit::Four).id(), 13);
    assert_eq!(Card::new(Color::Yellow, Suit::Two).id(), 16);
    assert_eq!(Card::new(Color::Green, Suit::Five).id(), 24);
    assert_eq!(Card::from_parts(3, 1), Card::new(Color::Yellow, Suit::Two));
    assert_eq!(Card::from_id(16), Card::new(Color::Yellow, Suit::Two));
}

#[test]
fn every_card_gives_back_its_parts() {
    let colors = [Color::White, Color::Red, Color::Blue, Color::Yellow, Color::Green];
    let suits = [Suit::One, Suit::Two, Suit::Three, Suit::Four, Suit::Five];
    for (c, &color) in colors.iter().enumerate() {
        for (s, &suit) in suits.iter().enumerate() {
            let card = Card::new(color, suit);
            assert_eq!(card.id() as usize, c * 5 + s);
            assert_eq!(card.color(), color);
            assert_eq!(card.suit(), suit);
            assert_eq!(card.color_id() as usize, c);
            assert_eq!(card.suit_id() as usize, s);
            assert!(card.is_some());
            assert!(!card.is_none());
            assert_eq!(Color::from_id(c as u8), color);
            assert_eq!(Suit::from_id(s as u8), suit);
            assert_eq!(color.id() as usize, c);
            assert_eq!(suit.id() as usize, s);
        }
    }
}

#[test]
fn the_empty_slot_marker_is_number_26() {
    let none = Card::none();
    assert_eq!(none.id(), 26);
    assert!(none.is_none());
    assert!(!none.is_some());
    assert!(Card::from_id(26).is_none());
    assert!(Card::from_id(25).is_some());
}

#[test]
fn colors_have_one_letter_names() {
    assert_eq!(Color::White.short_name(), "W");
    assert_eq!(Color::Red.short_name(), "R");
    assert_eq!(Color::Blue.short_name(), "B");
    assert_eq!(Color::Yellow.short_name(), "Y");
    assert_eq!(Color::Green.short_name(), "G");
}
