use hanabi::{Card, Color, Fireworks, Hint, Suit};

#[test]
fn cards_are_written_as_letter_and_rank() {
    assert_eq!(Card::new(Color::White, Suit::One).to_text(), "W1");
    assert_eq!(Card::new(Color::Red, Suit::Two).to_text(), "R2");
    assert_eq!(Card::new(Color::Blue, Suit::Three).to_text(), "B3");
    assert_eq!(Card::new(Color::Yellow, Suit::Four).to_text(), "Y4");
    assert_eq!(Card::new(Color::Green, Suit::Five).to_text(), "G5");
    assert_eq!(Color::Blue.initial(), 'B');
}

#[test]
fn hints_are_written_with_blanks_for_what_is_ruled_out() {
    assert_eq!(Hint::empty().to_text(), "Hint(WRBYG,12345)");
    assert_eq!(Hint::none().to_text(), "Hint(     ,     )");
    assert_eq!(Hint { color: 0b10001, suit: 0b00101 }.to_text(), "Hint(W   G,1 3  )");
    let mut hint = Hint::empty();
    hint.set_true_color(Color::Red);
    hint.disable_suit(Suit::Four);
    assert_eq!(hint.to_text(), "Hint( R   ,123 5)");
}

#[test]
fn fireworks_are_written_between_brackets() {
    assert_eq!(Fireworks::empty().to_text(), "[W  R  B  Y  G ]");
    assert_eq!(Fireworks([1, 0, 2, 0, 0]).to_text(), "[W1 R  B2 Y  G ]");
    assert_eq!(Fireworks([5, 4, 3, 2, 1]).to_text(), "[W5 R4 B3 Y2 G1]");
}
