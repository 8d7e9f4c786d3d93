use hanabi::{possible_future_rewards, Card, CardCollection, Color, Fireworks, Suit};

#[test]
fn test_future_reward() {
    let mut fireworks = Fireworks::empty();
    let mut discard = CardCollection::empty();

    assert_eq!(possible_future_rewards(&fireworks, &discard), 25);

    discard.add(Card::new(Color::White, Suit::One));
    discard.add(Card::new(Color::White, Suit::One));
    discard.add(Card::new(Color::White, Suit::One));

    assert_eq!(possible_future_rewards(&fireworks, &discard), 20);

    discard.add(Card::new(Color::Green, Suit::One));

    assert_eq!(possible_future_rewards(&fireworks, &discard), 20);

    discard.add(Card::new(Color::Yellow, Suit::Three));
    discard.add(Card::new(Color::Yellow, Suit::Three));

    assert_eq!(possible_future_rewards(&fireworks, &discard), 17);

    discard.add(Card::new(Color::Red, Suit::Five));

    assert_eq!(possible_future_rewards(&fireworks, &discard), 16);

    fireworks.add_card(Card::new(Color::Blue, Suit::One));
    fireworks.add_card(Card::new(Color::Blue, Suit::Two));

    assert_eq!(possible_future_rewards(&fireworks, &discard), 14);
}

#[test]
fn future_reward_stops_at_first_missing_rank() {
    let fireworks = Fireworks::empty();
    let mut discard = CardCollection::empty();
    // both Red Twos gone: Red can reach One only, though Red Three is still there
    discard.add(Card::new(Color::Red, Suit::Two));
    discard.add(Card::new(Color::Red, Suit::Two));
    assert_eq!(possible_future_rewards(&fireworks, &discard), 21);
}

#[test]
fn future_reward_of_finished_color_is_zero() {
    let fireworks = Fireworks([5, 5, 5, 5, 5]);
    let discard = CardCollection::empty();
    assert_eq!(possible_future_rewards(&fireworks, &discard), 0);
}
