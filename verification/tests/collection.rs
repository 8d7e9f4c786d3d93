use hanabi::{Card, CardCollection, Color, Fireworks, Hint, Ratio, Suit};
use rand::rngs::StdRng;
use rand::SeedableRng;

#[test]
fn the_starting_deck_holds_fifty_cards() {
    let deck = CardCollection::starting_deck();
    assert_eq!(deck.total, 50);
    assert_eq!(
        deck.counts,
        [3, 2, 2, 2, 1, 3, 2, 2, 2, 1, 3, 2, 2, 2, 1, 3, 2, 2, 2, 1, 3, 2, 2, 2, 1]
    );
    assert_eq!(deck.counts.iter().map(|&c| c as u32).sum::<u32>(), 50);
}

#[test]
fn the_empty_collection_holds_nothing() {
    let pile = CardCollection::empty();
    assert_eq!(pile.total, 0);
    assert_eq!(pile.counts, [0; 25]);
}

#[test]
fn add_and_remove_change_one_count_and_the_total() {
    let mut pile = CardCollection::empty();
    let card = Card::new(Color::Blue, Suit::Two);
    pile.add(card);
    pile.add(card);
    pile.add(Card::new(Color::Green, Suit::Five));
    assert_eq!(pile.total, 3);
    assert_eq!(pile.counts[11], 2);
    assert_eq!(pile.counts[24], 1);
    assert_eq!(pile.remove(card), card);
    assert_eq!(pile.total, 2);
    assert_eq!(pile.counts[11], 1);
    assert_eq!(pile.counts[24], 1);
}

#[test]
fn subtract_takes_counts_away() {
    let mut deck = CardCollection::starting_deck();
    let mut gone = CardCollection::empty();
    gone.add(Card::from_id(0));
    gone.add(Card::from_id(0));
    gone.add(Card::from_id(9));
    deck.subtract(&gone);
    assert_eq!(deck.total, 47);
    assert_eq!(deck.counts[0], 1);
    assert_eq!(deck.counts[9], 0);
    assert_eq!(deck.counts[1], 2);
}

#[test]
fn remove_hand_skips_empty_slots() {
    let mut deck = CardCollection::starting_deck();
    let hand = [
        Card::from_id(0),
        Card::none(),
        Card::from_id(0),
        Card::from_id(24),
        Card::none(),
    ];
    deck.remove_hand(&hand);
    assert_eq!(deck.total, 47);
    assert_eq!(deck.counts[0], 1);
    assert_eq!(deck.counts[24], 0);
}

#[test]
fn remove_fireworks_takes_the_played_cards() {
    let mut deck = CardCollection::starting_deck();
    deck.remove_fireworks(&Fireworks([2, 0, 5, 0, 1]));
    assert_eq!(deck.total, 42);
    assert_eq!(
        deck.counts,
        [2, 1, 2, 2, 1, 3, 2, 2, 2, 1, 2, 1, 1, 1, 0, 3, 2, 2, 2, 1, 2, 2, 2, 2, 1]
    );
}

#[test]
fn pop_nth_walks_the_copies_in_order() {
    let positions: [(u8, u8); 8] =
        [(0, 0), (2, 0), (3, 1), (4, 1), (5, 2), (9, 4), (10, 5), (49, 24)];
    for &(n, id) in positions.iter() {
        let mut deck = CardCollection::starting_deck();
        let card = deck.pop_nth(n);
        assert_eq!(card.id(), id);
        assert_eq!(deck.total, 49);
        let full = CardCollection::starting_deck();
        assert_eq!(deck.counts[id as usize], full.counts[id as usize] - 1);
    }
}

#[test]
fn pop_nth_passes_over_missing_identities() {
    let mut pile = CardCollection::empty();
    pile.add(Card::from_id(7));
    pile.add(Card::from_id(20));
    pile.add(Card::from_id(20));
    assert_eq!(pile.pop_nth(1).id(), 20);
    assert_eq!(pile.pop_nth(0).id(), 7);
    assert_eq!(pile.pop_nth(0).id(), 20);
    assert_eq!(pile.total, 0);
}

#[test]
fn pop_on_an_empty_collection_gives_the_marker() {
    let mut rng = StdRng::seed_from_u64(3);
    let mut pile = CardCollection::empty();
    let card = pile.pop(&mut rng);
    assert!(card.is_none());
    assert_eq!(pile.total, 0);
}

#[test]
fn pop_takes_a_card_that_was_there() {
    let mut rng = StdRng::seed_from_u64(11);
    let mut deck = CardCollection::starting_deck();
    for left in (0..50u8).rev() {
        let before = deck;
        let card = deck.pop(&mut rng);
        assert!(card.is_some());
        assert!(card.id() < 25);
        assert!(before.counts[card.id() as usize] > 0);
        assert_eq!(deck.counts[card.id() as usize], before.counts[card.id() as usize] - 1);
        assert_eq!(deck.total, left);
    }
    assert_eq!(deck.counts, [0; 25]);
    assert!(deck.pop(&mut rng).is_none());
}

#[test]
fn pop_reaches_every_copy() {
    let mut rng = StdRng::seed_from_u64(5);
    let mut seen = [false; 25];
    for _ in 0..2000 {
        let mut deck = CardCollection::starting_deck();
        seen[deck.pop(&mut rng).id() as usize] = true;
    }
    assert!(seen.iter().all(|&s| s));
}

#[test]
fn matching_keeps_the_admitted_identities() {
    let deck = CardCollection::starting_deck();
    let white = Hint { color: 0b00001, suit: 0b11111 };
    let matches = deck.matching(&white);
    assert_eq!(matches.total, 10);
    assert_eq!(&matches.counts[0..5], &[3, 2, 2, 2, 1]);
    assert!(matches.counts[5..].iter().all(|&c| c == 0));
    assert_eq!(deck.matching(&Hint::empty()).total, 50);
    assert_eq!(deck.matching(&Hint::none()).total, 0);
}

#[test]
fn pop_match_nth_weighs_the_draw() {
    let mut deck = CardCollection::starting_deck();
    let white = Hint { color: 0b00001, suit: 0b11111 };
    // ten white cards; the first three positions are White One
    let (card, weight) = deck.pop_match_nth(&white, 2);
    assert_eq!(card, Card::new(Color::White, Suit::One));
    assert_eq!(weight, Ratio { num: 2, den: 11 });
    assert_eq!(deck.total, 49);
    assert_eq!(deck.counts[0], 2);
    // nine white cards left; position 8 is the White Five
    let (card, weight) = deck.pop_match_nth(&white, 8);
    assert_eq!(card, Card::new(Color::White, Suit::Five));
    assert_eq!(weight, Ratio { num: 0, den: 10 });
    assert_eq!(deck.counts[4], 0);
    assert_eq!(deck.total, 48);
}

#[test]
fn pop_match_nth_counts_positions_among_the_admitted() {
    let mut deck = CardCollection::starting_deck();
    let fives = Hint { color: 0b11111, suit: 0b10000 };
    let (card, weight) = deck.pop_match_nth(&fives, 3);
    assert_eq!(card, Card::new(Color::Yellow, Suit::Five));
    assert_eq!(weight, Ratio { num: 0, den: 6 });
}

#[test]
fn pop_match_gives_none_when_nothing_matches() {
    let mut rng = StdRng::seed_from_u64(1);
    let mut deck = CardCollection::starting_deck();
    let green_five = Hint { color: 0b10000, suit: 0b10000 };
    let first = deck.pop_match(&green_five, &mut rng);
    assert_eq!(
        first,
        Some((Card::new(Color::Green, Suit::Five), Ratio { num: 0, den: 2 }))
    );
    let before = deck;
    assert_eq!(deck.pop_match(&green_five, &mut rng), None);
    assert_eq!(deck.total, before.total);
    assert_eq!(deck.counts, before.counts);
    assert_eq!(deck.pop_match(&Hint::none(), &mut rng), None);
}

#[test]
fn pop_match_only_draws_admitted_cards() {
    let mut rng = StdRng::seed_from_u64(9);
    let hint = Hint { color: 0b01010, suit: 0b00110 };
    for _ in 0..200 {
        let mut deck = CardCollection::starting_deck();
        let (card, weight) = deck.pop_match(&hint, &mut rng).unwrap();
        assert!(hint.matches(card));
        assert_eq!(weight, Ratio { num: 1, den: 9 });
        assert_eq!(deck.total, 49);
        assert_eq!(deck.counts[card.id() as usize], 1);
    }
}

#[test]
fn counts_by_rank_and_by_color() {
    let deck = CardCollection::starting_deck();
    assert_eq!(deck.num_of_suit(Suit::One), 15);
    assert_eq!(deck.num_of_suit(Suit::Three), 10);
    assert_eq!(deck.num_of_suit(Suit::Five), 5);
    assert_eq!(deck.num_of_color(Color::White), 10);
    assert_eq!(deck.num_of_color(Color::Green), 10);
    let mut pile = CardCollection::empty();
    pile.add(Card::new(Color::Red, Suit::Two));
    pile.add(Card::new(Color::Red, Suit::Four));
    pile.add(Card::new(Color::Blue, Suit::Two));
    assert_eq!(pile.num_of_suit(Suit::Two), 2);
    assert_eq!(pile.num_of_suit(Suit::One), 0);
    assert_eq!(pile.num_of_color(Color::Red), 2);
    assert_eq!(pile.num_of_color(Color::Blue), 1);
}

#[test]
fn fireworks_know_their_next_card() {
    let mut fireworks = Fireworks::empty();
    assert_eq!(fireworks.total(), 0);
    assert!(fireworks.accepts(Card::new(Color::Red, Suit::One)));
    assert!(!fireworks.accepts(Card::new(Color::Red, Suit::Two)));
    fireworks.add_card(Card::new(Color::Red, Suit::One));
    assert_eq!(fireworks.0, [0, 1, 0, 0, 0]);
    assert!(fireworks.accepts(Card::new(Color::Red, Suit::Two)));
    assert!(!fireworks.accepts(Card::new(Color::Red, Suit::One)));
    assert!(!fireworks.is_color_complete(Color::Red));
    let full = Fireworks([5, 4, 3, 2, 1]);
    assert_eq!(full.total(), 15);
    assert!(full.is_color_complete(Color::White));
    assert!(!full.is_color_complete(Color::Red));
    assert!(!full.accepts(Card::new(Color::White, Suit::Five)));
    assert_eq!(Fireworks([5, 5, 5, 5, 5]).total(), 25);
}

#[test]
fn add_hand_puts_back_what_remove_hand_took() {
    let mut deck = CardCollection::starting_deck();
    let hand = [
        Card::from_id(0),
        Card::none(),
        Card::from_id(0),
        Card::from_id(24),
        Card::none(),
    ];
    deck.remove_hand(&hand);
    deck.add_hand(&hand);
    assert_eq!(deck.total, 50);
    assert_eq!(deck.counts, CardCollection::starting_deck().counts);
    let mut pile = CardCollection::empty();
    pile.add_hand(&hand);
    assert_eq!(pile.total, 3);
    assert_eq!(pile.counts[0], 2);
    assert_eq!(pile.counts[24], 1);
}
