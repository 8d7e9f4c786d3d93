use hanabi::determinize::{determinize_at, determinize_hints, determinize_once, MAX_RESTARTS};
use hanabi::{
    Action, Card, CardCollection, Color, Env, Fireworks, HanabiEnv, HasEnd, Hint, PrivateInfo,
    PublicInfo, Ratio, Suit,
};
use rand::rngs::StdRng;
use rand::seq::SliceRandom;
use rand::SeedableRng;

fn exactly(color: Color, suit: Suit) -> Hint {
    let mut hint = Hint::empty();
    hint.set_true_color(color);
    hint.set_true_suit(suit);
    hint
}

#[test]
fn a_walk_fills_the_live_slots_and_weighs_the_draws() {
    let mut rng = StdRng::seed_from_u64(0);
    let mut deck = CardCollection::starting_deck();
    let red_one = exactly(Color::Red, Suit::One);
    let hints = [red_one, Hint::none(), red_one, Hint::none(), Hint::none()];
    let (cards, weight) = determinize_once(&mut deck, &hints, &mut rng).unwrap();
    let card = Card::new(Color::Red, Suit::One);
    assert_eq!(cards, [card, Card::none(), card, Card::none(), Card::none()]);
    // first draw: 2 copies left of the 3 admitted; second: 1 left of 2
    assert_eq!(weight, Ratio { num: 2 * 1, den: 4 * 3 });
    assert_eq!(deck.total, 48);
    assert_eq!(deck.counts[5], 1);
}

#[test]
fn a_walk_without_live_slots_takes_nothing() {
    let mut rng = StdRng::seed_from_u64(0);
    let mut deck = CardCollection::starting_deck();
    let (cards, weight) = determinize_once(&mut deck, &[Hint::none(); 5], &mut rng).unwrap();
    assert_eq!(cards, [Card::none(); 5]);
    assert_eq!(weight, Ratio { num: 1, den: 1 });
    assert_eq!(deck.total, 50);
}

#[test]
fn a_walk_that_finds_no_card_puts_everything_back() {
    let mut rng = StdRng::seed_from_u64(0);
    let mut deck = CardCollection::starting_deck();
    let green_five = exactly(Color::Green, Suit::Five);
    let hints = [Hint::empty(), green_five, Hint::empty(), green_five, Hint::none()];
    for _ in 0..50 {
        assert_eq!(determinize_once(&mut deck, &hints, &mut rng), None);
        assert_eq!(deck.total, 50);
        assert_eq!(deck.counts, CardCollection::starting_deck().counts);
    }
}

#[test]
fn sampling_gives_up_after_the_restarts() {
    let mut rng = StdRng::seed_from_u64(0);
    let mut deck = CardCollection::starting_deck();
    let green_five = exactly(Color::Green, Suit::Five);
    let hints = [green_five, green_five, Hint::none(), Hint::none(), Hint::none()];
    assert!(MAX_RESTARTS >= 1000);
    assert_eq!(determinize_hints(&mut deck, &hints, &mut rng), None);
    assert_eq!(deck.total, 50);
    assert_eq!(deck.counts, CardCollection::starting_deck().counts);
}

#[test]
fn sampling_starts_again_after_a_dead_end() {
    // two slots want a Green Four or Five, the third the Green Five: a walk
    // succeeds only if the first two both draw a Four
    let high_green = Hint { color: 0b10000, suit: 0b11000 };
    let green_five = exactly(Color::Green, Suit::Five);
    let hints = [high_green, high_green, green_five, Hint::none(), Hint::none()];
    let four = Card::new(Color::Green, Suit::Four);
    let five = Card::new(Color::Green, Suit::Five);
    let mut dead_ends = 0;
    for seed in 0..50u64 {
        let mut rng = StdRng::seed_from_u64(seed);
        let mut deck = CardCollection::starting_deck();
        if determinize_once(&mut deck, &hints, &mut rng).is_none() {
            dead_ends += 1;
        }
        let mut rng = StdRng::seed_from_u64(seed);
        let mut deck = CardCollection::starting_deck();
        let (cards, weight) = determinize_hints(&mut deck, &hints, &mut rng).unwrap();
        assert_eq!(cards, [four, four, five, Card::none(), Card::none()]);
        assert_eq!(weight, Ratio { num: 0, den: 4 * 3 * 2 });
        assert_eq!(deck.total, 47);
    }
    assert!(dead_ends > 0 && dead_ends < 50);
}

#[test]
fn a_sampled_hand_agrees_with_every_hint() {
    let hints = [
        Hint { color: 0b00110, suit: 0b11111 },
        Hint { color: 0b11111, suit: 0b00001 },
        Hint::none(),
        Hint { color: 0b10000, suit: 0b01110 },
        Hint::empty(),
    ];
    for seed in 0..100u64 {
        let mut rng = StdRng::seed_from_u64(seed);
        let mut deck = CardCollection::starting_deck();
        let (cards, weight) = determinize_hints(&mut deck, &hints, &mut rng).unwrap();
        for i in 0..5 {
            if hints[i].is_some() {
                assert!(hints[i].matches(cards[i]));
            } else {
                assert!(cards[i].is_none());
            }
        }
        assert_eq!(deck.total, 46);
        let mut back = deck;
        for card in cards.iter().filter(|c| c.is_some()) {
            back.add(*card);
        }
        assert_eq!(back.counts, CardCollection::starting_deck().counts);
        assert!(weight.den >= 1);
        assert!(weight.num <= weight.den);
    }
}

fn same_public(a: &PublicInfo, b: &PublicInfo) -> bool {
    a.player_hints == b.player_hints
        && a.opponent_hints == b.opponent_hints
        && a.discard.total == b.discard.total
        && a.discard.counts == b.discard.counts
        && a.blue_tokens == b.blue_tokens
        && a.black_tokens == b.black_tokens
        && a.fireworks.0 == b.fireworks.0
        && a.last_round == b.last_round
        && a.last_round_turns_taken == b.last_round_turns_taken
}

#[test]
fn a_determinized_table_agrees_with_what_the_seat_knows() {
    for seed in 0..20u64 {
        let mut rng = StdRng::seed_from_u64(seed);
        let mut env = HanabiEnv::random(&mut rng);
        for _ in 0..30 {
            if env.is_over() {
                break;
            }
            for &perspective in [true, false].iter() {
                let public = env.public_info();
                let private = env.private_info(perspective);
                // From its own seat a sample is always there to be found:
                // the hand that the seat holds is one. From the other seat
                // the cards that a hint asks for may all be in the hand that
                // counts as seen, and then there is none.
                let (sampled, weight) = match HanabiEnv::determinize(&public, &private, &mut rng) {
                    Some(found) => found,
                    None => {
                        assert!(!perspective);
                        continue;
                    }
                };
                assert!(same_public(&sampled.public_info(), &public));
                assert_eq!(sampled.opponent_hand, private.opponent_hand);
                assert_eq!(sampled.private_info(true), private);
                for i in 0..5 {
                    if public.player_hints[i].is_some() {
                        assert!(public.player_hints[i].matches(sampled.player_hand[i]));
                    } else {
                        assert!(sampled.player_hand[i].is_none());
                    }
                }
                assert!(weight.num <= weight.den);
                if perspective {
                    assert_eq!(sampled.deck.total, env.deck.total);
                }
            }
            let action = *env.actions().choose(&mut rng).unwrap();
            env.step(&action, &mut rng);
        }
    }
}

#[test]
fn a_sample_is_the_hand_of_the_acting_seat() {
    let mut rng = StdRng::seed_from_u64(7);
    let env = HanabiEnv::random(&mut rng);
    let public = env.public_info();
    let seen = env.private_info(true);
    let (own, weight) = HanabiEnv::sample_opponent_info(&public, &seen, &mut rng).unwrap();
    assert!(own.opponent_hand.iter().all(|c| c.is_some()));
    assert!(weight.den >= 1);
    let rebuilt = HanabiEnv::new(&public, &seen, &own);
    assert_eq!(rebuilt.player_hand, own.opponent_hand);
    assert_eq!(rebuilt.opponent_hand, seen.opponent_hand);
    assert_eq!(rebuilt.deck.total, 40);
}

#[test]
fn a_known_card_is_sampled_as_it_is() {
    let mut rng = StdRng::seed_from_u64(7);
    let public = PublicInfo {
        player_hints: [
            exactly(Color::White, Suit::Five),
            exactly(Color::Red, Suit::Five),
            exactly(Color::Blue, Suit::Five),
            Hint::none(),
            Hint::none(),
        ],
        opponent_hints: [Hint::empty(); 5],
        discard: CardCollection::empty(),
        blue_tokens: 2,
        black_tokens: 2,
        fireworks: Fireworks([0; 5]),
        last_round: false,
        last_round_turns_taken: 0,
    };
    let seen = PrivateInfo {
        opponent_hand: [
            Card::new(Color::Yellow, Suit::One),
            Card::new(Color::Yellow, Suit::Two),
            Card::new(Color::Yellow, Suit::Three),
            Card::new(Color::Yellow, Suit::Four),
            Card::new(Color::Yellow, Suit::Five),
        ],
    };
    let (sampled, weight) = HanabiEnv::determinize(&public, &seen, &mut rng).unwrap();
    assert_eq!(
        sampled.player_hand,
        [
            Card::new(Color::White, Suit::Five),
            Card::new(Color::Red, Suit::Five),
            Card::new(Color::Blue, Suit::Five),
            Card::none(),
            Card::none(),
        ]
    );
    assert_eq!(weight, Ratio { num: 0, den: 8 });
    assert_eq!(sampled.deck.total, 42);
    assert!(sampled
        .actions()
        .contains(&Action::Play(exactly(Color::Red, Suit::Five))));
}

#[test]
fn a_walk_with_given_draws_takes_the_cards_at_their_positions() {
    let mut deck = CardCollection::starting_deck();
    let white = Hint { color: 0b00001, suit: 0b11111 };
    let hints = [white, Hint::none(), white, Hint::empty(), Hint::none()];
    // ten white cards: the last is the Five; of the nine left the last is a
    // Four; of the 48 cards left the first is a White One
    let (cards, weight) = determinize_at(&mut deck, &hints, &[9, 0, 8, 0, 0]).unwrap();
    assert_eq!(
        cards,
        [
            Card::new(Color::White, Suit::Five),
            Card::none(),
            Card::new(Color::White, Suit::Four),
            Card::new(Color::White, Suit::One),
            Card::none(),
        ]
    );
    assert_eq!(weight, Ratio { num: 0 * 1 * 2, den: 11 * 10 * 49 });
    assert_eq!(deck.total, 47);
    assert_eq!(&deck.counts[0..5], &[2, 2, 2, 1, 0]);
}

#[test]
fn a_walk_with_given_draws_weighs_as_a_walk_by_chance() {
    let mut deck = CardCollection::starting_deck();
    let red_one = exactly(Color::Red, Suit::One);
    let hints = [red_one, Hint::none(), red_one, Hint::none(), Hint::none()];
    let (cards, weight) = determinize_at(&mut deck, &hints, &[2, 0, 1, 0, 0]).unwrap();
    let card = Card::new(Color::Red, Suit::One);
    assert_eq!(cards, [card, Card::none(), card, Card::none(), Card::none()]);
    assert_eq!(weight, Ratio { num: 2, den: 12 });
    assert_eq!(deck.counts[5], 1);
}

#[test]
fn a_walk_with_given_draws_gives_up_only_at_a_dead_end() {
    let green_five = exactly(Color::Green, Suit::Five);
    let high_green = Hint { color: 0b10000, suit: 0b11000 };
    let hints = [high_green, high_green, green_five, Hint::none(), Hint::none()];
    let full = CardCollection::starting_deck();
    // Green Four, Four, then the Five: a hand
    let mut deck = full;
    let (cards, _) = determinize_at(&mut deck, &hints, &[0, 0, 0, 0, 0]).unwrap();
    assert_eq!(cards[2], Card::new(Color::Green, Suit::Five));
    assert_eq!(deck.total, 47);
    // the first slot takes the Five: nothing is left for the third
    let mut deck = full;
    assert_eq!(determinize_at(&mut deck, &hints, &[2, 0, 0, 0, 0]), None);
    assert_eq!(deck.total, 50);
    assert_eq!(deck.counts, full.counts);
    // the second slot takes the Five
    let mut deck = full;
    assert_eq!(determinize_at(&mut deck, &hints, &[1, 1, 0, 0, 0]), None);
    assert_eq!(deck.counts, full.counts);
}
