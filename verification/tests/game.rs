use hanabi::{
    Action, Card, CardCollection, Color, Env, Fireworks, HanabiEnv, HasEnd, HasReward, Hint,
    PrivateInfo, PublicInfo, Ratio, Suit,
};
use rand::rngs::StdRng;
use rand::seq::SliceRandom;
use rand::SeedableRng;

fn card(color: Color, suit: Suit) -> Card {
    Card::new(color, suit)
}

fn live(hand: &[Card; 5]) -> u32 {
    hand.iter().filter(|c| c.is_some()).count() as u32
}

/// Conservation and hint soundness, checked by counting.
fn check_invariants(env: &HanabiEnv) {
    let fireworks: u32 = env.fireworks.0.iter().map(|&h| h as u32).sum();
    assert_eq!(
        env.discard.total as u32
            + env.deck.total as u32
            + live(&env.player_hand)
            + live(&env.opponent_hand)
            + fireworks,
        50
    );
    assert_eq!(env.deck.counts.iter().map(|&c| c as u32).sum::<u32>(), env.deck.total as u32);
    assert_eq!(
        env.discard.counts.iter().map(|&c| c as u32).sum::<u32>(),
        env.discard.total as u32
    );
    let full = CardCollection::starting_deck();
    for id in 0..25usize {
        let on_stack = if (id % 5) < env.fireworks.0[id / 5] as usize { 1 } else { 0 };
        let held = env
            .player_hand
            .iter()
            .chain(env.opponent_hand.iter())
            .filter(|c| c.id() as usize == id)
            .count() as u8;
        assert_eq!(env.deck.counts[id] + env.discard.counts[id] + on_stack + held, full.counts[id]);
    }
    for (hand, hints) in [
        (&env.player_hand, &env.player_hints),
        (&env.opponent_hand, &env.opponent_hints),
    ] {
        for i in 0..5 {
            if hand[i].is_some() {
                assert!(hints[i].is_some());
                assert!(hints[i].matches(hand[i]));
            } else {
                assert!(hints[i] == Hint::none());
            }
        }
    }
    assert!(env.blue_tokens <= 8);
    assert!(env.black_tokens >= 1 && env.black_tokens <= 4);
    assert!(env.last_round_turns_taken <= 2);
    assert!(env.fireworks.0.iter().all(|&h| h <= 5));
}

fn table(
    player: [Card; 5],
    player_hints: [Hint; 5],
    opponent: [Card; 5],
    opponent_hints: [Hint; 5],
    fireworks: [u8; 5],
    discard: CardCollection,
    blue_tokens: u8,
    black_tokens: u8,
) -> HanabiEnv {
    let public = PublicInfo {
        player_hints,
        opponent_hints,
        discard,
        blue_tokens,
        black_tokens,
        fireworks: Fireworks(fireworks),
        last_round: false,
        last_round_turns_taken: 0,
    };
    let env = HanabiEnv::new(
        &public,
        &PrivateInfo { opponent_hand: opponent },
        &PrivateInfo { opponent_hand: player },
    );
    check_invariants(&env);
    env
}

fn player_cards() -> [Card; 5] {
    [
        card(Color::White, Suit::Five),
        card(Color::Red, Suit::One),
        card(Color::Red, Suit::One),
        card(Color::Blue, Suit::One),
        card(Color::Blue, Suit::Two),
    ]
}

fn opponent_cards() -> [Card; 5] {
    [
        card(Color::Yellow, Suit::One),
        card(Color::Yellow, Suit::One),
        card(Color::Green, Suit::One),
        card(Color::Green, Suit::Three),
        card(Color::Red, Suit::Two),
    ]
}

fn known_white_five() -> Hint {
    Hint { color: 0b00001, suit: 0b10000 }
}

fn player_hints() -> [Hint; 5] {
    [
        known_white_five(),
        Hint { color: 0b00010, suit: 0b11111 },
        Hint { color: 0b00010, suit: 0b11111 },
        Hint::empty(),
        Hint { color: 0b11111, suit: 0b00010 },
    ]
}

#[test]
fn a_fresh_game_is_well_formed() {
    let mut rng = StdRng::seed_from_u64(0);
    let env = HanabiEnv::random(&mut rng);
    check_invariants(&env);
    assert_eq!(env.deck.total, 40);
    assert_eq!(env.discard.total, 0);
    assert_eq!(env.blue_tokens, 8);
    assert_eq!(env.black_tokens, 4);
    assert_eq!(env.fireworks.0, [0; 5]);
    assert!(!env.last_round);
    assert_eq!(env.last_round_turns_taken, 0);
    assert!(env.player_hand.iter().all(|c| c.is_some()));
    assert!(env.opponent_hand.iter().all(|c| c.is_some()));
    assert!(env.player_hints.iter().all(|h| *h == Hint::empty()));
    assert!(env.opponent_hints.iter().all(|h| *h == Hint::empty()));
    assert!(!env.is_over());
    assert_eq!(env.reward(), Ratio { num: 75, den: 75 });
}

#[test]
fn fresh_games_differ_with_the_seed() {
    let a = HanabiEnv::random(&mut StdRng::seed_from_u64(1));
    let b = HanabiEnv::random(&mut StdRng::seed_from_u64(2));
    let again = HanabiEnv::random(&mut StdRng::seed_from_u64(1));
    assert_eq!(a.player_hand, again.player_hand);
    assert_eq!(a.opponent_hand, again.opponent_hand);
    assert!(a.player_hand != b.player_hand || a.opponent_hand != b.opponent_hand);
}

#[test]
fn random_play_ends_with_a_score_up_to_25() {
    for seed in 0..20u64 {
        let mut rng = StdRng::seed_from_u64(seed);
        let mut env = HanabiEnv::random(&mut rng);
        let mut turns = 0;
        while !env.is_over() {
            let actions = env.actions();
            assert!(!actions.is_empty());
            let action = *actions.choose(&mut rng).unwrap();
            env.step(&action, &mut rng);
            check_invariants(&env);
            turns += 1;
            assert!(turns <= 3 * 40 + 8 + 4);
        }
        assert!(env.fireworks.total() <= 25);
        let reward = env.reward();
        assert_eq!(reward.den, 75);
        assert!(reward.num <= 150);
    }
}

fn admitted(hint: &Hint) -> Vec<u8> {
    (0u8..25).filter(|&id| hint.matches(Card::from_id(id))).collect()
}

#[test]
fn hints_only_narrow_during_a_game() {
    for seed in 0..10u64 {
        let mut rng = StdRng::seed_from_u64(seed);
        let mut env = HanabiEnv::random(&mut rng);
        while !env.is_over() {
            let before = env.clone();
            let action = *env.actions().choose(&mut rng).unwrap();
            env.step(&action, &mut rng);
            // the seats changed places
            let mut redrawn = 0;
            for i in 0..5 {
                let old = admitted(&before.opponent_hints[i]);
                assert!(admitted(&env.player_hints[i]).iter().all(|id| old.contains(id)));
                assert_eq!(env.player_hand[i], before.opponent_hand[i]);
                if env.opponent_hints[i] != before.player_hints[i] {
                    redrawn += 1;
                    assert!(
                        env.opponent_hints[i] == Hint::empty()
                            || env.opponent_hints[i] == Hint::none()
                    );
                } else if matches!(action, Action::ColorHint(_) | Action::SuitHint(_)) {
                    assert_eq!(env.opponent_hand[i], before.player_hand[i]);
                }
            }
            assert!(redrawn <= 1);
        }
    }
}

#[test]
fn actions_of_a_fresh_game() {
    let mut rng = StdRng::seed_from_u64(0);
    let env = HanabiEnv::random(&mut rng);
    let actions = env.actions();
    // all eight blue tokens are there: nothing to discard for, and one play
    // stands for the five slots with equal hints
    assert_eq!(actions[0], Action::Play(Hint::empty()));
    assert!(actions.iter().all(|a| !matches!(a, Action::Discard(_))));
    assert_eq!(actions.iter().filter(|a| matches!(a, Action::Play(_))).count(), 1);
    for &color in [Color::White, Color::Red, Color::Blue, Color::Yellow, Color::Green].iter() {
        let held = env.opponent_hand.iter().any(|c| c.color() == color);
        assert_eq!(actions.contains(&Action::ColorHint(color)), held);
    }
    for &suit in [Suit::One, Suit::Two, Suit::Three, Suit::Four, Suit::Five].iter() {
        let held = env.opponent_hand.iter().any(|c| c.suit() == suit);
        assert_eq!(actions.contains(&Action::SuitHint(suit)), held);
    }
}

#[test]
fn actions_come_once_each_and_in_order() {
    let env = table(
        player_cards(),
        player_hints(),
        opponent_cards(),
        [Hint::empty(); 5],
        [0; 5],
        CardCollection::empty(),
        5,
        4,
    );
    let red = Hint { color: 0b00010, suit: 0b11111 };
    let two = Hint { color: 0b11111, suit: 0b00010 };
    assert_eq!(
        env.actions(),
        vec![
            Action::Play(known_white_five()),
            Action::Discard(known_white_five()),
            Action::Play(red),
            Action::Discard(red),
            Action::Play(Hint::empty()),
            Action::Discard(Hint::empty()),
            Action::Play(two),
            Action::Discard(two),
            Action::ColorHint(Color::Red),
            Action::ColorHint(Color::Yellow),
            Action::ColorHint(Color::Green),
            Action::SuitHint(Suit::One),
            Action::SuitHint(Suit::Two),
            Action::SuitHint(Suit::Three),
        ]
    );
}

#[test]
fn without_blue_tokens_no_hint_is_legal() {
    let env = table(
        player_cards(),
        player_hints(),
        opponent_cards(),
        [Hint::empty(); 5],
        [0; 5],
        CardCollection::empty(),
        0,
        4,
    );
    let actions = env.actions();
    assert_eq!(actions.len(), 8);
    assert!(actions.iter().all(|a| matches!(a, Action::Play(_) | Action::Discard(_))));
}

#[test]
fn with_all_blue_tokens_no_discard_is_legal() {
    let env = table(
        player_cards(),
        player_hints(),
        opponent_cards(),
        [Hint::empty(); 5],
        [0; 5],
        CardCollection::empty(),
        8,
        4,
    );
    let actions = env.actions();
    assert_eq!(actions.len(), 10);
    assert!(actions.iter().all(|a| !matches!(a, Action::Discard(_))));
}

#[test]
fn playing_a_five_with_eight_blue_tokens_leaves_eight() {
    let mut rng = StdRng::seed_from_u64(4);
    let mut env = table(
        player_cards(),
        player_hints(),
        opponent_cards(),
        [Hint::empty(); 5],
        [4, 0, 0, 0, 0],
        CardCollection::empty(),
        8,
        4,
    );
    assert_eq!(env.deck.total, 36);
    env.step(&Action::Play(known_white_five()), &mut rng);
    check_invariants(&env);
    assert_eq!(env.fireworks.0, [5, 0, 0, 0, 0]);
    assert_eq!(env.blue_tokens, 8);
    assert_eq!(env.black_tokens, 4);
    assert_eq!(env.discard.total, 0);
    assert_eq!(env.deck.total, 35);
    // the seats changed places, and the slot was filled again
    assert_eq!(env.player_hand, opponent_cards());
    assert!(env.opponent_hand[0].is_some());
    assert!(env.opponent_hints[0] == Hint::empty());
    assert_eq!(&env.opponent_hand[1..], &player_cards()[1..]);
    assert_eq!(&env.opponent_hints[1..], &player_hints()[1..]);
}

#[test]
fn playing_a_five_brings_back_a_missing_blue_token() {
    let mut rng = StdRng::seed_from_u64(4);
    let mut env = table(
        player_cards(),
        player_hints(),
        opponent_cards(),
        [Hint::empty(); 5],
        [4, 0, 0, 0, 0],
        CardCollection::empty(),
        3,
        4,
    );
    env.step(&Action::Play(known_white_five()), &mut rng);
    assert_eq!(env.fireworks.0, [5, 0, 0, 0, 0]);
    assert_eq!(env.blue_tokens, 4);
}

#[test]
fn playing_a_lower_card_brings_no_blue_token() {
    let mut rng = StdRng::seed_from_u64(4);
    let mut env = table(
        player_cards(),
        player_hints(),
        opponent_cards(),
        [Hint::empty(); 5],
        [0, 0, 1, 0, 0],
        CardCollection::empty(),
        3,
        4,
    );
    // the Blue Two is the only card under this hint
    env.step(&Action::Play(Hint { color: 0b11111, suit: 0b00010 }), &mut rng);
    check_invariants(&env);
    assert_eq!(env.fireworks.0, [0, 0, 2, 0, 0]);
    assert_eq!(env.blue_tokens, 3);
    assert_eq!(env.black_tokens, 4);
}

#[test]
fn a_wrong_play_costs_a_black_token() {
    let mut rng = StdRng::seed_from_u64(4);
    let mut env = table(
        player_cards(),
        player_hints(),
        opponent_cards(),
        [Hint::empty(); 5],
        [0; 5],
        CardCollection::empty(),
        3,
        4,
    );
    env.step(&Action::Play(known_white_five()), &mut rng);
    check_invariants(&env);
    assert_eq!(env.fireworks.0, [0; 5]);
    assert_eq!(env.black_tokens, 3);
    assert_eq!(env.blue_tokens, 3);
    assert_eq!(env.discard.total, 1);
    assert_eq!(env.discard.counts[4], 1);
    assert_eq!(env.deck.total, 39);
    assert!(!env.is_over());
}

#[test]
fn a_discard_brings_a_blue_token() {
    let mut rng = StdRng::seed_from_u64(4);
    let mut env = table(
        player_cards(),
        player_hints(),
        opponent_cards(),
        [Hint::empty(); 5],
        [0; 5],
        CardCollection::empty(),
        7,
        4,
    );
    env.step(&Action::Discard(known_white_five()), &mut rng);
    check_invariants(&env);
    assert_eq!(env.blue_tokens, 8);
    assert_eq!(env.black_tokens, 4);
    assert_eq!(env.discard.counts[4], 1);
    assert_eq!(env.deck.total, 39);
    assert!(env.opponent_hand[0].is_some());
    assert!(env.opponent_hints[0] == Hint::empty());
}

#[test]
fn a_discard_with_eight_blue_tokens_leaves_eight() {
    let mut rng = StdRng::seed_from_u64(4);
    let mut env = table(
        player_cards(),
        player_hints(),
        opponent_cards(),
        [Hint::empty(); 5],
        [0; 5],
        CardCollection::empty(),
        8,
        4,
    );
    // the table does not offer the discard, but it can be taken
    assert!(!env.actions().contains(&Action::Discard(known_white_five())));
    env.step(&Action::Discard(known_white_five()), &mut rng);
    check_invariants(&env);
    assert_eq!(env.blue_tokens, 8);
    assert_eq!(env.black_tokens, 4);
    assert_eq!(env.fireworks.0, [0; 5]);
    assert_eq!(env.discard.total, 1);
    assert_eq!(env.discard.counts[4], 1);
    assert_eq!(env.deck.total, 39);
}

#[test]
fn a_play_under_a_shared_hint_takes_one_of_its_slots() {
    let red = Hint { color: 0b00010, suit: 0b11111 };
    let mut taken = [0; 5];
    for seed in 0..40u64 {
        let mut rng = StdRng::seed_from_u64(seed);
        let mut env = table(
            player_cards(),
            player_hints(),
            opponent_cards(),
            [Hint::empty(); 5],
            [0; 5],
            CardCollection::empty(),
            3,
            4,
        );
        env.step(&Action::Play(red), &mut rng);
        check_invariants(&env);
        // both slots hold a Red One, which is the next red card
        assert_eq!(env.fireworks.0, [0, 1, 0, 0, 0]);
        let changed: Vec<usize> =
            (0..5).filter(|&i| env.opponent_hints[i] != player_hints()[i]).collect();
        assert_eq!(changed.len(), 1);
        assert!(changed[0] == 1 || changed[0] == 2);
        taken[changed[0]] += 1;
    }
    assert!(taken[1] > 0 && taken[2] > 0);
}

#[test]
fn a_color_hint_tells_every_slot() {
    let mut rng = StdRng::seed_from_u64(4);
    let mut env = table(
        player_cards(),
        player_hints(),
        opponent_cards(),
        [Hint::empty(); 5],
        [0; 5],
        CardCollection::empty(),
        3,
        4,
    );
    env.step(&Action::ColorHint(Color::Yellow), &mut rng);
    check_invariants(&env);
    assert_eq!(env.blue_tokens, 2);
    assert_eq!(env.deck.total, 40);
    // the seats changed places: the hinted hand is now the acting seat's
    assert_eq!(env.player_hand, opponent_cards());
    assert_eq!(env.opponent_hand, player_cards());
    assert_eq!(env.opponent_hints, player_hints());
    let yes = Hint { color: 0b01000, suit: 0b11111 };
    let no = Hint { color: 0b10111, suit: 0b11111 };
    assert_eq!(env.player_hints, [yes, yes, no, no, no]);
}

#[test]
fn a_rank_hint_tells_every_slot() {
    let mut rng = StdRng::seed_from_u64(4);
    let mut env = table(
        player_cards(),
        player_hints(),
        opponent_cards(),
        [Hint::empty(); 5],
        [0; 5],
        CardCollection::empty(),
        1,
        4,
    );
    env.step(&Action::SuitHint(Suit::One), &mut rng);
    check_invariants(&env);
    assert_eq!(env.blue_tokens, 0);
    let yes = Hint { color: 0b11111, suit: 0b00001 };
    let no = Hint { color: 0b11111, suit: 0b11110 };
    assert_eq!(env.player_hints, [yes, yes, yes, no, no]);
}

#[test]
fn hints_narrow_what_was_known() {
    let mut rng = StdRng::seed_from_u64(4);
    let mut env = table(
        opponent_cards(),
        [Hint::empty(); 5],
        player_cards(),
        player_hints(),
        [0; 5],
        CardCollection::empty(),
        2,
        4,
    );
    env.step(&Action::SuitHint(Suit::One), &mut rng);
    check_invariants(&env);
    assert_eq!(
        env.player_hints,
        [
            Hint { color: 0b00001, suit: 0b10000 },
            Hint { color: 0b00010, suit: 0b00001 },
            Hint { color: 0b00010, suit: 0b00001 },
            Hint { color: 0b11111, suit: 0b00001 },
            Hint { color: 0b11111, suit: 0b00010 },
        ]
    );
}

fn all_but_the_hands() -> CardCollection {
    let mut discard = CardCollection::starting_deck();
    discard.remove_hand(&player_cards());
    discard.remove_hand(&opponent_cards());
    discard
}

#[test]
fn the_last_round_is_two_turns_long() {
    let mut rng = StdRng::seed_from_u64(4);
    let mut env = table(
        player_cards(),
        player_hints(),
        opponent_cards(),
        [Hint::empty(); 5],
        [0; 5],
        all_but_the_hands(),
        3,
        4,
    );
    assert_eq!(env.deck.total, 0);
    assert!(!env.last_round);
    assert!(!env.is_over());
    // a hint draws nothing: the last round has not begun
    env.step(&Action::ColorHint(Color::Red), &mut rng);
    check_invariants(&env);
    assert!(!env.last_round);
    assert_eq!(env.last_round_turns_taken, 0);
    assert!(!env.is_over());
    // the first draw from the empty pile begins it
    let not_red = Hint { color: 0b11101, suit: 0b11111 };
    assert!(env.actions().contains(&Action::Discard(not_red)));
    env.step(&Action::Discard(not_red), &mut rng);
    check_invariants(&env);
    assert!(env.last_round);
    assert_eq!(env.last_round_turns_taken, 1);
    assert_eq!(env.opponent_hand.iter().filter(|c| c.is_none()).count(), 1);
    assert_eq!(env.opponent_hints.iter().filter(|h| h.is_none()).count(), 1);
    assert!(!env.is_over());
    // and the other seat's turn ends the game
    env.step(&Action::SuitHint(Suit::One), &mut rng);
    check_invariants(&env);
    assert_eq!(env.last_round_turns_taken, 2);
    assert!(env.is_over());
}

#[test]
fn the_last_round_ends_whatever_the_second_seat_does() {
    for seed in 0..30u64 {
        let mut rng = StdRng::seed_from_u64(seed);
        let mut env = table(
            player_cards(),
            player_hints(),
            opponent_cards(),
            [Hint::empty(); 5],
            [0; 5],
            all_but_the_hands(),
            3,
            4,
        );
        env.step(&Action::Play(known_white_five()), &mut rng);
        assert!(env.last_round);
        assert!(!env.is_over());
        let action = *env.actions().choose(&mut rng).unwrap();
        env.step(&action, &mut rng);
        check_invariants(&env);
        assert!(env.is_over());
    }
}

#[test]
fn in_random_games_the_last_round_lasts_two_turns() {
    for seed in 0..30u64 {
        let mut rng = StdRng::seed_from_u64(seed);
        let mut env = HanabiEnv::random(&mut rng);
        let mut turns_in_last_round = 0;
        while !env.is_over() {
            let action = *env.actions().choose(&mut rng).unwrap();
            env.step(&action, &mut rng);
            if env.last_round {
                turns_in_last_round += 1;
                assert_eq!(env.last_round_turns_taken, turns_in_last_round);
                assert_eq!(env.deck.total, 0);
            }
        }
        assert!(turns_in_last_round <= 2);
        if turns_in_last_round == 2 {
            assert!(env.last_round);
        }
    }
}

#[test]
fn the_game_is_over_at_the_last_black_token() {
    let mut public = HanabiEnv::random(&mut StdRng::seed_from_u64(0)).public_info();
    assert!(!public.is_over());
    public.black_tokens = 1;
    assert!(public.is_over());
}

#[test]
fn the_game_is_over_with_all_fireworks_complete() {
    let mut public = HanabiEnv::random(&mut StdRng::seed_from_u64(0)).public_info();
    public.fireworks = Fireworks([5, 5, 5, 5, 4]);
    assert!(!public.is_over());
    public.fireworks = Fireworks([5, 5, 5, 5, 5]);
    assert!(public.is_over());
    assert_eq!(public.reward(), Ratio { num: 75, den: 75 });
}

#[test]
fn the_last_round_ends_only_with_the_pile_empty_and_two_turns_taken() {
    let env = table(
        player_cards(),
        player_hints(),
        opponent_cards(),
        [Hint::empty(); 5],
        [0; 5],
        all_but_the_hands(),
        3,
        4,
    );
    let mut public = env.public_info();
    public.last_round = true;
    public.last_round_turns_taken = 1;
    assert!(!public.is_over());
    public.last_round_turns_taken = 2;
    assert!(public.is_over());
    public.discard.remove(Card::new(Color::Green, Suit::Five));
    assert!(!public.is_over());
}

#[test]
fn the_reward_counts_the_score_and_what_is_still_open() {
    let mut discard = CardCollection::empty();
    discard.add(card(Color::Yellow, Suit::Three));
    discard.add(card(Color::Yellow, Suit::Three));
    let mut public = PublicInfo {
        player_hints: [Hint::empty(); 5],
        opponent_hints: [Hint::empty(); 5],
        discard,
        blue_tokens: 4,
        black_tokens: 3,
        fireworks: Fireworks([2, 0, 5, 1, 0]),
        last_round: false,
        last_round_turns_taken: 0,
    };
    // score 8; open: White 3, Red 5, Blue 0, Yellow 1, Green 5
    assert_eq!(public.reward(), Ratio { num: 3 * 8 + 2 * 14, den: 75 });
    public.black_tokens = 4;
    assert_eq!(public.reward(), Ratio { num: 3 * 8 + 3 * 14, den: 75 });
    public.black_tokens = 1;
    assert_eq!(public.reward(), Ratio { num: 24, den: 75 });
}

#[test]
fn each_seat_sees_the_other_hand() {
    let env = table(
        player_cards(),
        player_hints(),
        opponent_cards(),
        [Hint::empty(); 5],
        [0; 5],
        CardCollection::empty(),
        3,
        4,
    );
    assert_eq!(env.private_info(true), PrivateInfo { opponent_hand: opponent_cards() });
    assert_eq!(env.private_info(false), PrivateInfo { opponent_hand: player_cards() });
    let public = env.public_info();
    assert_eq!(public.player_hints, player_hints());
    assert_eq!(public.opponent_hints, [Hint::empty(); 5]);
    assert_eq!(public.blue_tokens, 3);
    assert_eq!(public.black_tokens, 4);
    assert_eq!(public.fireworks.0, [0; 5]);
    assert_eq!(public.discard.total, 0);
}

#[test]
fn a_table_is_rebuilt_from_what_the_seats_know() {
    for seed in 0..10u64 {
        let mut rng = StdRng::seed_from_u64(seed);
        let mut env = HanabiEnv::random(&mut rng);
        for _ in 0..12 {
            if env.is_over() {
                break;
            }
            let action = *env.actions().choose(&mut rng).unwrap();
            env.step(&action, &mut rng);
        }
        let again =
            HanabiEnv::new(&env.public_info(), &env.private_info(true), &env.private_info(false));
        assert_eq!(again.player_hand, env.player_hand);
        assert_eq!(again.opponent_hand, env.opponent_hand);
        assert_eq!(again.player_hints, env.player_hints);
        assert_eq!(again.opponent_hints, env.opponent_hints);
        assert_eq!(again.deck.total, env.deck.total);
        assert_eq!(again.deck.counts, env.deck.counts);
        assert_eq!(again.discard.counts, env.discard.counts);
        assert_eq!(again.fireworks.0, env.fireworks.0);
        assert_eq!(again.blue_tokens, env.blue_tokens);
        assert_eq!(again.black_tokens, env.black_tokens);
        assert_eq!(again.last_round, env.last_round);
        assert_eq!(again.last_round_turns_taken, env.last_round_turns_taken);
    }
}

#[test]
fn hint_matches_lists_the_slots_of_a_hint() {
    let env = HanabiEnv::random(&mut StdRng::seed_from_u64(0));
    let red = Hint { color: 0b00010, suit: 0b11111 };
    assert_eq!(env.hint_matches(&player_hints(), &red), vec![1, 2]);
    assert_eq!(env.hint_matches(&player_hints(), &Hint::empty()), vec![3]);
    assert_eq!(env.hint_matches(&player_hints(), &Hint::none()), Vec::<usize>::new());
    assert_eq!(env.hint_matches(&[Hint::empty(); 5], &Hint::empty()), vec![0, 1, 2, 3, 4]);
}

#[test]
fn discard_at_and_draw_into() {
    let mut rng = StdRng::seed_from_u64(8);
    let mut env = table(
        player_cards(),
        player_hints(),
        opponent_cards(),
        [Hint::empty(); 5],
        [0; 5],
        CardCollection::empty(),
        3,
        4,
    );
    env.discard_at(4);
    assert!(env.player_hand[4].is_none());
    assert!(env.player_hints[4] == Hint::none());
    assert_eq!(env.discard.counts[11], 1);
    assert_eq!(env.discard.total, 1);
    env.draw_into(&mut rng, 4);
    check_invariants(&env);
    assert!(env.player_hand[4].is_some());
    assert!(env.player_hints[4] == Hint::empty());
    assert_eq!(env.deck.total, 39);
    assert!(!env.last_round);
}
