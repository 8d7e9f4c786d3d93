use hanabi::policy::play_game;
use hanabi::validate::{count_held, hand_is_sound, hints_well_formed};
use hanabi::{
    Action, Card, CardCollection, Color, Env, Fireworks, HanabiEnv, HasEnd, Hint, PrivateInfo, Suit,
};
use rand::rngs::StdRng;
use rand::seq::SliceRandom;
use rand::SeedableRng;

#[test]
fn tables_of_a_game_are_valid() {
    for seed in 0..10u64 {
        let mut rng = StdRng::seed_from_u64(seed);
        let mut env = HanabiEnv::random(&mut rng);
        assert!(env.is_valid());
        while !env.is_over() {
            let public = env.public_info();
            assert!(public.is_valid());
            assert!(public.is_playable());
            assert!(public.knows(&env.private_info(true)));
            assert!(public.can_decide(&env.private_info(true)));
            assert!(public.accounts_for(&env.private_info(false)));
            let action = *env.actions().choose(&mut rng).unwrap();
            env.step(&action, &mut rng);
            assert!(env.is_valid());
        }
        assert!(!env.public_info().can_decide(&env.private_info(true)));
    }
}

#[test]
fn a_table_with_a_card_too_many_is_not_valid() {
    let mut env = HanabiEnv::random(&mut StdRng::seed_from_u64(0));
    let first = env.player_hand[0];
    env.deck.add(first);
    assert!(!env.is_valid());
    env.deck.remove(first);
    assert!(env.is_valid());
    env.deck.total += 1;
    assert!(!env.is_valid());
    assert!(!env.deck.is_valid());
}

#[test]
fn a_table_with_an_unsound_hint_is_not_valid() {
    let mut env = HanabiEnv::random(&mut StdRng::seed_from_u64(0));
    let card = env.opponent_hand[2];
    env.opponent_hints[2].disable_color(card.color());
    assert!(!env.is_valid());
    env.opponent_hints[2] = Hint::none();
    assert!(!env.is_valid());
    env.opponent_hints[2] = Hint::empty();
    assert!(env.is_valid());
    env.last_round = true;
    assert!(!env.is_valid());
}

#[test]
fn tokens_out_of_range_are_not_valid() {
    let env = HanabiEnv::random(&mut StdRng::seed_from_u64(0));
    let mut public = env.public_info();
    assert!(public.is_valid());
    public.blue_tokens = 9;
    assert!(!public.is_valid());
    public.blue_tokens = 8;
    public.black_tokens = 0;
    assert!(!public.is_valid());
    public.black_tokens = 5;
    assert!(!public.is_valid());
    public.black_tokens = 1;
    assert!(public.is_valid());
    public.last_round_turns_taken = 1;
    assert!(!public.is_valid());
    public.last_round = true;
    assert!(public.is_valid());
    public.last_round_turns_taken = 3;
    assert!(!public.is_valid());
}

#[test]
fn piles_and_fireworks_are_tested() {
    assert!(CardCollection::starting_deck().is_valid());
    assert!(CardCollection::starting_deck().is_within_deck());
    let mut pile = CardCollection::empty();
    for _ in 0..2 {
        pile.add(Card::new(Color::Red, Suit::Five));
    }
    assert!(pile.is_valid());
    assert!(!pile.is_within_deck());
    assert!(Fireworks([0, 5, 3, 1, 2]).is_valid());
    assert!(!Fireworks([0, 6, 3, 1, 2]).is_valid());
}

#[test]
fn hints_and_hands_are_tested() {
    assert!(Hint::empty().is_well_formed());
    assert!(Hint::none().is_well_formed());
    assert!(Hint { color: 0, suit: 0 }.is_well_formed());
    assert!(!Hint { color: 0b100001, suit: 0b000001 }.is_well_formed());
    assert!(!Hint { color: 0b100000, suit: 0b000001 }.is_well_formed());
    assert!(hints_well_formed(&[Hint::empty(); 5]));
    let mut hints = [Hint::empty(); 5];
    hints[4] = Hint { color: 0b1000000, suit: 1 };
    assert!(!hints_well_formed(&hints));

    let white_one = Card::new(Color::White, Suit::One);
    let mut hand = [white_one; 5];
    hand[3] = Card::none();
    let mut hints = [Hint { color: 0b00001, suit: 0b00011 }; 5];
    assert!(!hand_is_sound(&hand, &hints));
    hints[3] = Hint::none();
    assert!(hand_is_sound(&hand, &hints));
    hints[0] = Hint { color: 0b00001, suit: 0b00010 };
    assert!(!hand_is_sound(&hand, &hints));
    assert_eq!(count_held(&hand, 0), 4);
    assert_eq!(count_held(&hand, 1), 0);
    assert_eq!(count_held(&hand, 26), 1);
}

#[test]
fn a_seat_must_account_for_what_it_sees() {
    let env = HanabiEnv::random(&mut StdRng::seed_from_u64(0));
    let public = env.public_info();
    let five = Card::new(Color::Green, Suit::Five);
    let seen = PrivateInfo { opponent_hand: [five, five, five, five, five] };
    assert!(!public.accounts_for(&seen));
    assert!(!public.knows(&seen));
}

#[test]
fn a_game_is_played_to_its_end() {
    let mut rng = StdRng::seed_from_u64(2);
    let mut env = HanabiEnv::random(&mut rng);
    let score = play_game(&mut env, 3, &mut rng).unwrap();
    assert!(env.is_over());
    assert!(env.is_valid());
    assert_eq!(score, env.fireworks.total());
    assert!(score <= 25);
    // a finished game is left as it is
    let counts = env.deck.counts;
    assert_eq!(play_game(&mut env, 3, &mut rng), Some(score));
    assert_eq!(env.deck.counts, counts);
}

#[test]
fn without_rollouts_a_game_does_not_move() {
    let mut rng = StdRng::seed_from_u64(2);
    let mut env = HanabiEnv::random(&mut rng);
    assert_eq!(play_game(&mut env, 0, &mut rng), None);
    assert!(!env.is_over());
    assert_eq!(env.deck.total, 40);
    assert!(env.actions().contains(&Action::Play(Hint::empty())));
}
