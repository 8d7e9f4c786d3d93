use hanabi::policy::{
    policy, rollout_single_determinization, weighted_reward, Tally, MAX_VALUE, VALUE_SCALE,
};
use hanabi::{Action, Color, Env, HanabiEnv, HasEnd, Hint, Ratio, Suit};
use rand::rngs::StdRng;
use rand::seq::SliceRandom;
use rand::SeedableRng;

#[test]
fn the_weighed_reward_is_a_rounded_product() {
    assert_eq!(VALUE_SCALE, 1u64 << 32);
    assert_eq!(MAX_VALUE, 150u64 << 32);
    let one = Ratio { num: 1, den: 1 };
    assert_eq!(weighted_reward(&one, &Ratio { num: 75, den: 75 }), 1u64 << 32);
    assert_eq!(weighted_reward(&one, &Ratio { num: 150, den: 75 }), 2u64 << 32);
    assert_eq!(weighted_reward(&Ratio { num: 1, den: 2 }, &Ratio { num: 75, den: 75 }), 1u64 << 31);
    assert_eq!(weighted_reward(&Ratio { num: 0, den: 8 }, &Ratio { num: 75, den: 75 }), 0);
    let expected = (2u128 * 29 * (1u128 << 32) / (11 * 75)) as u64;
    assert_eq!(expected, 301_949_215);
    assert_eq!(weighted_reward(&Ratio { num: 2, den: 11 }, &Ratio { num: 29, den: 75 }), expected);
}

#[test]
fn an_empty_tally_chooses_nothing() {
    let tally = Tally::new();
    assert_eq!(tally.best(), None);
    assert_eq!(tally.position(&Action::ColorHint(Color::Red)), None);
}

#[test]
fn a_tally_sums_by_action() {
    let red = Action::ColorHint(Color::Red);
    let five = Action::SuitHint(Suit::Five);
    let play = Action::Play(Hint::empty());
    let mut tally = Tally::new();
    tally.record(red, 10);
    tally.record(five, 7);
    tally.record(red, 1);
    tally.record(play, 3);
    tally.record(five, 5);
    assert_eq!(tally.actions, vec![red, five, play]);
    assert_eq!(tally.rewards, vec![11, 12, 3]);
    assert_eq!(tally.visits, vec![2, 2, 1]);
    assert_eq!(tally.position(&five), Some(1));
    assert_eq!(tally.position(&Action::Discard(Hint::empty())), None);
    assert_eq!(tally.best(), Some(five));
}

#[test]
fn among_equal_sums_the_earliest_action_wins() {
    let red = Action::ColorHint(Color::Red);
    let five = Action::SuitHint(Suit::Five);
    let play = Action::Play(Hint::empty());
    let mut tally = Tally::new();
    tally.record(play, 0);
    tally.record(red, 4);
    tally.record(five, 4);
    assert_eq!(tally.best(), Some(red));
    let mut zeros = Tally::new();
    zeros.record(five, 0);
    zeros.record(red, 0);
    assert_eq!(zeros.best(), Some(five));
}

#[test]
fn a_rollout_begins_with_a_legal_action() {
    for seed in 0..20u64 {
        let mut rng = StdRng::seed_from_u64(seed);
        let env = HanabiEnv::random(&mut rng);
        let legal = env.actions();
        let (action, value) = rollout_single_determinization(
            &env.public_info(),
            &env.private_info(true),
            &mut rng,
        )
        .unwrap();
        assert!(legal.contains(&action));
        assert!(value <= MAX_VALUE);
    }
}

#[test]
fn the_policy_chooses_a_legal_action() {
    let mut rng = StdRng::seed_from_u64(0);
    let mut env = HanabiEnv::random(&mut rng);
    for _ in 0..6 {
        if env.is_over() {
            break;
        }
        let chosen =
            policy(&env.public_info(), &env.private_info(true), 40, &mut rng).unwrap();
        assert!(env.actions().contains(&chosen));
        let action = *env.actions().choose(&mut rng).unwrap();
        env.step(&action, &mut rng);
    }
}

#[test]
fn a_game_played_by_the_policy_ends() {
    let mut rng = StdRng::seed_from_u64(3);
    let mut env = HanabiEnv::random(&mut rng);
    let mut turns = 0;
    while !env.is_over() {
        let action =
            policy(&env.public_info(), &env.private_info(true), 5, &mut rng).unwrap();
        assert!(env.actions().contains(&action));
        env.step(&action, &mut rng);
        turns += 1;
        assert!(turns <= 132);
    }
    assert!(env.fireworks.total() <= 25);
}
