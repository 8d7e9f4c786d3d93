use hanabi::{
    Action, Card, CardCollection, Color, Env, Fireworks, HanabiEnv, HasEnd, HasReward, Hint,
    PrivateInfo, PublicInfo, Suit,
};
use rand::rngs::StdRng;
use rand::SeedableRng;

#[test]
fn test_weird() {
    let public_info = PublicInfo {
        player_hints: [
            Hint {
                color: 0b11110,
                suit: 0b00001,
            },
            Hint {
                color: 0b00001,
                suit: 0b01111,
            },
            Hint {
                color: 0b00001,
                suit: 0b10000,
            },
            Hint {
                color: 0b11111,
                suit: 0b01111,
            },
            Hint {
                color: 0b11111,
                suit: 0b01111,
            },
        ],
        opponent_hints: [
            Hint {
                color: 0b00100,
                suit: 0b11111,
            },
            Hint {
                color: 0b11011,
                suit: 0b11111,
            },
            Hint {
                color: 0b00100,
                suit: 0b11111,
            },
            Hint {
                color: 0b11111,
                suit: 0b11111,
            },
            Hint {
                color: 0b11011,
                suit: 0b11111,
            },
        ],
        discard: CardCollection::empty(),
        blue_tokens: 7,
        black_tokens: 2,
        fireworks: Fireworks([1, 0, 0, 0, 1]),
        last_round: false,
        last_round_turns_taken: 0,
    };
    let private_info = PrivateInfo {
        opponent_hand: [
            Card::new(Color::Blue, Suit::Three),
            Card::new(Color::Yellow, Suit::One),
            Card::new(Color::Blue, Suit::One),
            Card::new(Color::Yellow, Suit::One),
            Card::new(Color::White, Suit::One),
        ],
    };
    let mut rng = StdRng::seed_from_u64(0);
    // The hint of the third slot leaves the White Five only, and White stands
    // at One: whatever else is sampled, the play is a strike, and the strike
    // ends the game. What is public after it is known beforehand.
    let mut discard = CardCollection::empty();
    discard.add(Card::new(Color::White, Suit::Five));
    let after_strike = PublicInfo {
        player_hints: public_info.opponent_hints,
        opponent_hints: public_info.player_hints,
        discard: discard,
        blue_tokens: 7,
        black_tokens: 1,
        fireworks: Fireworks([1, 0, 0, 0, 1]),
        last_round: false,
        last_round_turns_taken: 0,
    };
    let r = after_strike.reward();
    assert_eq!((r.num, r.den), (6, 75));
    assert_eq!(public_info.reward().num, 29);
    for _ in 0..1000 {
        let (op_info, _p) =
            HanabiEnv::sample_opponent_info(&public_info, &private_info, &mut rng).unwrap();
        let mut env = HanabiEnv::new(&public_info, &private_info, &op_info);
        env.step(
            &Action::Play(Hint {
                color: 0b00001,
                suit: 0b10000,
            }),
            &mut rng,
        );
        assert!(env.is_over());
        assert_eq!(env.reward(), r);
        assert_eq!(env.public_info().reward(), r);
        assert_eq!(env.discard.counts[4], 1);
        assert_eq!(env.discard.total, 1);
        assert_eq!(env.black_tokens, 1);
        assert!(env.opponent_hints[2] == Hint::empty());
    }
}
