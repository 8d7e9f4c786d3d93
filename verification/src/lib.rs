//! Two-player Hanabi: the game state, the sampling of hidden hands that agree
//! with the public hints, and a rollout policy over the sampled worlds.
//! Every executable function carries a contract. Verus proves them all but
//! three that it takes on trust: the two functions of `random`, which state
//! of a call into the `rand` crate what that crate documents of it, and
//! what `text` states of `String::push`.

pub mod card;
pub mod collection;
pub mod counting;
pub mod determinize;
pub mod env;
pub mod facts;
pub mod fireworks;
pub mod hanabi_env;
pub mod hint;
pub mod laws;
pub mod policy;
pub mod preservation;
pub mod progress;
pub mod random;
pub mod ratio;
pub mod state;
pub mod text;
pub mod validate;

pub use crate::card::{Card, Color, Suit};
pub use crate::collection::CardCollection;
pub use crate::env::{Env, HasEnd, HasReward};
pub use crate::fireworks::Fireworks;
pub use crate::hanabi_env::{
    possible_future_rewards, Action, HanabiEnv, PrivateInfo, PublicInfo,
};
pub use crate::hint::Hint;
pub use crate::ratio::Ratio;
