//! What a game must offer to be played to its end and scored, and to be
//! sampled by a seat that sees only a part of it.

use crate::ratio::Ratio;
use rand::rngs::StdRng;
use vstd::prelude::*;

verus! {

/// A position that knows whether the game is over.
pub trait HasEnd {
    /// The position is one on which `is_over` can be asked.
    spec fn end_defined(&self) -> bool;

    /// The game is over.
    spec fn over(&self) -> bool;

    fn is_over(&self) -> (over: bool)
        requires
            self.end_defined(),
        ensures
            over == self.over(),
    ;
}

/// A position that can be scored.
pub trait HasReward {
    type Reward;

    /// The position is one that `reward` can score.
    spec fn reward_defined(&self) -> bool;

    /// The score of the position.
    spec fn worth(&self) -> Self::Reward;

    fn reward(&self) -> (reward: Self::Reward)
        requires
            self.reward_defined(),
        ensures
            reward == self.worth(),
    ;
}

/// A game for two seats, each of which sees a part of the table. The seat
/// that is about to act is "the player".
pub trait Env: HasEnd + HasReward + Sized {
    /// What both seats see.
    type PublicInfo: HasEnd + HasReward + Clone;

    /// What one seat sees and the other does not.
    type PrivateInfo: Clone;

    /// What a seat can do on its turn.
    type Action;

    /// The invariant of the game holds of the table.
    spec fn sound(&self) -> bool;

    /// The action is one that the table offers to the acting seat.
    spec fn offers(&self, action: &Self::Action) -> bool;

    /// The acting seat can take the action: every action that the table
    /// offers, and whatever else the game gives a result for.
    spec fn may_take(&self, action: &Self::Action) -> bool;

    /// The legal actions of the table can be listed.
    spec fn can_list(&self) -> bool;

    /// What is public and what the two seats see make a table.
    spec fn can_rebuild(
        public_info: &Self::PublicInfo,
        player_private_info: &Self::PrivateInfo,
        opponent_private_info: &Self::PrivateInfo,
    ) -> bool;

    /// What is public and what one seat sees leave something to sample.
    spec fn can_sample(
        public_info: &Self::PublicInfo,
        player_private_info: &Self::PrivateInfo,
    ) -> bool;

    /// The table is the one that what is public and what the two seats see
    /// determine.
    spec fn built_from(
        &self,
        public_info: &Self::PublicInfo,
        player_private_info: &Self::PrivateInfo,
        opponent_private_info: &Self::PrivateInfo,
    ) -> bool;

    /// `sample` is something that the seat may hold unseen, given what is
    /// public and what it sees, and `weight` is the weight of that sample.
    spec fn sample_of(
        public_info: &Self::PublicInfo,
        player_private_info: &Self::PrivateInfo,
        sample: &Self::PrivateInfo,
        weight: Ratio,
    ) -> bool;

    /// A sample is sure to be found, however the chances fall.
    spec fn sample_owed(
        public_info: &Self::PublicInfo,
        player_private_info: &Self::PrivateInfo,
    ) -> bool;

    /// A fresh game.
    fn random(rng: &mut StdRng) -> (env: Self)
        ensures
            env.sound(),
    ;

    /// The table that what is public and what the two seats see determine.
    fn new(
        public_info: &Self::PublicInfo,
        player_private_info: &Self::PrivateInfo,
        opponent_private_info: &Self::PrivateInfo,
    ) -> (env: Self)
        requires
            Self::can_rebuild(public_info, player_private_info, opponent_private_info),
        ensures
            env.built_from(public_info, player_private_info, opponent_private_info),
    ;

    /// Samples what the other seat sees, with the weight of the sample.
    /// `None` when no sample was found.
    fn sample_opponent_info(
        public_info: &Self::PublicInfo,
        player_private_info: &Self::PrivateInfo,
        rng: &mut StdRng,
    ) -> (sampled: Option<(Self::PrivateInfo, Ratio)>)
        requires
            Self::can_sample(public_info, player_private_info),
        ensures
            sampled matches Some((info, weight)) ==> Self::can_rebuild(
                public_info,
                player_private_info,
                &info,
            ) && Self::sample_of(public_info, player_private_info, &info, weight),
            Self::sample_owed(public_info, player_private_info) ==> sampled is Some,
    ;

    /// What both seats see of the table.
    fn public_info(&self) -> (info: Self::PublicInfo)
    ;

    /// What one seat sees of the table: the acting seat, or the other one.
    fn private_info(&self, player_perspective: bool) -> (info: Self::PrivateInfo)
    ;

    /// The actions that the table offers to the acting seat, all of which
    /// it can take.
    fn actions(&self) -> (actions: Vec<Self::Action>)
        requires
            self.can_list(),
        ensures
            forall|action: Self::Action| #[trigger]
                actions@.contains(action) <==> self.offers(&action),
            forall|action: Self::Action| #[trigger]
                actions@.contains(action) ==> self.may_take(&action),
    ;

    /// The acting seat takes the action, and the seats change places.
    fn step(&mut self, action: &Self::Action, rng: &mut StdRng)
        requires
            old(self).sound(),
            old(self).end_defined(),
            !old(self).over(),
            old(self).may_take(action),
        ensures
            final(self).sound(),
    ;

    /// A table that agrees with what a seat knows: the table that what is
    /// public, what the seat sees, and a sample of what it does not see
    /// determine, with the weight of the sample. `None` when no sample was
    /// found, which does not happen where one is sure to be found.
    fn determinize(
        public_info: &Self::PublicInfo,
        player_private_info: &Self::PrivateInfo,
        rng: &mut StdRng,
    ) -> (sampled: Option<(Self, Ratio)>)
        requires
            Self::can_sample(public_info, player_private_info),
        ensures
            sampled is Some ==> exists|sample: Self::PrivateInfo|
                {
                    &&& #[trigger] Self::sample_of(
                        public_info,
                        player_private_info,
                        &sample,
                        (sampled->0).1,
                    )
                    &&& Self::can_rebuild(public_info, player_private_info, &sample)
                    &&& (sampled->0).0.built_from(public_info, player_private_info, &sample)
                },
            Self::sample_owed(public_info, player_private_info) ==> sampled is Some,
    {
        match Self::sample_opponent_info(public_info, player_private_info, rng) {
            Some((opponent_private_info, probability)) => {
                let env = Self::new(public_info, player_private_info, &opponent_private_info);
                let found = Some((env, probability));
                assert(Self::sample_of(
                    public_info,
                    player_private_info,
                    &opponent_private_info,
                    (found->0).1,
                ));
                assert(exists|sample: Self::PrivateInfo|
                    {
                        &&& #[trigger] Self::sample_of(
                            public_info,
                            player_private_info,
                            &sample,
                            (found->0).1,
                        )
                        &&& Self::can_rebuild(public_info, player_private_info, &sample)
                        &&& (found->0).0.built_from(public_info, player_private_info, &sample)
                    });
                found
            },
            None => None,
        }
    }
}

} // verus!
