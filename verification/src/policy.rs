//! Choosing an action by playing sampled games to their end.
//!
//! Each rollout samples a table that agrees with what the seat knows, takes
//! one legal action at random, and lets both seats move at random until the
//! game is over. The reward of the final table, weighed by the weight of the
//! sample, is credited to that first action; the action with the highest
//! credit is chosen.

use crate::env::{Env, HasEnd, HasReward};
use crate::facts::{
    lemma_legal_admits, lemma_score_bounds, lemma_seat_knows, lemma_sound_is_plain,
};
use crate::hanabi_env::{knowable, Action, HanabiEnv, PrivateInfo, PublicInfo};
use crate::determinize::{hand_agrees, surely_fillable, weight_den, weight_num};
use crate::card::Card;
use crate::progress::{
    lemma_can_move, lemma_known_is_legal, lemma_legal_is_known, lemma_played_on,
    lemma_step_playable, lemma_step_progress,
};
use crate::random::choose_from;
use crate::ratio::Ratio;
use crate::state::{after, played, seat_may, unseen, Move, Public, State};
use rand::rngs::StdRng;
use vstd::prelude::*;

verus! {

/// Rewards are credited in units of one over two to the power 32.
pub const VALUE_SCALE: u64 = 0x1_0000_0000;

/// No rollout is worth more than a reward of two.
pub const MAX_VALUE: u64 = 150 * 0x1_0000_0000;

/// The product of a weight and a reward in units of one over `VALUE_SCALE`,
/// rounded down.
pub open spec fn scaled(weight: Ratio, reward: Ratio) -> int {
    (weight.num * reward.num * VALUE_SCALE) / (weight.den * reward.den)
}

/// `action` and `value` are what some rollout from what the seat knows can
/// bring. There is a hand that agrees with the seat's hints, and a game
/// played by the rules from the table with that hand, which begins with
/// `action` and goes on to the end; `value` is the weight of the hand times
/// the reward of the final table, in units of one over `VALUE_SCALE` and
/// rounded down.
pub open spec fn rollout_value(public: Public, seen: Seq<Card>, action: Action, value: int)
    -> bool {
    exists|hand: Seq<Card>, moves: Seq<Move>|
        {
            &&& hand_agrees(hand, public.player_hints)
            &&& #[trigger] played(State::rebuilt(public, hand, seen), moves)
            &&& moves.len() >= 1
            &&& moves[0].action == action
            &&& after(State::rebuilt(public, hand, seen), moves, moves.len() as int).ended()
            &&& value == (weight_num(unseen(public, seen), public.player_hints, hand, 5) * after(
                State::rebuilt(public, hand, seen),
                moves,
                moves.len() as int,
            ).public().reward_parts() * VALUE_SCALE) / (weight_den(
                unseen(public, seen),
                public.player_hints,
                hand,
                5,
            ) * 75)
        }
}

/// Every entry of the record is what a rollout from what the seat knows
/// can bring: an action that the seat may take, with a value that such a
/// rollout can have.
pub open spec fn rollout_log(public: Public, seen: Seq<Card>, log: Seq<(Action, u64)>) -> bool {
    forall|k: int|
        0 <= k < log.len() ==> seat_may(public, seen, (#[trigger] log[k]).0) && rollout_value(
            public,
            seen,
            log[k].0,
            log[k].1 as int,
        )
}

/// What the rollouts up to now credit to an action: the sum of the values
/// recorded for it.
pub open spec fn total_of(log: Seq<(Action, u64)>, action: Action) -> int
    decreases log.len(),
{
    if log.len() == 0 {
        0
    } else {
        total_of(log.drop_last(), action) + if log.last().0 == action {
            log.last().1 as int
        } else {
            0
        }
    }
}

/// How many of the rollouts up to now began with an action.
pub open spec fn visits_of(log: Seq<(Action, u64)>, action: Action) -> int
    decreases log.len(),
{
    if log.len() == 0 {
        0
    } else {
        visits_of(log.drop_last(), action) + if log.last().0 == action {
            1int
        } else {
            0int
        }
    }
}

/// `best` is what a record of rollouts chooses: nothing for an empty record,
/// else an action that the record holds and that no action outdoes.
pub open spec fn chosen(log: Seq<(Action, u64)>, best: Option<Action>) -> bool {
    match best {
        None => log.len() == 0,
        Some(action) => visits_of(log, action) > 0 && forall|other: Action|
            #[trigger] total_of(log, other) <= total_of(log, action),
    }
}

/// The credit of every action that the rollouts began with.
pub struct Tally {
    /// The actions seen, in the order in which they first came.
    pub actions: Vec<Action>,
    /// For each action the sum of the values recorded for it.
    pub rewards: Vec<u128>,
    /// For each action the number of rollouts that began with it.
    pub visits: Vec<u64>,
    /// The rollouts recorded, in order.
    pub log: Ghost<Seq<(Action, u64)>>,
}

/// The credit of an action is at most the number of rollouts times the
/// highest value, and its visits at most the number of rollouts; an action
/// that no rollout began with has no credit.
pub proof fn lemma_log_bounds(log: Seq<(Action, u64)>, action: Action)
    ensures
        0 <= total_of(log, action) <= log.len() * u64::MAX,
        0 <= visits_of(log, action) <= log.len(),
        visits_of(log, action) == 0 ==> total_of(log, action) == 0,
    decreases log.len(),
{
    if log.len() > 0 {
        lemma_log_bounds(log.drop_last(), action);
        assert(log.len() * u64::MAX == (log.len() - 1) * u64::MAX + u64::MAX) by (nonlinear_arith);
    }
}

/// One more rollout adds its value to the credit of its action and leaves
/// every other credit as it was.
pub proof fn lemma_log_push(log: Seq<(Action, u64)>, action: Action, value: u64, other: Action)
    ensures
        total_of(log.push((action, value)), other) == total_of(log, other) + if other == action {
            value as int
        } else {
            0
        },
        visits_of(log.push((action, value)), other) == visits_of(log, other) + if other
            == action {
            1int
        } else {
            0int
        },
{
    let longer = log.push((action, value));
    assert(longer.drop_last() =~= log);
    assert(longer.last() == (action, value));
}

impl Tally {
    /// The lists are as long as each other, hold each action once, and say
    /// of each action what the record says.
    pub open spec fn wf(self) -> bool {
        &&& self.actions@.len() == self.rewards@.len()
        &&& self.actions@.len() == self.visits@.len()
        &&& forall|i: int, j: int|
            0 <= i < j < self.actions@.len() ==> self.actions@[i] != self.actions@[j]
        &&& forall|i: int|
            0 <= i < self.actions@.len() ==> (#[trigger] self.rewards@[i]) == total_of(
                self.log@,
                self.actions@[i],
            )
        &&& forall|i: int|
            0 <= i < self.actions@.len() ==> (#[trigger] self.visits@[i]) == visits_of(
                self.log@,
                self.actions@[i],
            ) && self.visits@[i] >= 1
        &&& forall|action: Action| #[trigger]
            visits_of(self.log@, action) > 0 ==> self.actions@.contains(action)
    }

    /// The tally of no rollouts.
    pub fn new() -> (tally: Tally)
        ensures
            tally.wf(),
            tally.log@.len() == 0,
            tally.actions@.len() == 0,
    {
        Tally {
            actions: Vec::new(),
            rewards: Vec::new(),
            visits: Vec::new(),
            log: Ghost(Seq::empty()),
        }
    }

    /// Where the action stands in the list, if it does.
    pub fn position(&self, action: &Action) -> (found: Option<usize>)
        ensures
            found matches Some(i) ==> i < self.actions@.len() && self.actions@[i as int] == *action,
            found is None ==> !self.actions@.contains(*action),
    {
        let mut i: usize = 0;
        while i < self.actions.len()
            invariant
                i <= self.actions@.len(),
                forall|j: int| 0 <= j < i ==> self.actions@[j] != *action,
            decreases self.actions@.len() - i,
        {
            if self.actions[i] == *action {
                return Some(i);
            }
            i += 1;
        }
        None
    }

    /// Credits the value of one rollout to the action that it began with. A
    /// new action goes to the end of the list.
    pub fn record(&mut self, action: Action, reward: u64)
        requires
            old(self).wf(),
            old(self).log@.len() < u64::MAX,
        ensures
            final(self).wf(),
            final(self).log@ == old(self).log@.push((action, reward)),
            old(self).actions@.contains(action) ==> final(self).actions@ == old(self).actions@,
            !old(self).actions@.contains(action) ==> final(self).actions@ == old(
                self,
            ).actions@.push(action),
    {
        let ghost log = self.log@;
        let ghost longer = log.push((action, reward));
        proof {
            lemma_log_bounds(log, action);
            assert(log.len() * u64::MAX + u64::MAX <= u128::MAX) by (nonlinear_arith)
                requires
                    log.len() < u64::MAX,
            ;
            assert forall|other: Action|
                total_of(longer, other) == total_of(log, other) + if other == action {
                    reward as int
                } else {
                    0
                } && visits_of(longer, other) == visits_of(log, other) + if other == action {
                    1int
                } else {
                    0int
                } by {
                lemma_log_push(log, action, reward, other);
            }
            assert forall|other: Action| 0 <= visits_of(log, other) by {
                lemma_log_bounds(log, other);
            }
        }
        match self.position(&action) {
            Some(i) => {
                let credit: u128 = self.rewards[i] + reward as u128;
                let count: u64 = self.visits[i] + 1;
                self.rewards.set(i, credit);
                self.visits.set(i, count);
                self.log = Ghost(longer);
            },
            None => {
                self.actions.push(action);
                self.rewards.push(reward as u128);
                self.visits.push(1);
                self.log = Ghost(longer);
                proof {
                    let before = old(self).actions@;
                    assert forall|other: Action| #[trigger]
                        visits_of(longer, other) > 0 implies self.actions@.contains(other) by {
                        if other == action {
                            assert(self.actions@[before.len() as int] == action);
                        } else {
                            assert(visits_of(log, other) > 0);
                            let k = choose|k: int| 0 <= k < before.len() && before[k] == other;
                            assert(self.actions@[k] == other);
                        }
                    }
                }
            },
        }
    }

    /// The action with the highest credit, the earliest in the list among
    /// equals. `None` for the tally of no rollouts.
    pub fn best(&self) -> (best: Option<Action>)
        requires
            self.wf(),
        ensures
            best is None <==> self.actions@.len() == 0,
            best matches Some(action) ==> exists|i: int|
                {
                    &&& 0 <= i < self.actions@.len()
                    &&& #[trigger] self.actions@[i] == action
                    &&& forall|j: int|
                        0 <= j < self.actions@.len() ==> self.rewards@[j] <= self.rewards@[i]
                    &&& forall|j: int| 0 <= j < i ==> self.rewards@[j] < self.rewards@[i]
                },
            chosen(self.log@, best),
    {
        if self.rewards.len() == 0 {
            proof {
                if self.log@.len() > 0 {
                    let first = self.log@.last().0;
                    lemma_log_bounds(self.log@.drop_last(), first);
                    assert(visits_of(self.log@, first) > 0);
                    assert(self.actions@.contains(first));
                }
            }
            return None;
        }
        let mut best_i: usize = 0;
        let mut best_score: u128 = self.rewards[0];
        let mut i: usize = 1;
        while i < self.rewards.len()
            invariant
                self.wf(),
                1 <= i <= self.rewards@.len(),
                best_i < i,
                best_score == self.rewards@[best_i as int],
                forall|j: int| 0 <= j < i ==> self.rewards@[j] <= best_score,
                forall|j: int| 0 <= j < best_i ==> self.rewards@[j] < best_score,
            decreases self.rewards@.len() - i,
        {
            let total_reward: u128 = self.rewards[i];
            if total_reward > best_score {
                best_score = total_reward;
                best_i = i;
            }
            i += 1;
        }
        let action = self.actions[best_i];
        proof {
            assert(self.visits@[best_i as int] >= 1);
            assert forall|other: Action| #[trigger]
                total_of(self.log@, other) <= total_of(self.log@, action) by {
                lemma_log_bounds(self.log@, other);
                lemma_log_bounds(self.log@, action);
                if visits_of(self.log@, other) > 0 {
                    assert(self.actions@.contains(other));
                    let k = choose|k: int|
                        0 <= k < self.actions@.len() && self.actions@[k] == other;
                    assert(self.rewards@[k] <= best_score);
                }
            }
        }
        Some(action)
    }
}

/// The product of a weight and a reward, in units of one over `VALUE_SCALE`
/// and rounded down.
pub fn weighted_reward(weight: &Ratio, reward: &Ratio) -> (value: u64)
    requires
        weight.num <= weight.den,
        weight.den >= 1,
        reward.den >= 1,
        reward.num * VALUE_SCALE <= u64::MAX,
    ensures
        value == scaled(*weight, *reward),
        value <= reward.num * VALUE_SCALE,
{
    let credit: u128 = reward.num as u128 * VALUE_SCALE as u128;
    let ghost a = weight.num as int;
    let ghost c = weight.den as int;
    let ghost d = reward.den as int;
    let ghost y = credit as int;
    proof {
        assert(0 <= a * y <= y * (c * d) && 0 < c * d && a * y <= u64::MAX * u64::MAX && c * d
            <= u64::MAX * u64::MAX) by (nonlinear_arith)
            requires
                0 <= a <= c <= u64::MAX,
                1 <= c,
                1 <= d <= u64::MAX,
                0 <= y <= u64::MAX,
        ;
        assert((a * y) / (c * d) <= y) by (nonlinear_arith)
            requires
                0 <= a * y <= y * (c * d),
                0 < c * d,
        ;
        assert(weight.num * reward.num * VALUE_SCALE == a * y) by (nonlinear_arith)
            requires
                a == weight.num,
                y == reward.num * VALUE_SCALE,
        ;
    }
    let above: u128 = weight.num as u128 * credit;
    let below: u128 = weight.den as u128 * reward.den as u128;
    (above / below) as u64
}

/// One rollout: samples a table that agrees with what the seat knows, takes
/// one of the legal actions, each as likely as any other, and lets both seats
/// move in the same way until the game is over. Gives that first action and
/// the reward of the final table weighed by the weight of the sample, or
/// `None` when no table was found.
pub fn rollout_single_determinization(
    public_info: &PublicInfo,
    my_private: &PrivateInfo,
    rng: &mut StdRng,
) -> (outcome: Option<(Action, u64)>)
    requires
        knowable(*public_info, my_private@),
        public_info@.playable(),
        !public_info@.ended(),
    ensures
        outcome matches Some((action, value)) ==> seat_may(public_info@, my_private@, action)
            && value <= MAX_VALUE && rollout_value(
            public_info@,
            my_private@,
            action,
            value as int,
        ),
        surely_fillable(unseen(public_info@, my_private@), public_info.player_hints@)
            ==> outcome is Some,
{
    match HanabiEnv::determinize(public_info, my_private, rng) {
        None => None,
        Some((sampled, prob)) => {
            let mut env = sampled;
            let ghost first = env@;
            assert(first.public() == public_info@);
            proof {
                lemma_sound_is_plain(first.opponent_hand, first.opponent_hints);
            }
            let actions = env.actions();
            proof {
                lemma_can_move(first);
                let legal = choose|action: Action| first.legal(action);
                assert(actions@.contains(legal));
            }
            let action = choose_from(&actions, rng).unwrap();
            proof {
                lemma_legal_is_known(first, action);
            }
            env.step(&action, rng);
            let ghost mut moves: Seq<Move> = Seq::empty();
            proof {
                let (slot, drawn) = choose|slot: int, drawn: Card|
                    first.outcome(action, slot, drawn) && env@ == first.step(action, slot, drawn);
                lemma_legal_admits(first, action);
                lemma_step_playable(first, action, slot, drawn);
                lemma_step_progress(first, action, slot, drawn);
                let opening = Move { action, slot, drawn };
                lemma_played_on(first, moves, opening);
                moves = moves.push(opening);
            }
            while !env.is_over()
                invariant
                    env.wf(),
                    env@.ended() || env@.playable(),
                    env@.turns_bound() >= 0,
                    moves.len() >= 1,
                    moves[0].action == action,
                    played(first, moves),
                    env@ == after(first, moves, moves.len() as int),
                decreases env@.turns_bound(),
            {
                let ghost table = env@;
                proof {
                    lemma_sound_is_plain(table.opponent_hand, table.opponent_hints);
                }
                let actions = env.actions();
                proof {
                    lemma_can_move(table);
                    let legal = choose|action: Action| table.legal(action);
                    assert(actions@.contains(legal));
                }
                let next = choose_from(&actions, rng).unwrap();
                env.step(&next, rng);
                proof {
                    let (slot, drawn) = choose|slot: int, drawn: Card|
                        table.outcome(next, slot, drawn) && env@ == table.step(next, slot, drawn);
                    lemma_legal_admits(table, next);
                    lemma_step_playable(table, next, slot, drawn);
                    lemma_step_progress(table, next, slot, drawn);
                    let further = Move { action: next, slot, drawn };
                    lemma_played_on(first, moves, further);
                    moves = moves.push(further);
                }
            }
            let reward = env.reward();
            let value = weighted_reward(&prob, &reward);
            proof {
                let ending = env@.public();
                assert(ending.reward_parts() == reward.num);
                assert(weight_num(
                    unseen(public_info@, my_private@),
                    public_info@.player_hints,
                    first.player_hand,
                    5,
                ) == prob.num);
                assert(first == State::rebuilt(public_info@, first.player_hand, my_private@));
                assert(played(State::rebuilt(public_info@, first.player_hand, my_private@), moves));
                assert(rollout_value(public_info@, my_private@, action, value as int));
            }
            Some((action, value))
        },
    }
}

/// Chooses an action for the seat that knows `public_info` and sees
/// `private_info`: runs `num_rollouts` rollouts, of which there must be at
/// least one, and returns the action whose rollouts brought the highest sum
/// of weighed rewards. A rollout that finds no table is left out of the
/// record; `None` when none of them found one.
pub fn policy(
    public_info: &PublicInfo,
    private_info: &PrivateInfo,
    num_rollouts: usize,
    rng: &mut StdRng,
) -> (best: Option<Action>)
    requires
        num_rollouts > 0,
        knowable(*public_info, private_info@),
        public_info@.playable(),
        !public_info@.ended(),
    ensures
        best matches Some(action) ==> seat_may(public_info@, private_info@, action),
        exists|log: Seq<(Action, u64)>|
            {
                &&& log.len() <= num_rollouts
                &&& surely_fillable(
                    unseen(public_info@, private_info@),
                    public_info.player_hints@,
                ) ==> log.len() == num_rollouts
                &&& rollout_log(public_info@, private_info@, log)
                &&& #[trigger] chosen(log, best)
            },
        surely_fillable(unseen(public_info@, private_info@), public_info.player_hints@)
            ==> best is Some,
{
    let mut tally = Tally::new();
    let mut done: usize = 0;
    while done < num_rollouts
        invariant
            done <= num_rollouts,
            tally.wf(),
            tally.log@.len() <= done,
            rollout_log(public_info@, private_info@, tally.log@),
            knowable(*public_info, private_info@),
            public_info@.playable(),
            !public_info@.ended(),
            forall|i: int|
                0 <= i < tally.actions@.len() ==> seat_may(
                    public_info@,
                    private_info@,
                    #[trigger] tally.actions@[i],
                ),
            surely_fillable(unseen(public_info@, private_info@), public_info.player_hints@)
                ==> tally.log@.len() == done,
            done > 0 && surely_fillable(
                unseen(public_info@, private_info@),
                public_info.player_hints@,
            ) ==> tally.actions@.len() > 0,
        decreases num_rollouts - done,
    {
        match rollout_single_determinization(public_info, private_info, rng) {
            Some((action, reward)) => {
                let ghost before = tally.actions@;
                tally.record(action, reward);
                proof {
                    if !before.contains(action) {
                        assert(tally.actions@ == before.push(action));
                    }
                }
            },
            None => {},
        }
        done += 1;
    }
    let best = tally.best();
    assert(chosen(tally.log@, best));
    best
}

/// Plays the game to its end, the policy choosing every move from what the
/// acting seat knows, and gives the score. `None` when the policy found no
/// action for a move, or has no rollouts to find one with; the game then
/// stands where it stood.
pub fn play_game(env: &mut HanabiEnv, num_rollouts: usize, rng: &mut StdRng) -> (score: Option<u8>)
    requires
        old(env).wf(),
        old(env)@.ended() || old(env)@.playable(),
    ensures
        final(env).wf(),
        score matches Some(points) ==> {
            &&& final(env)@.ended()
            &&& points == final(env)@.public().score()
            &&& points <= 25
        },
        score is None ==> !final(env)@.ended(),
        score is None ==> num_rollouts == 0 || !surely_fillable(
            unseen(final(env)@.public(), final(env)@.opponent_hand),
            final(env)@.player_hints,
        ),
        exists|moves: Seq<Move>| #[trigger]
            played(old(env)@, moves) && final(env)@ == after(
                old(env)@,
                moves,
                moves.len() as int,
            ),
{
    let ghost start = env@;
    let ghost mut moves: Seq<Move> = Seq::empty();
    assert(played(start, moves));
    while !env.is_over()
        invariant
            env.wf(),
            env@.ended() || env@.playable(),
            env@.turns_bound() >= 0,
            start == old(env)@,
            played(start, moves),
            env@ == after(start, moves, moves.len() as int),
        decreases env@.turns_bound(),
    {
        let ghost table = env@;
        if num_rollouts == 0 {
            assert(played(start, moves) && env@ == after(start, moves, moves.len() as int));
            return None;
        }
        let public_info = env.public_info();
        let private_info = env.private_info(true);
        proof {
            lemma_seat_knows(*env, public_info, private_info);
        }
        match policy(&public_info, &private_info, num_rollouts, rng) {
            Some(action) => {
                proof {
                    lemma_known_is_legal(table, action);
                }
                env.step(&action, rng);
                proof {
                    let (slot, drawn) = choose|slot: int, drawn: Card|
                        table.outcome(action, slot, drawn) && env@ == table.step(
                            action,
                            slot,
                            drawn,
                        );
                    lemma_legal_admits(table, action);
                    lemma_step_playable(table, action, slot, drawn);
                    lemma_step_progress(table, action, slot, drawn);
                    let further = Move { action, slot, drawn };
                    lemma_played_on(start, moves, further);
                    moves = moves.push(further);
                }
            },
            None => {
                assert(played(start, moves) && env@ == after(start, moves, moves.len() as int));
                return None;
            },
        }
    }
    proof {
        lemma_score_bounds(env.fireworks@);
    }
    Some(env.fireworks.total())
}

} // verus!
