//! Testing at run time what the contracts of the game ask of their inputs.
//!
//! A caller that Verus does not see can hold a table, or what a seat knows of
//! one, to these tests before it hands it to the game.

use crate::card::Card;
use crate::collection::{held, starting_count, sum_counts, CardCollection};
use crate::env::{Env, HasEnd};
use crate::facts::{lemma_score_bounds, lemma_within_deck};
use crate::fireworks::Fireworks;
use crate::hanabi_env::{count_live, knowable, HanabiEnv, PrivateInfo, PublicInfo};
use crate::hint::Hint;
use crate::state::{accounted, hand_sound, on_stack, slot_sound};
use vstd::prelude::*;

verus! {

impl Hint {
    /// Whether both masks stay within the five bits, or the hint is that of
    /// an empty slot.
    pub fn is_well_formed(&self) -> (valid: bool)
        ensures
            valid == self.well_formed(),
    {
        (self.color <= 0b011111 && self.suit <= 0b011111) || (self.color == 0b100000 && self.suit
            == 0b100000)
    }
}

impl CardCollection {
    /// Whether `total` is the number of cards that `counts` holds.
    pub fn is_valid(&self) -> (valid: bool)
        ensures
            valid == self.wf(),
    {
        let mut sum: u16 = 0;
        let mut id: usize = 0;
        while id < 25
            invariant
                id <= 25,
                sum == sum_counts(self@, id as int),
                sum <= 255 * id,
            decreases 25 - id,
        {
            sum += self.counts[id] as u16;
            id += 1;
        }
        sum == self.total as u16
    }

    /// Whether no identity occurs more often than in a full deck.
    pub fn is_within_deck(&self) -> (valid: bool)
        ensures
            valid == self.within_deck(),
    {
        let full = CardCollection::starting_deck();
        let mut id: usize = 0;
        while id < 25
            invariant
                id <= 25,
                forall|k: int| 0 <= k < 25 ==> #[trigger] full@[k] == starting_count(k),
                forall|k: int| 0 <= k < id ==> #[trigger] self@[k] <= starting_count(k),
            decreases 25 - id,
        {
            assert(full@[id as int] == starting_count(id as int));
            if self.counts[id] > full.counts[id] {
                assert(self@[id as int] > starting_count(id as int));
                return false;
            }
            id += 1;
        }
        true
    }
}

impl Fireworks {
    /// Whether no stack is higher than five.
    pub fn is_valid(&self) -> (valid: bool)
        ensures
            valid == self.wf(),
    {
        let mut color: usize = 0;
        while color < 5
            invariant
                color <= 5,
                forall|c: int| 0 <= c < color ==> #[trigger] self@[c] <= 5,
            decreases 5 - color,
        {
            if self.0[color] > 5 {
                assert(self@[color as int] > 5);
                return false;
            }
            color += 1;
        }
        true
    }
}

/// Whether all five hints are well formed.
pub fn hints_well_formed(hints: &[Hint; 5]) -> (valid: bool)
    ensures
        valid == forall|i: int| 0 <= i < 5 ==> (#[trigger] hints@[i]).well_formed(),
{
    let mut i: usize = 0;
    while i < 5
        invariant
            i <= 5,
            forall|k: int| 0 <= k < i ==> (#[trigger] hints@[k]).well_formed(),
        decreases 5 - i,
    {
        if !hints[i].is_well_formed() {
            assert(!hints@[i as int].well_formed());
            return false;
        }
        i += 1;
    }
    true
}

/// Whether every slot of the hand is sound under its hint.
pub fn hand_is_sound(hand: &[Card; 5], hints: &[Hint; 5]) -> (valid: bool)
    ensures
        valid == hand_sound(hand@, hints@),
{
    let mut i: usize = 0;
    while i < 5
        invariant
            i <= 5,
            forall|k: int| 0 <= k < i ==> slot_sound(#[trigger] hand@[k], hints@[k]),
        decreases 5 - i,
    {
        let card = hand[i];
        let hint = hints[i];
        let sound = if card.is_none() {
            hint.color == 0b100000 && hint.suit == 0b100000
        } else {
            card.id() < 25 && hint.color <= 0b011111 && hint.suit <= 0b011111 && hint.matches(
                card,
            )
        };
        if !sound {
            assert(!slot_sound(hand@[i as int], hints@[i as int]));
            return false;
        }
        i += 1;
    }
    true
}

/// How many slots of the hand hold the card identity `id`.
pub fn count_held(hand: &[Card; 5], id: u8) -> (count: u8)
    ensures
        count == held(hand@, id as int, 5),
        count <= 5,
{
    let mut count: u8 = 0;
    let mut i: usize = 0;
    while i < 5
        invariant
            i <= 5,
            count == held(hand@, id as int, i as int),
            count <= i,
        decreases 5 - i,
    {
        if hand[i].id() == id {
            count += 1;
        }
        i += 1;
    }
    count
}

impl PublicInfo {
    /// Whether what is public is well formed: the hints, the discard pile,
    /// the fireworks, the tokens and the count of the last round.
    pub fn is_valid(&self) -> (valid: bool)
        ensures
            valid == self.wf(),
    {
        hints_well_formed(&self.player_hints) && hints_well_formed(&self.opponent_hints)
            && self.discard.is_valid() && self.discard.is_within_deck() && self.fireworks.is_valid()
            && self.blue_tokens <= 8 && 1 <= self.black_tokens && self.black_tokens <= 4
            && self.last_round_turns_taken <= 2 && (self.last_round_turns_taken == 0
            || self.last_round)
    }

    /// Whether both seats can move when their turn comes.
    pub fn is_playable(&self) -> (playable: bool)
        ensures
            playable == self@.playable(),
    {
        count_live(&self.player_hints) >= 1 && (count_live(&self.opponent_hints) >= 1 || (
        self.last_round && self.last_round_turns_taken >= 1))
    }

    /// Whether a full deck has the cards for the discard pile, the fireworks
    /// and the hand that a seat sees together.
    pub fn accounts_for(&self, seen: &PrivateInfo) -> (valid: bool)
        requires
            self.fireworks.wf(),
        ensures
            valid == accounted(self@, seen@),
    {
        let full = CardCollection::starting_deck();
        let mut id: u8 = 0;
        while id < 25
            invariant
                id <= 25,
                self.fireworks.wf(),
                forall|k: int| 0 <= k < 25 ==> #[trigger] full@[k] == starting_count(k),
                forall|k: int|
                    0 <= k < id ==> #[trigger] self@.discard[k] + on_stack(self@.fireworks, k)
                        + held(seen@, k, 5) <= starting_count(k),
            decreases 25 - id,
        {
            let played: u16 = if id % 5 < self.fireworks.0[(id / 5) as usize] {
                1
            } else {
                0
            };
            let seen_copies: u16 = count_held(&seen.opponent_hand, id) as u16;
            assert(full@[id as int] == starting_count(id as int));
            assert(played == on_stack(self@.fireworks, id as int));
            if self.discard.counts[id as usize] as u16 + played + seen_copies
                > full.counts[id as usize] as u16 {
                assert(self@.discard[id as int] + on_stack(self@.fireworks, id as int) + held(
                    seen@,
                    id as int,
                    5,
                ) > starting_count(id as int));
                return false;
            }
            id += 1;
        }
        true
    }

    /// Whether what the seat knows makes a table: see `knowable`.
    pub fn knows(&self, seen: &PrivateInfo) -> (valid: bool)
        ensures
            valid == knowable(*self, seen@),
    {
        if !self.is_valid() {
            return false;
        }
        if !hand_is_sound(&seen.opponent_hand, &self.opponent_hints) {
            return false;
        }
        if !self.accounts_for(seen) {
            return false;
        }
        proof {
            lemma_within_deck(self.discard@);
            lemma_score_bounds(self.fireworks@);
        }
        !self.last_round || self.discard.total + count_live(&self.player_hints) + count_live(
            &self.opponent_hints,
        ) + self.fireworks.total() == 50
    }

    /// Whether a rollout can start from what the seat knows: it makes a
    /// table, the game is on, and both seats can move.
    pub fn can_decide(&self, seen: &PrivateInfo) -> (ready: bool)
        ensures
            ready == (knowable(*self, seen@) && self@.playable() && !self@.ended()),
    {
        self.knows(seen) && self.is_playable() && !self.is_over()
    }
}

impl HanabiEnv {
    /// Whether the invariant of the game holds of the table.
    pub fn is_valid(&self) -> (valid: bool)
        ensures
            valid == self.wf(),
    {
        let public = self.public_info();
        if !public.is_valid() || !self.deck.is_valid() {
            return false;
        }
        if !hand_is_sound(&self.player_hand, &self.player_hints) || !hand_is_sound(
            &self.opponent_hand,
            &self.opponent_hints,
        ) {
            return false;
        }
        let full = CardCollection::starting_deck();
        let mut id: u8 = 0;
        while id < 25
            invariant
                id <= 25,
                self.fireworks.wf(),
                forall|k: int| 0 <= k < 25 ==> #[trigger] full@[k] == starting_count(k),
                forall|k: int|
                    0 <= k < id ==> #[trigger] self@.deck[k] + self@.discard[k] + on_stack(
                        self@.fireworks,
                        k,
                    ) + held(self@.player_hand, k, 5) + held(self@.opponent_hand, k, 5)
                        == starting_count(k),
            decreases 25 - id,
        {
            let played: u16 = if id % 5 < self.fireworks.0[(id / 5) as usize] {
                1
            } else {
                0
            };
            let in_hands: u16 = count_held(&self.player_hand, id) as u16 + count_held(
                &self.opponent_hand,
                id,
            ) as u16;
            assert(full@[id as int] == starting_count(id as int));
            assert(played == on_stack(self@.fireworks, id as int));
            if self.deck.counts[id as usize] as u16 + self.discard.counts[id as usize] as u16
                + played + in_hands != full.counts[id as usize] as u16 {
                assert(self@.deck[id as int] + self@.discard[id as int] + on_stack(
                    self@.fireworks,
                    id as int,
                ) + held(self@.player_hand, id as int, 5) + held(self@.opponent_hand, id as int, 5)
                    != starting_count(id as int));
                return false;
            }
            id += 1;
        }
        !self.last_round || self.deck.total == 0
    }
}

} // verus!
