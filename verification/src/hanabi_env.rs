//! The executable game: the table, what each seat sees of it, and the moves.

use crate::card::{Card, Color, Suit};
use crate::collection::{
    filled, held, lemma_held_grows, starting_count, CardCollection,
};
use crate::determinize::{
    dead_end, determinize_hints, hand_agrees, surely_fillable, weight_den, weight_num,
};
use crate::env::{Env, HasEnd, HasReward};
use crate::facts::{
    lemma_agreeing_is_sound, lemma_color_known, lemma_held_is_legal, lemma_legal_admits,
    lemma_push_contains,
    lemma_score_bounds, lemma_sound_is_plain, lemma_suit_known, lemma_within_deck,
};
use crate::fireworks::Fireworks;
use crate::hint::{lemma_blank_and_absent, Hint};
use crate::preservation::{
    lemma_filled_is_live, lemma_filled_update, lemma_held_update, lemma_last_round_open,
    lemma_step_preserves,
};
use crate::random::choose_from;
use crate::ratio::Ratio;
use crate::state::{
    accounted, future, future_upto, hand_plain, hand_sound, live, of_color, of_suit, on_stack,
    open_run, slot_sound, told_color, told_suit, unseen, Public, State,
};
use rand::rngs::StdRng;
use vstd::prelude::*;

verus! {

/// What a seat can do on its turn. A play or a discard names the hint of the
/// card, not its slot: slots with equal hints are one action.
#[derive(Copy, Clone, Debug, PartialEq, Eq, Structural)]
pub enum Action {
    ColorHint(Color),
    SuitHint(Suit),
    Discard(Hint),
    Play(Hint),
}

/// The table. `player` is the seat that is about to act.
#[derive(Clone, Debug)]
pub struct HanabiEnv {
    pub player_hand: [Card; 5],
    pub player_hints: [Hint; 5],
    pub opponent_hand: [Card; 5],
    pub opponent_hints: [Hint; 5],
    pub deck: CardCollection,
    pub discard: CardCollection,
    pub blue_tokens: u8,
    pub black_tokens: u8,
    pub fireworks: Fireworks,
    pub last_round: bool,
    pub last_round_turns_taken: u8,
}

/// The hand that a seat sees: the other seat's.
#[derive(Clone, Debug, PartialEq, Eq)]
pub struct PrivateInfo {
    pub opponent_hand: [Card; 5],
}

/// What both seats see.
#[derive(Clone, Debug)]
pub struct PublicInfo {
    pub player_hints: [Hint; 5],
    pub opponent_hints: [Hint; 5],
    pub discard: CardCollection,
    pub blue_tokens: u8,
    pub black_tokens: u8,
    pub fireworks: Fireworks,
    pub last_round: bool,
    pub last_round_turns_taken: u8,
}

impl View for PrivateInfo {
    type V = Seq<Card>;

    open spec fn view(&self) -> Seq<Card> {
        self.opponent_hand@
    }
}

impl View for PublicInfo {
    type V = Public;

    open spec fn view(&self) -> Public {
        Public {
            player_hints: self.player_hints@,
            opponent_hints: self.opponent_hints@,
            discard: self.discard@,
            blue_tokens: self.blue_tokens as int,
            black_tokens: self.black_tokens as int,
            fireworks: self.fireworks@,
            last_round: self.last_round,
            last_round_turns_taken: self.last_round_turns_taken as int,
        }
    }
}

impl View for HanabiEnv {
    type V = State;

    open spec fn view(&self) -> State {
        State {
            player_hand: self.player_hand@,
            player_hints: self.player_hints@,
            opponent_hand: self.opponent_hand@,
            opponent_hints: self.opponent_hints@,
            deck: self.deck@,
            discard: self.discard@,
            blue_tokens: self.blue_tokens as int,
            black_tokens: self.black_tokens as int,
            fireworks: self.fireworks@,
            last_round: self.last_round,
            last_round_turns_taken: self.last_round_turns_taken as int,
        }
    }
}

impl PublicInfo {
    /// The model is well formed and `discard.total` is right.
    pub open spec fn wf(self) -> bool {
        self@.wf() && self.discard.wf()
    }
}

impl HanabiEnv {
    /// The invariant of the game holds, and both piles know their size.
    pub open spec fn wf(self) -> bool {
        self@.wf() && self.deck.wf() && self.discard.wf()
    }

    /// Puts the card of slot `i` on the discard pile and leaves the slot
    /// empty.
    pub fn discard_at(&mut self, i: usize)
        requires
            i < 5,
            old(self).player_hand@[i as int].is_card(),
            old(self).discard.wf(),
            old(self).discard.total < u8::MAX,
        ensures
            final(self)@ == old(self)@.toss(i as int),
            final(self).discard.wf(),
            final(self).deck == old(self).deck,
    {
        self.discard.add(self.player_hand[i]);
        self.player_hand[i] = Card::none();
        self.player_hints[i] = Hint::none();
    }

    /// Fills slot `i` from the draw pile. The new card has the hint that
    /// says nothing; with the pile empty the slot is left empty and the last
    /// round begins.
    pub fn draw_into(&mut self, rng: &mut StdRng, i: usize)
        requires
            i < 5,
            old(self).deck.wf(),
        ensures
            final(self).deck.wf(),
            final(self).discard == old(self).discard,
            old(self)@.can_draw(final(self).player_hand@[i as int]),
            final(self)@ == old(self)@.draw(i as int, final(self).player_hand@[i as int]),
    {
        let card = self.deck.pop(rng);
        self.player_hand[i] = card;
        if card.is_some() {
            self.player_hints[i] = Hint::empty();
        } else {
            self.last_round = true;
            self.player_hints[i] = Hint::none();
        }
    }

    /// The slots whose hint is `hint`, lowest first.
    pub fn hint_matches(&self, hints: &[Hint; 5], hint: &Hint) -> (slots: Vec<usize>)
        ensures
            forall|k: int|
                0 <= k < slots@.len() ==> (#[trigger] slots@[k]) < 5 && hints@[slots@[k] as int]
                    == *hint,
            forall|i: int| 0 <= i < 5 && hints@[i] == *hint ==> slots@.contains(i as usize),
            forall|j: int, k: int| 0 <= j < k < slots@.len() ==> slots@[j] < slots@[k],
    {
        let mut slots: Vec<usize> = Vec::new();
        let mut i: usize = 0;
        while i < 5
            invariant
                i <= 5,
                forall|k: int|
                    0 <= k < slots@.len() ==> (#[trigger] slots@[k]) < i
                        && hints@[slots@[k] as int] == *hint,
                forall|j: int| 0 <= j < i && hints@[j] == *hint ==> slots@.contains(j as usize),
                forall|j: int, k: int| 0 <= j < k < slots@.len() ==> slots@[j] < slots@[k],
            decreases 5 - i,
        {
            if hints[i] == *hint {
                let ghost before = slots@;
                slots.push(i);
                assert(slots@[before.len() as int] == i);
                assert forall|j: int|
                    0 <= j < i + 1 && hints@[j] == *hint implies slots@.contains(j as usize) by {
                    if j < i {
                        let k = choose|k: int| 0 <= k < before.len() && before[k] == j as usize;
                        assert(slots@[k] == j as usize);
                    }
                }
            }
            i += 1;
        }
        slots
    }

    /// Tells the other seat which of its cards have the color `color`, for
    /// a blue token.
    pub fn tell_color(&mut self, color: Color)
        requires
            old(self).blue_tokens > 0,
            hand_plain(old(self).opponent_hand@),
        ensures
            final(self)@ == old(self)@.hint_color(color),
            final(self).deck == old(self).deck,
            final(self).discard == old(self).discard,
    {
        let mut i: usize = 0;
        while i < 5
            invariant
                i <= 5,
                hand_plain(self.opponent_hand@),
                forall|j: int|
                    0 <= j < i ==> #[trigger] self.opponent_hints@[j] == told_color(
                        old(self).opponent_hints@[j],
                        self.opponent_hand@[j],
                        color,
                    ),
                forall|j: int|
                    i <= j < 5 ==> #[trigger] self.opponent_hints@[j] == old(
                        self,
                    ).opponent_hints@[j],
                *self == (HanabiEnv { opponent_hints: self.opponent_hints, ..*old(self) }),
            decreases 5 - i,
        {
            let card = self.opponent_hand[i];
            assert(card.is_blank() || self.opponent_hand@[i as int].is_card());
            if card.is_some() {
                let mut hint = self.opponent_hints[i];
                if card.color() == color {
                    hint.set_true_color(color);
                } else {
                    hint.disable_color(color);
                }
                self.opponent_hints[i] = hint;
            }
            i += 1;
        }
        self.blue_tokens -= 1;
        assert(self@.opponent_hints =~= old(self)@.hint_color(color).opponent_hints);
    }

    /// Tells the other seat which of its cards have the rank `suit`, for a
    /// blue token.
    pub fn tell_suit(&mut self, suit: Suit)
        requires
            old(self).blue_tokens > 0,
            hand_plain(old(self).opponent_hand@),
        ensures
            final(self)@ == old(self)@.hint_suit(suit),
            final(self).deck == old(self).deck,
            final(self).discard == old(self).discard,
    {
        let mut i: usize = 0;
        while i < 5
            invariant
                i <= 5,
                hand_plain(self.opponent_hand@),
                forall|j: int|
                    0 <= j < i ==> #[trigger] self.opponent_hints@[j] == told_suit(
                        old(self).opponent_hints@[j],
                        self.opponent_hand@[j],
                        suit,
                    ),
                forall|j: int|
                    i <= j < 5 ==> #[trigger] self.opponent_hints@[j] == old(
                        self,
                    ).opponent_hints@[j],
                *self == (HanabiEnv { opponent_hints: self.opponent_hints, ..*old(self) }),
            decreases 5 - i,
        {
            let card = self.opponent_hand[i];
            if card.is_some() {
                let mut hint = self.opponent_hints[i];
                if card.suit() == suit {
                    hint.set_true_suit(suit);
                } else {
                    hint.disable_suit(suit);
                }
                self.opponent_hints[i] = hint;
            }
            i += 1;
        }
        self.blue_tokens -= 1;
        assert(self@.opponent_hints =~= old(self)@.hint_suit(suit).opponent_hints);
    }
}

impl Env for HanabiEnv {
    type PublicInfo = PublicInfo;

    type PrivateInfo = PrivateInfo;

    type Action = Action;

    open spec fn sound(&self) -> bool {
        self.wf()
    }

    open spec fn offers(&self, action: &Action) -> bool {
        self@.legal(*action)
    }

    /// Every legal action, and a discard with all eight blue tokens on the
    /// table as well: it brings no token back.
    open spec fn may_take(&self, action: &Action) -> bool {
        self@.admits(*action)
    }

    /// The cards that the other seat holds are real cards.
    open spec fn can_list(&self) -> bool {
        hand_plain(self.opponent_hand@)
    }

    /// The discard pile knows its size, no stack is higher than five, the
    /// hands hold real cards or nothing, and a full deck has the cards for
    /// the discard pile, the fireworks and the two hands together.
    open spec fn can_rebuild(
        public_info: &PublicInfo,
        player_private_info: &PrivateInfo,
        opponent_private_info: &PrivateInfo,
    ) -> bool {
        &&& public_info.discard.wf()
        &&& public_info.fireworks.wf()
        &&& hand_plain(player_private_info@)
        &&& hand_plain(opponent_private_info@)
        &&& State::fits(public_info@, opponent_private_info@, player_private_info@)
    }

    /// The table holds what is public as it is given, the acting seat holds
    /// what the other seat sees and the other seat what the acting seat
    /// sees, and the draw pile is what a full deck holds beyond the discard
    /// pile, the fireworks and the hands.
    open spec fn built_from(
        &self,
        public_info: &PublicInfo,
        player_private_info: &PrivateInfo,
        opponent_private_info: &PrivateInfo,
    ) -> bool {
        &&& self@ == State::rebuilt(public_info@, opponent_private_info@, player_private_info@)
        &&& self.deck.wf()
        &&& self.discard == public_info.discard
        &&& self.player_hand == opponent_private_info.opponent_hand
        &&& self.opponent_hand == player_private_info.opponent_hand
    }

    /// The sampled hand agrees with the hints on it, a full deck has the
    /// cards for it beside what is public and the hand that is seen, and
    /// the weight is the product of the weights of its draws from the cards
    /// whose place the seat does not know.
    open spec fn sample_of(
        public_info: &PublicInfo,
        player_private_info: &PrivateInfo,
        sample: &PrivateInfo,
        weight: Ratio,
    ) -> bool {
        &&& hand_agrees(sample@, public_info.player_hints@)
        &&& State::fits(public_info@, sample@, player_private_info@)
        &&& weight.num == weight_num(
            unseen(public_info@, player_private_info@),
            public_info.player_hints@,
            sample@,
            5,
        )
        &&& weight.den == weight_den(
            unseen(public_info@, player_private_info@),
            public_info.player_hints@,
            sample@,
            5,
        )
        &&& weight.num <= weight.den
        &&& weight.den >= 1
    }

    /// Every live hint admits more of the cards whose place the seat does
    /// not know than there are live hints before it.
    open spec fn sample_owed(public_info: &PublicInfo, player_private_info: &PrivateInfo)
        -> bool {
        surely_fillable(unseen(public_info@, player_private_info@), public_info.player_hints@)
    }

    /// The discard pile knows its size, no stack is higher than five, the
    /// hand that the seat sees holds real cards or nothing, and a full deck
    /// has the cards for the discard pile, the fireworks and that hand
    /// together.
    open spec fn can_sample(public_info: &PublicInfo, player_private_info: &PrivateInfo) -> bool {
        &&& public_info.discard.wf()
        &&& public_info.fireworks.wf()
        &&& hand_plain(player_private_info@)
        &&& accounted(public_info@, player_private_info@)
    }

    /// The table that the public part and the two hands determine: the
    /// acting seat holds what the other seat sees, the other seat holds what
    /// the acting seat sees, and the draw pile is what a full deck holds
    /// beyond the discard pile, the fireworks and the hands.
    fn new(
        public_info: &PublicInfo,
        player_private_info: &PrivateInfo,
        opponent_private_info: &PrivateInfo,
    ) -> (env: Self)
        ensures
            env@ == State::rebuilt(public_info@, opponent_private_info@, player_private_info@),
            env.deck.wf(),
            env.discard == public_info.discard,
            env.player_hand == opponent_private_info.opponent_hand,
            env.opponent_hand == player_private_info.opponent_hand,
            env.deck.total == 50 - public_info.discard.total - public_info.fireworks.score()
                - filled(player_private_info@, 5) - filled(opponent_private_info@, 5),
            public_info.wf() && hand_sound(opponent_private_info@, public_info.player_hints@)
                && hand_sound(player_private_info@, public_info.opponent_hints@) && (
            public_info.last_round ==> env.deck.total == 0) ==> env.wf(),
    {
        let ghost seen = player_private_info@;
        let ghost own = opponent_private_info@;
        let ghost public = public_info@;
        let mut deck = CardCollection::starting_deck();
        proof {
            assert forall|id: int| 0 <= id < 25 implies 0 <= held(seen, id, 5) && 0 <= held(
                own,
                id,
                5,
            ) && #[trigger] public.discard[id] + on_stack(public.fireworks, id) + held(own, id, 5)
                + held(seen, id, 5) <= starting_count(id) by {
                lemma_held_grows(seen, id, 0, 5);
                lemma_held_grows(own, id, 0, 5);
            }
            assert(deck.covers(public_info.discard@)) by {
                assert forall|id: int| 0 <= id < 25 implies #[trigger] public_info.discard@[id]
                    <= deck@[id] by {
                    assert(public.discard[id] + on_stack(public.fireworks, id) + held(own, id, 5)
                        + held(seen, id, 5) <= starting_count(id));
                }
            }
        }
        deck.subtract(&public_info.discard);
        proof {
            assert forall|id: int|
                0 <= id < 25 && public_info.fireworks.holds(id) implies #[trigger] deck@[id]
                > 0 by {
                assert(public.discard[id] + on_stack(public.fireworks, id) + held(own, id, 5)
                    + held(seen, id, 5) <= starting_count(id));
            }
        }
        deck.remove_fireworks(&public_info.fireworks);
        proof {
            assert forall|id: int| 0 <= id < 25 implies held(seen, id, 5) <= #[trigger] deck@[id] by {
                assert(public.discard[id] + on_stack(public.fireworks, id) + held(own, id, 5)
                    + held(seen, id, 5) <= starting_count(id));
            }
        }
        deck.remove_hand(&player_private_info.opponent_hand);
        proof {
            assert forall|id: int| 0 <= id < 25 implies held(own, id, 5) <= #[trigger] deck@[id] by {
                assert(public.discard[id] + on_stack(public.fireworks, id) + held(own, id, 5)
                    + held(seen, id, 5) <= starting_count(id));
            }
        }
        deck.remove_hand(&opponent_private_info.opponent_hand);
        let env = Self {
            player_hand: opponent_private_info.opponent_hand,
            player_hints: public_info.player_hints,
            opponent_hand: player_private_info.opponent_hand,
            opponent_hints: public_info.opponent_hints,
            deck: deck,
            discard: public_info.discard,
            blue_tokens: public_info.blue_tokens,
            black_tokens: public_info.black_tokens,
            fireworks: public_info.fireworks,
            last_round: public_info.last_round,
            last_round_turns_taken: public_info.last_round_turns_taken,
        };
        proof {
            assert forall|id: int| 0 <= id < 25 implies #[trigger] env.deck@[id] == starting_count(
                id,
            ) - public.discard[id] - on_stack(public.fireworks, id) - held(own, id, 5) - held(
                seen,
                id,
                5,
            ) by {
                assert(public.discard[id] + on_stack(public.fireworks, id) + held(own, id, 5)
                    + held(seen, id, 5) <= starting_count(id));
            }
            assert(env@.deck =~= State::rebuilt(public, own, seen).deck);
            assert(env@ == State::rebuilt(public, own, seen));
        }
        env
    }

    /// A fresh game: a full deck, five cards dealt to the acting seat and
    /// then five to the other, nothing known about any of them, all eight
    /// blue tokens and all four black ones.
    fn random(rng: &mut StdRng) -> (env: Self)
        ensures
            env.wf(),
            !env@.ended(),
            env.deck.total == 40,
            env.discard.total == 0,
            env.fireworks@ == seq![0u8, 0u8, 0u8, 0u8, 0u8],
            env.blue_tokens == 8,
            env.black_tokens == 4,
            !env.last_round,
            env.last_round_turns_taken == 0,
            forall|i: int|
                0 <= i < 5 ==> (#[trigger] env.player_hand@[i]).is_card()
                    && env.player_hints@[i] == Hint::blank(),
            forall|i: int|
                0 <= i < 5 ==> (#[trigger] env.opponent_hand@[i]).is_card()
                    && env.opponent_hints@[i] == Hint::blank(),
    {
        let mut deck = CardCollection::starting_deck();
        let ghost full = deck@;
        let player_hand = draw_hand(&mut deck, rng);
        let ghost after_first = deck@;
        let opponent_hand = draw_hand(&mut deck, rng);
        let nothing_known = Hint::empty();
        let env = Self {
            player_hand: player_hand,
            opponent_hand: opponent_hand,
            player_hints: [
                nothing_known,
                nothing_known,
                nothing_known,
                nothing_known,
                nothing_known,
            ],
            opponent_hints: [
                nothing_known,
                nothing_known,
                nothing_known,
                nothing_known,
                nothing_known,
            ],
            deck: deck,
            discard: CardCollection::empty(),
            blue_tokens: 8,
            black_tokens: 4,
            fireworks: Fireworks::empty(),
            last_round: false,
            last_round_turns_taken: 0,
        };
        proof {
            let table = env@;
            assert forall|i: int| 0 <= i < 5 implies slot_sound(
                #[trigger] table.player_hand[i],
                table.player_hints[i],
            ) by {
                lemma_blank_and_absent(table.player_hand[i]);
            }
            assert forall|i: int| 0 <= i < 5 implies slot_sound(
                #[trigger] table.opponent_hand[i],
                table.opponent_hints[i],
            ) by {
                lemma_blank_and_absent(table.opponent_hand[i]);
            }
            assert forall|id: int| 0 <= id < 25 implies #[trigger] table.deck[id]
                + table.discard[id] + on_stack(table.fireworks, id) + held(
                table.player_hand,
                id,
                5,
            ) + held(table.opponent_hand, id, 5) == starting_count(id) by {
                assert(after_first[id] == full[id] - held(table.player_hand, id, 5));
                assert(table.deck[id] == after_first[id] - held(table.opponent_hand, id, 5));
            }
            assert(env.fireworks@ =~= seq![0u8, 0u8, 0u8, 0u8, 0u8]);
            assert(table.wf());
        }
        env
    }

    /// Samples the hand that a seat does not see, its own: a hand that
    /// agrees with the hints on it, from the cards whose place the seat does
    /// not know, with the weight of the sample. `None` when no hand was
    /// found, which happens only where a walk over the slots can run into a
    /// slot for which no card is left.
    fn sample_opponent_info(
        public_info: &PublicInfo,
        player_private_info: &PrivateInfo,
        rng: &mut StdRng,
    ) -> (sampled: Option<(PrivateInfo, Ratio)>)
        ensures
            sampled matches Some((info, weight)) ==> {
                &&& hand_agrees(info@, public_info.player_hints@)
                &&& State::fits(public_info@, info@, player_private_info@)
                &&& weight.num == weight_num(
                    unseen(public_info@, player_private_info@),
                    public_info.player_hints@,
                    info@,
                    5,
                )
                &&& weight.den == weight_den(
                    unseen(public_info@, player_private_info@),
                    public_info.player_hints@,
                    info@,
                    5,
                )
                &&& weight.num <= weight.den
                &&& weight.den >= 1
            },
            surely_fillable(
                unseen(public_info@, player_private_info@),
                public_info.player_hints@,
            ) ==> sampled is Some,
            sampled is None ==> dead_end(
                unseen(public_info@, player_private_info@),
                public_info.player_hints@,
            ),
    {
        let ghost seen = player_private_info@;
        let ghost public = public_info@;
        let mut deck = CardCollection::starting_deck();
        proof {
            assert forall|id: int| 0 <= id < 25 implies 0 <= held(seen, id, 5)
                && #[trigger] public.discard[id] + on_stack(public.fireworks, id) + held(
                seen,
                id,
                5,
            ) <= starting_count(id) by {
                lemma_held_grows(seen, id, 0, 5);
            }
            assert(deck.covers(public_info.discard@)) by {
                assert forall|id: int| 0 <= id < 25 implies #[trigger] public_info.discard@[id]
                    <= deck@[id] by {
                    assert(public.discard[id] + on_stack(public.fireworks, id) + held(seen, id, 5)
                        <= starting_count(id));
                }
            }
        }
        deck.subtract(&public_info.discard);
        proof {
            assert forall|id: int|
                0 <= id < 25 && public_info.fireworks.holds(id) implies #[trigger] deck@[id]
                > 0 by {
                assert(public.discard[id] + on_stack(public.fireworks, id) + held(seen, id, 5)
                    <= starting_count(id));
            }
        }
        deck.remove_fireworks(&public_info.fireworks);
        proof {
            assert forall|id: int| 0 <= id < 25 implies held(seen, id, 5) <= #[trigger] deck@[id] by {
                assert(public.discard[id] + on_stack(public.fireworks, id) + held(seen, id, 5)
                    <= starting_count(id));
            }
        }
        deck.remove_hand(&player_private_info.opponent_hand);
        proof {
            assert forall|id: int| 0 <= id < 25 implies #[trigger] deck@[id] == unseen(
                public,
                seen,
            )[id] by {
                assert(public.discard[id] + on_stack(public.fireworks, id) + held(seen, id, 5)
                    <= starting_count(id));
            }
            assert(deck@ =~= unseen(public, seen));
        }
        let ghost pile = deck@;
        match determinize_hints(&mut deck, &public_info.player_hints, rng) {
            Some((player_hand, prob)) => {
                proof {
                    assert forall|id: int| 0 <= id < 25 implies #[trigger] public.discard[id]
                        + on_stack(public.fireworks, id) + held(player_hand@, id, 5) + held(
                        seen,
                        id,
                        5,
                    ) <= starting_count(id) by {
                        assert(held(player_hand@, id, 5) <= pile[id]);
                        assert(public.discard[id] + on_stack(public.fireworks, id) + held(
                            seen,
                            id,
                            5,
                        ) <= starting_count(id));
                    }
                }
                Some((PrivateInfo { opponent_hand: player_hand }, prob))
            },
            None => None,
        }
    }

    /// What both seats see of the table.
    fn public_info(&self) -> (info: PublicInfo)
        ensures
            info@ == self@.public(),
            info.discard == self.discard,
    {
        PublicInfo {
            player_hints: self.player_hints,
            opponent_hints: self.opponent_hints,
            discard: self.discard,
            blue_tokens: self.blue_tokens,
            black_tokens: self.black_tokens,
            fireworks: self.fireworks,
            last_round: self.last_round,
            last_round_turns_taken: self.last_round_turns_taken,
        }
    }

    /// The hand that one seat sees: the acting seat sees the other seat's
    /// hand, the other seat sees the acting seat's.
    fn private_info(&self, player_perspective: bool) -> (info: PrivateInfo)
        ensures
            info@ == if player_perspective {
                self.opponent_hand@
            } else {
                self.player_hand@
            },
    {
        PrivateInfo {
            opponent_hand: if player_perspective {
                self.opponent_hand
            } else {
                self.player_hand
            },
        }
    }

    /// The actions that the acting seat may take, each once: a play and,
    /// while a blue token is missing, a discard for every hint that one of
    /// its cards has, in the order of the slots; then, if a blue token is
    /// left, every color and then every rank that the other seat holds.
    fn actions(&self) -> (actions: Vec<Action>)
        ensures
            forall|action: Action| actions@.contains(action) <==> self@.legal(action),
            forall|j: int, k: int|
                0 <= j < k < actions@.len() ==> self@.place(actions@[j]) < self@.place(
                    actions@[k],
                ),
    {
        let ghost table = self@;
        let mut actions: Vec<Action> = Vec::new();

        // play & discard actions
        let mut i: usize = 0;
        while i < 5
            invariant
                i <= 5,
                table == self@,
                forall|k: int|
                    0 <= k < actions@.len() ==> table.legal(#[trigger] actions@[k]) && table.place(
                        actions@[k],
                    ) < 2 * i,
                forall|j: int|
                    0 <= j < i && !(#[trigger] table.player_hand[j]).is_blank()
                        ==> actions@.contains(Action::Play(table.player_hints[j])) && (
                    table.blue_tokens < 8 ==> actions@.contains(
                        Action::Discard(table.player_hints[j]),
                    )),
                forall|j: int, k: int|
                    0 <= j < k < actions@.len() ==> table.place(actions@[j]) < table.place(
                        actions@[k],
                    ),
            decreases 5 - i,
        {
            if self.player_hand[i].is_some() {
                let hint = self.player_hints[i];
                let play = Action::Play(hint);
                let discard = Action::Discard(hint);
                assert(table.holds(hint, i as int));
                proof {
                    if !actions@.contains(play) {
                        assert forall|j: int| 0 <= j < i implies !table.holds(hint, j) by {
                            if table.holds(hint, j) {
                                assert(!table.player_hand[j].is_blank());
                                assert(actions@.contains(Action::Play(table.player_hints[j])));
                            }
                        }
                        assert(table.first_slot(hint) == i);
                    }
                }
                if !contains_action(&actions, &play) {
                    let ghost before = actions@;
                    actions.push(play);
                    proof {
                        assert(actions@ == before.push(play));
                        lemma_held_is_legal(table, hint, i as int);
                        assert(table.place(play) == 2 * i);
                        assert forall|a: Action| before.contains(a) implies actions@.contains(
                            a,
                        ) by {
                            lemma_push_contains(before, play, a);
                        }
                        lemma_push_contains(before, play, play);
                    }
                }
                proof {
                    if table.blue_tokens < 8 && !actions@.contains(discard) {
                        assert forall|j: int| 0 <= j < i implies !table.holds(hint, j) by {
                            if table.holds(hint, j) {
                                assert(!table.player_hand[j].is_blank());
                                assert(actions@.contains(Action::Discard(table.player_hints[j])));
                            }
                        }
                        assert(table.first_slot(hint) == i);
                    }
                }
                if self.blue_tokens < 8 && !contains_action(&actions, &discard) {
                    let ghost before = actions@;
                    actions.push(discard);
                    proof {
                        assert(actions@ == before.push(discard));
                        lemma_held_is_legal(table, hint, i as int);
                        assert(table.place(discard) == 2 * i + 1);
                        assert forall|a: Action| before.contains(a) implies actions@.contains(
                            a,
                        ) by {
                            lemma_push_contains(before, discard, a);
                        }
                        lemma_push_contains(before, discard, discard);
                    }
                }
            }
            i += 1;
        }

        if self.blue_tokens > 0 {
            // color hint actions
            let mut c: u8 = 0;
            while c < 5
                invariant
                    c <= 5,
                    table == self@,
                    table.blue_tokens > 0,
                    hand_plain(self.opponent_hand@),
                    forall|k: int|
                        0 <= k < actions@.len() ==> table.legal(#[trigger] actions@[k])
                            && table.place(actions@[k]) < 10 + c,
                    forall|j: int|
                        0 <= j < 5 && !(#[trigger] table.player_hand[j]).is_blank()
                            ==> actions@.contains(Action::Play(table.player_hints[j])) && (
                        table.blue_tokens < 8 ==> actions@.contains(
                            Action::Discard(table.player_hints[j]),
                        )),
                    forall|color: Color|
                        color.index() < c && #[trigger] table.legal(Action::ColorHint(color))
                            ==> actions@.contains(Action::ColorHint(color)),
                    forall|j: int, k: int|
                        0 <= j < k < actions@.len() ==> table.place(actions@[j]) < table.place(
                            actions@[k],
                        ),
                decreases 5 - c,
            {
                let color = Color::from_id(c);
                let num_of_color: usize = count_color(&self.opponent_hand, color);
                let ghost before = actions@;
                if num_of_color > 0 {
                    actions.push(Action::ColorHint(color));
                    proof {
                        let slot = choose|slot: int|
                            0 <= slot < 5 && !self.opponent_hand@[slot].is_blank()
                                && self.opponent_hand@[slot].color_index() == color.index();
                        assert(table.shows_color(color, slot));
                    }
                }
                proof {
                    assert forall|a: Action| before.contains(a) implies actions@.contains(a) by {
                        if num_of_color > 0 {
                            lemma_push_contains(before, Action::ColorHint(color), a);
                        }
                    }
                    assert forall|other: Color|
                        other.index() < c + 1 && #[trigger] table.legal(
                            Action::ColorHint(other),
                        ) implies actions@.contains(Action::ColorHint(other)) by {
                        if other.index() == c {
                            lemma_color_known(other);
                            assert(other == color);
                            let slot = choose|slot: int| table.shows_color(other, slot);
                            assert(table.shows_color(other, slot));
                            lemma_push_contains(
                                before,
                                Action::ColorHint(color),
                                Action::ColorHint(color),
                            );
                        }
                    }
                }
                c += 1;
            }

            // suit hint actions
            let mut r: u8 = 0;
            while r < 5
                invariant
                    r <= 5,
                    table == self@,
                    table.blue_tokens > 0,
                    hand_plain(self.opponent_hand@),
                    forall|k: int|
                        0 <= k < actions@.len() ==> table.legal(#[trigger] actions@[k])
                            && table.place(actions@[k]) < 15 + r,
                    forall|j: int|
                        0 <= j < 5 && !(#[trigger] table.player_hand[j]).is_blank()
                            ==> actions@.contains(Action::Play(table.player_hints[j])) && (
                        table.blue_tokens < 8 ==> actions@.contains(
                            Action::Discard(table.player_hints[j]),
                        )),
                    forall|color: Color|
                        #[trigger] table.legal(Action::ColorHint(color)) ==> actions@.contains(
                            Action::ColorHint(color),
                        ),
                    forall|suit: Suit|
                        suit.index() < r && #[trigger] table.legal(Action::SuitHint(suit))
                            ==> actions@.contains(Action::SuitHint(suit)),
                    forall|j: int, k: int|
                        0 <= j < k < actions@.len() ==> table.place(actions@[j]) < table.place(
                            actions@[k],
                        ),
                decreases 5 - r,
            {
                let suit = Suit::from_id(r);
                let num_in_suit: usize = count_suit(&self.opponent_hand, suit);
                let ghost before = actions@;
                if num_in_suit > 0 {
                    actions.push(Action::SuitHint(suit));
                    proof {
                        let slot = choose|slot: int|
                            0 <= slot < 5 && !self.opponent_hand@[slot].is_blank()
                                && self.opponent_hand@[slot].suit_index() == suit.index();
                        assert(table.shows_suit(suit, slot));
                    }
                }
                proof {
                    assert forall|a: Action| before.contains(a) implies actions@.contains(a) by {
                        if num_in_suit > 0 {
                            lemma_push_contains(before, Action::SuitHint(suit), a);
                        }
                    }
                    assert forall|other: Suit|
                        other.index() < r + 1 && #[trigger] table.legal(
                            Action::SuitHint(other),
                        ) implies actions@.contains(Action::SuitHint(other)) by {
                        if other.index() == r {
                            lemma_suit_known(other);
                            assert(other == suit);
                            let slot = choose|slot: int| table.shows_suit(other, slot);
                            assert(table.shows_suit(other, slot));
                            lemma_push_contains(
                                before,
                                Action::SuitHint(suit),
                                Action::SuitHint(suit),
                            );
                        }
                    }
                }
                r += 1;
            }
        }

        proof {
            assert forall|action: Action| table.legal(action) implies actions@.contains(action) by {
                match action {
                    Action::Play(hint) => {
                        let slot = choose|slot: int| table.holds(hint, slot);
                        assert(!table.player_hand[slot].is_blank());
                    },
                    Action::Discard(hint) => {
                        let slot = choose|slot: int| table.holds(hint, slot);
                        assert(!table.player_hand[slot].is_blank());
                    },
                    Action::ColorHint(color) => {
                        lemma_color_known(color);
                    },
                    Action::SuitHint(suit) => {
                        lemma_suit_known(suit);
                    },
                }
            }
            assert forall|action: Action| actions@.contains(action) implies table.legal(action)
                && table.admits(action) by {
                let k = choose|k: int| 0 <= k < actions@.len() && actions@[k] == action;
                assert(table.legal(actions@[k]));
                lemma_legal_admits(table, action);
            }
        }
        actions
    }

    /// The acting seat takes `action`, and the seats change places. A play or
    /// a discard takes one of the slots that have the action's hint, each as
    /// likely as any other. A played card that is the next of its color goes
    /// onto the fireworks, and a Five brings back a blue token while one is
    /// missing; any other played card is discarded for a black token. A
    /// discard brings back a blue token. Either way the slot is filled from
    /// the draw pile.
    fn step(&mut self, action: &Action, rng: &mut StdRng)
        ensures
            final(self).wf(),
            exists|slot: int, drawn: Card|
                old(self)@.outcome(*action, slot, drawn) && final(self)@ == old(self)@.step(
                    *action,
                    slot,
                    drawn,
                ),
    {
        let ghost start = self@;
        let ghost mut used: int = 0;
        let ghost mut drawn: Card = Card { id: 0 };
        proof {
            lemma_within_deck(self.discard@);
            lemma_sound_is_plain(self.opponent_hand@, self.opponent_hints@);
        }
        match action {
            Action::ColorHint(color) => {
                self.tell_color(*color);
            },
            Action::SuitHint(suit) => {
                self.tell_suit(*suit);
            },
            Action::Play(hint) => {
                let slots = self.hint_matches(&self.player_hints, hint);
                proof {
                    let held_slot = choose|slot: int| start.holds(*hint, slot);
                    assert(slots@.contains(held_slot as usize));
                }
                let i: usize = choose_from(&slots, rng).unwrap();
                assert(slot_sound(self.player_hand@[i as int], self.player_hints@[i as int]));
                proof {
                    let held_slot = choose|slot: int| start.holds(*hint, slot);
                    assert(slot_sound(
                        self.player_hand@[held_slot],
                        self.player_hints@[held_slot],
                    ));
                    assert(start.holds(*hint, i as int));
                }
                let card = self.player_hand[i];
                if self.fireworks.accepts(card) {
                    self.fireworks.add_card(card);
                    if self.fireworks.is_color_complete(card.color()) {
                        self.blue_tokens += 1;
                        if self.blue_tokens > 8 {
                            self.blue_tokens = 8;
                        }
                    }
                } else {
                    self.discard_at(i);
                    self.black_tokens -= 1;
                }
                assert(self@ == start.play(i as int));
                self.draw_into(rng, i);
                proof {
                    used = i as int;
                    drawn = self.player_hand@[i as int];
                    assert(start.play(i as int).deck == start.deck);
                }
            },
            Action::Discard(hint) => {
                let slots = self.hint_matches(&self.player_hints, hint);
                proof {
                    let held_slot = choose|slot: int| start.holds(*hint, slot);
                    assert(slots@.contains(held_slot as usize));
                }
                let i: usize = choose_from(&slots, rng).unwrap();
                assert(slot_sound(self.player_hand@[i as int], self.player_hints@[i as int]));
                proof {
                    let held_slot = choose|slot: int| start.holds(*hint, slot);
                    assert(slot_sound(
                        self.player_hand@[held_slot],
                        self.player_hints@[held_slot],
                    ));
                    assert(start.holds(*hint, i as int));
                }
                self.discard_at(i);
                self.draw_into(rng, i);
                if self.blue_tokens < 8 {
                    self.blue_tokens += 1;
                }
                proof {
                    used = i as int;
                    drawn = self.player_hand@[i as int];
                    assert(start.toss(i as int).deck == start.deck);
                }
            },
        }
        proof {
            lemma_step_preserves(start, *action, used, drawn);
        }

        if self.last_round {
            proof {
                if start.last_round {
                    lemma_last_round_open(start);
                }
            }
            self.last_round_turns_taken += 1;
        }
        let hand = self.player_hand;
        self.player_hand = self.opponent_hand;
        self.opponent_hand = hand;
        let hints = self.player_hints;
        self.player_hints = self.opponent_hints;
        self.opponent_hints = hints;
        assert(self@ == start.step(*action, used, drawn));
        assert(start.outcome(*action, used, drawn));
    }

    /// A table that agrees with what a seat knows: what is public, the hand
    /// that the seat sees, and a sampled hand for the seat itself. `None`
    /// when no hand was found.
    fn determinize(
        public_info: &PublicInfo,
        player_private_info: &PrivateInfo,
        rng: &mut StdRng,
    ) -> (sampled: Option<(Self, Ratio)>)
        ensures
            sampled matches Some((env, weight)) ==> {
                &&& env@.public() == public_info@
                &&& env.discard == public_info.discard
                &&& env.opponent_hand == player_private_info.opponent_hand
                &&& hand_agrees(env.player_hand@, public_info.player_hints@)
                &&& env@ == State::rebuilt(public_info@, env.player_hand@, player_private_info@)
                &&& env.deck.wf()
                &&& weight.num == weight_num(
                    unseen(public_info@, player_private_info@),
                    public_info.player_hints@,
                    env.player_hand@,
                    5,
                )
                &&& weight.den == weight_den(
                    unseen(public_info@, player_private_info@),
                    public_info.player_hints@,
                    env.player_hand@,
                    5,
                )
                &&& weight.num <= weight.den
                &&& weight.den >= 1
                &&& knowable(*public_info, player_private_info@) ==> env.wf()
            },
            surely_fillable(
                unseen(public_info@, player_private_info@),
                public_info.player_hints@,
            ) ==> sampled is Some,
            sampled is None ==> dead_end(
                unseen(public_info@, player_private_info@),
                public_info.player_hints@,
            ),
    {
        match Self::sample_opponent_info(public_info, player_private_info, rng) {
            Some((opponent_private_info, probability)) => {
                proof {
                    assert(hand_plain(opponent_private_info@)) by {
                        assert forall|i: int| 0 <= i < 5 implies opponent_private_info@[i].is_blank()
                            || (#[trigger] opponent_private_info@[i]).is_card() by {
                            if public_info.player_hints@[i].is_live() {
                                assert(public_info.player_hints@[i].admits(
                                    opponent_private_info@[i],
                                ));
                            }
                        }
                    }
                }
                let env = Self::new(public_info, player_private_info, &opponent_private_info);
                proof {
                    if knowable(*public_info, player_private_info@) {
                        lemma_agreeing_is_sound(
                            opponent_private_info@,
                            public_info.player_hints@,
                        );
                        lemma_filled_is_live(
                            opponent_private_info@,
                            public_info.player_hints@,
                            5,
                        );
                        lemma_filled_is_live(
                            player_private_info@,
                            public_info.opponent_hints@,
                            5,
                        );
                    }
                }
                let ghost table = env;
                assert(table.built_from(public_info, player_private_info, &opponent_private_info));
                assert(Self::can_rebuild(public_info, player_private_info, &opponent_private_info));
                let found = Some((env, probability));
                assert((found->0).0 == table && (found->0).1 == probability);
                assert(exists|sample: PrivateInfo|
                    {
                        &&& #[trigger] Self::sample_of(
                            public_info,
                            player_private_info,
                            &sample,
                            (found->0).1,
                        )
                        &&& Self::can_rebuild(public_info, player_private_info, &sample)
                        &&& (found->0).0.built_from(public_info, player_private_info, &sample)
                    }) by {
                    assert(Self::sample_of(
                        public_info,
                        player_private_info,
                        &opponent_private_info,
                        probability,
                    ));
                }
                found
            },
            None => None,
        }
    }
}

/// The reward is counted in seventy-fifths.
pub const REWARD_SCALE: u64 = 75;

/// An upper bound on the cards that can still be played: for each color the
/// ranks from the next one on, up to the first of which every copy has been
/// discarded.
pub fn possible_future_rewards(fireworks: &Fireworks, discard: &CardCollection) -> (bound: u8)
    requires
        discard.wf(),
        discard.within_deck(),
    ensures
        bound == future(fireworks@, discard@),
        bound <= 25,
{
    let mut cards_in_play = CardCollection::starting_deck();
    assert(cards_in_play.covers(discard@)) by {
        assert forall|id: int| 0 <= id < 25 implies #[trigger] discard@[id] <= cards_in_play@[id] by {
            assert(discard@[id] <= starting_count(id));
        }
    }
    cards_in_play.subtract(discard);

    let mut future_rewards: u8 = 0;
    let mut color: u8 = 0;
    while color < 5
        invariant
            color <= 5,
            future_rewards == future_upto(fireworks@, discard@, color as int),
            future_rewards <= 5 * color,
            forall|id: int|
                0 <= id < 25 ==> #[trigger] cards_in_play@[id] == starting_count(id) - discard@[id],
        decreases 5 - color,
    {
        let played_suit: u8 = fireworks.0[color as usize];
        let mut suit: u8 = played_suit;
        while suit < 5
            invariant
                color < 5,
                played_suit <= suit,
                suit <= 5 || suit == played_suit,
                future_rewards + open_run(discard@, color as int, suit as int) == future_upto(
                    fireworks@,
                    discard@,
                    color as int,
                ) + open_run(discard@, color as int, played_suit as int),
                future_rewards <= 5 * color + (suit - played_suit),
                forall|id: int|
                    0 <= id < 25 ==> #[trigger] cards_in_play@[id] == starting_count(id)
                        - discard@[id],
            ensures
                future_rewards == future_upto(fireworks@, discard@, color as int) + open_run(
                    discard@,
                    color as int,
                    played_suit as int,
                ),
                future_rewards <= 5 * color + 5,
            decreases 5 - suit,
        {
            let id: u8 = Card::parts_id(color, suit);
            assert(cards_in_play@[id as int] == starting_count(id as int) - discard@[id as int]);
            if cards_in_play.counts[id as usize] == 0 {
                break ;
            }
            future_rewards += 1;
            suit += 1;
        }
        assert(fireworks@[color as int] == played_suit);
        color += 1;
    }
    future_rewards
}

/// How many of the five hints belong to a slot that holds a card.
pub fn count_live(hints: &[Hint; 5]) -> (count: u8)
    ensures
        count == live(hints@, 5),
        count <= 5,
{
    let mut count: u8 = 0;
    let mut i: usize = 0;
    while i < 5
        invariant
            i <= 5,
            count == live(hints@, i as int),
            count <= i,
        decreases 5 - i,
    {
        if hints[i].is_some() {
            count += 1;
        }
        i += 1;
    }
    count
}

impl HasEnd for PublicInfo {
    open spec fn end_defined(&self) -> bool {
        self.wf()
    }

    open spec fn over(&self) -> bool {
        self@.ended()
    }

    fn is_over(&self) -> (over: bool) {
        proof {
            lemma_within_deck(self.discard@);
            lemma_score_bounds(self.fireworks@);
        }
        let num_player_cards: u8 = count_live(&self.player_hints);
        let num_opponent_cards: u8 = count_live(&self.opponent_hints);
        let num_fireworks: u8 = self.fireworks.total();
        self.black_tokens == 1 || num_fireworks == 25 || (self.discard.total + num_player_cards
            + num_opponent_cards + num_fireworks == 50 && self.last_round
            && self.last_round_turns_taken == 2)
    }
}

impl HasReward for PublicInfo {
    type Reward = Ratio;

    open spec fn reward_defined(&self) -> bool {
        self.wf()
    }

    open spec fn worth(&self) -> Ratio {
        Ratio { num: self@.reward_parts() as u64, den: REWARD_SCALE }
    }

    /// The score as a share of twenty-five, and on top of it the share of
    /// the cards that can still be played, scaled by the strikes that are
    /// left out of three.
    fn reward(&self) -> (reward: Ratio)
        ensures
            reward.den == 75,
            reward.num == self@.reward_parts(),
            reward.num <= 150,
    {
        proof {
            lemma_score_bounds(self.fireworks@);
        }
        let score: u64 = self.fireworks.total() as u64;
        let strikes_left: u64 = (self.black_tokens - 1) as u64;
        let future_reward: u64 = possible_future_rewards(&self.fireworks, &self.discard) as u64;
        assert(strikes_left * future_reward <= 75) by (nonlinear_arith)
            requires
                strikes_left <= 3,
                future_reward <= 25,
        ;
        Ratio { num: 3 * score + strikes_left * future_reward, den: REWARD_SCALE }
    }
}

impl HasEnd for HanabiEnv {
    open spec fn end_defined(&self) -> bool {
        self@.public().wf() && self.discard.wf()
    }

    open spec fn over(&self) -> bool {
        self@.ended()
    }

    fn is_over(&self) -> (over: bool) {
        self.public_info().is_over()
    }
}

impl HasReward for HanabiEnv {
    type Reward = Ratio;

    open spec fn reward_defined(&self) -> bool {
        self@.public().wf() && self.discard.wf()
    }

    open spec fn worth(&self) -> Ratio {
        Ratio { num: self@.public().reward_parts() as u64, den: REWARD_SCALE }
    }

    fn reward(&self) -> (reward: Ratio)
        ensures
            reward.den == 75,
            reward.num == self@.public().reward_parts(),
            reward.num <= 150,
    {
        self.public_info().reward()
    }
}

/// What a seat knows makes a table: what is public is well formed, the hand
/// that the seat sees is sound under its hints, a full deck has the cards for
/// the discard pile, the fireworks and that hand, and once the last round has
/// begun no card is left to draw.
pub open spec fn knowable(public_info: PublicInfo, seen: Seq<Card>) -> bool {
    &&& public_info.wf()
    &&& hand_sound(seen, public_info.opponent_hints@)
    &&& accounted(public_info@, seen)
    &&& public_info.last_round ==> public_info@.deck_spent()
}

/// Deals five cards from the pile, slot by slot. A slot stays empty where
/// the pile has run out.
pub fn draw_hand(deck: &mut CardCollection, rng: &mut StdRng) -> (hand: [Card; 5])
    requires
        old(deck).wf(),
    ensures
        final(deck).wf(),
        hand_plain(hand@),
        final(deck).total == old(deck).total - filled(hand@, 5),
        forall|id: int|
            0 <= id < 25 ==> #[trigger] final(deck)@[id] == old(deck)@[id] - held(hand@, id, 5),
        old(deck).total >= 5 ==> forall|i: int| 0 <= i < 5 ==> (#[trigger] hand@[i]).is_card(),
        old(deck).total >= 5 ==> filled(hand@, 5) == 5,
{
    let mut hand = [Card::none();5];
    let mut i: usize = 0;
    while i < 5
        invariant
            i <= 5,
            deck.wf(),
            forall|j: int| 0 <= j < 5 ==> hand@[j].is_blank() || (#[trigger] hand@[j]).is_card(),
            deck.total == old(deck).total - filled(hand@, i as int),
            forall|id: int|
                0 <= id < 25 ==> #[trigger] deck@[id] == old(deck)@[id] - held(hand@, id, i as int),
            old(deck).total >= 5 ==> filled(hand@, i as int) == i,
            old(deck).total >= 5 ==> forall|j: int| 0 <= j < i ==> (#[trigger] hand@[j]).is_card(),
        decreases 5 - i,
    {
        let ghost before = hand@;
        let ghost pile = deck@;
        let card = deck.pop(rng);
        hand[i] = card;
        proof {
            assert(hand@ == before.update(i as int, card));
            lemma_filled_update(before, i as int, card, i as int);
            lemma_filled_update(before, i as int, card, i as int + 1);
            assert forall|id: int| 0 <= id < 25 implies #[trigger] deck@[id] == old(deck)@[id]
                - held(hand@, id, i as int + 1) by {
                lemma_held_update(before, i as int, card, id, i as int);
                lemma_held_update(before, i as int, card, id, i as int + 1);
                assert(pile[id] == old(deck)@[id] - held(before, id, i as int));
            }
        }
        i += 1;
    }
    hand
}

/// Whether the list holds the action.
pub fn contains_action(actions: &Vec<Action>, action: &Action) -> (found: bool)
    ensures
        found == actions@.contains(*action),
{
    let mut k: usize = 0;
    while k < actions.len()
        invariant
            k <= actions@.len(),
            forall|j: int| 0 <= j < k ==> actions@[j] != *action,
        decreases actions@.len() - k,
    {
        if actions[k] == *action {
            return true;
        }
        k += 1;
    }
    false
}

/// How many slots of a hand hold a card of the color `color`.
pub fn count_color(hand: &[Card; 5], color: Color) -> (count: usize)
    requires
        hand_plain(hand@),
    ensures
        count == of_color(hand@, color.index(), 5),
        count <= 5,
        count > 0 <==> exists|slot: int|
            0 <= slot < 5 && !hand@[slot].is_blank() && hand@[slot].color_index() == color.index(),
{
    let mut count: usize = 0;
    let mut i: usize = 0;
    while i < 5
        invariant
            i <= 5,
            count <= i,
            count == of_color(hand@, color.index(), i as int),
            hand_plain(hand@),
            count > 0 <==> exists|slot: int|
                0 <= slot < i && !hand@[slot].is_blank() && hand@[slot].color_index()
                    == color.index(),
        decreases 5 - i,
    {
        let card = hand[i];
        assert(card.is_blank() || hand@[i as int].is_card());
        if card.is_some() && card.color() == color {
            count += 1;
        }
        i += 1;
    }
    count
}

/// How many slots of a hand hold a card of the rank `suit`.
pub fn count_suit(hand: &[Card; 5], suit: Suit) -> (count: usize)
    ensures
        count == of_suit(hand@, suit.index(), 5),
        count <= 5,
        count > 0 <==> exists|slot: int|
            0 <= slot < 5 && !hand@[slot].is_blank() && hand@[slot].suit_index() == suit.index(),
{
    let mut count: usize = 0;
    let mut i: usize = 0;
    while i < 5
        invariant
            i <= 5,
            count <= i,
            count == of_suit(hand@, suit.index(), i as int),
            count > 0 <==> exists|slot: int|
                0 <= slot < i && !hand@[slot].is_blank() && hand@[slot].suit_index()
                    == suit.index(),
        decreases 5 - i,
    {
        let card = hand[i];
        if card.is_some() && card.suit() == suit {
            count += 1;
        }
        i += 1;
    }
    count
}


} // verus!
