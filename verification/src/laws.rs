//! What holds of every game: the properties of the model that the rest of
//! the library relies on, each proved from the definitions in `state`.

use crate::card::Card;
use crate::collection::{filled, held, starting_count, sum_counts};
use crate::counting::lemma_counted;
use crate::env::Env;
use crate::facts::{
    lemma_future_bounds, lemma_score_bounds, lemma_seat_knows, lemma_sound_is_plain,
};
use crate::hanabi_env::{knowable, Action, HanabiEnv, PrivateInfo, PublicInfo};
use crate::preservation::{
    lemma_filled_is_live, lemma_filled_update, lemma_told_color, lemma_told_suit,
};
use crate::hint::Hint;
use crate::state::{future, held_on, live, on_stack, slot_sound, Public, State};
use vstd::prelude::*;

verus! {

/// Conservation: on a well-formed table the draw pile, the discard pile, the
/// fireworks and the filled slots of both hands hold fifty cards together,
/// and every card identity as often as a full deck does.
pub proof fn lemma_conservation(s: State)
    requires
        s.wf(),
    ensures
        s.deck_size() + sum_counts(s.discard, 25) + live(s.player_hints, 5) + live(
            s.opponent_hints,
            5,
        ) + s.public().score() == 50,
        s.deck_size() + sum_counts(s.discard, 25) + filled(s.player_hand, 5) + filled(
            s.opponent_hand,
            5,
        ) + s.public().score() == 50,
        forall|id: int| 0 <= id < 25 ==> #[trigger] held_on(s, id) == starting_count(id),
{
    lemma_counted(s);
    lemma_filled_is_live(s.player_hand, s.player_hints, 5);
    lemma_filled_is_live(s.opponent_hand, s.opponent_hints, 5);
    assert forall|id: int| 0 <= id < 25 implies #[trigger] held_on(s, id) == starting_count(
        id,
    ) by {
        assert(s.deck[id] + s.discard[id] + on_stack(s.fireworks, id) + held(
            s.player_hand,
            id,
            5,
        ) + held(s.opponent_hand, id, 5) == starting_count(id));
    }
}

/// Hint soundness: on a well-formed table the hint of every filled slot
/// admits the card in it, and an empty slot has the hint of an empty slot.
pub proof fn lemma_hints_sound(s: State, i: int)
    requires
        s.wf(),
        0 <= i < 5,
    ensures
        !s.player_hand[i].is_blank() ==> s.player_hints[i].admits(s.player_hand[i]),
        !s.opponent_hand[i].is_blank() ==> s.opponent_hints[i].admits(s.opponent_hand[i]),
        s.player_hand[i].is_blank() <==> !s.player_hints[i].is_live(),
        s.opponent_hand[i].is_blank() <==> !s.opponent_hints[i].is_live(),
{
    assert(slot_sound(s.player_hand[i], s.player_hints[i]));
    assert(slot_sound(s.opponent_hand[i], s.opponent_hints[i]));
}

/// Hint monotonicity: across a step every slot keeps its card and a hint
/// that admits no card it did not admit before, but for the one slot that a
/// play or a discard fills anew. The seats have changed places: what was
/// the other seat's hand is the acting seat's after the step. This holds of
/// every step from a well-formed table, whether or not the game is on.
pub proof fn lemma_hints_narrow(s: State, action: Action, slot: int, drawn: Card, i: int)
    requires
        s.wf(),
        action is Play || action is Discard ==> 0 <= slot < 5,
        0 <= i < 5,
    ensures
        s.step(action, slot, drawn).player_hand == s.opponent_hand,
        s.step(action, slot, drawn).player_hints[i].narrows(s.opponent_hints[i]),
        action is Play || action is Discard ==> s.step(action, slot, drawn).player_hints
            == s.opponent_hints,
        (action is ColorHint || action is SuitHint || i != slot) ==> s.step(
            action,
            slot,
            drawn,
        ).opponent_hand[i] == s.player_hand[i] && s.step(action, slot, drawn).opponent_hints[i]
            == s.player_hints[i],
{
    assert(slot_sound(s.opponent_hand[i], s.opponent_hints[i]));
    match action {
        Action::ColorHint(color) => {
            lemma_told_color(s.opponent_hints[i], s.opponent_hand[i], color);
        },
        Action::SuitHint(suit) => {
            lemma_told_suit(s.opponent_hints[i], s.opponent_hand[i], suit);
        },
        Action::Play(_) => {},
        Action::Discard(_) => {},
    }
}

/// The last round counts every turn: once it has begun, whatever action is
/// taken and however its chances fall, one turn more is counted, the last
/// round stays on and the draw pile stays empty.
pub proof fn lemma_last_round_counts(s: State, action: Action, slot: int, drawn: Card)
    requires
        s.wf(),
        s.last_round,
        s.outcome(action, slot, drawn),
    ensures
        s.step(action, slot, drawn).last_round,
        s.step(action, slot, drawn).last_round_turns_taken == s.last_round_turns_taken + 1,
        s.step(action, slot, drawn).deck_size() == 0,
{
}

/// The last round begins with the first draw that finds the draw pile
/// empty: a play or a discard on an empty pile leaves its slot empty, with
/// the hint of an empty slot, and is counted as the first turn of the last
/// round.
pub proof fn lemma_last_round_begins(s: State, action: Action, slot: int, drawn: Card)
    requires
        s.wf(),
        s.deck_size() == 0,
        !s.last_round,
        action is Play || action is Discard,
        s.outcome(action, slot, drawn),
    ensures
        s.step(action, slot, drawn).last_round,
        s.step(action, slot, drawn).last_round_turns_taken == 1,
        s.step(action, slot, drawn).deck_size() == 0,
        s.step(action, slot, drawn).opponent_hand[slot].is_blank(),
        s.step(action, slot, drawn).opponent_hints[slot] == Hint::absent(),
        filled(s.step(action, slot, drawn).opponent_hand, 5) == filled(s.player_hand, 5) - 1,
{
    let t = s.step(action, slot, drawn);
    assert(t.opponent_hand =~= s.player_hand.update(slot, drawn));
    lemma_filled_update(s.player_hand, slot, drawn, 5);
}

/// Score bounds: the score lies between 0 and 25, and the reward, counted in
/// seventy-fifths, between 0 and 150, that is between 0 and 2.
pub proof fn lemma_reward_bounds(public: Public)
    requires
        public.wf(),
    ensures
        0 <= public.score() <= 25,
        0 <= future(public.fireworks, public.discard) <= 25,
        0 <= public.reward_parts() <= 150,
{
    lemma_score_bounds(public.fireworks);
    lemma_future_bounds(public.fireworks, public.discard, 5);
    let open = future(public.fireworks, public.discard);
    let strikes_left = public.black_tokens - 1;
    assert(0 <= strikes_left * open <= 75) by (nonlinear_arith)
        requires
            0 <= strikes_left <= 3,
            0 <= open <= 25,
    ;
}

/// The reward after a strike: a wrong play at two black tokens ends the
/// game, and the reward of the table after it is three seventy-fifths for
/// every card on the fireworks, whatever the other slots hold and whatever
/// is drawn.
pub proof fn lemma_reward_after_last_strike(s: State, hint: Hint, slot: int, drawn: Card)
    requires
        s.wf(),
        s.black_tokens == 2,
        s.outcome(Action::Play(hint), slot, drawn),
        s.fireworks[s.player_hand[slot].color_index() as int] != s.player_hand[slot].suit_index(),
    ensures
        s.step(Action::Play(hint), slot, drawn).ended(),
        s.step(Action::Play(hint), slot, drawn).public().reward_parts() == 3 * s.public().score(),
{
    let t = s.step(Action::Play(hint), slot, drawn);
    assert(t.black_tokens == 1);
    assert(t.fireworks == s.fireworks);
    assert((t.black_tokens - 1) * future(t.fireworks, t.discard) == 0) by (nonlinear_arith)
        requires
            t.black_tokens == 1,
    ;
}

/// Hint exhaustion: without a blue token no hint is legal; a seat can only
/// play or discard.
pub proof fn lemma_no_hint_without_token(s: State, action: Action)
    requires
        s.blue_tokens == 0,
        s.legal(action),
    ensures
        action is Play || action is Discard,
{
}

/// With all eight blue tokens on the table no discard is legal.
pub proof fn lemma_no_discard_with_all_tokens(s: State, action: Action)
    requires
        s.blue_tokens == 8,
        s.legal(action),
    ensures
        !(action is Discard),
{
}

/// Token saturation: no move brings the blue tokens above eight. A Five
/// that completes its color brings one back only while one is missing, and
/// so does a discard.
pub proof fn lemma_tokens_saturate(s: State, slot: int)
    requires
        s.wf(),
        0 <= slot < 5,
    ensures
        s.play(slot).blue_tokens <= 8,
        s.blue_tokens == 8 ==> s.play(slot).blue_tokens == 8,
        s.blue_tokens < 8 && s.player_hand[slot].suit_index() == 4
            && s.fireworks[s.player_hand[slot].color_index() as int] == 4 ==> s.play(
            slot,
        ).blue_tokens == s.blue_tokens + 1,
        s.regain().blue_tokens <= 8,
        s.blue_tokens == 8 ==> s.regain().blue_tokens == 8,
{
}

/// Determinization starts from any table of a game: what is public of a
/// well-formed table and the hand that either seat sees can be handed to the
/// sampler, and from the acting seat they make a table again, so that every
/// table sampled there is well formed. What the sampler gives back is
/// stated with `HanabiEnv::determinize`: the same public part, the hand that
/// was seen, and an own hand that agrees with every hint.
pub proof fn lemma_can_determinize(
    env: HanabiEnv,
    public_info: PublicInfo,
    private_info: PrivateInfo,
    player_perspective: bool,
)
    requires
        env.wf(),
        public_info@ == env@.public(),
        public_info.discard == env.discard,
        private_info@ == if player_perspective {
            env@.opponent_hand
        } else {
            env@.player_hand
        },
    ensures
        HanabiEnv::can_sample(&public_info, &private_info),
        player_perspective ==> knowable(public_info, private_info@),
{
    let seen = PrivateInfo { opponent_hand: env.opponent_hand };
    lemma_seat_knows(env, public_info, seen);
    lemma_sound_is_plain(env@.player_hand, env@.player_hints);
    lemma_sound_is_plain(env@.opponent_hand, env@.opponent_hints);
}

/// The table is determined by what the two seats know: rebuilding it from
/// what is public and the two hands gives the same table, draw pile
/// included.
pub proof fn lemma_rebuilt_is_same(s: State)
    requires
        s.wf(),
    ensures
        State::rebuilt(s.public(), s.player_hand, s.opponent_hand) == s,
        State::fits(s.public(), s.player_hand, s.opponent_hand),
{
    let t = State::rebuilt(s.public(), s.player_hand, s.opponent_hand);
    assert forall|id: int| 0 <= id < 25 implies #[trigger] t.deck[id] == s.deck[id] by {
        assert(held_on(s, id) == starting_count(id));
    }
    assert(t.deck =~= s.deck);
    assert forall|id: int| 0 <= id < 25 implies #[trigger] s.public().discard[id] + on_stack(
        s.public().fireworks,
        id,
    ) + held(s.player_hand, id, 5) + held(s.opponent_hand, id, 5) <= starting_count(id) by {
        assert(held_on(s, id) == starting_count(id));
    }
}

} // verus!
