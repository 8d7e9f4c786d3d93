//! Facts about the model that the proofs of the game rest on.

use crate::card::{Card, Color, Suit};
use crate::collection::{held, lemma_held_grows, lemma_sum_covers, starting_count, sum_counts};
use crate::counting::lemma_counted;
use crate::determinize::hand_agrees;
use crate::hanabi_env::{knowable, Action, HanabiEnv, PrivateInfo, PublicInfo};
use crate::hint::Hint;
use crate::preservation::lemma_filled_is_live;
use crate::state::{
    accounted, future_upto, hand_plain, hand_sound, on_stack, open_run, slot_sound, State,
};
use vstd::prelude::*;

verus! {

/// A run of open ranks is never longer than the ranks that are left.
pub proof fn lemma_open_run_bounds(discard: Seq<u8>, color: int, from: int)
    requires
        0 <= from <= 5,
    ensures
        0 <= open_run(discard, color, from) <= 5 - from,
    decreases 5 - from,
{
    if from < 5 {
        lemma_open_run_bounds(discard, color, from + 1);
    }
}

/// Over `n` colors at most five cards each can still be played.
pub proof fn lemma_future_bounds(fireworks: Seq<u8>, discard: Seq<u8>, n: int)
    requires
        0 <= n,
    ensures
        0 <= future_upto(fireworks, discard, n) <= 5 * n,
    decreases n,
{
    if n > 0 {
        lemma_future_bounds(fireworks, discard, n - 1);
        if fireworks[n - 1] <= 5 {
            lemma_open_run_bounds(discard, n - 1, fireworks[n - 1] as int);
        }
    }
}

/// A pile within a full deck holds at most fifty cards.
pub proof fn lemma_within_deck(counts: Seq<u8>)
    requires
        counts.len() == 25,
        forall|id: int| 0 <= id < 25 ==> #[trigger] counts[id] <= starting_count(id),
    ensures
        sum_counts(counts, 25) <= 50,
{
    let full = Seq::new(25, |id: int| starting_count(id) as u8);
    assert(sum_counts(full, 25) == 50) by {
        reveal_with_fuel(sum_counts, 26);
    }
    assert forall|i: int| 0 <= i < 25 implies #[trigger] counts[i] <= full[i] by {
        assert(counts[i] <= starting_count(i));
    }
    lemma_sum_covers(full, counts, 25);
}

/// Stacks of at most five cards hold at most twenty-five.
pub proof fn lemma_score_bounds(fireworks: Seq<u8>)
    requires
        fireworks.len() == 5,
        forall|c: int| 0 <= c < 5 ==> #[trigger] fireworks[c] <= 5,
    ensures
        0 <= sum_counts(fireworks, 5) <= 25,
{
    reveal_with_fuel(sum_counts, 6);
    assert(fireworks[0] <= 5);
    assert(fireworks[1] <= 5);
    assert(fireworks[2] <= 5);
    assert(fireworks[3] <= 5);
    assert(fireworks[4] <= 5);
}

/// A list with one more entry holds that entry and what it held before.
pub proof fn lemma_push_contains<T>(list: Seq<T>, last: T, item: T)
    ensures
        list.push(last).contains(item) <==> (list.contains(item) || item == last),
{
    let longer = list.push(last);
    if list.contains(item) {
        let k = choose|k: int| 0 <= k < list.len() && list[k] == item;
        assert(longer[k] == item);
    }
    if item == last {
        assert(longer[list.len() as int] == item);
    }
    if longer.contains(item) {
        let k = choose|k: int| 0 <= k < longer.len() && longer[k] == item;
        if k < list.len() {
            assert(list[k] == item);
        }
    }
}

/// On a well-formed table what is public and the hand that the acting seat
/// sees make a table again; and a full deck has the cards for what is public
/// and either hand.
pub proof fn lemma_seat_knows(env: HanabiEnv, public_info: PublicInfo, seen: PrivateInfo)
    requires
        env.wf(),
        public_info@ == env@.public(),
        public_info.discard == env.discard,
        seen@ == env@.opponent_hand,
    ensures
        knowable(public_info, seen@),
        accounted(public_info@, env@.player_hand),
{
    let s = env@;
    assert forall|id: int| 0 <= id < 25 implies #[trigger] s.discard[id] + on_stack(
        s.fireworks,
        id,
    ) + held(s.opponent_hand, id, 5) <= starting_count(id) && s.discard[id] + on_stack(
        s.fireworks,
        id,
    ) + held(s.player_hand, id, 5) <= starting_count(id) by {
        lemma_held_grows(s.player_hand, id, 0, 5);
        lemma_held_grows(s.opponent_hand, id, 0, 5);
        assert(s.deck[id] + s.discard[id] + on_stack(s.fireworks, id) + held(
            s.player_hand,
            id,
            5,
        ) + held(s.opponent_hand, id, 5) == starting_count(id));
    }
    lemma_filled_is_live(s.player_hand, s.player_hints, 5);
    lemma_filled_is_live(s.opponent_hand, s.opponent_hints, 5);
    lemma_counted(s);
}

/// Every slot of a sound hand is empty or holds a real card.
pub proof fn lemma_sound_is_plain(hand: Seq<Card>, hints: Seq<Hint>)
    requires
        hand_sound(hand, hints),
    ensures
        hand_plain(hand),
{
    assert forall|i: int| 0 <= i < 5 implies hand[i].is_blank() || (#[trigger] hand[i]).is_card() by {
        assert(slot_sound(hand[i], hints[i]));
    }
}

/// A hand that agrees with well-formed hints is sound under them.
pub proof fn lemma_agreeing_is_sound(hand: Seq<Card>, hints: Seq<Hint>)
    requires
        hand_agrees(hand, hints),
        forall|i: int| 0 <= i < 5 ==> (#[trigger] hints[i]).well_formed(),
    ensures
        hand_sound(hand, hints),
{
    assert forall|i: int| 0 <= i < 5 implies slot_sound(#[trigger] hand[i], hints[i]) by {
        assert(hints[i].well_formed());
        if hints[i].is_live() {
            assert(hints[i].admits(hand[i]));
        }
    }
}

/// A seat may play under a hint that one of its cards has, and discard under
/// it while a blue token is missing.
pub proof fn lemma_held_is_legal(table: State, hint: Hint, slot: int)
    requires
        table.holds(hint, slot),
    ensures
        table.legal(Action::Play(hint)),
        table.blue_tokens < 8 ==> table.legal(Action::Discard(hint)),
{
    assert(exists|at: int| table.holds(hint, at));
    let play = Action::Play(hint);
    assert(play is Play);
    assert(play->Play_0 == hint);
    assert(table.legal(play) == (exists|at: int| table.holds(hint, at)));
    let discard = Action::Discard(hint);
    assert(discard is Discard);
    assert(discard->Discard_0 == hint);
    assert(table.legal(discard) == (table.blue_tokens < 8 && exists|at: int|
        table.holds(hint, at)));
}

/// Every legal action can be taken.
pub proof fn lemma_legal_admits(table: State, action: Action)
    requires
        table.legal(action),
    ensures
        table.admits(action),
{
    match action {
        Action::Play(hint) => {
            let slot = choose|slot: int| table.holds(hint, slot);
            assert(table.holds(action->Play_0, slot));
        },
        Action::Discard(hint) => {
            let slot = choose|slot: int| table.holds(hint, slot);
            assert(table.holds(action->Discard_0, slot));
        },
        Action::ColorHint(color) => {
            let slot = choose|slot: int| table.shows_color(color, slot);
            assert(table.shows_color(action->ColorHint_0, slot));
        },
        Action::SuitHint(suit) => {
            let slot = choose|slot: int| table.shows_suit(suit, slot);
            assert(table.shows_suit(action->SuitHint_0, slot));
        },
    }
}

/// A color is the color at its position.
pub proof fn lemma_color_known(color: Color)
    ensures
        color.index() < 5,
        Color::at(color.index()) == color,
{
}

/// A rank is the rank at its position.
pub proof fn lemma_suit_known(suit: Suit)
    ensures
        suit.index() < 5,
        Suit::at(suit.index()) == suit,
{
}

} // verus!
