//! Counting the table card by card: where every card identity is in one
//! place, as often as a full deck holds it, the places hold fifty cards
//! together.

use crate::card::Card;
use crate::collection::{filled, held, starting_count, sum_counts};
use crate::facts::lemma_sound_is_plain;
use crate::state::{hand_plain, on_stack, State};
use vstd::prelude::*;

verus! {

/// The cards of a full deck among the first `n` identities.
pub open spec fn full_upto(n: int) -> int
    decreases n,
{
    if n <= 0 {
        0
    } else {
        full_upto(n - 1) + starting_count(n - 1)
    }
}

/// The cards on the fireworks among the first `n` identities.
pub open spec fn stack_upto(fireworks: Seq<u8>, n: int) -> int
    decreases n,
{
    if n <= 0 {
        0
    } else {
        stack_upto(fireworks, n - 1) + on_stack(fireworks, n - 1)
    }
}

/// The cards of a hand among the first `n` identities.
pub open spec fn held_upto(hand: Seq<Card>, n: int) -> int
    decreases n,
{
    if n <= 0 {
        0
    } else {
        held_upto(hand, n - 1) + held(hand, n - 1, 5)
    }
}

/// How many of the first `k` slots hold one of the first `n` identities.
pub open spec fn below(hand: Seq<Card>, n: int, k: int) -> int
    decreases k,
{
    if k <= 0 {
        0
    } else {
        below(hand, n, k - 1) + if hand[k - 1].id < n {
            1int
        } else {
            0int
        }
    }
}

/// A full deck holds fifty cards.
pub proof fn lemma_full_deck()
    ensures
        full_upto(25) == 50,
{
    reveal_with_fuel(full_upto, 26);
}

/// The slots that hold one of the first `n` identities are those that hold
/// one of the first `n - 1` and those that hold the last of them.
proof fn lemma_below_step(hand: Seq<Card>, n: int, k: int)
    requires
        0 < n,
        0 <= k,
    ensures
        below(hand, n, k) == below(hand, n - 1, k) + held(hand, n - 1, k),
    decreases k,
{
    if k > 0 {
        lemma_below_step(hand, n, k - 1);
    }
}

/// Counted identity by identity, a hand holds as many of the first `n`
/// identities as it has slots that hold one of them.
proof fn lemma_held_upto(hand: Seq<Card>, n: int)
    requires
        0 <= n,
    ensures
        held_upto(hand, n) == below(hand, n, 5),
    decreases n,
{
    if n > 0 {
        lemma_held_upto(hand, n - 1);
        lemma_below_step(hand, n, 5);
    } else {
        reveal_with_fuel(below, 6);
    }
}

/// The slots that hold a real card are the filled ones.
proof fn lemma_below_all(hand: Seq<Card>, k: int)
    requires
        hand_plain(hand),
        0 <= k <= 5,
    ensures
        below(hand, 25, k) == filled(hand, k),
    decreases k,
{
    if k > 0 {
        lemma_below_all(hand, k - 1);
        assert(hand[k - 1].is_blank() || hand[k - 1].is_card());
    }
}

/// The cards on the fireworks, counted identity by identity, are the heights
/// of the stacks.
proof fn lemma_stack_upto(fireworks: Seq<u8>, colors: int)
    requires
        fireworks.len() == 5,
        forall|c: int| 0 <= c < 5 ==> #[trigger] fireworks[c] <= 5,
        0 <= colors <= 5,
    ensures
        stack_upto(fireworks, 5 * colors) == sum_counts(fireworks, colors),
    decreases colors,
{
    if colors > 0 {
        lemma_stack_upto(fireworks, colors - 1);
        let base = 5 * (colors - 1);
        let height = fireworks[colors - 1];
        assert(height <= 5);
        assert(stack_upto(fireworks, base + 1) == stack_upto(fireworks, base) + on_stack(
            fireworks,
            base,
        ));
        assert(stack_upto(fireworks, base + 2) == stack_upto(fireworks, base + 1) + on_stack(
            fireworks,
            base + 1,
        ));
        assert(stack_upto(fireworks, base + 3) == stack_upto(fireworks, base + 2) + on_stack(
            fireworks,
            base + 2,
        ));
        assert(stack_upto(fireworks, base + 4) == stack_upto(fireworks, base + 3) + on_stack(
            fireworks,
            base + 3,
        ));
        assert(stack_upto(fireworks, base + 5) == stack_upto(fireworks, base + 4) + on_stack(
            fireworks,
            base + 4,
        ));
        assert(base / 5 == colors - 1 && base % 5 == 0);
        assert((base + 1) / 5 == colors - 1 && (base + 1) % 5 == 1);
        assert((base + 2) / 5 == colors - 1 && (base + 2) % 5 == 2);
        assert((base + 3) / 5 == colors - 1 && (base + 3) % 5 == 3);
        assert((base + 4) / 5 == colors - 1 && (base + 4) % 5 == 4);
    }
}

/// Summed over the first `n` identities, the places of the table hold what
/// a full deck holds.
proof fn lemma_places_upto(s: State, n: int)
    requires
        s.conserved(),
        0 <= n <= 25,
    ensures
        sum_counts(s.deck, n) + sum_counts(s.discard, n) + stack_upto(s.fireworks, n) + held_upto(
            s.player_hand,
            n,
        ) + held_upto(s.opponent_hand, n) == full_upto(n),
    decreases n,
{
    if n > 0 {
        lemma_places_upto(s, n - 1);
        assert(s.deck[n - 1] + s.discard[n - 1] + on_stack(s.fireworks, n - 1) + held(
            s.player_hand,
            n - 1,
            5,
        ) + held(s.opponent_hand, n - 1, 5) == starting_count(n - 1));
    }
}

/// Conservation in numbers: where every card identity is on the table as
/// often as a full deck holds it, the draw pile, the discard pile, the
/// fireworks and the filled slots of both hands hold fifty cards together.
pub proof fn lemma_fifty_cards(s: State)
    requires
        s.conserved(),
        s.fireworks.len() == 5,
        forall|c: int| 0 <= c < 5 ==> #[trigger] s.fireworks[c] <= 5,
        hand_plain(s.player_hand),
        hand_plain(s.opponent_hand),
    ensures
        s.deck_size() + sum_counts(s.discard, 25) + s.public().score() + filled(
            s.player_hand,
            5,
        ) + filled(s.opponent_hand, 5) == 50,
{
    lemma_places_upto(s, 25);
    lemma_full_deck();
    lemma_stack_upto(s.fireworks, 5);
    lemma_held_upto(s.player_hand, 25);
    lemma_held_upto(s.opponent_hand, 25);
    lemma_below_all(s.player_hand, 5);
    lemma_below_all(s.opponent_hand, 5);
}

/// A well-formed table holds fifty cards.
pub proof fn lemma_counted(s: State)
    requires
        s.wf(),
    ensures
        s.counted(),
{
    lemma_sound_is_plain(s.player_hand, s.player_hints);
    lemma_sound_is_plain(s.opponent_hand, s.opponent_hints);
    lemma_fifty_cards(s);
}

} // verus!
