//! Every move keeps the invariant of the game.

use crate::card::{Card, Color, Suit, NO_CARD};
use crate::collection::{filled, held, lemma_held_grows, starting_count};
use crate::counting::lemma_counted;
use crate::hanabi_env::Action;
use crate::hint::{lemma_blank_and_absent, lemma_cleared, lemma_single, Hint};
use crate::state::{hand_sound, live, on_stack, slot_sound, told_color, told_suit, State};
use vstd::prelude::*;

verus! {

/// Putting another card into a slot changes, for each identity, the number
/// of slots that hold it by what came minus what went.
pub proof fn lemma_held_update(hand: Seq<Card>, slot: int, card: Card, id: int, n: int)
    requires
        0 <= slot < hand.len(),
        0 <= n <= hand.len(),
    ensures
        held(hand.update(slot, card), id, n) == held(hand, id, n) + if slot < n {
            (if card.id == id {
                1int
            } else {
                0int
            }) - (if hand[slot].id == id {
                1int
            } else {
                0int
            })
        } else {
            0int
        },
    decreases n,
{
    if n > 0 {
        lemma_held_update(hand, slot, card, id, n - 1);
    }
}

/// Putting another card into a slot changes the number of filled slots by
/// what came minus what went.
pub proof fn lemma_filled_update(hand: Seq<Card>, slot: int, card: Card, n: int)
    requires
        0 <= slot < hand.len(),
        0 <= n <= hand.len(),
    ensures
        filled(hand.update(slot, card), n) == filled(hand, n) + if slot < n {
            (if card.is_blank() {
                0int
            } else {
                1int
            }) - (if hand[slot].is_blank() {
                0int
            } else {
                1int
            })
        } else {
            0int
        },
    decreases n,
{
    if n > 0 {
        lemma_filled_update(hand, slot, card, n - 1);
    }
}

/// In a sound hand the filled slots are those with a live hint.
pub proof fn lemma_filled_is_live(hand: Seq<Card>, hints: Seq<Hint>, n: int)
    requires
        hand_sound(hand, hints),
        0 <= n <= 5,
    ensures
        filled(hand, n) == live(hints, n),
        0 <= live(hints, n) <= n,
    decreases n,
{
    if n > 0 {
        lemma_filled_is_live(hand, hints, n - 1);
        assert(slot_sound(hand[n - 1], hints[n - 1]));
    }
}

/// The number of live hints lies between zero and the number of hints counted.
pub proof fn lemma_live_bounds(hints: Seq<Hint>, n: int)
    requires
        0 <= n,
    ensures
        0 <= live(hints, n) <= n,
    decreases n,
{
    if n > 0 {
        lemma_live_bounds(hints, n - 1);
    }
}

/// Hints that are live in the same slots count the same.
pub proof fn lemma_live_same(a: Seq<Hint>, b: Seq<Hint>, n: int)
    requires
        0 <= n <= a.len(),
        n <= b.len(),
        forall|i: int| 0 <= i < n ==> (#[trigger] a[i]).is_live() == b[i].is_live(),
    ensures
        live(a, n) == live(b, n),
    decreases n,
{
    if n > 0 {
        lemma_live_same(a, b, n - 1);
        assert(a[n - 1].is_live() == b[n - 1].is_live());
    }
}

/// Naming a color keeps a sound slot sound, and leaves no card possible that
/// was not possible before.
pub proof fn lemma_told_color(hint: Hint, card: Card, color: Color)
    requires
        slot_sound(card, hint),
    ensures
        slot_sound(card, told_color(hint, card, color)),
        told_color(hint, card, color).narrows(hint),
        told_color(hint, card, color).is_live() == hint.is_live(),
        told_color(hint, card, color).well_formed(),
{
    let told = told_color(hint, card, color);
    let c = color.index();
    if !card.is_blank() {
        let k = card.color_index();
        lemma_single(c, k);
        lemma_cleared(hint.color, c, k);
        assert forall|other: Card| #[trigger] told.admits(other) implies hint.admits(other) by {
            let j = other.color_index();
            lemma_single(c, j);
            lemma_cleared(hint.color, c, j);
        }
    }
}

/// Naming a rank keeps a sound slot sound, and leaves no card possible that
/// was not possible before.
pub proof fn lemma_told_suit(hint: Hint, card: Card, suit: Suit)
    requires
        slot_sound(card, hint),
    ensures
        slot_sound(card, told_suit(hint, card, suit)),
        told_suit(hint, card, suit).narrows(hint),
        told_suit(hint, card, suit).is_live() == hint.is_live(),
        told_suit(hint, card, suit).well_formed(),
{
    let told = told_suit(hint, card, suit);
    let s = suit.index();
    if !card.is_blank() {
        let k = card.suit_index();
        lemma_single(s, k);
        lemma_cleared(hint.suit, s, k);
        assert forall|other: Card| #[trigger] told.admits(other) implies hint.admits(other) by {
            let j = other.suit_index();
            lemma_single(s, j);
            lemma_cleared(hint.suit, s, j);
        }
    }
}

/// A slot that holds an identity makes the hand hold it at least once.
pub proof fn lemma_held_slot(hand: Seq<Card>, slot: int, n: int)
    requires
        0 <= slot < n <= hand.len(),
    ensures
        held(hand, hand[slot].id as int, n) >= 1,
    decreases n,
{
    if slot < n - 1 {
        lemma_held_slot(hand, slot, n - 1);
    } else {
        lemma_held_grows(hand, hand[slot].id as int, 0, n - 1);
    }
}

/// While the game is on, the last round has seen at most one turn.
pub proof fn lemma_last_round_open(s: State)
    requires
        s.wf(),
        !s.ended(),
        s.last_round,
    ensures
        s.last_round_turns_taken <= 1,
{
    lemma_counted(s);
    lemma_filled_is_live(s.player_hand, s.player_hints, 5);
    lemma_filled_is_live(s.opponent_hand, s.opponent_hints, 5);
    assert(s.public().deck_spent());
}

/// The seats changing places keeps the invariant, as long as the count of
/// last-round turns stays within two.
pub proof fn lemma_end_turn(s: State)
    requires
        s.wf(),
        s.last_round ==> s.last_round_turns_taken <= 1,
    ensures
        s.end_turn().wf(),
{
    let t = s.end_turn();
    assert(t.conserved()) by {
        assert forall|id: int| 0 <= id < 25 implies #[trigger] t.deck[id] + t.discard[id]
            + on_stack(t.fireworks, id) + held(t.player_hand, id, 5) + held(
            t.opponent_hand,
            id,
            5,
        ) == starting_count(id) by {
            assert(s.deck[id] + s.discard[id] + on_stack(s.fireworks, id) + held(
                s.player_hand,
                id,
                5,
            ) + held(s.opponent_hand, id, 5) == starting_count(id));
        }
    }
}

/// Naming a color keeps the invariant.
pub proof fn lemma_hint_color(s: State, color: Color)
    requires
        s.wf(),
        s.blue_tokens > 0,
    ensures
        s.hint_color(color).wf(),
        s.hint_color(color).public().deck_spent() == s.public().deck_spent(),
{
    let t = s.hint_color(color);
    assert forall|i: int| 0 <= i < 5 implies slot_sound(
        #[trigger] t.opponent_hand[i],
        t.opponent_hints[i],
    ) by {
        assert(slot_sound(s.opponent_hand[i], s.opponent_hints[i]));
        lemma_told_color(s.opponent_hints[i], s.opponent_hand[i], color);
    }
    assert forall|i: int| 0 <= i < 5 implies (#[trigger] t.opponent_hints[i]).well_formed()
        && t.opponent_hints[i].is_live() == s.opponent_hints[i].is_live() by {
        assert(slot_sound(s.opponent_hand[i], s.opponent_hints[i]));
        lemma_told_color(s.opponent_hints[i], s.opponent_hand[i], color);
    }
    lemma_live_same(t.opponent_hints, s.opponent_hints, 5);
    assert(t.conserved()) by {
        assert forall|id: int| 0 <= id < 25 implies #[trigger] t.deck[id] + t.discard[id]
            + on_stack(t.fireworks, id) + held(t.player_hand, id, 5) + held(
            t.opponent_hand,
            id,
            5,
        ) == starting_count(id) by {
            assert(s.deck[id] + s.discard[id] + on_stack(s.fireworks, id) + held(
                s.player_hand,
                id,
                5,
            ) + held(s.opponent_hand, id, 5) == starting_count(id));
        }
    }
}

/// Naming a rank keeps the invariant.
pub proof fn lemma_hint_suit(s: State, suit: Suit)
    requires
        s.wf(),
        s.blue_tokens > 0,
    ensures
        s.hint_suit(suit).wf(),
        s.hint_suit(suit).public().deck_spent() == s.public().deck_spent(),
{
    let t = s.hint_suit(suit);
    assert forall|i: int| 0 <= i < 5 implies slot_sound(
        #[trigger] t.opponent_hand[i],
        t.opponent_hints[i],
    ) by {
        assert(slot_sound(s.opponent_hand[i], s.opponent_hints[i]));
        lemma_told_suit(s.opponent_hints[i], s.opponent_hand[i], suit);
    }
    assert forall|i: int| 0 <= i < 5 implies (#[trigger] t.opponent_hints[i]).well_formed()
        && t.opponent_hints[i].is_live() == s.opponent_hints[i].is_live() by {
        assert(slot_sound(s.opponent_hand[i], s.opponent_hints[i]));
        lemma_told_suit(s.opponent_hints[i], s.opponent_hand[i], suit);
    }
    lemma_live_same(t.opponent_hints, s.opponent_hints, 5);
    assert(t.conserved()) by {
        assert forall|id: int| 0 <= id < 25 implies #[trigger] t.deck[id] + t.discard[id]
            + on_stack(t.fireworks, id) + held(t.player_hand, id, 5) + held(
            t.opponent_hand,
            id,
            5,
        ) == starting_count(id) by {
            assert(s.deck[id] + s.discard[id] + on_stack(s.fireworks, id) + held(
                s.player_hand,
                id,
                5,
            ) + held(s.opponent_hand, id, 5) == starting_count(id));
        }
    }
}

/// Filling a slot from the draw pile keeps the invariant, where the slot was
/// empty before and the pile and the hands together were one card short.
pub proof fn lemma_draw(s: State, slot: int, drawn: Card)
    requires
        0 <= slot < 5,
        s.can_draw(drawn),
        s.player_hand[slot].is_blank(),
        s.player_hints[slot] == Hint::absent(),
        s.wf(),
    ensures
        s.draw(slot, drawn).wf(),
{
    let t = s.draw(slot, drawn);
    lemma_blank_and_absent(drawn);
    assert forall|i: int| 0 <= i < 5 implies slot_sound(
        #[trigger] t.player_hand[i],
        t.player_hints[i],
    ) by {
        if i != slot {
            assert(slot_sound(s.player_hand[i], s.player_hints[i]));
        }
    }
    assert forall|i: int| 0 <= i < 5 implies (#[trigger] t.player_hints[i]).well_formed() by {
        if i != slot {
            assert(s.player_hints[i].well_formed());
        }
    }
    assert forall|id: int| 0 <= id < 25 implies #[trigger] t.deck[id] + t.discard[id] + on_stack(
        t.fireworks,
        id,
    ) + held(t.player_hand, id, 5) + held(t.opponent_hand, id, 5) == starting_count(id) by {
        lemma_held_update(s.player_hand, slot, drawn, id, 5);
        assert(s.deck[id] + s.discard[id] + on_stack(s.fireworks, id) + held(
            s.player_hand,
            id,
            5,
        ) + held(s.opponent_hand, id, 5) == starting_count(id));
    }
    if s.last_round && !drawn.is_blank() {
        assert(s.deck_size() == 0);
    }
}

/// The table with slot `slot` emptied and its card nowhere: every place
/// but the slot is as in `s`.
pub open spec fn lifted(s: State, slot: int) -> State {
    State {
        player_hand: s.player_hand.update(slot, Card { id: NO_CARD }),
        player_hints: s.player_hints.update(slot, Hint::absent()),
        ..s
    }
}

/// Discarding the card of a slot and drawing into it keeps the invariant.
pub proof fn lemma_toss_draw(s: State, slot: int, drawn: Card)
    requires
        s.wf(),
        0 <= slot < 5,
        !s.player_hand[slot].is_blank(),
        s.can_draw(drawn),
    ensures
        s.toss(slot).draw(slot, drawn).wf(),
        s.toss(slot).draw(slot, drawn).regain().wf(),
{
    let card = s.player_hand[slot];
    let u = s.toss(slot);
    assert(slot_sound(s.player_hand[slot], s.player_hints[slot]));
    lemma_held_slot(s.player_hand, slot, 5);
    lemma_held_grows(s.opponent_hand, card.id as int, 0, 5);
    assert(s.deck[card.id as int] + s.discard[card.id as int] + on_stack(
        s.fireworks,
        card.id as int,
    ) + held(s.player_hand, card.id as int, 5) + held(s.opponent_hand, card.id as int, 5)
        == starting_count(card.id as int));
    assert(u.wf()) by {
        assert forall|i: int| 0 <= i < 5 implies slot_sound(
            #[trigger] u.player_hand[i],
            u.player_hints[i],
        ) by {
            if i != slot {
                assert(slot_sound(s.player_hand[i], s.player_hints[i]));
            }
        }
        assert forall|i: int| 0 <= i < 5 implies (#[trigger] u.player_hints[i]).well_formed() by {
            if i != slot {
                assert(s.player_hints[i].well_formed());
            }
        }
        assert forall|id: int| 0 <= id < 25 implies #[trigger] u.discard[id] <= starting_count(
            id,
        ) by {
            assert(s.discard[id] <= starting_count(id));
            if id == card.id {
                assert(s.deck[id] + s.discard[id] + on_stack(s.fireworks, id) + held(
                    s.player_hand,
                    id,
                    5,
                ) + held(s.opponent_hand, id, 5) == starting_count(id));
            }
        }
        assert forall|id: int| 0 <= id < 25 implies #[trigger] u.deck[id] + u.discard[id]
            + on_stack(u.fireworks, id) + held(u.player_hand, id, 5) + held(
            u.opponent_hand,
            id,
            5,
        ) == starting_count(id) by {
            lemma_held_update(s.player_hand, slot, Card { id: NO_CARD }, id, 5);
            assert(s.deck[id] + s.discard[id] + on_stack(s.fireworks, id) + held(
                s.player_hand,
                id,
                5,
            ) + held(s.opponent_hand, id, 5) == starting_count(id));
        }
    }
    assert(u.can_draw(drawn));
    lemma_draw(u, slot, drawn);
    let v = u.draw(slot, drawn);
    let w = v.regain();
    assert(w.wf()) by {
        assert(w.conserved()) by {
            assert forall|id: int| 0 <= id < 25 implies #[trigger] w.deck[id] + w.discard[id]
                + on_stack(w.fireworks, id) + held(w.player_hand, id, 5) + held(
                w.opponent_hand,
                id,
                5,
            ) == starting_count(id) by {
                assert(v.deck[id] + v.discard[id] + on_stack(v.fireworks, id) + held(
                    v.player_hand,
                    id,
                    5,
                ) + held(v.opponent_hand, id, 5) == starting_count(id));
            }
        }
    }
}

/// Playing the card of a slot and drawing into it keeps the invariant.
pub proof fn lemma_play_draw(s: State, slot: int, drawn: Card)
    requires
        s.wf(),
        s.black_tokens > 1,
        0 <= slot < 5,
        !s.player_hand[slot].is_blank(),
        s.can_draw(drawn),
    ensures
        s.play(slot).draw(slot, drawn).wf(),
{
    let card = s.player_hand[slot];
    assert(slot_sound(s.player_hand[slot], s.player_hints[slot]));
    let c = card.color_index() as int;
    let r = card.suit_index();
    if s.fireworks[c] == r {
        // the card goes onto the fireworks: the table with the slot lifted
        // and the stack one higher is well formed
        let u = State {
            fireworks: s.play(slot).fireworks,
            blue_tokens: s.play(slot).blue_tokens,
            ..lifted(s, slot)
        };
            assert(u.wf()) by {
            assert forall|i: int| 0 <= i < 5 implies slot_sound(
                #[trigger] u.player_hand[i],
                u.player_hints[i],
            ) by {
                if i != slot {
                    assert(slot_sound(s.player_hand[i], s.player_hints[i]));
                }
            }
            assert forall|i: int| 0 <= i < 5 implies (#[trigger] u.player_hints[i]).well_formed() by {
                if i != slot {
                    assert(s.player_hints[i].well_formed());
                }
            }
            assert forall|k: int| 0 <= k < 5 implies #[trigger] u.fireworks[k] <= 5 by {
                assert(s.fireworks[k] <= 5);
            }
            assert forall|id: int| 0 <= id < 25 implies #[trigger] u.deck[id] + u.discard[id]
                + on_stack(u.fireworks, id) + held(u.player_hand, id, 5) + held(
                u.opponent_hand,
                id,
                5,
            ) == starting_count(id) by {
                lemma_held_update(s.player_hand, slot, Card { id: NO_CARD }, id, 5);
                assert(s.deck[id] + s.discard[id] + on_stack(s.fireworks, id) + held(
                    s.player_hand,
                    id,
                    5,
                ) + held(s.opponent_hand, id, 5) == starting_count(id));
                if id / 5 == c {
                    assert(on_stack(u.fireworks, id) == on_stack(s.fireworks, id) + if id
                        == card.id {
                        1int
                    } else {
                        0int
                    });
                } else {
                    assert(on_stack(u.fireworks, id) == on_stack(s.fireworks, id));
                }
            }
        }
        assert(u.can_draw(drawn));
        lemma_draw(u, slot, drawn);
        assert(u.draw(slot, drawn) =~= s.play(slot).draw(slot, drawn)) by {
            assert(u.draw(slot, drawn).player_hand =~= s.play(slot).draw(slot, drawn).player_hand);
            assert(u.draw(slot, drawn).player_hints =~= s.play(slot).draw(
                slot,
                drawn,
            ).player_hints);
        }
    } else {
        lemma_toss_draw(s, slot, drawn);
        let v = s.toss(slot).draw(slot, drawn);
        let w = s.play(slot).draw(slot, drawn);
        assert(w == State { black_tokens: s.black_tokens - 1, ..v });
        assert(w.conserved()) by {
            assert forall|id: int| 0 <= id < 25 implies #[trigger] w.deck[id] + w.discard[id]
                + on_stack(w.fireworks, id) + held(w.player_hand, id, 5) + held(
                w.opponent_hand,
                id,
                5,
            ) == starting_count(id) by {
                assert(v.deck[id] + v.discard[id] + on_stack(v.fireworks, id) + held(
                    v.player_hand,
                    id,
                    5,
                ) + held(v.opponent_hand, id, 5) == starting_count(id));
            }
        }
    }
}

/// Hint soundness and conservation are invariants: whatever legal action a
/// seat takes while the game is on, and however the chances in it fall, the
/// table after the move is well formed again.
pub proof fn lemma_step_preserves(s: State, action: Action, slot: int, drawn: Card)
    requires
        s.wf(),
        !s.ended(),
        s.admits(action),
        s.outcome(action, slot, drawn),
    ensures
        s.step(action, slot, drawn).wf(),
{
    match action {
        Action::ColorHint(color) => {
            lemma_hint_color(s, color);
            if s.last_round {
                lemma_last_round_open(s);
            }
            lemma_end_turn(s.hint_color(color));
        },
        Action::SuitHint(suit) => {
            lemma_hint_suit(s, suit);
            if s.last_round {
                lemma_last_round_open(s);
            }
            lemma_end_turn(s.hint_suit(suit));
        },
        Action::Play(_) => {
            lemma_play_draw(s, slot, drawn);
            if s.last_round {
                lemma_last_round_open(s);
            }
            lemma_end_turn(s.play(slot).draw(slot, drawn));
        },
        Action::Discard(_) => {
            lemma_toss_draw(s, slot, drawn);
            if s.last_round {
                lemma_last_round_open(s);
            }
            lemma_end_turn(s.toss(slot).draw(slot, drawn).regain());
        },
    }
}

} // verus!
