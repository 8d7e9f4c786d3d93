//! Every game ends: each move brings the end nearer, and the last round is
//! two turns long.

use crate::card::Card;
use crate::collection::{lemma_sum_nonnegative, lemma_sum_update};
use crate::counting::lemma_counted;
use crate::facts::lemma_legal_admits;
use crate::hanabi_env::Action;
use crate::hint::Hint;
use crate::preservation::{
    lemma_filled_is_live, lemma_hint_color, lemma_hint_suit, lemma_last_round_open,
    lemma_live_bounds, lemma_live_same, lemma_step_preserves, lemma_told_color, lemma_told_suit,
};
use crate::state::{after, live, played, seat_may, slot_sound, Move, State};
use vstd::prelude::*;

verus! {

/// How many of the first `n` hints are live after one of them was replaced.
pub proof fn lemma_live_update(hints: Seq<Hint>, slot: int, hint: Hint, n: int)
    requires
        0 <= slot < hints.len(),
        0 <= n <= hints.len(),
    ensures
        live(hints.update(slot, hint), n) == live(hints, n) + if slot < n {
            (if hint.is_live() {
                1int
            } else {
                0int
            }) - (if hints[slot].is_live() {
                1int
            } else {
                0int
            })
        } else {
            0int
        },
    decreases n,
{
    if n > 0 {
        lemma_live_update(hints, slot, hint, n - 1);
    }
}

impl State {
    /// A bound on the turns that are left: a card drawn counts three, a blue
    /// token one, and each turn of the last round that is still to come two.
    pub open spec fn turns_bound(self) -> int {
        3 * self.deck_size() + self.blue_tokens + 2 * (2 - self.last_round_turns_taken)
    }

    /// Both seats can move when their turn comes: the acting seat holds a
    /// card, and so does the other seat, unless it has just spent its last
    /// one in the last round.
    pub open spec fn playable(self) -> bool {
        self.public().playable()
    }
}

/// What a seat may do on a well-formed table can be told from what the seat
/// knows.
pub proof fn lemma_legal_is_known(s: State, action: Action)
    requires
        s.wf(),
        s.legal(action),
    ensures
        seat_may(s.public(), s.opponent_hand, action),
{
    match action {
        Action::Play(hint) => {
            let slot = choose|slot: int| s.holds(hint, slot);
            assert(slot_sound(s.player_hand[slot], s.player_hints[slot]));
            assert(s.public().player_hints[slot] == hint && hint.is_live());
        },
        Action::Discard(hint) => {
            let slot = choose|slot: int| s.holds(hint, slot);
            assert(slot_sound(s.player_hand[slot], s.player_hints[slot]));
            assert(s.public().player_hints[slot] == hint && hint.is_live());
        },
        Action::ColorHint(color) => {
            let slot = choose|slot: int| s.shows_color(color, slot);
            assert(!s.opponent_hand[slot].is_blank());
        },
        Action::SuitHint(suit) => {
            let slot = choose|slot: int| s.shows_suit(suit, slot);
            assert(!s.opponent_hand[slot].is_blank());
        },
    }
}

/// What a seat may do by what it knows is legal on the table.
pub proof fn lemma_known_is_legal(s: State, action: Action)
    requires
        s.wf(),
        seat_may(s.public(), s.opponent_hand, action),
    ensures
        s.legal(action),
{
    match action {
        Action::Play(hint) => {
            let slot = choose|slot: int|
                0 <= slot < 5 && #[trigger] s.public().player_hints[slot] == hint
                    && hint.is_live();
            assert(slot_sound(s.player_hand[slot], s.player_hints[slot]));
            assert(s.holds(hint, slot));
            crate::facts::lemma_held_is_legal(s, hint, slot);
        },
        Action::Discard(hint) => {
            let slot = choose|slot: int|
                0 <= slot < 5 && #[trigger] s.public().player_hints[slot] == hint
                    && hint.is_live();
            assert(slot_sound(s.player_hand[slot], s.player_hints[slot]));
            assert(s.holds(hint, slot));
            crate::facts::lemma_held_is_legal(s, hint, slot);
        },
        Action::ColorHint(color) => {
            let slot = choose|slot: int|
                0 <= slot < 5 && !(#[trigger] s.opponent_hand[slot]).is_blank()
                    && s.opponent_hand[slot].color_index() == color.index();
            assert(s.shows_color(color, slot));
        },
        Action::SuitHint(suit) => {
            let slot = choose|slot: int|
                0 <= slot < 5 && !(#[trigger] s.opponent_hand[slot]).is_blank()
                    && s.opponent_hand[slot].suit_index() == suit.index();
            assert(s.shows_suit(suit, slot));
        },
    }
}

/// A seat that holds a card has a legal action: to play it.
pub proof fn lemma_can_move(s: State)
    requires
        s.wf(),
        live(s.player_hints, 5) >= 1,
    ensures
        exists|action: Action| s.legal(action),
{
    reveal_with_fuel(live, 6);
    let slot = if s.player_hints[0].is_live() {
        0int
    } else if s.player_hints[1].is_live() {
        1int
    } else if s.player_hints[2].is_live() {
        2int
    } else if s.player_hints[3].is_live() {
        3int
    } else {
        4int
    };
    assert(s.player_hints[slot].is_live());
    assert(slot_sound(s.player_hand[slot], s.player_hints[slot]));
    let hint = s.player_hints[slot];
    assert(s.holds(hint, slot));
    crate::facts::lemma_held_is_legal(s, hint, slot);
}

/// Every move brings the end nearer: the bound on the turns that are left
/// is never negative and falls with each step.
pub proof fn lemma_step_progress(s: State, action: Action, slot: int, drawn: Card)
    requires
        s.wf(),
        !s.ended(),
        s.admits(action),
        s.outcome(action, slot, drawn),
    ensures
        0 <= s.step(action, slot, drawn).turns_bound() < s.turns_bound(),
{
    let t = s.step(action, slot, drawn);
    lemma_step_preserves(s, action, slot, drawn);
    lemma_sum_nonnegative(t.deck, 25);
    if s.last_round {
        lemma_last_round_open(s);
    }
    match action {
        Action::ColorHint(_) => {},
        Action::SuitHint(_) => {},
        Action::Play(_) => {
            if !drawn.is_blank() {
                lemma_sum_update(s.deck, drawn.id as int, (s.deck[drawn.id as int] - 1) as u8, 25);
            }
        },
        Action::Discard(_) => {
            if !drawn.is_blank() {
                lemma_sum_update(s.deck, drawn.id as int, (s.deck[drawn.id as int] - 1) as u8, 25);
            }
        },
    }
}

/// The last round is two turns long. It begins with the turn that finds the
/// draw pile empty; from then on every move is counted, and the move that
/// brings the count to two ends the game, whatever the hands hold.
pub proof fn lemma_last_round(s: State, action: Action, slot: int, drawn: Card)
    requires
        s.wf(),
        !s.ended(),
        s.admits(action),
        s.outcome(action, slot, drawn),
    ensures
        s.last_round ==> s.step(action, slot, drawn).last_round,
        s.step(action, slot, drawn).last_round ==> s.step(
            action,
            slot,
            drawn,
        ).last_round_turns_taken == s.last_round_turns_taken + 1,
        !s.step(action, slot, drawn).last_round ==> s.step(
            action,
            slot,
            drawn,
        ).last_round_turns_taken == 0,
        s.step(action, slot, drawn).last_round_turns_taken == 2 ==> s.step(
            action,
            slot,
            drawn,
        ).ended(),
{
    let t = s.step(action, slot, drawn);
    lemma_step_preserves(s, action, slot, drawn);
    if t.last_round_turns_taken == 2 {
        lemma_counted(t);
        lemma_filled_is_live(t.player_hand, t.player_hints, 5);
        lemma_filled_is_live(t.opponent_hand, t.opponent_hints, 5);
        assert(t.public().deck_spent());
    }
}

/// While both seats can move, they still can after any move that does not
/// end the game.
pub proof fn lemma_step_playable(s: State, action: Action, slot: int, drawn: Card)
    requires
        s.wf(),
        !s.ended(),
        s.playable(),
        s.admits(action),
        s.outcome(action, slot, drawn),
    ensures
        s.step(action, slot, drawn).ended() || s.step(action, slot, drawn).playable(),
{
    let t = s.step(action, slot, drawn);
    lemma_step_preserves(s, action, slot, drawn);
    lemma_last_round(s, action, slot, drawn);
    if s.last_round {
        lemma_last_round_open(s);
    }
    lemma_live_bounds(t.opponent_hints, 5);
    match action {
        Action::ColorHint(color) => {
            lemma_hint_color(s, color);
            assert forall|i: int| 0 <= i < 5 implies (#[trigger] s.hint_color(
                color,
            ).opponent_hints[i]).is_live() == s.opponent_hints[i].is_live() by {
                assert(slot_sound(s.opponent_hand[i], s.opponent_hints[i]));
                lemma_told_color(s.opponent_hints[i], s.opponent_hand[i], color);
            }
            lemma_live_same(s.hint_color(color).opponent_hints, s.opponent_hints, 5);
        },
        Action::SuitHint(suit) => {
            lemma_hint_suit(s, suit);
            assert forall|i: int| 0 <= i < 5 implies (#[trigger] s.hint_suit(
                suit,
            ).opponent_hints[i]).is_live() == s.opponent_hints[i].is_live() by {
                assert(slot_sound(s.opponent_hand[i], s.opponent_hints[i]));
                lemma_told_suit(s.opponent_hints[i], s.opponent_hand[i], suit);
            }
            lemma_live_same(s.hint_suit(suit).opponent_hints, s.opponent_hints, 5);
        },
        Action::Play(_) => {
            let hint = if drawn.is_blank() {
                Hint::absent()
            } else {
                Hint::blank()
            };
            assert(t.opponent_hints =~= s.player_hints.update(slot, hint));
            lemma_live_update(s.player_hints, slot, hint, 5);
            assert(slot_sound(s.player_hand[slot], s.player_hints[slot]));
        },
        Action::Discard(_) => {
            let hint = if drawn.is_blank() {
                Hint::absent()
            } else {
                Hint::blank()
            };
            assert(t.opponent_hints =~= s.player_hints.update(slot, hint));
            lemma_live_update(s.player_hints, slot, hint, 5);
            assert(slot_sound(s.player_hand[slot], s.player_hints[slot]));
        },
    }
}

/// One more move leaves the tables before it as they were, and a game
/// played by the rules stays one when a legal move is added at its end.
pub proof fn lemma_one_more_move(start: State, moves: Seq<Move>, next: Move, n: int)
    requires
        0 <= n <= moves.len(),
    ensures
        after(start, moves.push(next), n) == after(start, moves, n),
        n == moves.len() ==> after(start, moves.push(next), n + 1) == after(start, moves, n).step(
            next.action,
            next.slot,
            next.drawn,
        ),
    decreases n,
{
    if n > 0 {
        lemma_one_more_move(start, moves, next, n - 1);
    }
}

/// A game played by the rules with one more legal move at its end is a game
/// played by the rules.
pub proof fn lemma_played_on(start: State, moves: Seq<Move>, next: Move)
    requires
        played(start, moves),
        !after(start, moves, moves.len() as int).ended(),
        after(start, moves, moves.len() as int).legal(next.action),
        after(start, moves, moves.len() as int).outcome(next.action, next.slot, next.drawn),
    ensures
        played(start, moves.push(next)),
        after(start, moves.push(next), moves.len() as int + 1) == after(
            start,
            moves,
            moves.len() as int,
        ).step(next.action, next.slot, next.drawn),
{
    let longer = moves.push(next);
    assert forall|k: int| 0 <= k < longer.len() implies {
        &&& !(#[trigger] after(start, longer, k)).ended()
        &&& after(start, longer, k).legal(longer[k].action)
        &&& after(start, longer, k).outcome(longer[k].action, longer[k].slot, longer[k].drawn)
    } by {
        lemma_one_more_move(start, moves, next, k);
        if k < moves.len() {
            assert(!after(start, moves, k).ended());
        }
    }
    lemma_one_more_move(start, moves, next, moves.len() as int);
}

/// Every game ends: a game played by the rules from a well-formed table
/// passes through well-formed tables only, and has no more moves than the
/// bound on the turns of its first table. From a fresh deal that is 132.
pub proof fn lemma_game_length(start: State, moves: Seq<Move>, n: int)
    requires
        start.wf(),
        played(start, moves),
        0 <= n <= moves.len(),
    ensures
        after(start, moves, n).wf(),
        0 <= after(start, moves, n).turns_bound(),
        after(start, moves, n).turns_bound() + n <= start.turns_bound(),
    decreases n,
{
    if n > 0 {
        lemma_game_length(start, moves, n - 1);
        let before = after(start, moves, n - 1);
        let last = moves[n - 1];
        lemma_legal_admits(before, last.action);
        lemma_step_preserves(before, last.action, last.slot, last.drawn);
        lemma_step_progress(before, last.action, last.slot, last.drawn);
    } else {
        lemma_sum_nonnegative(start.deck, 25);
    }
}

} // verus!
