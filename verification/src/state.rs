//! The game as mathematics: what a table holds, and what each move makes of
//! it. The executable game is specified against this model.
//!
//! The seat that is about to act is always "the player"; the hands change
//! places at the end of every turn.

use crate::card::{Card, Color, Suit, NO_CARD};
use crate::collection::{filled, held, starting_count, sum_counts};
use crate::hanabi_env::Action;
use crate::hint::{bit, Hint, EMPTY_MASK};
use vstd::prelude::*;

verus! {

/// Everything that both seats can see.
#[verifier::ext_equal]
pub struct Public {
    pub player_hints: Seq<Hint>,
    pub opponent_hints: Seq<Hint>,
    pub discard: Seq<u8>,
    pub blue_tokens: int,
    pub black_tokens: int,
    pub fireworks: Seq<u8>,
    pub last_round: bool,
    pub last_round_turns_taken: int,
}

/// The whole table: what is public, both hands and the draw pile.
#[verifier::ext_equal]
pub struct State {
    pub player_hand: Seq<Card>,
    pub player_hints: Seq<Hint>,
    pub opponent_hand: Seq<Card>,
    pub opponent_hints: Seq<Hint>,
    pub deck: Seq<u8>,
    pub discard: Seq<u8>,
    pub blue_tokens: int,
    pub black_tokens: int,
    pub fireworks: Seq<u8>,
    pub last_round: bool,
    pub last_round_turns_taken: int,
}

/// How many of the first `n` hints belong to a slot that holds a card.
pub open spec fn live(hints: Seq<Hint>, n: int) -> int
    decreases n,
{
    if n <= 0 {
        0
    } else {
        live(hints, n - 1) + if hints[n - 1].is_live() {
            1int
        } else {
            0int
        }
    }
}

/// One if the card identity lies on the fireworks, else zero.
pub open spec fn on_stack(fireworks: Seq<u8>, id: int) -> int {
    if id % 5 < fireworks[id / 5] {
        1
    } else {
        0
    }
}

/// How many copies of a card identity the table holds, over the draw pile,
/// the discard pile, the fireworks and both hands.
pub open spec fn held_on(s: State, id: int) -> int {
    s.deck[id] + s.discard[id] + on_stack(s.fireworks, id) + held(s.player_hand, id, 5) + held(
        s.opponent_hand,
        id,
        5,
    )
}

/// How many of the first `n` slots of a hand hold a card of the color at
/// position `color`.
pub open spec fn of_color(hand: Seq<Card>, color: u8, n: int) -> int
    decreases n,
{
    if n <= 0 {
        0
    } else {
        of_color(hand, color, n - 1) + if !hand[n - 1].is_blank() && hand[n - 1].color_index()
            == color {
            1int
        } else {
            0int
        }
    }
}

/// How many of the first `n` slots of a hand hold a card of the rank at
/// position `suit`.
pub open spec fn of_suit(hand: Seq<Card>, suit: u8, n: int) -> int
    decreases n,
{
    if n <= 0 {
        0
    } else {
        of_suit(hand, suit, n - 1) + if !hand[n - 1].is_blank() && hand[n - 1].suit_index()
            == suit {
            1int
        } else {
            0int
        }
    }
}

/// A slot is either empty, with the hint of an empty slot, or holds a card
/// that its hint admits, with both masks within the five bits.
pub open spec fn slot_sound(card: Card, hint: Hint) -> bool {
    if card.is_blank() {
        hint == Hint::absent()
    } else {
        card.is_card() && hint.color <= EMPTY_MASK && hint.suit <= EMPTY_MASK && hint.admits(card)
    }
}

/// Every slot of a hand is sound.
pub open spec fn hand_sound(hand: Seq<Card>, hints: Seq<Hint>) -> bool {
    &&& hand.len() == 5
    &&& hints.len() == 5
    &&& forall|i: int| 0 <= i < 5 ==> slot_sound(#[trigger] hand[i], hints[i])
}

/// Every slot of a hand is empty or holds a real card.
pub open spec fn hand_plain(hand: Seq<Card>) -> bool {
    &&& hand.len() == 5
    &&& forall|i: int| 0 <= i < 5 ==> hand[i].is_blank() || (#[trigger] hand[i]).is_card()
}

/// The hint of a slot after the other seat named the color `color`: a card
/// of that color is known to have it, any other card is known not to.
pub open spec fn told_color(hint: Hint, card: Card, color: Color) -> Hint {
    if card.is_blank() {
        hint
    } else if card.color_index() == color.index() {
        Hint { color: bit(color.index()), suit: hint.suit }
    } else {
        Hint { color: hint.color & !bit(color.index()), suit: hint.suit }
    }
}

/// The hint of a slot after the other seat named the rank `suit`.
pub open spec fn told_suit(hint: Hint, card: Card, suit: Suit) -> Hint {
    if card.is_blank() {
        hint
    } else if card.suit_index() == suit.index() {
        Hint { color: hint.color, suit: bit(suit.index()) }
    } else {
        Hint { color: hint.color, suit: hint.suit & !bit(suit.index()) }
    }
}

/// How many ranks of a color can still be played from rank position `from`
/// on: the run of ranks of which the discard pile does not hold every copy.
pub open spec fn open_run(discard: Seq<u8>, color: int, from: int) -> int
    decreases 5 - from,
{
    if from < 0 || from >= 5 {
        0
    } else if discard[5 * color + from] < starting_count(5 * color + from) {
        1 + open_run(discard, color, from + 1)
    } else {
        0
    }
}

/// An upper bound on the cards that can still be played, over the first `n`
/// colors.
pub open spec fn future_upto(fireworks: Seq<u8>, discard: Seq<u8>, n: int) -> int
    decreases n,
{
    if n <= 0 {
        0
    } else {
        future_upto(fireworks, discard, n - 1) + open_run(
            discard,
            n - 1,
            fireworks[n - 1] as int,
        )
    }
}

/// An upper bound on the cards that can still be played.
pub open spec fn future(fireworks: Seq<u8>, discard: Seq<u8>) -> int {
    future_upto(fireworks, discard, 5)
}

/// The cards whose place a seat does not know: a full deck without the
/// discard pile, the fireworks and the hand that the seat sees.
pub open spec fn unseen(public: Public, seen: Seq<Card>) -> Seq<u8> {
    Seq::new(
        25,
        |id: int|
            (starting_count(id) - public.discard[id] - on_stack(public.fireworks, id) - held(
                seen,
                id,
                5,
            )) as u8,
    )
}

/// A full deck has the cards for the discard pile, the fireworks and the
/// hand that a seat sees together.
pub open spec fn accounted(public: Public, seen: Seq<Card>) -> bool {
    forall|id: int|
        0 <= id < 25 ==> #[trigger] public.discard[id] + on_stack(public.fireworks, id) + held(
            seen,
            id,
            5,
        ) <= starting_count(id)
}

/// What a seat may do, told from what it knows: it plays or discards under
/// a live hint of its own, discards only while a blue token is missing, and
/// names, for a blue token, a color or rank that it sees in the other hand.
pub open spec fn seat_may(public: Public, seen: Seq<Card>, action: Action) -> bool {
    match action {
        Action::Play(hint) => exists|slot: int|
            0 <= slot < 5 && #[trigger] public.player_hints[slot] == hint && hint.is_live(),
        Action::Discard(hint) => public.blue_tokens < 8 && exists|slot: int|
            0 <= slot < 5 && #[trigger] public.player_hints[slot] == hint && hint.is_live(),
        Action::ColorHint(color) => public.blue_tokens > 0 && exists|slot: int|
            0 <= slot < 5 && !(#[trigger] seen[slot]).is_blank() && seen[slot].color_index()
                == color.index(),
        Action::SuitHint(suit) => public.blue_tokens > 0 && exists|slot: int|
            0 <= slot < 5 && !(#[trigger] seen[slot]).is_blank() && seen[slot].suit_index()
                == suit.index(),
    }
}

impl Public {
    /// Both seats can move when their turn comes: the acting seat holds a
    /// card, and so does the other seat, unless it has just spent its last
    /// one in the last round.
    pub open spec fn playable(self) -> bool {
        &&& live(self.player_hints, 5) >= 1
        &&& live(self.opponent_hints, 5) >= 1 || (self.last_round && self.last_round_turns_taken
            >= 1)
    }

    /// The number of cards played.
    pub open spec fn score(self) -> int {
        sum_counts(self.fireworks, 5)
    }

    /// The shapes and ranges of what is public.
    pub open spec fn wf(self) -> bool {
        &&& self.player_hints.len() == 5
        &&& self.opponent_hints.len() == 5
        &&& self.discard.len() == 25
        &&& self.fireworks.len() == 5
        &&& forall|i: int| 0 <= i < 5 ==> (#[trigger] self.player_hints[i]).well_formed()
        &&& forall|i: int| 0 <= i < 5 ==> (#[trigger] self.opponent_hints[i]).well_formed()
        &&& forall|id: int| 0 <= id < 25 ==> #[trigger] self.discard[id] <= starting_count(id)
        &&& forall|c: int| 0 <= c < 5 ==> #[trigger] self.fireworks[c] <= 5
        &&& 0 <= self.blue_tokens <= 8
        &&& 1 <= self.black_tokens <= 4
        &&& 0 <= self.last_round_turns_taken <= 2
        &&& self.last_round_turns_taken > 0 ==> self.last_round
    }

    /// No card is left to draw, counted from what is public: the discard
    /// pile, the fireworks and the filled slots make up the whole deck.
    pub open spec fn deck_spent(self) -> bool {
        sum_counts(self.discard, 25) + live(self.player_hints, 5) + live(self.opponent_hints, 5)
            + self.score() == 50
    }

    /// The game is over: only one black token is left, or every firework is
    /// complete, or the draw pile is spent and both turns of the last round
    /// have been taken.
    pub open spec fn ended(self) -> bool {
        ||| self.black_tokens == 1
        ||| self.score() == 25
        ||| (self.deck_spent() && self.last_round && self.last_round_turns_taken == 2)
    }

    /// The reward in seventy-fifths: three for every card played, and for
    /// every card that can still be played one for each strike left.
    pub open spec fn reward_parts(self) -> int {
        3 * self.score() + (self.black_tokens - 1) * future(self.fireworks, self.discard)
    }
}

impl State {
    /// What both seats can see of the table.
    pub open spec fn public(self) -> Public {
        Public {
            player_hints: self.player_hints,
            opponent_hints: self.opponent_hints,
            discard: self.discard,
            blue_tokens: self.blue_tokens,
            black_tokens: self.black_tokens,
            fireworks: self.fireworks,
            last_round: self.last_round,
            last_round_turns_taken: self.last_round_turns_taken,
        }
    }

    /// The table that the public part and the two hands determine. The draw
    /// pile is what a full deck holds beyond the discard pile, the fireworks
    /// and the hands.
    pub open spec fn rebuilt(public: Public, player_hand: Seq<Card>, opponent_hand: Seq<Card>)
        -> State {
        State {
            player_hand,
            player_hints: public.player_hints,
            opponent_hand,
            opponent_hints: public.opponent_hints,
            deck: Seq::new(
                25,
                |id: int|
                    (starting_count(id) - public.discard[id] - on_stack(public.fireworks, id)
                        - held(player_hand, id, 5) - held(opponent_hand, id, 5)) as u8,
            ),
            discard: public.discard,
            blue_tokens: public.blue_tokens,
            black_tokens: public.black_tokens,
            fireworks: public.fireworks,
            last_round: public.last_round,
            last_round_turns_taken: public.last_round_turns_taken,
        }
    }

    /// A full deck has the cards for the discard pile, the fireworks and
    /// the two hands together.
    pub open spec fn fits(public: Public, player_hand: Seq<Card>, opponent_hand: Seq<Card>)
        -> bool {
        forall|id: int|
            0 <= id < 25 ==> #[trigger] public.discard[id] + on_stack(public.fireworks, id) + held(
                player_hand,
                id,
                5,
            ) + held(opponent_hand, id, 5) <= starting_count(id)
    }

    /// The number of cards in the draw pile.
    pub open spec fn deck_size(self) -> int {
        sum_counts(self.deck, 25)
    }

    /// Every copy of every card identity is in exactly one place: the draw
    /// pile, the discard pile, the fireworks or a hand.
    pub open spec fn conserved(self) -> bool {
        forall|id: int|
            0 <= id < 25 ==> #[trigger] self.deck[id] + self.discard[id] + on_stack(
                self.fireworks,
                id,
            ) + held(self.player_hand, id, 5) + held(self.opponent_hand, id, 5) == starting_count(
                id,
            )
    }

    /// The fifty cards of the deck are all accounted for.
    pub open spec fn counted(self) -> bool {
        self.deck_size() + sum_counts(self.discard, 25) + self.public().score() + filled(
            self.player_hand,
            5,
        ) + filled(self.opponent_hand, 5) == 50
    }

    /// The invariant of the game.
    pub open spec fn wf(self) -> bool {
        &&& self.public().wf()
        &&& self.deck.len() == 25
        &&& hand_sound(self.player_hand, self.player_hints)
        &&& hand_sound(self.opponent_hand, self.opponent_hints)
        &&& self.conserved()
        &&& self.last_round ==> self.deck_size() == 0
    }

    /// The game is over.
    pub open spec fn ended(self) -> bool {
        self.public().ended()
    }

    /// Slot `slot` of the acting seat holds a card under the hint `hint`.
    pub open spec fn holds(self, hint: Hint, slot: int) -> bool {
        0 <= slot < 5 && !self.player_hand[slot].is_blank() && self.player_hints[slot] == hint
    }

    /// Slot `slot` of the other seat holds a card of the color `color`.
    pub open spec fn shows_color(self, color: Color, slot: int) -> bool {
        0 <= slot < 5 && !self.opponent_hand[slot].is_blank()
            && self.opponent_hand[slot].color_index() == color.index()
    }

    /// Slot `slot` of the other seat holds a card of the rank `suit`.
    pub open spec fn shows_suit(self, suit: Suit, slot: int) -> bool {
        0 <= slot < 5 && !self.opponent_hand[slot].is_blank()
            && self.opponent_hand[slot].suit_index() == suit.index()
    }

    /// The acting seat may take the action: it plays or discards under a
    /// hint that one of its cards has, discards only while a blue token is
    /// missing, and names, for a blue token, a color or rank that the other
    /// seat holds.
    pub open spec fn legal(self, action: Action) -> bool {
        match action {
            Action::Play(hint) => exists|slot: int| self.holds(hint, slot),
            Action::Discard(hint) => self.blue_tokens < 8 && exists|slot: int|
                self.holds(hint, slot),
            Action::ColorHint(color) => self.blue_tokens > 0 && exists|slot: int|
                self.shows_color(color, slot),
            Action::SuitHint(suit) => self.blue_tokens > 0 && exists|slot: int|
                self.shows_suit(suit, slot),
        }
    }

    /// The acting seat can take the action. Every legal action can be
    /// taken; so can a discard with all eight blue tokens on the table,
    /// which is not offered, and brings no token back.
    pub open spec fn admits(self, action: Action) -> bool {
        match action {
            Action::Play(hint) => exists|slot: int| self.holds(hint, slot),
            Action::Discard(hint) => exists|slot: int| self.holds(hint, slot),
            Action::ColorHint(color) => self.blue_tokens > 0 && exists|slot: int|
                self.shows_color(color, slot),
            Action::SuitHint(suit) => self.blue_tokens > 0 && exists|slot: int|
                self.shows_suit(suit, slot),
        }
    }

    /// The first slot of the acting seat that holds a card under the hint,
    /// or 5 where none does.
    pub open spec fn first_slot(self, hint: Hint) -> int {
        if self.holds(hint, 0) {
            0
        } else if self.holds(hint, 1) {
            1
        } else if self.holds(hint, 2) {
            2
        } else if self.holds(hint, 3) {
            3
        } else if self.holds(hint, 4) {
            4
        } else {
            5
        }
    }

    /// The place of an action in the list of legal actions: plays and
    /// discards by the first slot that has their hint, the play before the
    /// discard, then the colors, then the ranks.
    pub open spec fn place(self, action: Action) -> int {
        match action {
            Action::Play(hint) => 2 * self.first_slot(hint),
            Action::Discard(hint) => 2 * self.first_slot(hint) + 1,
            Action::ColorHint(color) => 10 + color.index(),
            Action::SuitHint(suit) => 15 + suit.index(),
        }
    }

    /// The other seat is told which of its cards have the color `color`, for
    /// a blue token.
    pub open spec fn hint_color(self, color: Color) -> State {
        State {
            opponent_hints: Seq::new(
                5,
                |i: int| told_color(self.opponent_hints[i], self.opponent_hand[i], color),
            ),
            blue_tokens: self.blue_tokens - 1,
            ..self
        }
    }

    /// The other seat is told which of its cards have the rank `suit`, for a
    /// blue token.
    pub open spec fn hint_suit(self, suit: Suit) -> State {
        State {
            opponent_hints: Seq::new(
                5,
                |i: int| told_suit(self.opponent_hints[i], self.opponent_hand[i], suit),
            ),
            blue_tokens: self.blue_tokens - 1,
            ..self
        }
    }

    /// The card of slot `slot` goes to the discard pile and leaves the slot
    /// empty.
    pub open spec fn toss(self, slot: int) -> State {
        State {
            discard: self.discard.update(
                self.player_hand[slot].id as int,
                (self.discard[self.player_hand[slot].id as int] + 1) as u8,
            ),
            player_hand: self.player_hand.update(slot, Card { id: NO_CARD }),
            player_hints: self.player_hints.update(slot, Hint::absent()),
            ..self
        }
    }

    /// The card of slot `slot` is played. If it is the next of its color it
    /// goes onto the fireworks, and a Five brings back a blue token while one
    /// is missing. If not, it is discarded for a black token.
    pub open spec fn play(self, slot: int) -> State {
        let card = self.player_hand[slot];
        if self.fireworks[card.color_index() as int] == card.suit_index() {
            State {
                fireworks: self.fireworks.update(
                    card.color_index() as int,
                    (card.suit_index() + 1) as u8,
                ),
                blue_tokens: if card.suit_index() == 4 && self.blue_tokens < 8 {
                    self.blue_tokens + 1
                } else {
                    self.blue_tokens
                },
                ..self
            }
        } else {
            State { black_tokens: self.black_tokens - 1, ..self.toss(slot) }
        }
    }

    /// `drawn` is what a draw can bring: a card of the draw pile, or the
    /// empty-slot marker when the pile is empty.
    pub open spec fn can_draw(self, drawn: Card) -> bool {
        if self.deck_size() == 0 {
            drawn.is_blank()
        } else {
            drawn.is_card() && self.deck[drawn.id as int] > 0
        }
    }

    /// Slot `slot` is filled from the draw pile with `drawn`, about which
    /// nothing is known yet. With the pile empty the slot stays empty and the
    /// last round begins.
    pub open spec fn draw(self, slot: int, drawn: Card) -> State {
        if drawn.is_blank() {
            State {
                player_hand: self.player_hand.update(slot, drawn),
                player_hints: self.player_hints.update(slot, Hint::absent()),
                last_round: true,
                ..self
            }
        } else {
            State {
                player_hand: self.player_hand.update(slot, drawn),
                player_hints: self.player_hints.update(slot, Hint::blank()),
                deck: self.deck.update(drawn.id as int, (self.deck[drawn.id as int] - 1) as u8),
                ..self
            }
        }
    }

    /// A blue token comes back while one is missing.
    pub open spec fn regain(self) -> State {
        State {
            blue_tokens: if self.blue_tokens < 8 {
                self.blue_tokens + 1
            } else {
                self.blue_tokens
            },
            ..self
        }
    }

    /// The turn ends: a turn of the last round is counted, and the seats
    /// change places.
    pub open spec fn end_turn(self) -> State {
        State {
            player_hand: self.opponent_hand,
            player_hints: self.opponent_hints,
            opponent_hand: self.player_hand,
            opponent_hints: self.player_hints,
            last_round_turns_taken: if self.last_round {
                self.last_round_turns_taken + 1
            } else {
                self.last_round_turns_taken
            },
            ..self
        }
    }

    /// The table after the acting seat took `action`, where a play or a
    /// discard used slot `slot` and drew `drawn`.
    pub open spec fn step(self, action: Action, slot: int, drawn: Card) -> State {
        match action {
            Action::ColorHint(color) => self.hint_color(color).end_turn(),
            Action::SuitHint(suit) => self.hint_suit(suit).end_turn(),
            Action::Play(_) => self.play(slot).draw(slot, drawn).end_turn(),
            Action::Discard(_) => self.toss(slot).draw(slot, drawn).regain().end_turn(),
        }
    }

    /// `slot` and `drawn` are a possible outcome of the chances in `action`.
    pub open spec fn outcome(self, action: Action, slot: int, drawn: Card) -> bool {
        match action {
            Action::ColorHint(_) => true,
            Action::SuitHint(_) => true,
            Action::Play(hint) => self.holds(hint, slot) && self.can_draw(drawn),
            Action::Discard(hint) => self.holds(hint, slot) && self.can_draw(drawn),
        }
    }
}

/// One move of a game: the action, and how the chances in it fell.
pub struct Move {
    pub action: Action,
    pub slot: int,
    pub drawn: Card,
}

/// The table after the first `n` of the moves.
pub open spec fn after(start: State, moves: Seq<Move>, n: int) -> State
    decreases n,
{
    if n <= 0 {
        start
    } else {
        after(start, moves, n - 1).step(moves[n - 1].action, moves[n - 1].slot, moves[n - 1].drawn)
    }
}

/// The moves are a game played by the rules: each is made while the game is
/// on, is legal where it is made, and falls as the chances can fall there.
pub open spec fn played(start: State, moves: Seq<Move>) -> bool {
    forall|k: int|
        0 <= k < moves.len() ==> {
            &&& !(#[trigger] after(start, moves, k)).ended()
            &&& after(start, moves, k).legal(moves[k].action)
            &&& after(start, moves, k).outcome(moves[k].action, moves[k].slot, moves[k].drawn)
        }
}

} // verus!
