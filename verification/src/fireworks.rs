//! The stacks of played cards, one per color.

use crate::card::{Card, Color};
use crate::collection::{lemma_sum_bounds, sum_counts};
use vstd::prelude::*;

verus! {

/// For each color the highest rank played so far, 0 for none: a stack of
/// height `h` holds the ranks One to `h` of its color.
#[derive(Copy, Clone, Debug)]
pub struct Fireworks(pub [u8; 5]);

impl View for Fireworks {
    type V = Seq<u8>;

    /// The five heights.
    open spec fn view(&self) -> Seq<u8> {
        self.0@
    }
}

impl Fireworks {
    /// No stack is higher than five.
    pub open spec fn wf(self) -> bool {
        forall|c: int| 0 <= c < 5 ==> #[trigger] self@[c] <= 5
    }

    /// The number of cards played: the score.
    pub open spec fn score(self) -> int {
        sum_counts(self@, 5)
    }

    /// The card identity `id` lies on its color's stack.
    pub open spec fn holds(self, id: int) -> bool {
        id % 5 < self@[id / 5]
    }

    /// The card is the next one of its color.
    pub open spec fn takes(self, card: Card) -> bool {
        self@[card.color_index() as int] == card.suit_index()
    }

    /// No card played yet.
    pub fn empty() -> (fireworks: Fireworks)
        ensures
            fireworks.wf(),
            fireworks.score() == 0,
            forall|c: int| 0 <= c < 5 ==> fireworks@[c] == 0,
    {
        let fireworks = Fireworks([0;5]);
        proof {
            reveal_with_fuel(sum_counts, 6);
        }
        fireworks
    }

    /// The number of cards played.
    pub fn total(&self) -> (score: u8)
        requires
            self.score() <= u8::MAX,
        ensures
            score == self.score(),
    {
        let mut sum: u8 = 0;
        let mut color: usize = 0;
        while color < 5
            invariant
                color <= 5,
                sum == sum_counts(self@, color as int),
                self.score() <= u8::MAX,
            decreases 5 - color,
        {
            proof {
                lemma_sum_bounds(self@, color as int, 5);
            }
            sum += self.0[color];
            color += 1;
        }
        sum
    }

    /// Whether the card is the next one of its color.
    pub fn accepts(&self, card: Card) -> (next: bool)
        requires
            card.is_card(),
        ensures
            next == self.takes(card),
    {
        self.0[card.color_id() as usize] == card.suit_id()
    }

    /// Puts the card, which is the next one of its color, on its stack.
    pub fn add_card(&mut self, card: Card)
        requires
            card.is_card(),
            old(self).takes(card),
        ensures
            final(self)@ == old(self)@.update(
                card.color_index() as int,
                (card.suit_index() + 1) as u8,
            ),
    {
        self.0[card.color_id() as usize] = card.suit_id() + 1;
    }

    /// Whether the stack of the color has reached the Five.
    pub fn is_color_complete(&self, color: Color) -> (complete: bool)
        ensures
            complete == (self@[color.index() as int] == 5),
    {
        self.0[color.id() as usize] == 5
    }
}

} // verus!
