//! A pile of cards, kept as one count per card identity.

use crate::card::{Card, Color, Suit};
use crate::fireworks::Fireworks;
use crate::hint::Hint;
use crate::random::gen_below;
use crate::ratio::Ratio;
use rand::rngs::StdRng;
use vstd::prelude::*;

verus! {

/// The sum of the first `n` entries of `counts`.
pub open spec fn sum_counts(counts: Seq<u8>, n: int) -> int
    decreases n,
{
    if n <= 0 {
        0
    } else {
        sum_counts(counts, n - 1) + counts[n - 1]
    }
}

/// How many copies of a card identity a full deck holds: the five ranks of a
/// color come three, two, two, two and one times.
pub open spec fn starting_count(id: int) -> int {
    if id % 5 == 0 {
        3
    } else if id % 5 == 4 {
        1
    } else {
        2
    }
}

/// How many of the first `n` slots of a hand hold the card identity `id`.
pub open spec fn held(hand: Seq<Card>, id: int, n: int) -> int
    decreases n,
{
    if n <= 0 {
        0
    } else {
        held(hand, id, n - 1) + if hand[n - 1].id == id {
            1int
        } else {
            0int
        }
    }
}

/// How many of the first `n` slots of a hand hold a card.
pub open spec fn filled(hand: Seq<Card>, n: int) -> int
    decreases n,
{
    if n <= 0 {
        0
    } else {
        filled(hand, n - 1) + if hand[n - 1].is_blank() {
            0int
        } else {
            1int
        }
    }
}

/// The counts with every identity that the hint rules out set to zero.
pub open spec fn restricted(counts: Seq<u8>, hint: Hint) -> Seq<u8> {
    Seq::new(
        counts.len(),
        |id: int|
            if hint.admits(Card { id: id as u8 }) {
                counts[id]
            } else {
                0u8
            },
    )
}

/// With the copies of a pile laid out by identity, lowest first, the copy at
/// position `n` has identity `id`.
pub open spec fn lies_at(counts: Seq<u8>, n: int, id: int) -> bool {
    0 <= id < counts.len() && sum_counts(counts, id) <= n < sum_counts(counts, id + 1)
}

/// A multiset of cards: `counts[id]` copies of the identity `id`, `total` cards
/// in all.
#[derive(Copy, Clone, Debug)]
pub struct CardCollection {
    pub total: u8,
    pub counts: [u8; 25],
}

impl View for CardCollection {
    type V = Seq<u8>;

    /// The counts, one per identity.
    open spec fn view(&self) -> Seq<u8> {
        self.counts@
    }
}

impl CardCollection {
    /// `total` is the number of cards that `counts` holds.
    pub open spec fn wf(self) -> bool {
        self.total == sum_counts(self@, 25)
    }

    /// No identity occurs more often than in a full deck.
    pub open spec fn within_deck(self) -> bool {
        forall|id: int| 0 <= id < 25 ==> #[trigger] self@[id] <= starting_count(id)
    }

    /// `other` holds no more copies of any identity than `self` does.
    pub open spec fn covers(self, other: Seq<u8>) -> bool {
        forall|id: int| 0 <= id < 25 ==> #[trigger] other[id] <= self@[id]
    }

    /// The number of cards that the hint admits.
    pub open spec fn matching_total(self, hint: Hint) -> int {
        sum_counts(restricted(self@, hint), 25)
    }

    /// The pile with one copy more of `id`.
    pub open spec fn plus(self, id: int) -> Seq<u8> {
        self@.update(id, (self@[id] + 1) as u8)
    }

    /// The pile with one copy less of `id`.
    pub open spec fn minus(self, id: int) -> Seq<u8> {
        self@.update(id, (self@[id] - 1) as u8)
    }

    /// The pile without cards.
    pub fn empty() -> (pile: CardCollection)
        ensures
            pile.wf(),
            pile.total == 0,
            forall|id: int| 0 <= id < 25 ==> pile@[id] == 0,
    {
        let pile = CardCollection { total: 0, counts: [0;25] };
        proof {
            lemma_sum_zero(pile@, 25);
        }
        pile
    }

    /// The full deck: of each color three Ones, two Twos, Threes and Fours,
    /// and one Five.
    pub fn starting_deck() -> (deck: CardCollection)
        ensures
            deck.wf(),
            deck.total == 50,
            forall|id: int| 0 <= id < 25 ==> deck@[id] == starting_count(id),
    {
        let deck = CardCollection {
            total: 50,
            counts: [3, 2, 2, 2, 1, 3, 2, 2, 2, 1, 3, 2, 2, 2, 1, 3, 2, 2, 2, 1, 3, 2, 2, 2, 1],
        };
        proof {
            reveal_with_fuel(sum_counts, 26);
            assert(sum_counts(deck@, 25) == 50);
        }
        deck
    }

    /// Puts one copy of the card on the pile.
    pub fn add(&mut self, card: Card)
        requires
            old(self).wf(),
            card.is_card(),
            old(self).total < u8::MAX,
        ensures
            final(self).wf(),
            final(self).total == old(self).total + 1,
            final(self)@ == old(self).plus(card.id as int),
    {
        proof {
            lemma_sum_bounds(self@, card.id as int, 25);
            lemma_sum_update(self@, card.id as int, (self@[card.id as int] + 1) as u8, 25);
        }
        self.total += 1;
        self.counts[card.id() as usize] += 1;
    }

    /// Takes one copy of the card off the pile, and hands it back.
    pub fn remove(&mut self, card: Card) -> (removed: Card)
        requires
            old(self).wf(),
            card.is_card(),
            old(self)@[card.id as int] > 0,
        ensures
            removed == card,
            final(self).wf(),
            final(self).total == old(self).total - 1,
            final(self)@ == old(self).minus(card.id as int),
    {
        proof {
            lemma_sum_bounds(self@, card.id as int, 25);
            lemma_sum_update(self@, card.id as int, (self@[card.id as int] - 1) as u8, 25);
        }
        self.total -= 1;
        self.counts[card.id() as usize] -= 1;
        card
    }

    /// The number of cards of one rank, over the five colors.
    pub open spec fn count_of_suit(self, s: int) -> int {
        self@[s] + self@[5 + s] + self@[10 + s] + self@[15 + s] + self@[20 + s]
    }

    /// The number of cards of one color, over the five ranks.
    pub open spec fn count_of_color(self, c: int) -> int {
        self@[5 * c] + self@[5 * c + 1] + self@[5 * c + 2] + self@[5 * c + 3] + self@[5 * c + 4]
    }

    /// Takes the cards of a hand out of the pile; empty slots are passed over.
    pub fn remove_hand(&mut self, hand: &[Card; 5])
        requires
            old(self).wf(),
            forall|i: int| 0 <= i < 5 ==> hand@[i].is_blank() || (#[trigger] hand@[i]).is_card(),
            forall|id: int| 0 <= id < 25 ==> held(hand@, id, 5) <= #[trigger] old(self)@[id],
        ensures
            final(self).wf(),
            final(self).total == old(self).total - filled(hand@, 5),
            forall|id: int|
                0 <= id < 25 ==> #[trigger] final(self)@[id] == old(self)@[id] - held(hand@, id, 5),
    {
        let mut slot: usize = 0;
        while slot < 5
            invariant
                slot <= 5,
                self.wf(),
                self.total == old(self).total - filled(hand@, slot as int),
                forall|i: int|
                    0 <= i < 5 ==> hand@[i].is_blank() || (#[trigger] hand@[i]).is_card(),
                forall|id: int| 0 <= id < 25 ==> held(hand@, id, 5) <= #[trigger] old(self)@[id],
                forall|id: int|
                    0 <= id < 25 ==> #[trigger] self@[id] == old(self)@[id] - held(
                        hand@,
                        id,
                        slot as int,
                    ),
            decreases 5 - slot,
        {
            let card = hand[slot];
            if card.is_some() {
                proof {
                    lemma_held_grows(hand@, card.id as int, slot as int + 1, 5);
                    assert(self@[card.id as int] == old(self)@[card.id as int] - held(
                        hand@,
                        card.id as int,
                        slot as int,
                    ));
                }
                self.remove(card);
            }
            slot += 1;
        }
    }

    /// Puts the cards of a hand on the pile; empty slots are passed over.
    pub fn add_hand(&mut self, hand: &[Card; 5])
        requires
            old(self).wf(),
            forall|i: int| 0 <= i < 5 ==> hand@[i].is_blank() || (#[trigger] hand@[i]).is_card(),
            old(self).total + filled(hand@, 5) <= u8::MAX,
        ensures
            final(self).wf(),
            final(self).total == old(self).total + filled(hand@, 5),
            forall|id: int|
                0 <= id < 25 ==> #[trigger] final(self)@[id] == old(self)@[id] + held(hand@, id, 5),
    {
        let mut slot: usize = 0;
        while slot < 5
            invariant
                slot <= 5,
                self.wf(),
                self.total == old(self).total + filled(hand@, slot as int),
                old(self).total + filled(hand@, 5) <= u8::MAX,
                forall|i: int|
                    0 <= i < 5 ==> hand@[i].is_blank() || (#[trigger] hand@[i]).is_card(),
                forall|id: int|
                    0 <= id < 25 ==> #[trigger] self@[id] == old(self)@[id] + held(
                        hand@,
                        id,
                        slot as int,
                    ),
            decreases 5 - slot,
        {
            let card = hand[slot];
            let ghost before = self@;
            proof {
                lemma_filled_grows(hand@, slot as int + 1, 5);
            }
            if card.is_some() {
                proof {
                    lemma_sum_bounds(self@, card.id as int, 25);
                }
                self.add(card);
                assert(self@ == before.update(
                    card.id as int,
                    (before[card.id as int] + 1) as u8,
                ));
            }
            assert forall|id: int| 0 <= id < 25 implies #[trigger] self@[id] == old(self)@[id]
                + held(hand@, id, slot as int + 1) by {
                assert(before[id] == old(self)@[id] + held(hand@, id, slot as int));
                assert(held(hand@, id, slot as int + 1) == held(hand@, id, slot as int)
                    + if hand@[slot as int].id == id {
                    1int
                } else {
                    0int
                });
            }
            slot += 1;
        }
    }

    /// Takes every card that lies on the fireworks out of the pile.
    pub fn remove_fireworks(&mut self, fireworks: &Fireworks)
        requires
            old(self).wf(),
            fireworks.wf(),
            forall|id: int| 0 <= id < 25 && fireworks.holds(id) ==> #[trigger] old(self)@[id] > 0,
        ensures
            final(self).wf(),
            final(self).total == old(self).total - fireworks.score(),
            forall|id: int|
                0 <= id < 25 ==> #[trigger] final(self)@[id] == old(self)@[id] - if fireworks.holds(
                    id,
                ) {
                    1int
                } else {
                    0int
                },
    {
        let mut color_i: u8 = 0;
        while color_i < 5
            invariant
                color_i <= 5,
                self.wf(),
                fireworks.wf(),
                self.total == old(self).total - sum_counts(fireworks@, color_i as int),
                forall|id: int|
                    0 <= id < 25 && fireworks.holds(id) ==> #[trigger] old(self)@[id] > 0,
                forall|id: int|
                    0 <= id < 25 ==> #[trigger] self@[id] == old(self)@[id] - if id < 5 * color_i
                        && fireworks.holds(id) {
                        1int
                    } else {
                        0int
                    },
            decreases 5 - color_i,
        {
            let height: u8 = fireworks.0[color_i as usize];
            let mut suit_i: u8 = 0;
            while suit_i < height
                invariant
                    color_i < 5,
                    suit_i <= height <= 5,
                    height == fireworks@[color_i as int],
                    self.wf(),
                    self.total == old(self).total - sum_counts(fireworks@, color_i as int)
                        - suit_i,
                    forall|id: int|
                        0 <= id < 25 && fireworks.holds(id) ==> #[trigger] old(self)@[id] > 0,
                    forall|id: int|
                        0 <= id < 25 ==> #[trigger] self@[id] == old(self)@[id] - if id < 5
                            * color_i + suit_i && fireworks.holds(id) {
                            1int
                        } else {
                            0int
                        },
                decreases height - suit_i,
            {
                let card = Card::from_parts(color_i, suit_i);
                assert(fireworks.holds(card.id as int));
                assert(self@[card.id as int] == old(self)@[card.id as int]);
                self.remove(card);
                suit_i += 1;
            }
            proof {
                lemma_sum_bounds(fireworks@, color_i as int, 5);
                assert forall|id: int| 0 <= id < 25 implies #[trigger] self@[id] == old(self)@[id]
                    - if id < 5 * (color_i + 1) && fireworks.holds(id) {
                    1int
                } else {
                    0int
                } by {
                    if 5 * color_i + suit_i <= id < 5 * (color_i + 1) {
                        assert(id / 5 == color_i);
                        assert(!fireworks.holds(id));
                    }
                }
            }
            color_i += 1;
        }
    }

    /// Takes every card of `other` out of the pile.
    pub fn subtract(&mut self, other: &Self)
        requires
            old(self).wf(),
            other.wf(),
            old(self).covers(other@),
        ensures
            final(self).wf(),
            final(self).total == old(self).total - other.total,
            forall|id: int|
                0 <= id < 25 ==> #[trigger] final(self)@[id] == old(self)@[id] - other@[id],
    {
        proof {
            lemma_sum_covers(self@, other@, 25);
        }
        self.total -= other.total;
        let mut i: usize = 0;
        while i < 25
            invariant
                i <= 25,
                old(self).covers(other@),
                self.total == old(self).total - other.total,
                forall|id: int| 0 <= id < i ==> #[trigger] self@[id] == old(self)@[id] - other@[id],
                forall|id: int| i <= id < 25 ==> #[trigger] self@[id] == old(self)@[id],
            decreases 25 - i,
        {
            assert(other@[i as int] <= old(self)@[i as int]);
            assert(self@[i as int] == old(self)@[i as int]);
            let ghost before = self@;
            self.counts[i] -= other.counts[i];
            assert(self@ == before.update(i as int, (before[i as int] - other@[i as int]) as u8));
            i += 1;
        }
        proof {
            lemma_sum_difference(old(self)@, other@, self@, 25);
        }
    }

    /// Takes out the card at position `card_index` of the pile laid out by
    /// identity, lowest first.
    pub fn pop_nth(&mut self, card_index: u8) -> (card: Card)
        requires
            old(self).wf(),
            card_index < old(self).total,
        ensures
            card.is_card(),
            lies_at(old(self)@, card_index as int, card.id as int),
            old(self)@[card.id as int] > 0,
            final(self).wf(),
            final(self).total == old(self).total - 1,
            final(self)@ == old(self).minus(card.id as int),
    {
        let mut total: u8 = 0;
        let mut i: usize = 0;
        while i < 25
            invariant
                i <= 25,
                self.wf(),
                *self == *old(self),
                card_index < self.total,
                total == sum_counts(self@, i as int),
                total <= card_index,
            decreases 25 - i,
        {
            proof {
                lemma_sum_bounds(self@, i as int, 25);
            }
            if card_index < total + self.counts[i] {
                return self.remove(Card::from_id(i as u8));
            }
            total += self.counts[i];
            i += 1;
        }
        Card::none()
    }

    /// Takes out one card, each copy in the pile being as likely as any other.
    /// An empty pile gives the empty-slot marker.
    pub fn pop(&mut self, rng: &mut StdRng) -> (card: Card)
        requires
            old(self).wf(),
        ensures
            final(self).wf(),
            old(self).total == 0 ==> card.is_blank() && *final(self) == *old(self),
            old(self).total > 0 ==> {
                &&& card.is_card()
                &&& old(self)@[card.id as int] > 0
                &&& final(self).total == old(self).total - 1
                &&& final(self)@ == old(self).minus(card.id as int)
            },
    {
        if self.total > 0 {
            let card_index: u8 = gen_below(rng, self.total);
            self.pop_nth(card_index)
        } else {
            Card::none()
        }
    }

    /// The cards of the pile that the hint admits.
    pub fn matching(&self, hint: &Hint) -> (matches: CardCollection)
        requires
            self.wf(),
        ensures
            matches.wf(),
            matches@ == restricted(self@, *hint),
            matches.total == self.matching_total(*hint),
            matches.total <= self.total,
    {
        let mut matches = *self;
        let mut i: usize = 0;
        while i < 25
            invariant
                i <= 25,
                matches.wf(),
                matches.total <= self.total,
                forall|id: int| 0 <= id < i ==> #[trigger] matches@[id] == restricted(self@, *hint)[id],
                forall|id: int| i <= id < 25 ==> #[trigger] matches@[id] == self@[id],
            decreases 25 - i,
        {
            let card = Card::from_id(i as u8);
            assert(card == Card { id: i as u8 });
            assert(matches@[i as int] == self@[i as int]);
            if self.counts[i] > 0 && !hint.matches(card) {
                proof {
                    lemma_sum_bounds(matches@, i as int, 25);
                    lemma_sum_update(matches@, i as int, 0, 25);
                }
                let ghost before = matches@;
                matches.total -= matches.counts[i];
                matches.counts[i] = 0;
                assert(matches@ == before.update(i as int, 0));
            }
            i += 1;
        }
        assert(matches@ =~= restricted(self@, *hint));
        matches
    }

    /// Takes out the card at position `card_index` among the cards that the
    /// hint admits, laid out by identity, and weighs the draw: the copies of
    /// that identity left in the pile, over one more than the number of cards
    /// that the hint admitted.
    pub fn pop_match_nth(&mut self, hint: &Hint, card_index: u8) -> (drawn: (Card, Ratio))
        requires
            old(self).wf(),
            card_index < old(self).matching_total(*hint),
        ensures
            drawn.0.is_card(),
            hint.admits(drawn.0),
            lies_at(restricted(old(self)@, *hint), card_index as int, drawn.0.id as int),
            old(self)@[drawn.0.id as int] > 0,
            final(self).wf(),
            final(self).total == old(self).total - 1,
            final(self)@ == old(self).minus(drawn.0.id as int),
            drawn.1.num == old(self)@[drawn.0.id as int] - 1,
            drawn.1.den == old(self).matching_total(*hint) + 1,
            drawn.1.num < drawn.1.den <= 256,
    {
        let mut matches = self.matching(hint);
        let admitted: u8 = matches.total;
        let matched_card = matches.pop_nth(card_index);
        proof {
            lemma_sum_bounds(restricted(self@, *hint), matched_card.id as int, 25);
        }
        let left: u8 = matches.counts[matched_card.id() as usize];
        let weight = Ratio { num: left as u64, den: admitted as u64 + 1 };
        (self.remove(matched_card), weight)
    }

    /// Takes out one of the cards that the hint admits, each copy being as
    /// likely as any other, with the weight of the draw. `None` when the hint
    /// admits no card of the pile.
    pub fn pop_match(&mut self, hint: &Hint, rng: &mut StdRng) -> (drawn: Option<(Card, Ratio)>)
        requires
            old(self).wf(),
        ensures
            final(self).wf(),
            drawn is None <==> old(self).matching_total(*hint) == 0,
            drawn is None ==> *final(self) == *old(self),
            drawn matches Some((card, weight)) ==> {
                &&& card.is_card()
                &&& hint.admits(card)
                &&& old(self)@[card.id as int] > 0
                &&& final(self).total == old(self).total - 1
                &&& final(self)@ == old(self).minus(card.id as int)
                &&& weight.num == old(self)@[card.id as int] - 1
                &&& weight.den == old(self).matching_total(*hint) + 1
                &&& weight.num < weight.den <= 256
            },
    {
        let matches = self.matching(hint);
        if matches.total > 0 {
            let card_index: u8 = gen_below(rng, matches.total);
            Some(self.pop_match_nth(hint, card_index))
        } else {
            None
        }
    }

    /// The number of cards of one rank.
    pub fn num_of_suit(&self, suit: Suit) -> (num: u8)
        requires
            self.count_of_suit(suit.index() as int) <= u8::MAX,
        ensures
            num == self.count_of_suit(suit.index() as int),
    {
        let rank: usize = suit.id() as usize;
        let mut num: u8 = 0;
        let mut color: usize = 0;
        while color < 5
            invariant
                color <= 5,
                rank == suit.index(),
                rank < 5,
                self.count_of_suit(rank as int) <= u8::MAX,
                num == (if color > 0 {
                    self@[rank as int] as int
                } else {
                    0
                }) + (if color > 1 {
                    self@[5 + rank] as int
                } else {
                    0
                }) + (if color > 2 {
                    self@[10 + rank] as int
                } else {
                    0
                }) + (if color > 3 {
                    self@[15 + rank] as int
                } else {
                    0
                }) + (if color > 4 {
                    self@[20 + rank] as int
                } else {
                    0
                }),
            decreases 5 - color,
        {
            num += self.counts[5 * color + rank];
            color += 1;
        }
        num
    }

    /// The number of cards of one color.
    pub fn num_of_color(&self, color: Color) -> (num: u8)
        requires
            self.count_of_color(color.index() as int) <= u8::MAX,
        ensures
            num == self.count_of_color(color.index() as int),
    {
        let base: usize = 5 * (color.id() as usize);
        let mut num: u8 = 0;
        let mut suit: usize = 0;
        while suit < 5
            invariant
                suit <= 5,
                base == 5 * color.index(),
                base <= 20,
                self.count_of_color(color.index() as int) <= u8::MAX,
                num == (if suit > 0 {
                    self@[base as int] as int
                } else {
                    0
                }) + (if suit > 1 {
                    self@[base + 1] as int
                } else {
                    0
                }) + (if suit > 2 {
                    self@[base + 2] as int
                } else {
                    0
                }) + (if suit > 3 {
                    self@[base + 3] as int
                } else {
                    0
                }) + (if suit > 4 {
                    self@[base + 4] as int
                } else {
                    0
                }),
            decreases 5 - suit,
        {
            num += self.counts[base + suit];
            suit += 1;
        }
        num
    }
}

/// The number of slots that hold an identity grows with the slots counted.
pub proof fn lemma_held_grows(hand: Seq<Card>, id: int, k: int, n: int)
    requires
        0 <= k <= n,
    ensures
        0 <= held(hand, id, k) <= held(hand, id, n),
    decreases n,
{
    if k < n {
        lemma_held_grows(hand, id, k, n - 1);
    } else if n > 0 {
        lemma_held_grows(hand, id, k - 1, n - 1);
    }
}

/// The number of filled slots grows with the slots counted.
pub proof fn lemma_filled_grows(hand: Seq<Card>, k: int, n: int)
    requires
        0 <= k <= n,
    ensures
        0 <= filled(hand, k) <= filled(hand, n),
    decreases n,
{
    if k < n {
        lemma_filled_grows(hand, k, n - 1);
    } else if n > 0 {
        lemma_filled_grows(hand, k - 1, n - 1);
    }
}

/// A pile that covers another, entry by entry, holds at least as many cards.
pub proof fn lemma_sum_covers(big: Seq<u8>, small: Seq<u8>, n: int)
    requires
        0 <= n <= big.len(),
        n <= small.len(),
        forall|i: int| 0 <= i < n ==> #[trigger] small[i] <= big[i],
    ensures
        sum_counts(small, n) <= sum_counts(big, n),
    decreases n,
{
    if n > 0 {
        lemma_sum_covers(big, small, n - 1);
    }
}

/// Where each entry of `rest` is the difference of those of `all` and `part`,
/// so are the sums.
pub proof fn lemma_sum_difference(all: Seq<u8>, part: Seq<u8>, rest: Seq<u8>, n: int)
    requires
        0 <= n <= all.len(),
        n <= part.len(),
        n <= rest.len(),
        forall|i: int| 0 <= i < n ==> #[trigger] rest[i] == all[i] - part[i],
    ensures
        sum_counts(rest, n) == sum_counts(all, n) - sum_counts(part, n),
    decreases n,
{
    if n > 0 {
        lemma_sum_difference(all, part, rest, n - 1);
    }
}

/// A pile of zeros sums to zero.
pub proof fn lemma_sum_zero(counts: Seq<u8>, n: int)
    requires
        0 <= n <= counts.len(),
        forall|i: int| 0 <= i < n ==> counts[i] == 0,
    ensures
        sum_counts(counts, n) == 0,
    decreases n,
{
    if n > 0 {
        lemma_sum_zero(counts, n - 1);
    }
}

/// A partial sum grows with its length, and no entry exceeds the sum that
/// includes it.
pub proof fn lemma_sum_bounds(counts: Seq<u8>, i: int, n: int)
    requires
        0 <= i < n <= counts.len(),
    ensures
        0 <= sum_counts(counts, i),
        sum_counts(counts, i) + counts[i] == sum_counts(counts, i + 1),
        sum_counts(counts, i + 1) <= sum_counts(counts, n),
    decreases n,
{
    lemma_sum_nonnegative(counts, i);
    if i + 1 < n {
        lemma_sum_bounds(counts, i, n - 1);
    }
}

/// Partial sums are never negative.
pub proof fn lemma_sum_nonnegative(counts: Seq<u8>, n: int)
    ensures
        0 <= sum_counts(counts, n),
    decreases n,
{
    if n > 0 {
        lemma_sum_nonnegative(counts, n - 1);
    }
}

/// Changing one entry changes every sum that includes it by the difference.
pub proof fn lemma_sum_update(counts: Seq<u8>, i: int, value: u8, n: int)
    requires
        0 <= i < counts.len(),
        0 <= n <= counts.len(),
    ensures
        sum_counts(counts.update(i, value), n) == sum_counts(counts, n) + if i < n {
            value - counts[i]
        } else {
            0
        },
    decreases n,
{
    if n > 0 {
        lemma_sum_update(counts, i, value, n - 1);
    }
}

} // verus!
