//! What both players know about one hand slot.
//!
//! A hint holds two masks of five bits, one for colors and one for ranks: bit
//! `i` is set while the slot's card may still have color (or rank) `i`. A sixth
//! bit alone marks the hint of an empty slot.

use crate::card::{Card, Color, Suit};
use vstd::prelude::*;

verus! {

/// All five bits set: nothing is known.
pub const EMPTY_MASK: u8 = 0b011111;

/// The sixth bit alone: the slot holds no card.
pub const NONE_MASK: u8 = 0b100000;

/// The mask with only bit `i` set, for the five positions in use.
pub open spec fn bit(i: u8) -> u8 {
    if i == 0 {
        1
    } else if i == 1 {
        2
    } else if i == 2 {
        4
    } else if i == 3 {
        8
    } else if i == 4 {
        16
    } else {
        0
    }
}

/// The two masks of one slot.
#[derive(Copy, Clone, PartialEq, Eq, Structural, Debug)]
pub struct Hint {
    pub color: u8,
    pub suit: u8,
}

impl Hint {
    /// The hint that says nothing.
    pub open spec fn blank() -> Hint {
        Hint { color: EMPTY_MASK, suit: EMPTY_MASK }
    }

    /// The hint of an empty slot.
    pub open spec fn absent() -> Hint {
        Hint { color: NONE_MASK, suit: NONE_MASK }
    }

    /// The hint belongs to a slot that holds a card.
    pub open spec fn is_live(self) -> bool {
        self.color != NONE_MASK && self.suit != NONE_MASK
    }

    /// Either both masks stay within the five bits, or the hint is that of an
    /// empty slot.
    pub open spec fn well_formed(self) -> bool {
        (self.color <= EMPTY_MASK && self.suit <= EMPTY_MASK) || self == Hint::absent()
    }

    /// The color at position `c` is still possible.
    pub open spec fn allows_color(self, c: u8) -> bool {
        self.color & bit(c) == bit(c)
    }

    /// The rank at position `s` is still possible.
    pub open spec fn allows_suit(self, s: u8) -> bool {
        self.suit & bit(s) == bit(s)
    }

    /// The card is one of those that the hint leaves possible.
    pub open spec fn admits(self, card: Card) -> bool {
        card.is_card() && self.allows_color(card.color_index()) && self.allows_suit(
            card.suit_index(),
        )
    }

    /// Every card that `self` leaves possible, `other` leaves possible too.
    pub open spec fn narrows(self, other: Hint) -> bool {
        forall|card: Card| #[trigger] self.admits(card) ==> other.admits(card)
    }

    /// The hint that says nothing: every color and every rank is possible.
    pub fn empty() -> (hint: Hint)
        ensures
            hint == Hint::blank(),
    {
        Hint { color: 0b011111, suit: 0b011111 }
    }

    /// The hint of an empty slot.
    pub fn none() -> (hint: Hint)
        ensures
            hint == Hint::absent(),
    {
        Hint { color: 0b100000, suit: 0b100000 }
    }

    /// Whether either mask is that of an empty slot.
    pub fn is_none(&self) -> (absent: bool)
        ensures
            absent == !self.is_live(),
    {
        self.color == 0b100000 || self.suit == 0b100000
    }

    /// Whether the hint belongs to a slot that holds a card.
    pub fn is_some(&self) -> (live: bool)
        ensures
            live == self.is_live(),
    {
        !self.is_none()
    }

    /// The card is known to have the color: no other color stays possible.
    pub fn set_true_color(&mut self, color: Color)
        ensures
            final(self).color == bit(color.index()),
            final(self).suit == old(self).suit,
    {
        let shift: u8 = color.id();
        proof {
            lemma_shift(shift);
        }
        self.color = 1u8 << shift;
    }

    /// The card is known not to have the color.
    pub fn disable_color(&mut self, color: Color)
        ensures
            final(self).color == old(self).color & !bit(color.index()),
            final(self).suit == old(self).suit,
    {
        let shift: u8 = color.id();
        proof {
            lemma_shift(shift);
        }
        self.color = self.color & !(1u8 << shift);
    }

    /// The card is known to have the rank: no other rank stays possible.
    pub fn set_true_suit(&mut self, suit: Suit)
        ensures
            final(self).suit == bit(suit.index()),
            final(self).color == old(self).color,
    {
        let shift: u8 = suit.id();
        proof {
            lemma_shift(shift);
        }
        self.suit = 1u8 << shift;
    }

    /// The card is known not to have the rank.
    pub fn disable_suit(&mut self, suit: Suit)
        ensures
            final(self).suit == old(self).suit & !bit(suit.index()),
            final(self).color == old(self).color,
    {
        let shift: u8 = suit.id();
        proof {
            lemma_shift(shift);
        }
        self.suit = self.suit & !(1u8 << shift);
    }

    /// Whether the color is still possible.
    pub fn matches_color(&self, color: Color) -> (allowed: bool)
        ensures
            allowed == self.allows_color(color.index()),
    {
        let shift: u8 = color.id();
        proof {
            lemma_shift(shift);
        }
        let color_bit: u8 = 1u8 << shift;
        self.color & color_bit == color_bit
    }

    /// Whether the rank is still possible.
    pub fn matches_suit(&self, suit: Suit) -> (allowed: bool)
        ensures
            allowed == self.allows_suit(suit.index()),
    {
        let shift: u8 = suit.id();
        proof {
            lemma_shift(shift);
        }
        let suit_bit: u8 = 1u8 << shift;
        self.suit & suit_bit == suit_bit
    }

    /// Whether the card is one of those that the hint leaves possible.
    pub fn matches(&self, card: Card) -> (admitted: bool)
        requires
            card.is_card(),
        ensures
            admitted == self.admits(card),
    {
        self.matches_color(card.color()) && self.matches_suit(card.suit())
    }
}

/// Shifting one to the left by a position gives that position's mask.
pub proof fn lemma_shift(i: u8)
    requires
        i < 5,
    ensures
        1u8 << i == bit(i),
{
    assert(i < 5 ==> 1u8 << i == bit(i)) by (bit_vector);
}

/// A mask that holds exactly one position allows that position and no other.
pub proof fn lemma_single(c: u8, k: u8)
    requires
        c < 5,
        k < 5,
    ensures
        (bit(c) & bit(k) == bit(k)) <==> k == c,
        bit(c) <= EMPTY_MASK,
{
    assert(c < 5 && k < 5 ==> ((bit(c) & bit(k) == bit(k)) <==> k == c)) by (bit_vector);
}

/// Clearing position `c` of a mask removes that position and keeps the others.
pub proof fn lemma_cleared(mask: u8, c: u8, k: u8)
    requires
        c < 5,
        k < 5,
    ensures
        ((mask & !bit(c)) & bit(k) == bit(k)) <==> (k != c && mask & bit(k) == bit(k)),
        mask <= EMPTY_MASK ==> (mask & !bit(c)) <= EMPTY_MASK,
{
    assert(c < 5 && k < 5 ==> (((mask & !bit(c)) & bit(k) == bit(k)) <==> (k != c && mask & bit(k)
        == bit(k)))) by (bit_vector);
    assert(mask <= 31 ==> (mask & !bit(c)) <= 31) by (bit_vector);
}

/// The hint that says nothing admits every card; the hint of an empty slot
/// admits none.
pub proof fn lemma_blank_and_absent(card: Card)
    ensures
        card.is_card() ==> Hint::blank().admits(card),
        !Hint::absent().admits(card),
{
    let c = card.color_index();
    let s = card.suit_index();
    assert(c < 5 ==> 31u8 & bit(c) == bit(c)) by (bit_vector);
    assert(s < 5 ==> 31u8 & bit(s) == bit(s)) by (bit_vector);
    assert(c < 5 ==> 32u8 & bit(c) != bit(c)) by (bit_vector);
}

} // verus!
