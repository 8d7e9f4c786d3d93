//! Cards, hints and fireworks written out for a reader.

use crate::card::{Card, Color, Suit};
use crate::fireworks::Fireworks;
use crate::hint::Hint;
use vstd::prelude::*;

verus! {

/// `String::push` appends the character to the end of the string.
pub assume_specification[ String::push ](text: &mut String, ch: char)
    ensures
        final(text)@ == old(text)@.push(ch),
;

/// The character for a number from 1 to 5, and a blank for any other.
pub open spec fn mark(n: u8) -> char {
    if n == 1 {
        '1'
    } else if n == 2 {
        '2'
    } else if n == 3 {
        '3'
    } else if n == 4 {
        '4'
    } else if n == 5 {
        '5'
    } else {
        ' '
    }
}

/// A card as two characters: the letter of its color and its rank.
pub open spec fn card_text(card: Card) -> Seq<char> {
    seq![Color::at(card.color_index()).letter(), mark((card.suit_index() + 1) as u8)]
}

/// A hint as `Hint(`, the letters of the colors that are still possible,
/// a comma, the ranks that are still possible, and `)`; what is ruled out
/// leaves a blank in its place.
pub open spec fn hint_text(hint: Hint) -> Seq<char> {
    seq!['H', 'i', 'n', 't', '('] + Seq::new(
        5,
        |i: int|
            if hint.allows_color(i as u8) {
                Color::at(i as u8).letter()
            } else {
                ' '
            },
    ) + seq![','] + Seq::new(
        5,
        |i: int|
            if hint.allows_suit(i as u8) {
                mark((i + 1) as u8)
            } else {
                ' '
            },
    ) + seq![')']
}

/// The fireworks between square brackets: for each color its letter and the
/// height of its stack, a blank for an empty stack, with a blank between
/// two colors.
pub open spec fn fireworks_text(heights: Seq<u8>) -> Seq<char> {
    Seq::new(
        16,
        |k: int|
            if k == 0 {
                '['
            } else if k == 15 {
                ']'
            } else if (k - 1) % 3 == 0 {
                Color::at(((k - 1) / 3) as u8).letter()
            } else if (k - 1) % 3 == 1 {
                mark(heights[(k - 1) / 3])
            } else {
                ' '
            },
    )
}

/// The character for a number from 1 to 5, and a blank for any other.
pub fn mark_of(n: u8) -> (ch: char)
    ensures
        ch == mark(n),
{
    if n == 1 {
        '1'
    } else if n == 2 {
        '2'
    } else if n == 3 {
        '3'
    } else if n == 4 {
        '4'
    } else if n == 5 {
        '5'
    } else {
        ' '
    }
}

impl Color {
    /// The one-letter name of the color as a character.
    pub fn initial(&self) -> (ch: char)
        ensures
            ch == self.letter(),
    {
        match self {
            Color::White => 'W',
            Color::Blue => 'B',
            Color::Red => 'R',
            Color::Yellow => 'Y',
            Color::Green => 'G',
        }
    }
}

impl Card {
    /// The card written out, as in `W1` for the White One.
    pub fn to_text(&self) -> (text: String)
        requires
            self.is_card(),
        ensures
            text@ == card_text(*self),
    {
        let mut text = String::new();
        text.push(self.color().initial());
        text.push(mark_of(self.suit_id() + 1));
        assert(text@ =~= card_text(*self));
        text
    }
}

impl Hint {
    /// The hint written out, as in `Hint(W   G,1 3  )`.
    pub fn to_text(&self) -> (text: String)
        ensures
            text@ == hint_text(*self),
    {
        let mut text = String::new();
        text.push('H');
        text.push('i');
        text.push('n');
        text.push('t');
        text.push('(');
        let mut i: u8 = 0;
        while i < 5
            invariant
                i <= 5,
                text@.len() == 5 + i,
                forall|k: int| 0 <= k < 5 + i ==> text@[k] == hint_text(*self)[k],
            decreases 5 - i,
        {
            let color = Color::from_id(i);
            if self.matches_color(color) {
                text.push(color.initial());
            } else {
                text.push(' ');
            }
            i += 1;
        }
        text.push(',');
        let mut j: u8 = 0;
        while j < 5
            invariant
                j <= 5,
                text@.len() == 11 + j,
                forall|k: int| 0 <= k < 11 + j ==> text@[k] == hint_text(*self)[k],
            decreases 5 - j,
        {
            let suit = Suit::from_id(j);
            if self.matches_suit(suit) {
                text.push(mark_of(j + 1));
            } else {
                text.push(' ');
            }
            j += 1;
        }
        text.push(')');
        assert(text@ =~= hint_text(*self));
        text
    }
}

impl Fireworks {
    /// The fireworks written out, as in `[W1 R  B2 Y  G ]`.
    pub fn to_text(&self) -> (text: String)
        requires
            self.wf(),
        ensures
            text@ == fireworks_text(self@),
    {
        let mut text = String::new();
        text.push('[');
        let mut color_i: u8 = 0;
        while color_i < 4
            invariant
                color_i <= 4,
                text@.len() == 1 + 3 * color_i,
                forall|k: int| 0 <= k < 1 + 3 * color_i ==> text@[k] == fireworks_text(self@)[k],
            decreases 4 - color_i,
        {
            text.push(Color::from_id(color_i).initial());
            text.push(mark_of(self.0[color_i as usize]));
            text.push(' ');
            color_i += 1;
        }
        text.push(Color::from_id(4).initial());
        text.push(mark_of(self.0[4]));
        text.push(']');
        assert(text@ =~= fireworks_text(self@));
        text
    }
}

} // verus!
