//! Colors, ranks and cards.
//!
//! A card is one of 25 identities, numbered `color * 5 + rank` with both parts
//! counted from zero. The number 26 stands for "no card" in an empty hand slot.

use vstd::prelude::*;

verus! {

/// Number of distinct card identities.
pub const NUM_CARDS: u8 = 25;

/// The identity that marks an empty slot.
pub const NO_CARD: u8 = 26;

/// The five colors, in the order in which the deck lists them.
#[derive(Copy, Clone, PartialEq, Eq, Structural, Debug)]
pub enum Color {
    White,
    Red,
    Blue,
    Yellow,
    Green,
}

/// The five ranks, One to Five.
#[derive(Copy, Clone, PartialEq, Eq, Structural, Debug)]
pub enum Suit {
    One,
    Two,
    Three,
    Four,
    Five,
}

/// A card identity, or the empty-slot marker.
#[derive(Copy, Clone, PartialEq, Eq, Structural, Debug)]
pub struct Card {
    pub id: u8,
}

impl Color {
    /// Position of the color, 0 to 4.
    pub open spec fn index(self) -> u8 {
        match self {
            Color::White => 0,
            Color::Red => 1,
            Color::Blue => 2,
            Color::Yellow => 3,
            Color::Green => 4,
        }
    }

    /// The color at a position; positions past 4 have no color, and map to Green.
    pub open spec fn at(i: u8) -> Color {
        if i == 0 {
            Color::White
        } else if i == 1 {
            Color::Red
        } else if i == 2 {
            Color::Blue
        } else if i == 3 {
            Color::Yellow
        } else {
            Color::Green
        }
    }

    /// The one-letter name of the color.
    pub open spec fn letter(self) -> char {
        match self {
            Color::White => 'W',
            Color::Red => 'R',
            Color::Blue => 'B',
            Color::Yellow => 'Y',
            Color::Green => 'G',
        }
    }

    /// The color at a position from 0 to 4.
    pub fn from_id(id: u8) -> (color: Color)
        requires
            id < 5,
        ensures
            color == Color::at(id),
            color.index() == id,
    {
        if id == 0 {
            Color::White
        } else if id == 1 {
            Color::Red
        } else if id == 2 {
            Color::Blue
        } else if id == 3 {
            Color::Yellow
        } else {
            Color::Green
        }
    }

    /// The position of the color.
    pub fn id(&self) -> (id: u8)
        ensures
            id == self.index(),
            id < 5,
    {
        match self {
            Color::White => 0,
            Color::Red => 1,
            Color::Blue => 2,
            Color::Yellow => 3,
            Color::Green => 4,
        }
    }

    /// The one-letter name of the color.
    pub fn short_name(&self) -> (name: &'static str)
        ensures
            name@ == seq![self.letter()],
    {
        proof {
            reveal_strlit("W");
            reveal_strlit("R");
            reveal_strlit("B");
            reveal_strlit("Y");
            reveal_strlit("G");
        }
        match self {
            Color::White => "W",
            Color::Blue => "B",
            Color::Red => "R",
            Color::Yellow => "Y",
            Color::Green => "G",
        }
    }
}

impl Suit {
    /// Position of the rank, 0 for One up to 4 for Five.
    pub open spec fn index(self) -> u8 {
        match self {
            Suit::One => 0,
            Suit::Two => 1,
            Suit::Three => 2,
            Suit::Four => 3,
            Suit::Five => 4,
        }
    }

    /// The rank at a position; positions past 4 have no rank, and map to Five.
    pub open spec fn at(i: u8) -> Suit {
        if i == 0 {
            Suit::One
        } else if i == 1 {
            Suit::Two
        } else if i == 2 {
            Suit::Three
        } else if i == 3 {
            Suit::Four
        } else {
            Suit::Five
        }
    }

    /// The rank at a position from 0 to 4.
    pub fn from_id(id: u8) -> (suit: Suit)
        requires
            id < 5,
        ensures
            suit == Suit::at(id),
            suit.index() == id,
    {
        if id == 0 {
            Suit::One
        } else if id == 1 {
            Suit::Two
        } else if id == 2 {
            Suit::Three
        } else if id == 3 {
            Suit::Four
        } else {
            Suit::Five
        }
    }

    /// The position of the rank.
    pub fn id(&self) -> (id: u8)
        ensures
            id == self.index(),
            id < 5,
    {
        match self {
            Suit::One => 0,
            Suit::Two => 1,
            Suit::Three => 2,
            Suit::Four => 3,
            Suit::Five => 4,
        }
    }
}

impl Card {
    /// A real card, as opposed to the empty-slot marker or a stray number.
    pub open spec fn is_card(self) -> bool {
        self.id < NUM_CARDS
    }

    /// The empty-slot marker.
    pub open spec fn is_blank(self) -> bool {
        self.id == NO_CARD
    }

    /// Position of the card's color: the identity divided by five.
    pub open spec fn color_index(self) -> u8 {
        self.id / 5
    }

    /// Position of the card's rank: the identity modulo five.
    pub open spec fn suit_index(self) -> u8 {
        self.id % 5
    }

    /// The card of a color and a rank.
    pub open spec fn of(color: Color, suit: Suit) -> Card {
        Card { id: (color.index() * 5 + suit.index()) as u8 }
    }

    /// The card of a color and a rank.
    pub fn new(color: Color, suit: Suit) -> (card: Card)
        ensures
            card == Card::of(color, suit),
            card.is_card(),
            card.color_index() == color.index(),
            card.suit_index() == suit.index(),
    {
        Card::from_parts(color.id(), suit.id())
    }

    /// The card of the color and the rank at two positions.
    pub fn from_parts(color: u8, suit: u8) -> (card: Card)
        requires
            color < 5,
            suit < 5,
        ensures
            card.id == color * 5 + suit,
            card.is_card(),
            card.color_index() == color,
            card.suit_index() == suit,
    {
        Card { id: Card::parts_id(color, suit) }
    }

    /// The card with the number `id`, whatever the number.
    pub fn from_id(id: u8) -> (card: Card)
        ensures
            card.id == id,
    {
        Card { id }
    }

    /// The marker of an empty slot.
    pub fn none() -> (card: Card)
        ensures
            card.id == NO_CARD,
            card.is_blank(),
            !card.is_card(),
    {
        Card { id: NO_CARD }
    }

    /// The number of the card.
    pub fn id(&self) -> (id: u8)
        ensures
            id == self.id,
    {
        self.id
    }

    /// The number of the card of a color and a rank: five times the position
    /// of the color, plus that of the rank.
    pub fn parts_id(color: u8, suit: u8) -> (id: u8)
        requires
            color < 5,
            suit < 5,
        ensures
            id == color * 5 + suit,
            id < NUM_CARDS,
            id / 5 == color,
            id % 5 == suit,
    {
        color * 5 + suit
    }

    /// Whether this is the marker of an empty slot.
    pub fn is_none(&self) -> (blank: bool)
        ensures
            blank == self.is_blank(),
    {
        self.id == NO_CARD
    }

    /// Whether this is anything but the marker of an empty slot.
    pub fn is_some(&self) -> (present: bool)
        ensures
            present == !self.is_blank(),
    {
        !self.is_none()
    }

    /// The position of the card's color.
    pub fn color_id(&self) -> (color: u8)
        ensures
            color == self.color_index(),
            self.is_card() ==> color < 5,
    {
        self.id / 5
    }

    /// The position of the card's rank.
    pub fn suit_id(&self) -> (suit: u8)
        ensures
            suit == self.suit_index(),
            suit < 5,
    {
        self.id % 5
    }

    /// The color of the card.
    pub fn color(&self) -> (color: Color)
        requires
            self.is_card(),
        ensures
            color == Color::at(self.color_index()),
            color.index() == self.color_index(),
    {
        Color::from_id(self.color_id())
    }

    /// The rank of the card.
    pub fn suit(&self) -> (suit: Suit)
        ensures
            suit == Suit::at(self.suit_index()),
            suit.index() == self.suit_index(),
    {
        Suit::from_id(self.suit_id())
    }
}

} // verus!
