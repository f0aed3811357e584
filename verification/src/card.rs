//! Playing cards: suits, values and the card itself.
use vstd::prelude::*;

verus! {

/// The four suits, in the order of the foundation piles.
#[derive(Debug, Clone, Copy, PartialEq, Eq, Structural, PartialOrd, Ord, Hash, Default)]
pub enum Suit {
    #[default]
    Hearts,
    Diamonds,
    Clubs,
    Spades,
}

/// The thirteen card values, from Ace (1) to King (13).
#[derive(Debug, Clone, Copy, PartialEq, Eq, Structural, PartialOrd, Ord, Hash, Default)]
pub enum Value {
    #[default]
    Ace,
    Two,
    Three,
    Four,
    Five,
    Six,
    Seven,
    Eight,
    Nine,
    Ten,
    Jack,
    Queen,
    King,
}

/// A card with its value, suit and whether it shows its face.
#[derive(Debug, Clone, Copy, PartialEq, Eq, Structural, PartialOrd, Ord, Hash, Default)]
pub struct Card {
    pub value: Value,
    pub suit: Suit,
    pub face_up: bool,
}

impl Suit {
    /// The four suits, in the order of the foundation piles.
    pub const ALL: [Suit; 4] = [Suit::Hearts, Suit::Diamonds, Suit::Clubs, Suit::Spades];

    /// Position of the suit: Hearts 0, Diamonds 1, Clubs 2, Spades 3.
    pub open spec fn idx(self) -> int {
        match self {
            Suit::Hearts => 0,
            Suit::Diamonds => 1,
            Suit::Clubs => 2,
            Suit::Spades => 3,
        }
    }

    /// The suit at a position; positions past the last suit give Hearts.
    pub open spec fn at(i: int) -> Suit {
        if i == 1 {
            Suit::Diamonds
        } else if i == 2 {
            Suit::Clubs
        } else if i == 3 {
            Suit::Spades
        } else {
            Suit::Hearts
        }
    }

    /// Hearts and Diamonds are red; Clubs and Spades are black.
    pub open spec fn red(self) -> bool {
        self == Suit::Hearts || self == Suit::Diamonds
    }

    /// The position of the suit (see `idx`).
    pub fn index(self) -> (r: usize)
        ensures
            r == self.idx(),
    {
        match self {
            Suit::Hearts => 0,
            Suit::Diamonds => 1,
            Suit::Clubs => 2,
            Suit::Spades => 3,
        }
    }

    /// Whether the suit is red.
    pub fn is_red(self) -> (b: bool)
        ensures
            b == self.red(),
    {
        match self {
            Suit::Hearts | Suit::Diamonds => true,
            Suit::Clubs | Suit::Spades => false,
        }
    }

    /// The symbol that shows the suit on a card.
    pub fn symbol(&self) -> (s: &'static str)
        ensures
            *self == Suit::Hearts ==> s@ == "♥"@,
            *self == Suit::Diamonds ==> s@ == "♦"@,
            *self == Suit::Clubs ==> s@ == "♣"@,
            *self == Suit::Spades ==> s@ == "♠"@,
    {
        match self {
            Suit::Hearts => "♥",
            Suit::Diamonds => "♦",
            Suit::Clubs => "♣",
            Suit::Spades => "♠",
        }
    }
}

impl From<usize> for Suit {
    fn from(value: usize) -> (s: Self) {
        match value {
            0 => Suit::Hearts,
            1 => Suit::Diamonds,
            2 => Suit::Clubs,
            3 => Suit::Spades,
            _ => Suit::Hearts,
        }
    }
}

impl vstd::std_specs::convert::FromSpecImpl<usize> for Suit {
    open spec fn obeys_from_spec() -> bool {
        true
    }

    open spec fn from_spec(v: usize) -> Suit {
        Suit::at(v as int)
    }
}

impl From<Suit> for usize {
    fn from(suit: Suit) -> (r: usize) {
        suit.index()
    }
}

impl vstd::std_specs::convert::FromSpecImpl<Suit> for usize {
    open spec fn obeys_from_spec() -> bool {
        true
    }

    open spec fn from_spec(v: Suit) -> usize {
        v.idx() as usize
    }
}

impl Value {
    /// The thirteen values, from Ace to King.
    pub const ALL: [Value; 13] = [
        Value::Ace,
        Value::Two,
        Value::Three,
        Value::Four,
        Value::Five,
        Value::Six,
        Value::Seven,
        Value::Eight,
        Value::Nine,
        Value::Ten,
        Value::Jack,
        Value::Queen,
        Value::King,
    ];

    /// The number of the value: Ace 1, Two 2, ..., Jack 11, Queen 12, King 13.
    pub open spec fn num(self) -> int {
        match self {
            Value::Ace => 1,
            Value::Two => 2,
            Value::Three => 3,
            Value::Four => 4,
            Value::Five => 5,
            Value::Six => 6,
            Value::Seven => 7,
            Value::Eight => 8,
            Value::Nine => 9,
            Value::Ten => 10,
            Value::Jack => 11,
            Value::Queen => 12,
            Value::King => 13,
        }
    }

    /// The value with a given number (1 to 13).
    pub open spec fn with_num(n: int) -> Value {
        if n == 2 {
            Value::Two
        } else if n == 3 {
            Value::Three
        } else if n == 4 {
            Value::Four
        } else if n == 5 {
            Value::Five
        } else if n == 6 {
            Value::Six
        } else if n == 7 {
            Value::Seven
        } else if n == 8 {
            Value::Eight
        } else if n == 9 {
            Value::Nine
        } else if n == 10 {
            Value::Ten
        } else if n == 11 {
            Value::Jack
        } else if n == 12 {
            Value::Queen
        } else if n == 13 {
            Value::King
        } else {
            Value::Ace
        }
    }

    /// The number of the value (see `num`).
    pub fn rank(self) -> (r: usize)
        ensures
            r == self.num(),
    {
        match self {
            Value::Ace => 1,
            Value::Two => 2,
            Value::Three => 3,
            Value::Four => 4,
            Value::Five => 5,
            Value::Six => 6,
            Value::Seven => 7,
            Value::Eight => 8,
            Value::Nine => 9,
            Value::Ten => 10,
            Value::Jack => 11,
            Value::Queen => 12,
            Value::King => 13,
        }
    }

    /// The value with the given number, for numbers from 1 to 13.
    pub fn from_rank(n: usize) -> (v: Value)
        requires
            1 <= n <= 13,
        ensures
            v.num() == n,
            v == Value::with_num(n as int),
    {
        match n {
            1 => Value::Ace,
            2 => Value::Two,
            3 => Value::Three,
            4 => Value::Four,
            5 => Value::Five,
            6 => Value::Six,
            7 => Value::Seven,
            8 => Value::Eight,
            9 => Value::Nine,
            10 => Value::Ten,
            11 => Value::Jack,
            12 => Value::Queen,
            _ => Value::King,
        }
    }

    /// The label that shows the value on a card.
    pub fn label(&self) -> (s: &'static str)
        ensures
            s@ == (match *self {
                Value::Ace => "A"@,
                Value::Two => "2"@,
                Value::Three => "3"@,
                Value::Four => "4"@,
                Value::Five => "5"@,
                Value::Six => "6"@,
                Value::Seven => "7"@,
                Value::Eight => "8"@,
                Value::Nine => "9"@,
                Value::Ten => "10"@,
                Value::Jack => "J"@,
                Value::Queen => "Q"@,
                Value::King => "K"@,
            }),
    {
        match self {
            Value::Ace => "A",
            Value::Two => "2",
            Value::Three => "3",
            Value::Four => "4",
            Value::Five => "5",
            Value::Six => "6",
            Value::Seven => "7",
            Value::Eight => "8",
            Value::Nine => "9",
            Value::Ten => "10",
            Value::Jack => "J",
            Value::Queen => "Q",
            Value::King => "K",
        }
    }

}

impl Card {
    /// A card with the given value, suit and face.
    pub fn new(value: Value, suit: Suit, face_up: bool) -> (c: Self)
        ensures
            c == (Card { value, suit, face_up }),
    {
        Card { value, suit, face_up }
    }

    /// The card turned face up.
    pub open spec fn turned_up(self) -> Card {
        Card { face_up: true, ..self }
    }

    /// What identifies a card in the deck: its value and its suit.
    pub open spec fn key(self) -> (Value, Suit) {
        (self.value, self.suit)
    }
}

} // verus!
