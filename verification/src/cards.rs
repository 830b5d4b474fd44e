//! Card primitives: suits, face values, and the dense 0..51 index used as
//! a bit position in 64-bit card masks.
use vstd::prelude::*;

verus! {

#[derive(Clone, Copy, PartialEq, Eq, Structural, Debug)]
pub enum Suits {
    Clubs,
    Hearts,
    Spades,
    Diamonds,
}

/// Suit characters are the lowercase initials `c`, `h`, `s`, `d`.
pub open spec fn is_suit_char(c: char) -> bool {
    c as u32 == 99 || c as u32 == 104 || c as u32 == 115 || c as u32 == 100
}

/// Suit rank of a suit character: the fixed ordering clubs, hearts,
/// spades, diamonds.
pub open spec fn char_suit(c: char) -> int {
    if c as u32 == 99 {
        0
    } else if c as u32 == 104 {
        1
    } else if c as u32 == 115 {
        2
    } else {
        3
    }
}

impl Suits {
    /// Fixed ordering of the four suits, used as the low two bits of a
    /// card index.
    pub open spec fn index_spec(self) -> int {
        match self {
            Suits::Clubs => 0,
            Suits::Hearts => 1,
            Suits::Spades => 2,
            Suits::Diamonds => 3,
        }
    }

    pub fn index(self) -> (r: u8)
        ensures
            r == self.index_spec(),
    {
        match self {
            Suits::Clubs => 0,
            Suits::Hearts => 1,
            Suits::Spades => 2,
            Suits::Diamonds => 3,
        }
    }

    pub fn from_char(c: char) -> (s: Suits)
        requires
            is_suit_char(c),
        ensures
            s.index_spec() == char_suit(c),
    {
        let x = c as u32;
        if x == 99 {
            Suits::Clubs
        } else if x == 104 {
            Suits::Hearts
        } else if x == 115 {
            Suits::Spades
        } else {
            Suits::Diamonds
        }
    }
}

#[derive(Clone, Copy, PartialEq, Eq, Structural, Debug)]
pub enum Value {
    Two,
    Three,
    Four,
    Five,
    Six,
    Seven,
    Eight,
    Nine,
    Ten,
    Jack,
    Queen,
    King,
    Ace,
}

/// Value characters: `2`-`9`, `T`, `J`, `Q`, `K`, `A`.
pub open spec fn is_value_char(c: char) -> bool {
    c as u32 == 65 || c as u32 == 75 || c as u32 == 81 || c as u32 == 74 || c as u32 == 84 || (50
        <= c as u32 && c as u32 <= 57)
}

/// Face value of a value character, ace high: 2..14.
pub open spec fn char_val(c: char) -> int {
    if c as u32 == 65 {
        14
    } else if c as u32 == 75 {
        13
    } else if c as u32 == 81 {
        12
    } else if c as u32 == 74 {
        11
    } else if c as u32 == 84 {
        10
    } else {
        c as u32 - 48
    }
}

impl Value {
    /// Face value, ace high: 2 for Two up to 14 for Ace.
    pub open spec fn as_int(self) -> int {
        match self {
            Value::Two => 2,
            Value::Three => 3,
            Value::Four => 4,
            Value::Five => 5,
            Value::Six => 6,
            Value::Seven => 7,
            Value::Eight => 8,
            Value::Nine => 9,
            Value::Ten => 10,
            Value::Jack => 11,
            Value::Queen => 12,
            Value::King => 13,
            Value::Ace => 14,
        }
    }

    pub fn as_u8(self) -> (r: u8)
        ensures
            r == self.as_int(),
    {
        match self {
            Value::Two => 2,
            Value::Three => 3,
            Value::Four => 4,
            Value::Five => 5,
            Value::Six => 6,
            Value::Seven => 7,
            Value::Eight => 8,
            Value::Nine => 9,
            Value::Ten => 10,
            Value::Jack => 11,
            Value::Queen => 12,
            Value::King => 13,
            Value::Ace => 14,
        }
    }

    pub fn from_u8(v: u8) -> (r: Value)
        requires
            2 <= v <= 14,
        ensures
            r.as_int() == v,
    {
        if v == 2 {
            Value::Two
        } else if v == 3 {
            Value::Three
        } else if v == 4 {
            Value::Four
        } else if v == 5 {
            Value::Five
        } else if v == 6 {
            Value::Six
        } else if v == 7 {
            Value::Seven
        } else if v == 8 {
            Value::Eight
        } else if v == 9 {
            Value::Nine
        } else if v == 10 {
            Value::Ten
        } else if v == 11 {
            Value::Jack
        } else if v == 12 {
            Value::Queen
        } else if v == 13 {
            Value::King
        } else {
            Value::Ace
        }
    }
}

/// Dense card index: a bijection from (value, suit) onto 0..51, used as a
/// bit position.
pub open spec fn card_index(v: int, s: int) -> int {
    (v - 2) * 4 + s
}

/// Card index encoded by a two-character card text.
pub open spec fn card_index_of_chars(vc: char, sc: char) -> int {
    card_index(char_val(vc), char_suit(sc))
}

/// A two-character card text is well formed.
pub open spec fn card_chars_ok(vc: char, sc: char) -> bool {
    is_value_char(vc) && is_suit_char(sc)
}

#[derive(Clone, Copy, Debug)]
pub struct Card {
    pub value: Value,
    pub suit: Suits,
    pub idx: usize,
}

impl Card {
    /// The index field agrees with the (value, suit) pair.
    pub open spec fn wf(self) -> bool {
        self.idx == card_index(self.value.as_int(), self.suit.index_spec())
    }

    pub proof fn lemma_wf_idx_range(self)
        requires
            self.wf(),
        ensures
            0 <= self.idx < 52,
    {
    }

    pub fn new(value: Value, suit: Suits) -> (c: Card)
        ensures
            c.value == value,
            c.suit == suit,
            c.wf(),
    {
        let idx: usize = (value.as_u8() as usize) * 4 + (suit.index() as usize) - 8;
        Card { value, suit, idx }
    }

    /// Parses a two-character card text such as `"Ac"`: one value
    /// character, then one suit character.
    pub fn from_string(s: String) -> (c: Card)
        requires
            s@.len() == 2,
            card_chars_ok(s@[0], s@[1]),
        ensures
            c.wf(),
            c.value.as_int() == char_val(s@[0]),
            c.suit.index_spec() == char_suit(s@[1]),
            c.idx == card_index_of_chars(s@[0], s@[1]),
    {
        let vc = s.as_str().get_char(0);
        let sc = s.as_str().get_char(1);
        let v = value_of_char(vc);
        let suit = Suits::from_char(sc);
        Card::new(Value::from_u8(v), suit)
    }
}

/// Face value encoded by a value character.
pub fn value_of_char(c: char) -> (v: u8)
    requires
        is_value_char(c),
    ensures
        v == char_val(c),
        2 <= v <= 14,
{
    let x = c as u32;
    if x == 65 {
        14
    } else if x == 75 {
        13
    } else if x == 81 {
        12
    } else if x == 74 {
        11
    } else if x == 84 {
        10
    } else {
        (x - 48) as u8
    }
}

/// Checks a value character, mirroring `is_value_char`.
pub fn check_value_char(c: char) -> (r: bool)
    ensures
        r == is_value_char(c),
{
    let x = c as u32;
    x == 65 || x == 75 || x == 81 || x == 74 || x == 84 || (50 <= x && x <= 57)
}

/// Checks a suit character, mirroring `is_suit_char`.
pub fn check_suit_char(c: char) -> (r: bool)
    ensures
        r == is_suit_char(c),
{
    let x = c as u32;
    x == 99 || x == 104 || x == 115 || x == 100
}

} // verus!
