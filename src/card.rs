//! Cards and their one-byte wire encoding.

use vstd::prelude::*;
use vstd::string::StringExecFns;

verus! {

/// Card color. `Wild` marks a wild card whose color has not been chosen.
#[derive(Debug, Clone, Copy, PartialEq, Eq, Structural)]
pub enum CardColor {
    Red,
    Yellow,
    Green,
    Blue,
    Wild,
}

/// Card value.
#[derive(Debug, Clone, Copy, PartialEq, Eq, Structural)]
pub enum CardValue {
    Zero,
    One,
    Two,
    Three,
    Four,
    Five,
    Six,
    Seven,
    Eight,
    Nine,
    Skip,
    Reverse,
    DrawTwo,
}

/// A physical card. `iteration` tells apart cards of equal color and value.
#[derive(Debug, Clone, Copy, PartialEq, Eq, Structural)]
pub struct Card {
    pub color: CardColor,
    pub value: CardValue,
    /// A number used to differentiate cards of the same color and value.
    pub iteration: u8,
}

/// Position of a color in the order Red, Yellow, Green, Blue, Wild.
pub open spec fn color_index(c: CardColor) -> int {
    match c {
        CardColor::Red => 0,
        CardColor::Yellow => 1,
        CardColor::Green => 2,
        CardColor::Blue => 3,
        CardColor::Wild => 4,
    }
}

/// The color at position `i` of the order Red, Yellow, Green, Blue, Wild.
pub open spec fn color_at(i: int) -> CardColor {
    if i == 0 {
        CardColor::Red
    } else if i == 1 {
        CardColor::Yellow
    } else if i == 2 {
        CardColor::Green
    } else if i == 3 {
        CardColor::Blue
    } else {
        CardColor::Wild
    }
}

/// Position of a value in the order Zero, ..., Nine, Skip, Reverse, DrawTwo.
pub open spec fn value_index(v: CardValue) -> int {
    match v {
        CardValue::Zero => 0,
        CardValue::One => 1,
        CardValue::Two => 2,
        CardValue::Three => 3,
        CardValue::Four => 4,
        CardValue::Five => 5,
        CardValue::Six => 6,
        CardValue::Seven => 7,
        CardValue::Eight => 8,
        CardValue::Nine => 9,
        CardValue::Skip => 10,
        CardValue::Reverse => 11,
        CardValue::DrawTwo => 12,
    }
}

/// The value at position `i` (`0 <= i < 13`) of the value order.
pub open spec fn value_at(i: int) -> CardValue {
    if i == 0 {
        CardValue::Zero
    } else if i == 1 {
        CardValue::One
    } else if i == 2 {
        CardValue::Two
    } else if i == 3 {
        CardValue::Three
    } else if i == 4 {
        CardValue::Four
    } else if i == 5 {
        CardValue::Five
    } else if i == 6 {
        CardValue::Six
    } else if i == 7 {
        CardValue::Seven
    } else if i == 8 {
        CardValue::Eight
    } else if i == 9 {
        CardValue::Nine
    } else if i == 10 {
        CardValue::Skip
    } else if i == 11 {
        CardValue::Reverse
    } else {
        CardValue::DrawTwo
    }
}

/// A card that has a byte code: a wild card numbered 0 to 3 (its value
/// does not count), or a colored card numbered 1 or 2.
pub open spec fn encodable(c: Card) -> bool {
    if c.color is Wild {
        c.iteration < 4
    } else {
        c.iteration == 1 || c.iteration == 2
    }
}

/// A card in canonical form: encodable, and a wild card carries the value
/// `Seven`. These are exactly the 108 cards that byte codes stand for.
pub open spec fn legal(c: Card) -> bool {
    encodable(c) && (c.color is Wild ==> c.value is Seven)
}

/// The byte code of a card: `color * 13 + value` for the first copy,
/// 52 more for the second, `104 + iteration` for a wild card.
pub open spec fn card_code(c: Card) -> int {
    if c.color is Wild {
        104 + c.iteration
    } else {
        color_index(c.color) * 13 + value_index(c.value) + (c.iteration - 1) * 52
    }
}

/// The card that byte code `b` (`b < 108`) stands for.
pub open spec fn card_of_code(b: int) -> Card {
    if b >= 104 {
        Card { color: CardColor::Wild, value: CardValue::Seven, iteration: (b - 104) as u8 }
    } else {
        let k = if b < 52 { b } else { b - 52 };
        Card {
            color: color_at(k / 13),
            value: value_at(k % 13),
            iteration: if b < 52 { 1 } else { 2 },
        }
    }
}

/// Whether `card` may be played on `top`: same color, same value, or a
/// wild card; never on a wild card whose color is still to be chosen.
pub open spec fn playable_on(card: Card, top: Card) -> bool {
    (card.color == top.color || card.value == top.value || card.color is Wild) && !(top.color is Wild)
}

/// The word for a color in texture file names.
pub open spec fn color_word(c: CardColor) -> Seq<char> {
    match c {
        CardColor::Red => "red"@,
        CardColor::Yellow => "yellow"@,
        CardColor::Green => "green"@,
        CardColor::Blue => "blue"@,
        CardColor::Wild => "wild"@,
    }
}

/// The word for a value in texture file names.
pub open spec fn value_word(v: CardValue) -> Seq<char> {
    match v {
        CardValue::Zero => "0"@,
        CardValue::One => "1"@,
        CardValue::Two => "2"@,
        CardValue::Three => "3"@,
        CardValue::Four => "4"@,
        CardValue::Five => "5"@,
        CardValue::Six => "6"@,
        CardValue::Seven => "7"@,
        CardValue::Eight => "8"@,
        CardValue::Nine => "9"@,
        CardValue::Skip => "skip"@,
        CardValue::Reverse => "rev"@,
        CardValue::DrawTwo => "draw2"@,
    }
}

/// The texture file that shows a card.
pub open spec fn sprite_file(c: Card) -> Seq<char> {
    "textures/cards/"@ + color_word(c.color) + value_word(c.value) + ".png"@
}

impl CardColor {
    /// The word for this color in texture file names.
    pub fn word(self) -> (r: &'static str)
        ensures
            r@ == color_word(self),
    {
        match self {
            CardColor::Red => "red",
            CardColor::Yellow => "yellow",
            CardColor::Green => "green",
            CardColor::Blue => "blue",
            CardColor::Wild => "wild",
        }
    }
}

impl CardValue {
    /// The word for this value in texture file names.
    pub fn word(self) -> (r: &'static str)
        ensures
            r@ == value_word(self),
    {
        match self {
            CardValue::Zero => "0",
            CardValue::One => "1",
            CardValue::Two => "2",
            CardValue::Three => "3",
            CardValue::Four => "4",
            CardValue::Five => "5",
            CardValue::Six => "6",
            CardValue::Seven => "7",
            CardValue::Eight => "8",
            CardValue::Nine => "9",
            CardValue::Skip => "skip",
            CardValue::Reverse => "rev",
            CardValue::DrawTwo => "draw2",
        }
    }
}

impl CardColor {
    /// The byte that stands for this color (Red 0, Yellow 1, Green 2,
    /// Blue 3, Wild 4).
    pub fn to_byte(self) -> (r: u8)
        ensures
            r == color_index(self),
    {
        match self {
            CardColor::Red => 0,
            CardColor::Yellow => 1,
            CardColor::Green => 2,
            CardColor::Blue => 3,
            CardColor::Wild => 4,
        }
    }

    /// The color that byte `b` stands for.
    pub fn from_byte(b: u8) -> (r: CardColor)
        requires
            b <= 4,
        ensures
            r == color_at(b as int),
            color_index(r) == b,
    {
        match b {
            0 => CardColor::Red,
            1 => CardColor::Yellow,
            2 => CardColor::Green,
            3 => CardColor::Blue,
            _ => CardColor::Wild,
        }
    }
}

impl CardValue {
    /// The position of this value in the value order.
    pub fn to_index(self) -> (r: u8)
        ensures
            r == value_index(self),
    {
        match self {
            CardValue::Zero => 0,
            CardValue::One => 1,
            CardValue::Two => 2,
            CardValue::Three => 3,
            CardValue::Four => 4,
            CardValue::Five => 5,
            CardValue::Six => 6,
            CardValue::Seven => 7,
            CardValue::Eight => 8,
            CardValue::Nine => 9,
            CardValue::Skip => 10,
            CardValue::Reverse => 11,
            CardValue::DrawTwo => 12,
        }
    }

    /// The value at position `i` of the value order.
    pub fn from_index(i: u8) -> (r: CardValue)
        requires
            i < 13,
        ensures
            r == value_at(i as int),
            value_index(r) == i,
    {
        match i {
            0 => CardValue::Zero,
            1 => CardValue::One,
            2 => CardValue::Two,
            3 => CardValue::Three,
            4 => CardValue::Four,
            5 => CardValue::Five,
            6 => CardValue::Six,
            7 => CardValue::Seven,
            8 => CardValue::Eight,
            9 => CardValue::Nine,
            10 => CardValue::Skip,
            11 => CardValue::Reverse,
            _ => CardValue::DrawTwo,
        }
    }
}

impl Card {
    /// Creates a new card with the given color, value, and iteration.
    pub fn new(color: CardColor, value: CardValue, iteration: u8) -> (r: Card)
        ensures
            r == (Card { color, value, iteration }),
    {
        Card { color, value, iteration }
    }

    /// Whether this card can be played on `card`: the colors or the values
    /// match, or this card is wild; but nothing goes on a wild card whose
    /// color has not been chosen yet.
    pub fn can_play_on(&self, card: &Card) -> (r: bool)
        ensures
            r == playable_on(*self, *card),
    {
        (self.color == card.color || self.value == card.value || self.color == CardColor::Wild)
            && card.color != CardColor::Wild
    }

    /// The texture file that shows this card, such as
    /// `textures/cards/red5.png`.
    pub fn sprite_path(&self) -> (r: String)
        ensures
            r@ == sprite_file(*self),
    {
        let mut path = String::from_str("textures/cards/");
        path.append(self.color.word());
        path.append(self.value.word());
        path.append(".png");
        path
    }

    /// The byte code of this card.
    pub fn encode(&self) -> (r: u8)
        requires
            encodable(*self),
        ensures
            r == card_code(*self),
            r < 108,
    {
        if self.color == CardColor::Wild {
            return 104 + self.iteration;
        }
        let color = self.color.to_byte();
        let value = self.value.to_index();
        (color * 13 + value) + (self.iteration - 1) * 52
    }

    /// The card that byte code `b` stands for.
    pub fn decode(b: u8) -> (r: Card)
        requires
            b < 108,
        ensures
            r == card_of_code(b as int),
            legal(r),
    {
        if b >= 104 {
            return Card { color: CardColor::Wild, value: CardValue::Seven, iteration: b - 104 };
        }
        let (k, iteration) = if b <= 51 {
            (b, 1u8)
        } else {
            (b - 52, 2u8)
        };
        let color = CardColor::from_byte(k / 13);
        let value = CardValue::from_index(k % 13);
        Card::new(color, value, iteration)
    }
}

/// Decoding a byte code and encoding the card again gives the byte back,
/// for each of the 108 codes.
pub proof fn lemma_code_of_card_of_code(b: int)
    requires
        0 <= b < 108,
    ensures
        legal(card_of_code(b)),
        card_code(card_of_code(b)) == b,
{
}

/// Encoding a canonical card and decoding the byte gives the card back.
pub proof fn lemma_card_of_code_of_card(c: Card)
    requires
        legal(c),
    ensures
        0 <= card_code(c) < 108,
        card_of_code(card_code(c)) == c,
{
}

/// A wild card whose color is still to be chosen blocks every card.
pub proof fn lemma_uncolored_wild_blocks(card: Card, top: Card)
    requires
        top.color is Wild,
    ensures
        !playable_on(card, top),
{
}

} // verus!
