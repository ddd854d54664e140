use vstd::prelude::*;

verus! {

/// The rank printed on a card: Ace, a number card two to nine, Ten (`Z`),
/// Jack, Queen or King.
#[derive(Debug, Copy, Clone, PartialEq, Eq, Structural)]
pub enum CardValue {
    A,
    N(u8),
    Z,
    J,
    Q,
    K,
}

/// The suit of a card.
#[derive(Debug, Copy, Clone, PartialEq, Eq, Structural)]
pub enum CardType {
    Corazones,
    Espadas,
    Treboles,
    Diamantes,
}

#[derive(Debug, Copy, Clone, PartialEq, Eq, Structural)]
pub enum CardColor {
    Red,
    Black,
}

/// A playing card. `value` and `color` are fixed at construction from
/// `number` and `suit`; only the face orientation ever changes.
#[derive(Debug, Copy, Clone, PartialEq, Eq, Structural)]
pub struct Card {
    pub suit: CardType,
    pub number: CardValue,
    pub value: u8,
    pub color: CardColor,
    pub faceup: bool,
}

/// A rank that exists in a standard deck (number cards run from two to nine).
pub open spec fn valid_number(number: CardValue) -> bool {
    match number {
        CardValue::N(i) => 2 <= i <= 9,
        _ => true,
    }
}

/// The ordinal of a rank: Ace is 1, King is 13.
pub open spec fn ordinal_of(number: CardValue) -> int {
    match number {
        CardValue::A => 1,
        CardValue::N(i) => i as int,
        CardValue::Z => 10,
        CardValue::J => 11,
        CardValue::Q => 12,
        CardValue::K => 13,
    }
}

/// Hearts and diamonds are red, spades and clubs black.
pub open spec fn color_of(suit: CardType) -> CardColor {
    match suit {
        CardType::Corazones | CardType::Diamantes => CardColor::Red,
        _ => CardColor::Black,
    }
}

/// The position of a suit in a freshly built deck.
pub open spec fn suit_index(suit: CardType) -> int {
    match suit {
        CardType::Corazones => 0,
        CardType::Espadas => 1,
        CardType::Diamantes => 2,
        CardType::Treboles => 3,
    }
}

/// The digit for a number card's rank.
pub open spec fn digit(i: u8) -> char {
    if i == 2 {
        '2'
    } else if i == 3 {
        '3'
    } else if i == 4 {
        '4'
    } else if i == 5 {
        '5'
    } else if i == 6 {
        '6'
    } else if i == 7 {
        '7'
    } else if i == 8 {
        '8'
    } else {
        '9'
    }
}

/// How a rank is written: `A`, the digit of a number card, `Z` for Ten, `J`, `Q`, `K`.
pub open spec fn value_label(v: CardValue) -> Seq<char> {
    match v {
        CardValue::A => seq!['A'],
        CardValue::N(i) => seq![digit(i)],
        CardValue::Z => seq!['Z'],
        CardValue::J => seq!['J'],
        CardValue::Q => seq!['Q'],
        CardValue::K => seq!['K'],
    }
}

/// How a suit is written: its symbol.
pub open spec fn suit_label(s: CardType) -> Seq<char> {
    match s {
        CardType::Corazones => seq!['\u{2665}'],
        CardType::Espadas => seq!['\u{2660}'],
        CardType::Treboles => seq!['\u{2663}'],
        CardType::Diamantes => seq!['\u{2666}'],
    }
}

/// How a color is written: `r` for red, `n` for black.
pub open spec fn color_label(c: CardColor) -> Seq<char> {
    match c {
        CardColor::Red => seq!['r'],
        CardColor::Black => seq!['n'],
    }
}

/// Rank, suit and color of a card, written out whatever its face.
pub open spec fn card_label(c: Card) -> Seq<char> {
    value_label(c.number) + suit_label(c.suit) + color_label(c.color)
}

/// What a player sees of a card: its label when face up, `XXX` when face down.
pub open spec fn shown_label(c: Card) -> Seq<char> {
    if c.faceup {
        card_label(c)
    } else {
        seq!['X', 'X', 'X']
    }
}

impl CardValue {
    /// How the rank is written.
    pub fn label(&self) -> (r: String)
        requires
            valid_number(*self),
        ensures
            r@ == value_label(*self),
    {
        let text: &str = match *self {
            CardValue::A => "A",
            CardValue::N(i) => {
                if i == 2 {
                    "2"
                } else if i == 3 {
                    "3"
                } else if i == 4 {
                    "4"
                } else if i == 5 {
                    "5"
                } else if i == 6 {
                    "6"
                } else if i == 7 {
                    "7"
                } else if i == 8 {
                    "8"
                } else {
                    "9"
                }
            },
            CardValue::Z => "Z",
            CardValue::J => "J",
            CardValue::Q => "Q",
            CardValue::K => "K",
        };
        proof {
            reveal_strlit("A");
            reveal_strlit("2");
            reveal_strlit("3");
            reveal_strlit("4");
            reveal_strlit("5");
            reveal_strlit("6");
            reveal_strlit("7");
            reveal_strlit("8");
            reveal_strlit("9");
            reveal_strlit("Z");
            reveal_strlit("J");
            reveal_strlit("Q");
            reveal_strlit("K");
        }
        let r = text.to_owned();
        assert(r@ =~= value_label(*self));
        r
    }
}

impl CardType {
    /// The suit's symbol.
    pub fn label(&self) -> (r: String)
        ensures
            r@ == suit_label(*self),
    {
        let text: &str = match *self {
            CardType::Corazones => "\u{2665}",
            CardType::Espadas => "\u{2660}",
            CardType::Treboles => "\u{2663}",
            CardType::Diamantes => "\u{2666}",
        };
        proof {
            reveal_strlit("\u{2665}");
            reveal_strlit("\u{2660}");
            reveal_strlit("\u{2663}");
            reveal_strlit("\u{2666}");
        }
        let r = text.to_owned();
        assert(r@ =~= suit_label(*self));
        r
    }
}

impl CardColor {
    /// `r` for red, `n` for black.
    pub fn label(&self) -> (r: String)
        ensures
            r@ == color_label(*self),
    {
        let text: &str = match *self {
            CardColor::Red => "r",
            CardColor::Black => "n",
        };
        proof {
            reveal_strlit("r");
            reveal_strlit("n");
        }
        let r = text.to_owned();
        assert(r@ =~= color_label(*self));
        r
    }
}

impl Card {
    /// The card's derived fields agree with its rank and suit.
    pub open spec fn wf(self) -> bool {
        &&& valid_number(self.number)
        &&& self.value as int == ordinal_of(self.number)
        &&& self.color == color_of(self.suit)
    }

    /// Which of the 52 (suit, rank) pairs this card is, numbered in the
    /// order of a fresh deck.
    pub open spec fn kind(self) -> int {
        suit_index(self.suit) * 13 + self.value - 1
    }

    /// The same card with the given face orientation.
    pub open spec fn with_face(self, up: bool) -> Card {
        Card { faceup: up, ..self }
    }

    pub fn new(suit: CardType, number: CardValue) -> (r: Self)
        requires
            valid_number(number),
        ensures
            r.suit == suit,
            r.number == number,
            r.value as int == ordinal_of(number),
            r.color == color_of(suit),
            !r.faceup,
            r.wf(),
    {
        let value: u8;
        let color: CardColor;
        match number {
            CardValue::A => value = 1,
            CardValue::N(i) => value = i,
            CardValue::Z => value = 10,
            CardValue::J => value = 11,
            CardValue::Q => value = 12,
            CardValue::K => value = 13,
        }
        match suit {
            CardType::Corazones | CardType::Diamantes => color = CardColor::Red,
            _ => color = CardColor::Black,
        }
        Self { suit, number, value, color, faceup: false }
    }

    pub fn get_card_value(&self) -> (r: CardValue)
        ensures
            r == self.number,
    {
        self.number
    }

    pub fn get_card_color(&self) -> (r: CardColor)
        ensures
            r == self.color,
    {
        self.color
    }

    pub fn get_card_suit(&self) -> (r: CardType)
        ensures
            r == self.suit,
    {
        self.suit
    }

    pub fn get_value(&self) -> (r: u8)
        ensures
            r == self.value,
    {
        self.value
    }

    pub fn is_faceup(&self) -> (r: bool)
        ensures
            r == self.faceup,
    {
        self.faceup
    }

    pub fn show(&mut self)
        ensures
            *final(self) == old(self).with_face(true),
    {
        self.faceup = true;
    }

    /// What a player sees of the card: rank, suit and color when face up,
    /// `XXX` when face down.
    pub fn label(&self) -> (r: String)
        requires
            valid_number(self.number),
        ensures
            r@ == shown_label(*self),
    {
        if self.faceup {
            let mut text = self.number.label();
            text.append(self.suit.label().as_str());
            text.append(self.color.label().as_str());
            text
        } else {
            proof {
                reveal_strlit("XXX");
            }
            let r = "XXX".to_owned();
            assert(r@ =~= seq!['X', 'X', 'X']);
            r
        }
    }

    /// Appends the card's rank, suit and color, whatever its face, and a space.
    pub fn log(&self, log_string: &mut String)
        requires
            valid_number(self.number),
        ensures
            final(log_string)@ == old(log_string)@ + card_label(*self) + seq![' '],
    {
        log_string.append(self.number.label().as_str());
        log_string.append(self.suit.label().as_str());
        log_string.append(self.color.label().as_str());
        proof {
            reveal_strlit(" ");
        }
        log_string.append(" ");
        assert(log_string@ =~= old(log_string)@ + card_label(*self) + seq![' ']);
    }

    pub fn face_down(&mut self)
        ensures
            *final(self) == old(self).with_face(false),
    {
        self.faceup = false;
    }
}

} // verus!
