use vstd::prelude::*;

verus! {

/// The four suits of a standard deck.
#[derive(Debug, Clone, Copy, PartialEq, Eq, Hash, Structural)]
pub enum Suit {
    Spades,
    Clubs,
    Hearts,
    Diamonds,
}

impl Suit {
    /// Hearts and diamonds are red; spades and clubs are black.
    pub open spec fn is_red(self) -> bool {
        self is Hearts || self is Diamonds
    }

    /// Row of the suit in the card atlas.
    pub open spec fn row_spec(self) -> nat {
        match self {
            Suit::Spades => 0,
            Suit::Clubs => 1,
            Suit::Diamonds => 2,
            Suit::Hearts => 3,
        }
    }

    /// True iff the two suits have different colors.
    pub fn can_stack(&self, other: &Self) -> (r: bool)
        ensures
            r == (self.is_red() != other.is_red()),
    {
        match self {
            Suit::Spades | Suit::Clubs => match other {
                Suit::Hearts | Suit::Diamonds => true,
                Suit::Spades | Suit::Clubs => false,
            },
            Suit::Hearts | Suit::Diamonds => match other {
                Suit::Spades | Suit::Clubs => true,
                Suit::Hearts | Suit::Diamonds => false,
            },
        }
    }

    pub fn row(&self) -> (r: usize)
        ensures
            r == self.row_spec(),
    {
        match self {
            Suit::Spades => 0,
            Suit::Clubs => 1,
            Suit::Diamonds => 2,
            Suit::Hearts => 3,
        }
    }
}


/// The rank of a card. `Number(n)` is meant for `2 <= n <= 10`.
#[derive(Debug, Clone, Copy, PartialEq, Eq, Hash, Structural)]
pub enum CardKind {
    Ace,
    Number(usize),
    Jack,
    Queen,
    King,
}

impl CardKind {
    /// A rank is valid unless it is a number outside `2..=10`.
    pub open spec fn wf(self) -> bool {
        match self {
            CardKind::Number(n) => 2 <= n <= 10,
            _ => true,
        }
    }

    /// Ordinal of a valid rank: Ace is 0, `Number(n)` is `n - 1`, King is 12.
    pub open spec fn col(self) -> int {
        match self {
            CardKind::Ace => 0,
            CardKind::Number(n) => n - 1,
            CardKind::Jack => 10,
            CardKind::Queen => 11,
            CardKind::King => 12,
        }
    }

    /// The rank whose ordinal is `c`, for `c` in `0..13`.
    pub open spec fn from_col(c: int) -> CardKind {
        if c == 0 {
            CardKind::Ace
        } else if c == 10 {
            CardKind::Jack
        } else if c == 11 {
            CardKind::Queen
        } else if c == 12 {
            CardKind::King
        } else {
            CardKind::Number((c + 1) as usize)
        }
    }

    /// The successor rank, none after a King.
    pub open spec fn next_spec(self) -> Option<CardKind> {
        match self {
            CardKind::Ace => Some(CardKind::Number(2)),
            CardKind::Number(n) => Some(
                if n < 10 {
                    CardKind::Number((n + 1) as usize)
                } else {
                    CardKind::Jack
                },
            ),
            CardKind::Jack => Some(CardKind::Queen),
            CardKind::Queen => Some(CardKind::King),
            CardKind::King => None,
        }
    }

    /// `self` is valid and sits exactly one rank below the valid `other`.
    pub open spec fn one_below(self, other: CardKind) -> bool {
        self.wf() && other.wf() && other.col() - self.col() == 1
    }

    pub fn column(&self) -> (r: usize)
        requires
            self.wf(),
        ensures
            r == self.col(),
    {
        match self {
            CardKind::Ace => 0,
            CardKind::Number(n) => n - 1,
            CardKind::Jack => 10,
            CardKind::Queen => 11,
            CardKind::King => 12,
        }
    }

    /// True iff `self` can be placed on `other` in a tableau column:
    /// both ranks are valid and `self` is exactly one below `other`.
    pub fn can_stack(&self, other: &Self) -> (r: bool)
        ensures
            r == self.one_below(*other),
    {
        if !self.is_valid() || !other.is_valid() {
            return false;
        }
        let a = self.column();
        let b = other.column();
        a < b && b - a == 1
    }

    /// True iff the rank is valid.
    pub fn is_valid(&self) -> (r: bool)
        ensures
            r == self.wf(),
    {
        match self {
            CardKind::Number(n) => 2 <= *n && *n <= 10,
            _ => true,
        }
    }

    /// The successor rank, or `None` for a King. On a valid rank the
    /// successor is valid and one ordinal higher.
    pub fn next(&self) -> (r: Option<CardKind>)
        ensures
            r == self.next_spec(),
            self.wf() ==> (r is None <==> *self is King),
            self.wf() ==> (r matches Some(k) ==> k.wf() && k.col() == self.col() + 1),
    {
        match self {
            CardKind::Ace => Some(CardKind::Number(2)),
            CardKind::Number(n) => Some(
                if *n < 10 {
                    CardKind::Number(n + 1)
                } else {
                    CardKind::Jack
                },
            ),
            CardKind::Jack => Some(CardKind::Queen),
            CardKind::Queen => Some(CardKind::King),
            CardKind::King => None,
        }
    }

    /// The rank whose ordinal is `c`.
    pub fn from_column(c: usize) -> (r: CardKind)
        requires
            c < 13,
        ensures
            r == CardKind::from_col(c as int),
            r.wf(),
            r.col() == c,
    {
        if c == 0 {
            CardKind::Ace
        } else if c == 10 {
            CardKind::Jack
        } else if c == 11 {
            CardKind::Queen
        } else if c == 12 {
            CardKind::King
        } else {
            CardKind::Number(c + 1)
        }
    }
}

/// Two valid ranks with the same ordinal are the same rank.
pub proof fn lemma_col_injective(a: CardKind, b: CardKind)
    requires
        a.wf(),
        b.wf(),
        a.col() == b.col(),
    ensures
        a == b,
{
}

/// A card of the deck.
#[derive(Debug, Clone, Copy, PartialEq, Eq, Hash, Structural)]
pub struct Card {
    pub suit: Suit,
    pub kind: CardKind,
}

impl Card {
    /// True iff `self` may be placed on `other` in a tableau column: the
    /// colors alternate and `self` is one rank below `other`.
    pub open spec fn stacks_on(self, other: Card) -> bool {
        self.suit.is_red() != other.suit.is_red() && self.kind.one_below(other.kind)
    }

    /// Index of the card's face in the card atlas.
    pub fn texture_index(&self) -> (r: usize)
        requires
            self.kind.wf(),
        ensures
            r == self.suit.row_spec() * 13 + self.kind.col(),
    {
        (self.suit.row() * 13) + self.kind.column()
    }

    /// Return true if `self` can be stacked on top of `other`.
    pub fn can_stack(&self, other: &Card) -> (r: bool)
        ensures
            r == self.stacks_on(*other),
    {
        self.suit.can_stack(&other.suit) && self.kind.can_stack(&other.kind)
    }
}

/// Whether a card shows its face.
#[derive(Debug, Clone, Copy, PartialEq, Eq, Hash, Structural)]
pub enum CardFace {
    Down,
    Up,
}

} // verus!
