use vstd::prelude::*;

use crate::card::{Card, CardKind, Suit};

verus! {

/// What a pile that accepts dropped cards is.
#[derive(Debug, Clone, Copy, PartialEq, Eq, Structural)]
pub enum StackKind {
    /// A foundation, built up from Ace to King in one suit.
    Ordered(Suit),
    /// A tableau column, built down in alternating colors.
    Stack,
}

/// The acceptance rule shared by every way of placing a card on a pile.
pub open spec fn accepts(kind: StackKind, top: Option<Card>, cand: Card, has_children: bool) -> bool {
    match kind {
        StackKind::Ordered(suit) => {
            &&& !has_children
            &&& cand.suit == suit
            &&& match top {
                None => cand.kind is Ace,
                Some(t) => t.kind.next_spec() == Some(cand.kind),
            }
        },
        StackKind::Stack => match top {
            None => cand.kind is King,
            Some(t) => cand.stacks_on(t),
        },
    }
}

/// A pile that cards can be dropped on.
#[derive(Debug, Clone, Copy, PartialEq, Eq, Structural)]
pub struct Stack {
    pub kind: StackKind,
}

impl Stack {
    pub fn new(kind: StackKind) -> (r: Self)
        ensures
            r.kind == kind,
    {
        Self { kind: kind }
    }

    /// Whether `target` may be placed on this pile, whose top card is
    /// `stack_card` (`None` when empty). `has_children` tells whether cards
    /// lie on top of `target`; only a single exposed card goes to a foundation.
    pub fn can_stack(&self, stack_card: Option<&Card>, target: Card, has_children: bool) -> (r: bool)
        ensures
            r == accepts(
                self.kind,
                match stack_card {
                    Some(c) => Some(*c),
                    None => None,
                },
                target,
                has_children,
            ),
    {
        match self.kind {
            StackKind::Ordered(suit) => {
                if has_children {
                    false
                } else if suit != target.suit {
                    false
                } else {
                    match stack_card {
                        None => target.kind == CardKind::Ace,
                        Some(top) => match top.kind.next() {
                            Some(k) => k == target.kind,
                            None => false,
                        },
                    }
                }
            },
            StackKind::Stack => match stack_card {
                None => target.kind == CardKind::King,
                Some(top) => target.can_stack(top),
            },
        }
    }
}

/// How many cards one draw turns from the deck to the discard pile.
#[derive(Debug, Clone, Copy, PartialEq, Eq, Structural)]
pub enum DrawMode {
    Draw1,
    Draw3,
}

impl DrawMode {
    pub open spec fn count(self) -> nat {
        match self {
            DrawMode::Draw1 => 1,
            DrawMode::Draw3 => 3,
        }
    }

    pub fn num(&self) -> (r: usize)
        ensures
            r == self.count(),
    {
        match self {
            DrawMode::Draw1 => 1,
            DrawMode::Draw3 => 3,
        }
    }
}

/// The phase the game is in.
#[derive(Debug, Clone, Copy, PartialEq, Eq, Hash, Structural)]
pub enum GameState {
    Menu,
    Playing,
    AutoSolving,
    Shuffle,
    Won,
}

} // verus!
