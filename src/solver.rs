use vstd::prelude::*;

use crate::card::{Card, CardKind, Suit};
use crate::deal::suit_index;
use crate::stack::{accepts, Stack, StackKind};

verus! {

/// Every card shown has a valid rank.
pub open spec fn tops_valid(tops: Seq<Option<Card>>) -> bool {
    forall|i: int| 0 <= i < tops.len() ==> (#[trigger] tops[i] matches Some(c) ==> c.kind.wf())
}

/// The foundation of a suit, read from the tops of the four foundations in
/// deck-building suit order.
pub open spec fn foundation_top(foundation_tops: Seq<Option<Card>>, c: Card) -> Option<Card> {
    foundation_tops[suit_index(c.suit)]
}

/// Column `i` shows a card that its suit's foundation accepts.
pub open spec fn eligible(foundation_tops: Seq<Option<Card>>, tableau_tops: Seq<Option<Card>>, i: int) -> bool {
    &&& 0 <= i < tableau_tops.len()
    &&& tableau_tops[i] matches Some(c)
    &&& accepts(StackKind::Ordered(c.suit), foundation_top(foundation_tops, c), c, false)
}

/// Rank ordinal of the card shown by column `i`.
pub open spec fn shown_col(tableau_tops: Seq<Option<Card>>, i: int) -> int {
    match tableau_tops[i] {
        Some(c) => c.kind.col(),
        None => 0,
    }
}

/// Column `i` goes before column `j`: its card is of lower rank, or of the
/// same rank and it stands further left.
pub open spec fn goes_before(tableau_tops: Seq<Option<Card>>, i: int, j: int) -> bool {
    shown_col(tableau_tops, i) < shown_col(tableau_tops, j) || (shown_col(tableau_tops, i)
        == shown_col(tableau_tops, j) && i <= j)
}

/// Column `i` is the solver's choice: eligible, and before every eligible column.
pub open spec fn best_choice(foundation_tops: Seq<Option<Card>>, tableau_tops: Seq<Option<Card>>, i: int) -> bool {
    &&& eligible(foundation_tops, tableau_tops, i)
    &&& forall|j: int|
        #[trigger] eligible(foundation_tops, tableau_tops, j) ==> goes_before(tableau_tops, i, j)
}

/// One step of the auto-solver's search. The tableau's top cards are tried
/// from the lowest rank up (ties from the left) and the first that its
/// suit's foundation accepts is chosen. `foundation_tops` holds the top of
/// each foundation in deck-building suit order.
pub fn pick_solver_move(foundation_tops: &Vec<Option<Card>>, tableau_tops: &Vec<Option<Card>>) -> (r: Option<usize>)
    requires
        foundation_tops@.len() == 4,
        tops_valid(tableau_tops@),
    ensures
        r is None <==> forall|j: int| !#[trigger] eligible(foundation_tops@, tableau_tops@, j),
        r matches Some(i) ==> best_choice(foundation_tops@, tableau_tops@, i as int),
{
    let mut best: Option<usize> = None;
    let mut best_col: usize = 0;
    let mut i: usize = 0;
    while i < tableau_tops.len()
        invariant
            i <= tableau_tops@.len(),
            foundation_tops@.len() == 4,
            tops_valid(tableau_tops@),
            best is None <==> forall|j: int| 0 <= j < i ==> !#[trigger] eligible(foundation_tops@, tableau_tops@, j),
            best matches Some(b) ==> {
                &&& b < i
                &&& eligible(foundation_tops@, tableau_tops@, b as int)
                &&& best_col == shown_col(tableau_tops@, b as int)
                &&& forall|j: int|
                    0 <= j < i && #[trigger] eligible(foundation_tops@, tableau_tops@, j) ==> goes_before(
                        tableau_tops@,
                        b as int,
                        j,
                    )
            },
        decreases tableau_tops@.len() - i,
    {
        if let Some(c) = tableau_tops[i] {
            let f = Stack::new(StackKind::Ordered(c.suit));
            let ft = foundation_tops[suit_slot(c.suit)];
            let ok = match ft {
                Some(t) => f.can_stack(Some(&t), c, false),
                None => f.can_stack(None, c, false),
            };
            assert(ok == eligible(foundation_tops@, tableau_tops@, i as int));
            if ok {
                assert(tableau_tops@[i as int] matches Some(x) && x.kind.wf());
                let col = c.kind.column();
                let better = match best {
                    None => true,
                    Some(_) => col < best_col,
                };
                if better {
                    best = Some(i);
                    best_col = col;
                }
            }
        }
        i = i + 1;
    }
    proof {
        if let Some(b) = best {
            assert forall|j: int| #[trigger] eligible(foundation_tops@, tableau_tops@, j) implies goes_before(
                tableau_tops@,
                b as int,
                j,
            ) by {}
        } else {
            assert forall|j: int| !#[trigger] eligible(foundation_tops@, tableau_tops@, j) by {}
        }
    }
    best
}

fn suit_slot(s: Suit) -> (r: usize)
    ensures
        r == suit_index(s),
{
    match s {
        Suit::Spades => 0,
        Suit::Clubs => 1,
        Suit::Hearts => 2,
        Suit::Diamonds => 3,
    }
}

/// True iff the four foundations all show a King.
pub fn is_won(foundation_tops: &Vec<Option<Card>>) -> (r: bool)
    ensures
        r == (foundation_tops@.len() == 4 && forall|i: int|
            0 <= i < 4 ==> (#[trigger] foundation_tops@[i] matches Some(c) && c.kind is King)),
{
    if foundation_tops.len() != 4 {
        return false;
    }
    let mut i: usize = 0;
    while i < 4
        invariant
            i <= 4,
            foundation_tops@.len() == 4,
            forall|j: int| 0 <= j < i ==> (#[trigger] foundation_tops@[j] matches Some(c) && c.kind is King),
        decreases 4 - i,
    {
        match foundation_tops[i] {
            Some(c) => match c.kind {
                CardKind::King => {},
                _ => return false,
            },
            None => return false,
        }
        i = i + 1;
    }
    true
}

/// The rest of the game is a plain search, worth automating, when the deck
/// is empty, every card is face up and nothing is left on the discard pile.
/// An empty discard pile is asked for, not one down to its exposed top card:
/// the solver only moves tableau cards, so a card left there would never be
/// played.
pub fn should_attempt_autosolve(deck_empty: bool, all_cards_face_up: bool, discard_empty: bool) -> (r: bool)
    ensures
        r == (deck_empty && all_cards_face_up && discard_empty),
{
    deck_empty && all_cards_face_up && discard_empty
}

} // verus!
