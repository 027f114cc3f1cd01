//! Properties that hold across the library's operations.
use vstd::prelude::*;

use crate::card::{Card, CardKind, Suit};
use crate::deal::{lemma_standard_deck_counts, standard_deck};
use crate::session::{lemma_from_col_next, reversed, Action, GameSession, PileId};
use crate::deal::suit_index;
use crate::solver::{best_choice, eligible, tops_valid};
use crate::stack::{accepts, StackKind};

verus! {

/// Cards are conserved: a well-formed session, which every operation keeps
/// well-formed from the deal on, holds each of the 52 distinct cards exactly
/// once across all its piles and nothing else.
pub proof fn lemma_conservation(s: &GameSession)
    requires
        s.wf(),
    ensures
        s.all_cards() == standard_deck().to_multiset(),
        s.all_cards().len() == 52,
        forall|c: Card| #[trigger] s.all_cards().count(c) == if c.kind.wf() {
            1nat
        } else {
            0nat
        },
{
    lemma_standard_deck_counts();
}

/// On a column, a card one rank below the top card and of the other color is
/// accepted, whether or not cards lie on it.
pub proof fn lemma_tableau_descending(top: Card, cand: Card, has_children: bool)
    requires
        top.kind.wf(),
        cand.kind.wf(),
        cand.kind.col() + 1 == top.kind.col(),
        cand.suit.is_red() != top.suit.is_red(),
    ensures
        accepts(StackKind::Stack, Some(top), cand, has_children),
{
}

/// On a foundation of suit `s`, the card of suit `s` one rank above the top
/// card is accepted when it is moved alone.
pub proof fn lemma_foundation_ascending(s: Suit, top: Card, cand: Card)
    requires
        top.kind.wf(),
        cand.kind.wf(),
        cand.suit == s,
        cand.kind.col() == top.kind.col() + 1,
    ensures
        accepts(StackKind::Ordered(s), Some(top), cand, false),
{
    lemma_from_col_next(top.kind.col());
    crate::card::lemma_col_injective(top.kind, CardKind::from_col(top.kind.col()));
    crate::card::lemma_col_injective(cand.kind, CardKind::from_col(cand.kind.col()));
}

/// A foundation showing a King accepts nothing more.
pub proof fn lemma_foundation_complete(s: Suit, top: Card, cand: Card, has_children: bool)
    requires
        top.kind is King,
    ensures
        !accepts(StackKind::Ordered(s), Some(top), cand, has_children),
{
}

/// A card with cards on top of it never goes to a foundation.
pub proof fn lemma_foundation_single_card(s: Suit, top: Option<Card>, cand: Card)
    ensures
        !accepts(StackKind::Ordered(s), top, cand, true),
{
}

/// Win detection reads only the foundations' tops, which is sound: on a
/// well-formed table every foundation shows a King exactly when every
/// foundation holds its thirteen cards.
pub proof fn lemma_won_iff_complete(s: &GameSession)
    requires
        s.wf(),
    ensures
        s.won() <==> forall|t: Suit| #[trigger] s.pile(PileId::Foundation(t)).len() == 13,
{
    assert forall|t: Suit| #![auto]
        (s.top(PileId::Foundation(t)) matches Some(c) && c.kind is King) <==> s.pile(
            PileId::Foundation(t),
        ).len() == 13 by {
        assert(s.foundation_ok(t));
        let f = s.pile(PileId::Foundation(t));
        if f.len() > 0 {
            assert(f[f.len() - 1] == Card { suit: t, kind: CardKind::from_col(f.len() - 1) });
        }
    }
}

/// The auto-solver works up each suit in order: while a card of a suit is
/// eligible, no higher card of that suit showing on the tableau is eligible,
/// so none is ever chosen before it.
pub proof fn lemma_solver_suit_order(
    foundation_tops: Seq<Option<Card>>,
    tableau_tops: Seq<Option<Card>>,
    i: int,
    j: int,
)
    requires
        foundation_tops.len() == 4,
        tops_valid(tableau_tops),
        eligible(foundation_tops, tableau_tops, i),
        0 <= j < tableau_tops.len(),
        tableau_tops[j] matches Some(cj) && cj.suit == tableau_tops[i]->0.suit && cj.kind.col()
            > tableau_tops[i]->0.kind.col(),
    ensures
        !eligible(foundation_tops, tableau_tops, j),
        !best_choice(foundation_tops, tableau_tops, j),
{
    assert(tableau_tops[i] matches Some(x) && x.kind.wf());
    assert(tableau_tops[j] matches Some(x) && x.kind.wf());
}

/// A tableau card becomes eligible as soon as its suit's foundation shows
/// the rank right below it.
pub proof fn lemma_solver_next_rank(
    foundation_tops: Seq<Option<Card>>,
    tableau_tops: Seq<Option<Card>>,
    j: int,
    t: Card,
)
    requires
        foundation_tops.len() == 4,
        0 <= j < tableau_tops.len(),
        tableau_tops[j] matches Some(cj) && cj.kind.wf() && foundation_tops[suit_index(cj.suit)]
            == Some(t) && t.kind.wf() && cj.kind.col() == t.kind.col() + 1,
    ensures
        eligible(foundation_tops, tableau_tops, j),
{
    let cj = tableau_tops[j]->0;
    lemma_foundation_ascending(cj.suit, t, cj);
}

/// Undoing a move restores the table: after a legal move from `s` to `s1`
/// the logged action can be taken back, and taking it back gives every pile
/// and face-down count of `s` again, with the log one entry shorter.
pub proof fn lemma_undo_move_restores(
    s: &GameSession,
    s1: &GameSession,
    s2: &GameSession,
    card: Card,
    from: PileId,
    to: PileId,
)
    requires
        s.wf(),
        s.move_ok(card, from, to),
        s.moved(s1, card, from, to),
        s1.log() == s.log().push(
            Action::MoveCard { card, from, to, parent_face_down: s.uncovers(from) },
        ),
    ensures
        s1.log().last() == (Action::MoveCard { card, from, to, parent_face_down: s.uncovers(from) }),
        s1.undo_ok(s1.log().last()),
        s1.undone(s2, s1.log().last()) && s2.log() == s1.log().drop_last() ==> s.same_table(s2)
            && s2.log() == s.log(),
{
    let a = Action::MoveCard { card, from, to, parent_face_down: s.uncovers(from) };
    assert(s1.log().last() == a);
    if let PileId::Tableau(j) = to {
        assert(s.column_ok(j as int));
        assert(s1.hidden_of(j as int) == s.hidden_of(j as int));
    }
    if let PileId::Foundation(t) = from {
        assert(s.foundation_ok(t));
        let f = s.pile(from);
        assert(f[f.len() - 1] == Card { suit: t, kind: CardKind::from_col(f.len() - 1) });
        if f.len() >= 2 {
            assert(f[f.len() - 2] == Card { suit: t, kind: CardKind::from_col(f.len() - 2) });
            assert(s1.pile(from)[f.len() - 2] == f[f.len() - 2]);
            lemma_from_col_next(f.len() - 2);
        }
    }
    if s1.undone(s2, a) && s2.log() == s1.log().drop_last() {
        assert(s2.pile(to) =~= s.pile(to));
        assert(s2.pile(from) =~= s.pile(from));
        assert(s2.log() =~= s.log());
        assert forall|id: PileId| id.valid() implies #[trigger] s2.pile(id) == s.pile(id) by {
            if id != from && id != to {
                assert(s1.pile(id) == s.pile(id));
            }
        }
    }
}

/// A draw followed by an undo gives the deck and the discard pile back in
/// their exact order, and the rest of the table unchanged.
pub proof fn lemma_undo_draw_restores(s: &GameSession, s1: &GameSession, s2: &GameSession, n: usize)
    requires
        s.turned(s1, PileId::Deck, PileId::Discard, n as nat),
        s1.log() == s.log().push(Action::Draw(n)),
    ensures
        s1.log().last() == Action::Draw(n),
        s1.undo_ok(Action::Draw(n)),
        s1.undone(s2, Action::Draw(n)) && s2.log() == s1.log().drop_last() ==> s.same_table(s2)
            && s2.log() == s.log(),
{
    assert(s1.log().last() == Action::Draw(n));
    let k = s.pile(PileId::Deck);
    let d = s.pile(PileId::Discard);
    let top = k.subrange(k.len() - n, k.len() as int);
    if s1.undone(s2, Action::Draw(n)) && s2.log() == s1.log().drop_last() {
        let d1 = s1.pile(PileId::Discard);
        assert(d1.subrange(d1.len() - n, d1.len() as int) =~= reversed(top));
        assert(reversed(reversed(top)) =~= top);
        assert(s2.pile(PileId::Deck) =~= k);
        assert(s2.pile(PileId::Discard) =~= d);
        assert(s2.log() =~= s.log());
        assert forall|id: PileId| id.valid() implies #[trigger] s2.pile(id) == s.pile(id) by {
            if id != PileId::Deck && id != PileId::Discard {
                assert(s1.pile(id) == s.pile(id));
            }
        }
    }
}

/// Turning the discard pile over into the deck and undoing it gives both
/// piles back in their exact order, and the rest of the table unchanged.
pub proof fn lemma_undo_reset_restores(s: &GameSession, s1: &GameSession, s2: &GameSession)
    requires
        s.reset_ok(),
        s1.pile(PileId::Deck) == reversed(s.pile(PileId::Discard)),
        s1.pile(PileId::Discard).len() == 0,
        s.same_except(s1, PileId::Deck, PileId::Discard),
        s1.log() == s.log().push(Action::ResetDeck),
    ensures
        s1.log().last() == Action::ResetDeck,
        s1.undo_ok(Action::ResetDeck),
        s1.undone(s2, Action::ResetDeck) && s2.log() == s1.log().drop_last() ==> s.same_table(s2)
            && s2.log() == s.log(),
{
    assert(s1.log().last() == Action::ResetDeck);
    let d = s.pile(PileId::Discard);
    if s1.undone(s2, Action::ResetDeck) && s2.log() == s1.log().drop_last() {
        let k1 = s1.pile(PileId::Deck);
        assert(k1.subrange(0, k1.len() as int) =~= reversed(d));
        assert(reversed(reversed(d)) =~= d);
        assert(s2.pile(PileId::Discard) =~= d);
        assert(s2.pile(PileId::Deck) =~= s.pile(PileId::Deck));
        assert(s2.log() =~= s.log());
        assert forall|id: PileId| id.valid() implies #[trigger] s2.pile(id) == s.pile(id) by {
            if id != PileId::Deck && id != PileId::Discard {
                assert(s1.pile(id) == s.pile(id));
            }
        }
    }
}

} // verus!
