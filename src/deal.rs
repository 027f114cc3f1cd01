use vstd::prelude::*;

use rand::seq::SliceRandom;

use crate::card::{lemma_col_injective, Card, CardKind, Suit};

verus! {

/// Position of a suit in the order the deck is built: spades, clubs,
/// hearts, diamonds.
pub open spec fn suit_index(s: Suit) -> int {
    match s {
        Suit::Spades => 0,
        Suit::Clubs => 1,
        Suit::Hearts => 2,
        Suit::Diamonds => 3,
    }
}

/// The suit at position `i` of that order.
pub open spec fn suit_at(i: int) -> Suit {
    if i == 0 {
        Suit::Spades
    } else if i == 1 {
        Suit::Clubs
    } else if i == 2 {
        Suit::Hearts
    } else {
        Suit::Diamonds
    }
}

/// The `i`-th card of an unshuffled deck: thirteen ranks of each suit.
pub open spec fn standard_card(i: int) -> Card {
    Card { suit: suit_at(i / 13), kind: CardKind::from_col(i % 13) }
}

/// The 52 cards of an unshuffled deck.
pub open spec fn standard_deck() -> Seq<Card> {
    Seq::new(52, |i: int| standard_card(i))
}

/// Where a valid card stands in the unshuffled deck.
pub open spec fn card_ordinal(c: Card) -> int {
    suit_index(c.suit) * 13 + c.kind.col()
}

/// A valid card is the standard card at its ordinal, and the standard card at
/// a position has that position as its ordinal.
pub proof fn lemma_ordinal(c: Card, i: int)
    ensures
        c.kind.wf() ==> 0 <= card_ordinal(c) < 52 && standard_card(card_ordinal(c)) == c,
        0 <= i < 52 ==> standard_card(i).kind.wf() && card_ordinal(standard_card(i)) == i,
{
    if c.kind.wf() {
        let o = card_ordinal(c);
        assert(o / 13 == suit_index(c.suit) && o % 13 == c.kind.col());
        lemma_col_injective(CardKind::from_col(c.kind.col()), c.kind);
    }
    if 0 <= i < 52 {
        assert(i == (i / 13) * 13 + i % 13);
    }
}

/// The unshuffled deck holds every valid card exactly once and nothing else.
pub proof fn lemma_standard_deck_counts()
    ensures
        standard_deck().len() == 52,
        standard_deck().to_multiset().len() == 52,
        forall|c: Card| #[trigger]
            standard_deck().to_multiset().count(c) == if c.kind.wf() {
                1nat
            } else {
                0nat
            },
{
    let d = standard_deck();
    assert forall|i: int, j: int| 0 <= i < 52 && 0 <= j < 52 && i != j implies d[i] != d[j] by {
        lemma_ordinal(d[i], i);
        lemma_ordinal(d[j], j);
    }
    assert(d.no_duplicates());
    d.lemma_multiset_has_no_duplicates();
    assert forall|c: Card| #[trigger]
        d.to_multiset().count(c) == if c.kind.wf() {
            1nat
        } else {
            0nat
        } by {
        broadcast use vstd::seq_lib::to_multiset_contains;

        if c.kind.wf() {
            lemma_ordinal(c, 0);
            assert(d[card_ordinal(c)] == c);
            assert(d.contains(c));
        } else {
            if d.contains(c) {
                let k = choose|k: int| 0 <= k < d.len() && d[k] == c;
                lemma_ordinal(c, k);
            }
        }
    }
    vstd::seq_lib::to_multiset_len(d);
}

fn suit_from_index(i: usize) -> (r: Suit)
    ensures
        r == suit_at(i as int),
{
    if i == 0 {
        Suit::Spades
    } else if i == 1 {
        Suit::Clubs
    } else if i == 2 {
        Suit::Hearts
    } else {
        Suit::Diamonds
    }
}

/// Builds the 52 cards in their unshuffled order.
pub fn standard_cards() -> (r: Vec<Card>)
    ensures
        r@ == standard_deck(),
{
    let mut deck: Vec<Card> = Vec::new();
    let mut i: usize = 0;
    while i < 52
        invariant
            i <= 52,
            deck@ == standard_deck().take(i as int),
        decreases 52 - i,
    {
        let c = Card { suit: suit_from_index(i / 13), kind: CardKind::from_column(i % 13) };
        deck.push(c);
        i = i + 1;
        assert(deck@ =~= standard_deck().take(i as int));
    }
    assert(deck@ =~= standard_deck());
    deck
}

/// Relies on rand's `SliceRandom::shuffle` with the thread-local generator:
/// it only swaps elements, so the result is a permutation of the input.
#[verifier::external_body]
fn shuffle_cards(cards: &mut Vec<Card>)
    ensures
        final(cards)@.to_multiset() == old(cards)@.to_multiset(),
{
    let mut rng = rand::thread_rng();
    cards.shuffle(&mut rng);
}

/// A uniformly shuffled deck of the 52 cards.
pub fn shuffled_deck() -> (r: Vec<Card>)
    ensures
        r@.len() == 52,
        r@.to_multiset() == standard_deck().to_multiset(),
{
    let mut deck = standard_cards();
    shuffle_cards(&mut deck);
    proof {
        vstd::seq_lib::to_multiset_len(deck@);
        lemma_standard_deck_counts();
    }
    deck
}

} // verus!
