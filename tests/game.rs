use solitaire::card::{Card, CardFace, CardKind, Suit};
use solitaire::deal::{shuffled_deck, standard_cards};
use solitaire::session::{Action, GameSession, PileId, SolveTimer};
use solitaire::stack::{DrawMode, GameState};

fn card(suit: Suit, kind: CardKind) -> Card {
    Card { suit, kind }
}

fn round_start(r: usize) -> usize {
    (0..r).map(|k| 7 - k).sum()
}

/// Index in the shuffled deck of the `j`-th card of column `c`.
fn slot(j: usize, c: usize) -> usize {
    51 - (round_start(j) + c - j)
}

/// A deck order that deals the given cards to the given places (column,
/// height, card) and deck positions (0 is the bottom of the deck), with the
/// remaining cards filled in from the unshuffled order.
fn arrange(cols: &[(usize, usize, Card)], deck: &[(usize, Card)]) -> Vec<Card> {
    let mut slots: Vec<Option<Card>> = vec![None; 52];
    for &(c, j, x) in cols {
        slots[slot(j, c)] = Some(x);
    }
    for &(i, x) in deck {
        slots[i] = Some(x);
    }
    let used: Vec<Card> = slots.iter().flatten().cloned().collect();
    let mut rest = standard_cards().into_iter().filter(|x| !used.contains(x));
    slots.into_iter().map(|s| s.unwrap_or_else(|| rest.next().unwrap())).collect()
}

fn all_piles() -> Vec<PileId> {
    let mut v: Vec<PileId> = (0..7).map(PileId::Tableau).collect();
    for s in [Suit::Spades, Suit::Clubs, Suit::Hearts, Suit::Diamonds] {
        v.push(PileId::Foundation(s));
    }
    v.push(PileId::Deck);
    v.push(PileId::Discard);
    v
}

fn snapshot(g: &GameSession) -> (Vec<Vec<Card>>, Vec<usize>) {
    let piles = all_piles().into_iter().map(|id| g.cards(id).clone()).collect();
    let hidden = (0..7).map(|c| g.hidden_count(c)).collect();
    (piles, hidden)
}

fn assert_full_deck(g: &GameSession) {
    let mut seen: Vec<Card> = Vec::new();
    for id in all_piles() {
        seen.extend(g.cards(id).iter().cloned());
    }
    assert_eq!(seen.len(), 52);
    for c in standard_cards() {
        assert_eq!(seen.iter().filter(|x| **x == c).count(), 1);
    }
}

#[test]
fn deal_lays_out_triangle() {
    let g = GameSession::deal_from(standard_cards(), DrawMode::Draw1);
    for c in 0..7 {
        assert_eq!(g.cards(PileId::Tableau(c)).len(), c + 1);
        assert_eq!(g.hidden_count(c), c);
        assert_eq!(g.face(PileId::Tableau(c), c), CardFace::Up);
        if c > 0 {
            assert_eq!(g.face(PileId::Tableau(c), c - 1), CardFace::Down);
        }
    }
    assert_eq!(g.cards(PileId::Tableau(0)), &vec![card(Suit::Diamonds, CardKind::King)]);
    assert_eq!(
        g.cards(PileId::Tableau(1)),
        &vec![card(Suit::Diamonds, CardKind::Queen), card(Suit::Diamonds, CardKind::Number(6))]
    );
    assert_eq!(g.cards(PileId::Deck).len(), 24);
    assert_eq!(g.cards(PileId::Deck)[0], card(Suit::Spades, CardKind::Ace));
    assert_eq!(g.cards(PileId::Deck)[23], card(Suit::Clubs, CardKind::Jack));
    assert_eq!(g.face(PileId::Deck, 23), CardFace::Down);
    assert!(g.cards(PileId::Discard).is_empty());
    assert!(g.actions().is_empty());
    assert_eq!(g.state(), GameState::Playing);
    assert_eq!(g.draw_mode(), DrawMode::Draw1);
    assert_eq!(g.timer(), SolveTimer::new(150));
    assert_full_deck(&g);
}

#[test]
fn new_deal_conserves_cards() {
    let g = GameSession::new_deal(DrawMode::Draw3);
    assert_full_deck(&g);
    assert_eq!(g.cards(PileId::Deck).len(), 24);
    assert_eq!(g.draw_mode(), DrawMode::Draw3);
    for c in 0..7 {
        assert_eq!(g.cards(PileId::Tableau(c)).len(), c + 1);
    }
}

#[test]
fn shuffle_permutes_deck() {
    let d = shuffled_deck();
    assert_eq!(d.len(), 52);
    for c in standard_cards() {
        assert_eq!(d.iter().filter(|x| **x == c).count(), 1);
    }
    assert_ne!(d, standard_cards());
}

#[test]
fn draw_single_then_undo() {
    let mut g = GameSession::deal_from(standard_cards(), DrawMode::Draw1);
    let deck_before = g.cards(PileId::Deck).clone();
    assert_eq!(g.request_draw(), 1);
    assert_eq!(g.cards(PileId::Deck).len(), 23);
    assert_eq!(g.cards(PileId::Discard), &vec![card(Suit::Clubs, CardKind::Jack)]);
    assert_eq!(g.face(PileId::Discard, 0), CardFace::Up);
    assert_eq!(g.actions().len(), 1);
    assert_eq!(g.undo(false), Some(Action::Draw(1)));
    assert_eq!(g.cards(PileId::Deck), &deck_before);
    assert_eq!(g.cards(PileId::Deck)[23], card(Suit::Clubs, CardKind::Jack));
    assert_eq!(g.face(PileId::Deck, 23), CardFace::Down);
    assert!(g.cards(PileId::Discard).is_empty());
    assert_eq!(g.actions().len(), 0);
}

#[test]
fn draw_three_then_undo() {
    let mut g = GameSession::deal_from(standard_cards(), DrawMode::Draw3);
    let before = snapshot(&g);
    assert_eq!(g.request_draw(), 3);
    assert_eq!(
        g.cards(PileId::Discard),
        &vec![
            card(Suit::Clubs, CardKind::Jack),
            card(Suit::Clubs, CardKind::Number(10)),
            card(Suit::Clubs, CardKind::Number(9)),
        ]
    );
    assert_eq!(g.cards(PileId::Deck).len(), 21);
    assert_eq!(g.actions(), &vec![Action::Draw(3)]);
    assert_eq!(g.undo(false), Some(Action::Draw(3)));
    assert_eq!(snapshot(&g), before);
}

#[test]
fn draw_three_underflows() {
    let spade_ace = card(Suit::Spades, CardKind::Ace);
    let red_two = card(Suit::Hearts, CardKind::Number(2));
    let order = arrange(&[(0, 0, red_two)], &[(21, spade_ace)]);
    let mut g = GameSession::deal_from(order, DrawMode::Draw3);
    assert_eq!(g.request_draw(), 3);
    assert_eq!(*g.cards(PileId::Discard).last().unwrap(), spade_ace);
    assert!(g.request_move(spade_ace, PileId::Discard, PileId::Tableau(0)));
    for _ in 0..7 {
        assert_eq!(g.request_draw(), 3);
    }
    assert!(g.deck_empty());
    assert_eq!(g.request_draw(), 0);
    assert!(g.request_reset_deck());
    assert_eq!(g.cards(PileId::Deck).len(), 23);
    for _ in 0..7 {
        assert_eq!(g.request_draw(), 3);
    }
    let before = snapshot(&g);
    assert_eq!(g.request_draw(), 2);
    assert!(g.deck_empty());
    assert_eq!(g.actions().last(), Some(&Action::Draw(2)));
    assert_eq!(g.undo(false), Some(Action::Draw(2)));
    assert_eq!(snapshot(&g), before);
}

#[test]
fn reset_turns_discard_over_and_undoes() {
    let mut g = GameSession::deal_from(standard_cards(), DrawMode::Draw1);
    let deck = g.cards(PileId::Deck).clone();
    assert!(!g.request_reset_deck());
    for _ in 0..24 {
        assert_eq!(g.request_draw(), 1);
    }
    let before = snapshot(&g);
    let discard = g.cards(PileId::Discard).clone();
    assert_eq!(discard[0], card(Suit::Clubs, CardKind::Jack));
    assert_eq!(g.request_draw(), 0);
    assert_eq!(snapshot(&g), before);
    assert!(g.click_deck());
    assert_eq!(g.actions().last(), Some(&Action::ResetDeck));
    assert_eq!(g.cards(PileId::Deck), &deck);
    assert_eq!(*g.cards(PileId::Deck).last().unwrap(), discard[0]);
    assert!(g.cards(PileId::Discard).is_empty());
    assert_eq!(g.actions().last(), Some(&Action::ResetDeck));
    assert!(!g.request_reset_deck());
    assert_eq!(g.undo(false), Some(Action::ResetDeck));
    assert_eq!(snapshot(&g), before);
}

#[test]
fn click_deck_draws_then_resets() {
    let mut g = GameSession::deal_from(standard_cards(), DrawMode::Draw3);
    for k in 0..8 {
        assert!(g.click_deck());
        assert_eq!(g.cards(PileId::Discard).len(), 3 * (k + 1));
        assert_eq!(g.actions().last(), Some(&Action::Draw(3)));
    }
    assert!(g.deck_empty());
    assert!(g.click_deck());
    assert_eq!(g.cards(PileId::Deck).len(), 24);
    assert_eq!(g.actions().len(), 9);
}

#[test]
fn tableau_move_uncovers_and_undo_restores() {
    let seven = card(Suit::Spades, CardKind::Number(7));
    let eight = card(Suit::Hearts, CardKind::Number(8));
    let order = arrange(&[(1, 1, seven), (2, 2, eight)], &[]);
    let mut g = GameSession::deal_from(order, DrawMode::Draw1);
    let before = snapshot(&g);
    let hidden_card = g.cards(PileId::Tableau(1))[0];
    assert!(g.request_move(seven, PileId::Tableau(1), PileId::Tableau(2)));
    assert_eq!(g.cards(PileId::Tableau(1)), &vec![hidden_card]);
    assert_eq!(g.hidden_count(1), 0);
    assert_eq!(g.face(PileId::Tableau(1), 0), CardFace::Up);
    assert_eq!(g.cards(PileId::Tableau(2)).last(), Some(&seven));
    assert_eq!(
        g.actions(),
        &vec![Action::MoveCard {
            card: seven,
            from: PileId::Tableau(1),
            to: PileId::Tableau(2),
            parent_face_down: true,
        }]
    );
    assert_eq!(g.undo(true), None);
    assert_eq!(g.actions().len(), 1);
    let undone = g.undo(false).unwrap();
    assert!(matches!(undone, Action::MoveCard { parent_face_down: true, .. }));
    assert_eq!(snapshot(&g), before);
    assert_eq!(g.hidden_count(1), 1);
    assert_eq!(g.face(PileId::Tableau(1), 0), CardFace::Down);
    assert!(g.actions().is_empty());
    assert_eq!(g.undo(false), None);
}

#[test]
fn illegal_moves_change_nothing() {
    let seven = card(Suit::Spades, CardKind::Number(7));
    let black_eight = card(Suit::Clubs, CardKind::Number(8));
    let order = arrange(&[(1, 1, seven), (2, 2, black_eight)], &[]);
    let mut g = GameSession::deal_from(order, DrawMode::Draw1);
    let before = snapshot(&g);
    let under = g.cards(PileId::Tableau(1))[0];
    let deck_top = *g.cards(PileId::Deck).last().unwrap();
    assert!(!g.request_move(seven, PileId::Tableau(1), PileId::Tableau(2)));
    assert!(!g.request_move(under, PileId::Tableau(1), PileId::Tableau(3)));
    assert!(!g.request_move(seven, PileId::Tableau(1), PileId::Tableau(1)));
    assert!(!g.request_move(seven, PileId::Tableau(1), PileId::Discard));
    assert!(!g.request_move(seven, PileId::Tableau(1), PileId::Tableau(9)));
    assert!(!g.request_move(deck_top, PileId::Deck, PileId::Tableau(2)));
    assert!(!g.request_move(seven, PileId::Tableau(1), PileId::Foundation(Suit::Spades)));
    assert_eq!(snapshot(&g), before);
    assert!(g.actions().is_empty());
}

#[test]
fn foundation_moves_and_undo_chain() {
    let spade_ace = card(Suit::Spades, CardKind::Ace);
    let red_two = card(Suit::Hearts, CardKind::Number(2));
    let order = arrange(&[(2, 2, red_two)], &[(23, spade_ace)]);
    let mut g = GameSession::deal_from(order, DrawMode::Draw1);
    let start = snapshot(&g);
    assert_eq!(g.request_draw(), 1);
    assert!(g.request_move(spade_ace, PileId::Discard, PileId::Foundation(Suit::Spades)));
    assert_eq!(g.cards(PileId::Foundation(Suit::Spades)), &vec![spade_ace]);
    assert!(g.cards(PileId::Discard).is_empty());
    assert!(g.request_move(spade_ace, PileId::Foundation(Suit::Spades), PileId::Tableau(2)));
    assert!(g.cards(PileId::Foundation(Suit::Spades)).is_empty());
    assert_eq!(g.cards(PileId::Tableau(2)).last(), Some(&spade_ace));
    let after_two = snapshot(&g);
    assert!(g.request_move(spade_ace, PileId::Tableau(2), PileId::Foundation(Suit::Spades)));
    assert!(g.undo(false).is_some());
    assert_eq!(snapshot(&g), after_two);
    assert!(g.undo(false).is_some());
    assert_eq!(g.cards(PileId::Foundation(Suit::Spades)), &vec![spade_ace]);
    assert!(g.undo(false).is_some());
    assert_eq!(g.cards(PileId::Discard), &vec![spade_ace]);
    assert_eq!(g.undo(false), Some(Action::Draw(1)));
    assert_eq!(snapshot(&g), start);
    assert!(g.actions().is_empty());
    assert_full_deck(&g);
}

#[test]
fn solver_move_keeps_the_log_and_locks_undo() {
    let spade_ace = card(Suit::Spades, CardKind::Ace);
    let red_two = card(Suit::Hearts, CardKind::Number(2));
    let tops = [
        red_two,
        card(Suit::Diamonds, CardKind::King),
        card(Suit::Diamonds, CardKind::Queen),
        card(Suit::Diamonds, CardKind::Jack),
        card(Suit::Diamonds, CardKind::Number(10)),
        card(Suit::Diamonds, CardKind::Number(9)),
        card(Suit::Diamonds, CardKind::Number(8)),
    ];
    let cols: Vec<(usize, usize, Card)> = (0..7).map(|c| (c, c, tops[c])).collect();
    let mut g = GameSession::deal_from(arrange(&cols, &[(23, spade_ace)]), DrawMode::Draw1);
    assert_eq!(g.request_draw(), 1);
    assert!(g.request_move(spade_ace, PileId::Discard, PileId::Tableau(0)));
    assert_eq!(g.auto_solve_tick(1000), None);
    assert!(g.is_undo_available());
    g.set_state(GameState::AutoSolving);
    assert!(!g.is_undo_available());
    assert_eq!(g.undo(false), None);
    assert_eq!(g.actions().len(), 2);
    assert_eq!(g.auto_solve_tick(100), None);
    assert_eq!(g.timer().remaining, 50);
    let proposal = g.auto_solve_tick(50);
    assert_eq!(
        proposal,
        Some(Action::MoveCard {
            card: spade_ace,
            from: PileId::Tableau(0),
            to: PileId::Foundation(Suit::Spades),
            parent_face_down: false,
        })
    );
    assert_eq!(g.timer().remaining, 150);
    assert_eq!(g.cards(PileId::Foundation(Suit::Spades)), &vec![spade_ace]);
    assert_eq!(g.actions().len(), 2);
    assert_eq!(g.state(), GameState::AutoSolving);
    assert_eq!(g.auto_solve_tick(150), None);
    assert_eq!(g.state(), GameState::AutoSolving);
    assert_eq!(g.actions().len(), 2);
    g.set_state(GameState::Playing);
    assert!(!g.is_undo_available());
    assert!(!g.undo_fits());
    let before = snapshot(&g);
    assert_eq!(g.undo(false), None);
    assert_eq!(snapshot(&g), before);
    assert_eq!(g.actions().len(), 2);
    let fresh = GameSession::deal_from(standard_cards(), DrawMode::Draw1);
    assert!(fresh.is_undo_available());
}

#[test]
fn solver_session_climbs_one_suit() {
    let spade = |k| card(Suit::Spades, k);
    let tops = [
        spade(CardKind::Number(5)),
        spade(CardKind::Number(3)),
        spade(CardKind::Number(4)),
        card(Suit::Diamonds, CardKind::King),
        card(Suit::Diamonds, CardKind::Queen),
        card(Suit::Diamonds, CardKind::Jack),
        card(Suit::Diamonds, CardKind::Number(10)),
    ];
    let cols: Vec<(usize, usize, Card)> = (0..7).map(|c| (c, c, tops[c])).collect();
    let order = arrange(&cols, &[(23, spade(CardKind::Ace)), (22, spade(CardKind::Number(2)))]);
    let mut g = GameSession::deal_from(order, DrawMode::Draw1);
    for _ in 0..2 {
        assert_eq!(g.request_draw(), 1);
        let top = g.top_card(PileId::Discard).unwrap();
        assert!(g.request_move(top, PileId::Discard, PileId::Foundation(Suit::Spades)));
    }
    assert_eq!(g.top_card(PileId::Foundation(Suit::Spades)), Some(spade(CardKind::Number(2))));
    g.set_state(GameState::AutoSolving);
    let expected = [(1, CardKind::Number(3)), (2, CardKind::Number(4)), (0, CardKind::Number(5))];
    for (col, kind) in expected {
        match g.auto_solve_tick(150) {
            Some(Action::MoveCard { card: c, from, to, .. }) => {
                assert_eq!(c, spade(kind));
                assert_eq!(from, PileId::Tableau(col));
                assert_eq!(to, PileId::Foundation(Suit::Spades));
            }
            other => panic!("unexpected solver step {:?}", other),
        }
        assert_eq!(g.top_card(PileId::Foundation(Suit::Spades)), Some(spade(kind)));
    }
    assert_eq!(g.cards(PileId::Foundation(Suit::Spades)).len(), 5);
    assert_full_deck(&g);
}

#[test]
fn win_check_keeps_playing_on_fresh_deal() {
    let mut g = GameSession::deal_from(standard_cards(), DrawMode::Draw1);
    assert!(!g.is_won());
    assert!(!g.all_cards_face_up());
    g.win_check();
    assert_eq!(g.state(), GameState::Playing);
    g.set_state(GameState::Menu);
    g.win_check();
    assert_eq!(g.state(), GameState::Menu);
}

#[test]
fn tops_snapshots() {
    let g = GameSession::deal_from(standard_cards(), DrawMode::Draw1);
    assert_eq!(g.foundation_tops(), vec![None, None, None, None]);
    let t = g.tableau_tops();
    assert_eq!(t.len(), 7);
    assert_eq!(t[0], Some(card(Suit::Diamonds, CardKind::King)));
    assert_eq!(t[1], Some(card(Suit::Diamonds, CardKind::Number(6))));
    assert_eq!(g.top_card(PileId::Deck), Some(card(Suit::Clubs, CardKind::Jack)));
    assert_eq!(g.top_card(PileId::Discard), None);
}

#[test]
fn solve_timer_counts_down() {
    let mut t = SolveTimer::new(150);
    assert!(!t.tick(100));
    assert_eq!(t.remaining, 50);
    assert!(t.tick(50));
    assert_eq!(t.remaining, 150);
    assert!(t.tick(400));
    assert_eq!(t, SolveTimer { period: 150, remaining: 150 });
}
