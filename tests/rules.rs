use solitaire::card::{Card, CardFace, CardKind, Suit};
use solitaire::solver::{is_won, pick_solver_move, should_attempt_autosolve};
use solitaire::stack::{DrawMode, Stack, StackKind};

fn card(suit: Suit, kind: CardKind) -> Card {
    Card { suit, kind }
}

#[test]
fn suit_colors_alternate() {
    assert!(Suit::Spades.can_stack(&Suit::Hearts));
    assert!(Suit::Clubs.can_stack(&Suit::Diamonds));
    assert!(Suit::Hearts.can_stack(&Suit::Clubs));
    assert!(!Suit::Spades.can_stack(&Suit::Clubs));
    assert!(!Suit::Hearts.can_stack(&Suit::Diamonds));
}

#[test]
fn suit_rows() {
    assert_eq!(Suit::Spades.row(), 0);
    assert_eq!(Suit::Clubs.row(), 1);
    assert_eq!(Suit::Diamonds.row(), 2);
    assert_eq!(Suit::Hearts.row(), 3);
}

#[test]
fn rank_columns() {
    assert_eq!(CardKind::Ace.column(), 0);
    assert_eq!(CardKind::Number(2).column(), 1);
    assert_eq!(CardKind::Number(10).column(), 9);
    assert_eq!(CardKind::Jack.column(), 10);
    assert_eq!(CardKind::Queen.column(), 11);
    assert_eq!(CardKind::King.column(), 12);
}

#[test]
fn rank_successors() {
    assert_eq!(CardKind::Ace.next(), Some(CardKind::Number(2)));
    assert_eq!(CardKind::Number(9).next(), Some(CardKind::Number(10)));
    assert_eq!(CardKind::Number(10).next(), Some(CardKind::Jack));
    assert_eq!(CardKind::Jack.next(), Some(CardKind::Queen));
    assert_eq!(CardKind::Queen.next(), Some(CardKind::King));
    assert_eq!(CardKind::King.next(), None);
}

#[test]
fn rank_adjacency() {
    assert!(CardKind::Ace.can_stack(&CardKind::Number(2)));
    assert!(CardKind::Number(10).can_stack(&CardKind::Jack));
    assert!(CardKind::Queen.can_stack(&CardKind::King));
    assert!(!CardKind::King.can_stack(&CardKind::Queen));
    assert!(!CardKind::Number(5).can_stack(&CardKind::Number(7)));
    assert!(!CardKind::Number(1).can_stack(&CardKind::Number(2)));
    assert!(!CardKind::Number(11).can_stack(&CardKind::Queen));
}

#[test]
fn card_stacks_descending_alternating() {
    let seven_spades = card(Suit::Spades, CardKind::Number(7));
    let eight_hearts = card(Suit::Hearts, CardKind::Number(8));
    let eight_clubs = card(Suit::Clubs, CardKind::Number(8));
    assert!(seven_spades.can_stack(&eight_hearts));
    assert!(!seven_spades.can_stack(&eight_clubs));
    assert!(!eight_hearts.can_stack(&seven_spades));
}

#[test]
fn texture_indices() {
    assert_eq!(card(Suit::Spades, CardKind::Ace).texture_index(), 0);
    assert_eq!(card(Suit::Hearts, CardKind::Queen).texture_index(), 50);
    assert_eq!(card(Suit::Diamonds, CardKind::Number(5)).texture_index(), 30);
}

#[test]
fn draw_mode_counts() {
    assert_eq!(DrawMode::Draw1.num(), 1);
    assert_eq!(DrawMode::Draw3.num(), 3);
}

#[test]
fn card_faces_differ() {
    assert_ne!(CardFace::Up, CardFace::Down);
}

#[test]
fn tableau_empty_takes_only_king() {
    let t = Stack::new(StackKind::Stack);
    assert!(t.can_stack(None, card(Suit::Clubs, CardKind::King), false));
    assert!(!t.can_stack(None, card(Suit::Clubs, CardKind::Queen), false));
}

#[test]
fn tableau_descending_alternating_every_rank() {
    let t = Stack::new(StackKind::Stack);
    let ranks = [
        CardKind::Ace,
        CardKind::Number(2),
        CardKind::Number(3),
        CardKind::Number(4),
        CardKind::Number(5),
        CardKind::Number(6),
        CardKind::Number(7),
        CardKind::Number(8),
        CardKind::Number(9),
        CardKind::Number(10),
        CardKind::Jack,
        CardKind::Queen,
        CardKind::King,
    ];
    for i in 0..12 {
        let top = card(Suit::Hearts, ranks[i + 1]);
        let cand = card(Suit::Spades, ranks[i]);
        assert!(t.can_stack(Some(&top), cand, false));
        assert!(t.can_stack(Some(&top), cand, true));
        let same_color = card(Suit::Diamonds, ranks[i]);
        assert!(!t.can_stack(Some(&top), same_color, false));
    }
}

#[test]
fn foundation_ordering() {
    let f = Stack::new(StackKind::Ordered(Suit::Spades));
    let ace = card(Suit::Spades, CardKind::Ace);
    assert!(f.can_stack(None, ace, false));
    assert!(f.can_stack(Some(&ace), card(Suit::Spades, CardKind::Number(2)), false));
    assert!(!f.can_stack(None, card(Suit::Hearts, CardKind::Ace), false));
    assert!(!f.can_stack(None, card(Suit::Spades, CardKind::Number(2)), false));
    assert!(!f.can_stack(Some(&ace), card(Suit::Spades, CardKind::Number(3)), false));
    assert!(!f.can_stack(Some(&ace), card(Suit::Clubs, CardKind::Number(2)), false));
    let king = card(Suit::Spades, CardKind::King);
    assert!(!f.can_stack(Some(&king), card(Suit::Spades, CardKind::Ace), false));
    assert!(!f.can_stack(Some(&king), card(Suit::Spades, CardKind::Queen), false));
    assert!(!f.can_stack(Some(&king), card(Suit::Hearts, CardKind::King), false));
}

#[test]
fn foundation_single_card_rule() {
    let f = Stack::new(StackKind::Ordered(Suit::Hearts));
    let ace = card(Suit::Hearts, CardKind::Ace);
    assert!(!f.can_stack(None, ace, true));
    assert!(!f.can_stack(Some(&ace), card(Suit::Hearts, CardKind::Number(2)), true));
}

#[test]
fn win_detection() {
    let kings = vec![
        Some(card(Suit::Spades, CardKind::King)),
        Some(card(Suit::Clubs, CardKind::King)),
        Some(card(Suit::Hearts, CardKind::King)),
        Some(card(Suit::Diamonds, CardKind::King)),
    ];
    assert!(is_won(&kings));
    let mut one_queen = kings.clone();
    one_queen[2] = Some(card(Suit::Hearts, CardKind::Queen));
    assert!(!is_won(&one_queen));
    let mut one_empty = kings.clone();
    one_empty[0] = None;
    assert!(!is_won(&one_empty));
    assert!(!is_won(&kings[..3].to_vec()));
}

#[test]
fn autosolve_condition() {
    assert!(should_attempt_autosolve(true, true, true));
    assert!(!should_attempt_autosolve(false, true, true));
    assert!(!should_attempt_autosolve(true, false, true));
    assert!(!should_attempt_autosolve(true, true, false));
}

fn tops(cards: &[Option<Card>]) -> Vec<Option<Card>> {
    cards.to_vec()
}

#[test]
fn solver_prefers_lower_rank_of_same_suit() {
    let two = card(Suit::Spades, CardKind::Number(2));
    let three = card(Suit::Spades, CardKind::Number(3));
    let five = card(Suit::Spades, CardKind::Number(5));
    let four = card(Suit::Spades, CardKind::Number(4));
    let foundations = tops(&[Some(two), None, None, None]);
    let tableau = tops(&[Some(five), Some(three), Some(four), None, None, None, None]);
    assert_eq!(pick_solver_move(&foundations, &tableau), Some(1));
    let foundations = tops(&[Some(three), None, None, None]);
    let tableau = tops(&[Some(five), None, Some(four), None, None, None, None]);
    assert_eq!(pick_solver_move(&foundations, &tableau), Some(2));
    let foundations = tops(&[Some(four), None, None, None]);
    let tableau = tops(&[Some(five), None, None, None, None, None, None]);
    assert_eq!(pick_solver_move(&foundations, &tableau), Some(0));
}

#[test]
fn solver_waits_for_missing_rank() {
    let three = card(Suit::Spades, CardKind::Number(3));
    let five = card(Suit::Spades, CardKind::Number(5));
    let foundations = tops(&[Some(three), None, None, None]);
    let tableau = tops(&[Some(five), None, None, None, None, None, None]);
    assert_eq!(pick_solver_move(&foundations, &tableau), None);
    let empty = tops(&[None, None, None, None, None, None, None]);
    assert_eq!(pick_solver_move(&foundations, &empty), None);
}

#[test]
fn solver_ties_across_suits() {
    let foundations = tops(&[
        Some(card(Suit::Spades, CardKind::Ace)),
        Some(card(Suit::Clubs, CardKind::Ace)),
        Some(card(Suit::Hearts, CardKind::Ace)),
        None,
    ]);
    let tableau = tops(&[
        Some(card(Suit::Hearts, CardKind::Number(2))),
        Some(card(Suit::Diamonds, CardKind::Number(3))),
        Some(card(Suit::Clubs, CardKind::Number(2))),
        Some(card(Suit::Diamonds, CardKind::Ace)),
        None,
        None,
        None,
    ]);
    assert_eq!(pick_solver_move(&foundations, &tableau), Some(3));
    let tableau = tops(&[
        Some(card(Suit::Hearts, CardKind::Number(2))),
        Some(card(Suit::Clubs, CardKind::Number(2))),
        None,
        None,
        None,
        None,
        None,
    ]);
    assert_eq!(pick_solver_move(&foundations, &tableau), Some(0));
}
