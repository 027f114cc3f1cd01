use vstd::multiset::Multiset;
use vstd::prelude::*;

use crate::card::{Card, CardFace, CardKind, Suit};
use crate::deal::{lemma_standard_deck_counts, shuffled_deck, standard_deck, suit_at, suit_index};
use crate::solver::{best_choice, eligible, pick_solver_move, should_attempt_autosolve, tops_valid};
use crate::stack::{accepts, DrawMode, GameState, Stack, StackKind};

verus! {

/// Number of tableau columns.
pub const TABLEAU_COLUMNS: usize = 7;

/// Number of piles a session holds: seven columns, four foundations, the
/// deck and the discard pile.
pub const PILE_COUNT: usize = 13;

/// Index of the deck among a session's piles.
pub const DECK_PILE: usize = 11;

/// Index of the discard pile among a session's piles.
pub const DISCARD_PILE: usize = 12;

/// Names one pile of the table.
#[derive(Debug, Clone, Copy, PartialEq, Eq, Structural)]
pub enum PileId {
    /// A tableau column, `0..7` from the left.
    Tableau(usize),
    /// The foundation of a suit.
    Foundation(Suit),
    /// The face-down stock.
    Deck,
    /// The face-up cards drawn from the deck.
    Discard,
}

impl PileId {
    pub open spec fn valid(self) -> bool {
        self matches PileId::Tableau(i) ==> i < TABLEAU_COLUMNS
    }

    /// Where the pile stands among a session's piles.
    pub open spec fn index(self) -> int {
        match self {
            PileId::Tableau(i) => i as int,
            PileId::Foundation(s) => 7 + suit_index(s),
            PileId::Deck => DECK_PILE as int,
            PileId::Discard => DISCARD_PILE as int,
        }
    }

    fn index_exec(&self) -> (r: usize)
        requires
            self.valid(),
        ensures
            r == self.index(),
            r < PILE_COUNT,
    {
        match self {
            PileId::Tableau(i) => *i,
            PileId::Foundation(s) => 7 + match s {
                Suit::Spades => 0,
                Suit::Clubs => 1,
                Suit::Hearts => 2,
                Suit::Diamonds => 3,
            },
            PileId::Deck => DECK_PILE,
            PileId::Discard => DISCARD_PILE,
        }
    }
}

/// One entry of the undo log.
#[derive(Debug, Clone, Copy, PartialEq, Eq, Structural)]
pub enum Action {
    /// A card moved from one pile to another.
    MoveCard {
        /// The card that was moved.
        card: Card,
        /// The pile the card was on.
        from: PileId,
        /// The pile the card was moved to.
        to: PileId,
        /// Whether the card it uncovered was face down before the move.
        parent_face_down: bool,
    },
    /// The discard pile was turned over into the deck.
    ResetDeck,
    /// This many cards were drawn from the deck to the discard pile.
    Draw(usize),
}

/// The undo log, most recent action last.
#[derive(Debug)]
pub struct Actions(pub Vec<Action>);

/// Sum of the multisets of a sequence of piles.
pub open spec fn sum_piles(ps: Seq<Seq<Card>>) -> Multiset<Card>
    decreases ps.len(),
{
    if ps.len() == 0 {
        Multiset::empty()
    } else {
        sum_piles(ps.drop_last()).add(ps.last().to_multiset())
    }
}

/// Replacing one pile changes the sum by exactly what that pile changed.
pub proof fn lemma_sum_update(ps: Seq<Seq<Card>>, k: int, t: Seq<Card>)
    requires
        0 <= k < ps.len(),
    ensures
        sum_piles(ps.update(k, t)).add(ps[k].to_multiset()) == sum_piles(ps).add(t.to_multiset()),
    decreases ps.len(),
{
    broadcast use vstd::multiset::group_multiset_axioms;

    let u = ps.update(k, t);
    assert(sum_piles(u) == sum_piles(u.drop_last()).add(u.last().to_multiset()));
    assert(sum_piles(ps) == sum_piles(ps.drop_last()).add(ps.last().to_multiset()));
    if k == ps.len() - 1 {
        assert(u.drop_last() =~= ps.drop_last());
        assert(u.last() == t);
    } else {
        assert(u.drop_last() =~= ps.drop_last().update(k, t));
        assert(u.last() == ps.last());
        lemma_sum_update(ps.drop_last(), k, t);
        assert(sum_piles(u.drop_last()).add(ps[k].to_multiset()) =~= sum_piles(ps.drop_last()).add(
            t.to_multiset(),
        ));
    }
    assert forall|c: Card|
        #[trigger] sum_piles(u).add(ps[k].to_multiset()).count(c) == sum_piles(ps).add(
            t.to_multiset(),
        ).count(c) by {
        if k != ps.len() - 1 {
            assert(sum_piles(u.drop_last()).add(ps[k].to_multiset()).count(c) == sum_piles(
                ps.drop_last(),
            ).add(t.to_multiset()).count(c));
        }
    }
    assert(sum_piles(u).add(ps[k].to_multiset()) =~= sum_piles(ps).add(t.to_multiset()));
}

/// Putting a card on one pile adds that card to the sum.
pub proof fn lemma_sum_push(ps: Seq<Seq<Card>>, k: int, c: Card)
    requires
        0 <= k < ps.len(),
    ensures
        sum_piles(ps.update(k, ps[k].push(c))) == sum_piles(ps).insert(c),
{
    broadcast use vstd::seq_lib::to_multiset_build, vstd::multiset::group_multiset_axioms;

    lemma_sum_update(ps, k, ps[k].push(c));
    let u = ps.update(k, ps[k].push(c));
    assert forall|x: Card| #[trigger] sum_piles(u).count(x) == sum_piles(ps).insert(c).count(x) by {
        assert(sum_piles(u).add(ps[k].to_multiset()).count(x) == sum_piles(ps).add(
            ps[k].push(c).to_multiset(),
        ).count(x));
    }
    assert(sum_piles(ps.update(k, ps[k].push(c))) =~= sum_piles(ps).insert(c));
}

/// Taking the top card off one pile removes that card from the sum.
pub proof fn lemma_sum_pop(ps: Seq<Seq<Card>>, k: int)
    requires
        0 <= k < ps.len(),
        ps[k].len() > 0,
    ensures
        sum_piles(ps.update(k, ps[k].drop_last())).insert(ps[k].last()) == sum_piles(ps),
{
    broadcast use vstd::seq_lib::to_multiset_build, vstd::multiset::group_multiset_axioms;

    let d = ps[k].drop_last();
    assert(d.push(ps[k].last()) =~= ps[k]);
    lemma_sum_update(ps, k, d);
    let u = ps.update(k, d);
    assert forall|x: Card| #[trigger] sum_piles(u).insert(ps[k].last()).count(x) == sum_piles(ps).count(x) by {
        assert(sum_piles(u).add(ps[k].to_multiset()).count(x) == sum_piles(ps).add(
            d.to_multiset(),
        ).count(x));
    }
    assert(sum_piles(ps.update(k, d)).insert(ps[k].last()) =~= sum_piles(ps));
}

/// Counts down the time until the auto-solver's next step.
#[derive(Debug, Clone, Copy, PartialEq, Eq, Structural)]
pub struct SolveTimer {
    /// Milliseconds between two steps.
    pub period: u64,
    /// Milliseconds left until the next step.
    pub remaining: u64,
}

impl SolveTimer {
    pub open spec fn new_spec(period: u64) -> SolveTimer {
        SolveTimer { period, remaining: period }
    }

    pub fn new(period: u64) -> (r: Self)
        ensures
            r == SolveTimer::new_spec(period),
    {
        SolveTimer { period, remaining: period }
    }

    /// Advances the timer by `elapsed` milliseconds. Returns true when it
    /// runs out, and then starts a new period.
    /// The timer runs out within `elapsed` milliseconds.
    pub open spec fn fires(self, elapsed: u64) -> bool {
        elapsed >= self.remaining
    }

    /// The timer after `elapsed` milliseconds.
    pub open spec fn after(self, elapsed: u64) -> SolveTimer {
        if self.fires(elapsed) {
            SolveTimer { period: self.period, remaining: self.period }
        } else {
            SolveTimer { period: self.period, remaining: (self.remaining - elapsed) as u64 }
        }
    }

    pub fn tick(&mut self, elapsed: u64) -> (fired: bool)
        ensures
            fired == old(self).fires(elapsed),
            *final(self) == old(self).after(elapsed),
    {
        if elapsed >= self.remaining {
            self.remaining = self.period;
            true
        } else {
            self.remaining = self.remaining - elapsed;
            false
        }
    }
}

/// The pile at position `k` of a session: columns `0..7`, then the
/// foundations in deck-building suit order, then the deck and the discard pile.
pub open spec fn pile_at(k: int) -> PileId {
    if k < 7 {
        PileId::Tableau(k as usize)
    } else if k < 11 {
        PileId::Foundation(suit_at(k - 7))
    } else if k == 11 {
        PileId::Deck
    } else {
        PileId::Discard
    }
}

pub proof fn lemma_pile_at(k: int)
    requires
        0 <= k < 13,
    ensures
        pile_at(k).valid(),
        pile_at(k).index() == k,
{
}

/// The contents of a list of piles.
pub open spec fn pile_views(v: Seq<Vec<Card>>) -> Seq<Seq<Card>> {
    Seq::new(v.len(), |k: int| v[k]@)
}

/// Cards dealt to the tableau before round `r` of the deal: round `r` puts
/// one card on each column from `r` to 6.
pub open spec fn round_start(r: int) -> int
    decreases r,
{
    if r <= 0 {
        0
    } else {
        round_start(r - 1) + 8 - r
    }
}

/// How many cards came off the shuffled deck before the `j`-th card (from the
/// bottom) of column `c`.
pub open spec fn deal_position(j: int, c: int) -> int {
    round_start(j) + (c - j)
}

proof fn lemma_round_start(r: int)
    requires
        0 <= r <= 7,
    ensures
        0 <= round_start(r) <= 28,
        r < 7 ==> round_start(r) + 7 - r <= 28,
    decreases 7 - r,
{
    reveal_with_fuel(round_start, 8);
    if r < 7 {
        lemma_round_start(r + 1);
    }
}

/// Milliseconds between two steps of the auto-solver.
pub const SOLVE_PERIOD_MS: u64 = 150;

/// One game: the thirteen piles, the face-down count of each column, the undo
/// log, the draw mode, the phase and the auto-solver's timer.
#[derive(Debug)]
pub struct GameSession {
    piles: Vec<Vec<Card>>,
    hidden: Vec<usize>,
    actions: Actions,
    draw_mode: DrawMode,
    state: GameState,
    timer: SolveTimer,
    started: bool,
}

impl GameSession {
    /// The cards of a pile, bottom to top.
    pub closed spec fn pile(&self, id: PileId) -> Seq<Card> {
        self.piles@[id.index()]@
    }

    /// How many cards at the bottom of column `col` lie face down.
    pub closed spec fn hidden_of(&self, col: int) -> int {
        self.hidden@[col] as int
    }

    /// The undo log, most recent action last.
    pub closed spec fn log(&self) -> Seq<Action> {
        self.actions.0@
    }

    pub closed spec fn mode(&self) -> DrawMode {
        self.draw_mode
    }

    pub closed spec fn phase(&self) -> GameState {
        self.state
    }

    pub closed spec fn solve_timer(&self) -> SolveTimer {
        self.timer
    }

    /// The auto-solver has started in this game; from then on undo is
    /// unavailable.
    pub closed spec fn solver_started(&self) -> bool {
        self.started
    }

    closed spec fn shape_ok(&self) -> bool {
        &&& self.piles@.len() == PILE_COUNT
        &&& self.hidden@.len() == TABLEAU_COLUMNS
    }

    closed spec fn piles_view(&self) -> Seq<Seq<Card>> {
        pile_views(self.piles@)
    }

    /// Every card on the table, whatever pile it is on.
    pub open spec fn all_cards(&self) -> Multiset<Card> {
        sum_piles(Seq::new(13, |k: int| self.pile(pile_at(k))))
    }

    /// Column `col` is laid out as a run of face-down cards under at least
    /// one face-up card, or is empty.
    pub open spec fn column_ok(&self, col: int) -> bool {
        &&& 0 <= self.hidden_of(col) <= self.pile(PileId::Tableau(col as usize)).len()
        &&& self.pile(PileId::Tableau(col as usize)).len() > 0 ==> self.hidden_of(col) < self.pile(
            PileId::Tableau(col as usize),
        ).len()
    }

    /// The foundation of `s` is a run of `s` from the Ace up.
    pub open spec fn foundation_ok(&self, s: Suit) -> bool {
        &&& self.pile(PileId::Foundation(s)).len() <= 13
        &&& forall|j: int|
            0 <= j < self.pile(PileId::Foundation(s)).len() ==> #[trigger] self.pile(
                PileId::Foundation(s),
            )[j] == (Card { suit: s, kind: CardKind::from_col(j) })
    }

    /// The session invariant: the table holds exactly the 52 cards, columns
    /// are well laid out and foundations are ordered runs.
    pub open spec fn wf(&self) -> bool {
        &&& self.shaped()
        &&& forall|col: int| 0 <= col < 7 ==> #[trigger] self.column_ok(col)
        &&& forall|s: Suit| #[trigger] self.foundation_ok(s)
        &&& self.all_cards() == standard_deck().to_multiset()
    }

    /// The session holds thirteen piles and seven face-down counts.
    pub closed spec fn shaped(&self) -> bool {
        self.shape_ok()
    }

    proof fn lemma_all_cards(&self)
        requires
            self.shape_ok(),
        ensures
            self.all_cards() == sum_piles(self.piles_view()),
    {
        assert forall|k: int| 0 <= k < 13 implies #[trigger] pile_at(k).index() == k by {
            lemma_pile_at(k);
        }
        assert(Seq::new(13, |k: int| self.pile(pile_at(k))) =~= self.piles_view());
    }

    /// Lays out a shuffled deck as a new game: column `c` gets `c + 1` cards,
    /// dealt round by round from the top of the deck, with only its top card
    /// face up; the other 24 cards stay in the deck in their order.
    pub fn deal_from(shuffled: Vec<Card>, draw_mode: DrawMode) -> (s: Self)
        requires
            shuffled@.to_multiset() == standard_deck().to_multiset(),
        ensures
            s.wf(),
            s.log().len() == 0,
            s.mode() == draw_mode,
            s.phase() == GameState::Playing,
            s.solve_timer() == SolveTimer::new_spec(SOLVE_PERIOD_MS),
            !s.solver_started(),
            shuffled@.len() == 52,
            forall|c: int|
                0 <= c < 7 ==> #[trigger] s.pile(PileId::Tableau(c as usize)).len() == c + 1
                    && s.hidden_of(c) == c,
            forall|c: int, j: int|
                0 <= j <= c < 7 ==> #[trigger] s.pile(PileId::Tableau(c as usize))[j]
                    == shuffled@[51 - deal_position(j, c)],
            forall|t: Suit| #[trigger] s.pile(PileId::Foundation(t)).len() == 0,
            s.pile(PileId::Deck) == shuffled@.take(24),
            s.pile(PileId::Discard).len() == 0,
    {
        proof {
            vstd::seq_lib::to_multiset_len(shuffled@);
            lemma_standard_deck_counts();
        }
        let ghost sh = shuffled@;
        let mut deck = shuffled;
        let mut piles: Vec<Vec<Card>> = Vec::new();
        let mut k: usize = 0;
        while k < PILE_COUNT
            invariant
                k <= PILE_COUNT,
                piles@.len() == k,
                forall|i: int| 0 <= i < k ==> (#[trigger] piles@[i])@.len() == 0,
            decreases PILE_COUNT - k,
        {
            piles.push(Vec::new());
            k = k + 1;
        }
        proof {
            assert(sum_piles(pile_views(piles@)) =~= Multiset::empty()) by {
                lemma_sum_empty(pile_views(piles@));
            }
            assert(sum_piles(pile_views(piles@)).add(deck@.to_multiset()) =~= sh.to_multiset()) by {
                broadcast use vstd::multiset::group_multiset_axioms;
            }
        }
        let mut round: usize = 0;
        while round < 7
            invariant
                round <= 7,
                sh.len() == 52,
                piles@.len() == PILE_COUNT,
                deck@ == sh.take(52 - round_start(round as int)),
                forall|i: int| 7 <= i < 13 ==> (#[trigger] piles@[i])@.len() == 0,
                forall|c: int|
                    0 <= c < 7 ==> (#[trigger] piles@[c])@.len() == if c < round {
                        c + 1
                    } else {
                        round as int
                    },
                forall|c: int, j: int|
                    0 <= c < 7 && 0 <= j < piles@[c]@.len() ==> #[trigger] piles@[c]@[j] == sh[51
                        - deal_position(j, c)],
                sum_piles(pile_views(piles@)).add(deck@.to_multiset()) == sh.to_multiset(),
            decreases 7 - round,
        {
            proof {
                lemma_round_start(round as int);
            }
            let mut c: usize = round;
            while c < 7
                invariant
                    round < 7,
                    round <= c <= 7,
                    sh.len() == 52,
                    0 <= round_start(round as int),
                    round_start(round as int) + 7 - round <= 28,
                    piles@.len() == PILE_COUNT,
                    deck@ == sh.take(52 - round_start(round as int) - (c - round)),
                    forall|i: int| 7 <= i < 13 ==> (#[trigger] piles@[i])@.len() == 0,
                    forall|c2: int|
                        0 <= c2 < 7 ==> (#[trigger] piles@[c2])@.len() == if c2 < round {
                            c2 + 1
                        } else if c2 < c {
                            round + 1
                        } else {
                            round as int
                        },
                    forall|c2: int, j: int|
                        0 <= c2 < 7 && 0 <= j < piles@[c2]@.len() ==> #[trigger] piles@[c2]@[j]
                            == sh[51 - deal_position(j, c2)],
                    sum_piles(pile_views(piles@)).add(deck@.to_multiset()) == sh.to_multiset(),
                decreases 7 - c,
            {
                let ghost old_piles = piles@;
                let ghost old_deck = deck@;
                let card = deck.pop().unwrap();
                piles[c].push(card);
                proof {
                    broadcast use vstd::seq_lib::to_multiset_build, vstd::multiset::group_multiset_axioms;

                    assert(pile_views(piles@) =~= pile_views(old_piles).update(
                        c as int,
                        pile_views(old_piles)[c as int].push(card),
                    ));
                    lemma_sum_push(pile_views(old_piles), c as int, card);
                    assert(deck@.push(card) =~= old_deck);
                    assert(sum_piles(pile_views(piles@)).add(deck@.to_multiset()) =~= sh.to_multiset());
                    assert(deck@ =~= sh.take(52 - round_start(round as int) - (c + 1 - round)));
                    assert forall|c2: int, j: int|
                        0 <= c2 < 7 && 0 <= j < piles@[c2]@.len() implies #[trigger] piles@[c2]@[j]
                            == sh[51 - deal_position(j, c2)] by {
                        if c2 == c && j == round {
                            assert(piles@[c2]@[j] == card);
                        } else {
                            assert(piles@[c2]@[j] == old_piles[c2]@[j]);
                        }
                    }
                }
                c = c + 1;
            }
            round = round + 1;
        }
        let ghost before_deck = piles@;
        piles.set(DECK_PILE, deck);
        let hidden: Vec<usize> = vec![0, 1, 2, 3, 4, 5, 6];
        let s = GameSession {
            piles,
            hidden,
            actions: Actions(Vec::new()),
            draw_mode,
            state: GameState::Playing,
            timer: SolveTimer::new(SOLVE_PERIOD_MS),
            started: false,
        };
        proof {
            broadcast use vstd::multiset::group_multiset_axioms;

            reveal_with_fuel(round_start, 8);
            let pv = pile_views(before_deck);
            assert(s.piles_view() =~= pv.update(11, s.piles@[11]@));
            lemma_sum_update(pv, 11, s.piles@[11]@);
            assert(pv[11] =~= Seq::<Card>::empty());
            assert(s.all_cards() == sum_piles(s.piles_view())) by {
                s.lemma_all_cards();
            }
            assert(s.piles@[11]@ == deck@);
            assert(pv[11].to_multiset() =~= Multiset::empty()) by {
                broadcast use vstd::seq_lib::group_to_multiset_ensures;
            }
            assert(s.all_cards() =~= standard_deck().to_multiset());
            assert forall|col: int| 0 <= col < 7 implies #[trigger] s.column_ok(col) by {
                assert(PileId::Tableau(col as usize).index() == col);
            }
            assert forall|t: Suit| #[trigger] s.foundation_ok(t) by {
                assert(s.pile(PileId::Foundation(t)).len() == 0);
            }
            assert(s.pile(PileId::Deck) =~= sh.take(24));
        }
        s
    }
}

/// Pile kind of a destination: a column or a foundation.
pub open spec fn kind_of(id: PileId) -> StackKind {
    match id {
        PileId::Foundation(s) => StackKind::Ordered(s),
        _ => StackKind::Stack,
    }
}

/// The last card of a sequence, if any.
pub open spec fn top_of(s: Seq<Card>) -> Option<Card> {
    if s.len() == 0 {
        None
    } else {
        Some(s.last())
    }
}

/// A sequence read from its end to its start.
pub open spec fn reversed(s: Seq<Card>) -> Seq<Card> {
    Seq::new(s.len(), |i: int| s[s.len() - 1 - i])
}

/// The successor of the rank at ordinal `j` is the rank at `j + 1`; a King
/// has none.
pub proof fn lemma_from_col_next(j: int)
    requires
        0 <= j < 13,
    ensures
        j < 12 ==> CardKind::from_col(j).next_spec() == Some(CardKind::from_col(j + 1)),
        j == 12 ==> CardKind::from_col(j).next_spec() is None,
        CardKind::from_col(j).wf(),
        CardKind::from_col(j).col() == j,
{
}

impl GameSession {
    /// Takes the top card off pile `k`.
    fn take_top(&mut self, k: usize) -> (c: Card)
        requires
            old(self).shape_ok(),
            k < PILE_COUNT,
            old(self).piles@[k as int]@.len() > 0,
        ensures
            final(self).shape_ok(),
            c == old(self).piles@[k as int]@.last(),
            final(self).piles_view() == old(self).piles_view().update(
                k as int,
                old(self).piles@[k as int]@.drop_last(),
            ),
            sum_piles(final(self).piles_view()).insert(c) == sum_piles(old(self).piles_view()),
            final(self).hidden == old(self).hidden,
            final(self).actions == old(self).actions,
            final(self).draw_mode == old(self).draw_mode,
            final(self).state == old(self).state,
            final(self).timer == old(self).timer,
            final(self).started == old(self).started,
    {
        let ghost pv = self.piles_view();
        let c = self.piles[k].pop().unwrap();
        proof {
            assert(self.piles_view() =~= pv.update(k as int, pv[k as int].drop_last()));
            lemma_sum_pop(pv, k as int);
        }
        c
    }

    /// Puts `c` on top of pile `k`.
    fn put_top(&mut self, k: usize, c: Card)
        requires
            old(self).shape_ok(),
            k < PILE_COUNT,
        ensures
            final(self).shape_ok(),
            final(self).piles_view() == old(self).piles_view().update(
                k as int,
                old(self).piles@[k as int]@.push(c),
            ),
            sum_piles(final(self).piles_view()) == sum_piles(old(self).piles_view()).insert(c),
            final(self).hidden == old(self).hidden,
            final(self).actions == old(self).actions,
            final(self).draw_mode == old(self).draw_mode,
            final(self).state == old(self).state,
            final(self).timer == old(self).timer,
            final(self).started == old(self).started,
    {
        let ghost pv = self.piles_view();
        self.piles[k].push(c);
        proof {
            assert(self.piles_view() =~= pv.update(k as int, pv[k as int].push(c)));
            lemma_sum_push(pv, k as int, c);
        }
    }

    /// Moves the top `n` cards of pile `src` one by one onto pile `dst`, which
    /// reverses their order.
    fn transfer(&mut self, src: usize, dst: usize, n: usize)
        requires
            old(self).shape_ok(),
            src < PILE_COUNT,
            dst < PILE_COUNT,
            src != dst,
            n <= old(self).piles@[src as int]@.len(),
        ensures
            final(self).shape_ok(),
            final(self).piles_view() == old(self).piles_view().update(
                src as int,
                old(self).piles@[src as int]@.take(old(self).piles@[src as int]@.len() - n),
            ).update(
                dst as int,
                old(self).piles@[dst as int]@ + reversed(
                    old(self).piles@[src as int]@.subrange(
                        old(self).piles@[src as int]@.len() - n,
                        old(self).piles@[src as int]@.len() as int,
                    ),
                ),
            ),
            sum_piles(final(self).piles_view()) == sum_piles(old(self).piles_view()),
            final(self).hidden == old(self).hidden,
            final(self).actions == old(self).actions,
            final(self).draw_mode == old(self).draw_mode,
            final(self).state == old(self).state,
            final(self).timer == old(self).timer,
            final(self).started == old(self).started,
    {
        let ghost pv = self.piles_view();
        let ghost s0 = self.piles@[src as int]@;
        let ghost d0 = self.piles@[dst as int]@;
        let ghost len = s0.len();
        proof {
            assert(s0.take(len as int) =~= s0);
            assert(d0 + reversed(s0.subrange(len as int, len as int)) =~= d0);
            assert(pv.update(src as int, s0.take(len as int)).update(
                dst as int,
                d0 + reversed(s0.subrange(len as int, len as int)),
            ) =~= pv);
        }
        let mut i: usize = 0;
        while i < n
            invariant
                self.shape_ok(),
                src < PILE_COUNT,
                dst < PILE_COUNT,
                src != dst,
                i <= n,
                n <= len,
                pv.len() == PILE_COUNT,
                s0 == pv[src as int],
                d0 == pv[dst as int],
                len == s0.len(),
                self.piles_view() == pv.update(src as int, s0.take(len - i)).update(
                    dst as int,
                    d0 + reversed(s0.subrange(len - i, len as int)),
                ),
                sum_piles(self.piles_view()) == sum_piles(pv),
                self.hidden == old(self).hidden,
                self.actions == old(self).actions,
                self.draw_mode == old(self).draw_mode,
                self.state == old(self).state,
                self.timer == old(self).timer,
                self.started == old(self).started,
            decreases n - i,
        {
            assert(self.piles_view()[src as int] == s0.take(len - i));
            let ghost v0 = self.piles_view();
            let c = self.take_top(src);
            let ghost v1 = self.piles_view();
            assert(v1 == v0.update(src as int, v0[src as int].drop_last()));
            assert(self.piles@[dst as int]@ == v1[dst as int]);
            self.put_top(dst, c);
            assert(self.piles_view() == v1.update(dst as int, v1[dst as int].push(c)));
            proof {
                broadcast use vstd::multiset::group_multiset_axioms;

                assert(c == s0[len - i - 1]);
                assert(s0.take(len - i).drop_last() =~= s0.take(len - (i + 1)));
                assert((d0 + reversed(s0.subrange(len - i, len as int))).push(c) =~= d0 + reversed(
                    s0.subrange(len - (i + 1), len as int),
                ));
                assert(self.piles_view() =~= pv.update(src as int, s0.take(len - (i + 1))).update(
                    dst as int,
                    d0 + reversed(s0.subrange(len - (i + 1), len as int)),
                ));
            }
            i = i + 1;
        }
    }
}

impl GameSession {
    /// The top card of a pile, if any.
    pub open spec fn top(&self, id: PileId) -> Option<Card> {
        top_of(self.pile(id))
    }

    /// Moving `card` from `from` to `to` is legal: `card` is the exposed top
    /// of `from`, which is not the deck, and the destination, a column or a
    /// foundation, accepts it as a single card.
    pub open spec fn move_ok(&self, card: Card, from: PileId, to: PileId) -> bool {
        &&& from.valid()
        &&& to.valid()
        &&& from != to
        &&& !(from is Deck)
        &&& (to is Tableau || to is Foundation)
        &&& self.top(from) == Some(card)
        &&& accepts(kind_of(to), self.top(to), card, false)
    }

    /// Taking the top card off `from` uncovers a face-down card.
    pub open spec fn uncovers(&self, from: PileId) -> bool {
        &&& from matches PileId::Tableau(i)
        &&& self.pile(from).len() >= 2
        &&& self.hidden_of(i as int) == self.pile(from).len() - 1
    }

    /// `post` is this session with `card` taken off the top of `from` and put
    /// on top of `to`; a face-down card it uncovers is turned face up.
    pub open spec fn moved(&self, post: &Self, card: Card, from: PileId, to: PileId) -> bool {
        &&& forall|id: PileId|
            id.valid() && id != from && id != to ==> #[trigger] post.pile(id) == self.pile(id)
        &&& post.pile(from) == self.pile(from).drop_last()
        &&& post.pile(to) == self.pile(to).push(card)
        &&& forall|c: int|
            0 <= c < 7 ==> #[trigger] post.hidden_of(c) == if self.uncovers(from) && from
                == PileId::Tableau(c as usize) {
                self.hidden_of(c) - 1
            } else {
                self.hidden_of(c)
            }
    }

    proof fn lemma_pile_view(&self, id: PileId)
        requires
            self.shape_ok(),
            id.valid(),
        ensures
            self.pile(id) == self.piles_view()[id.index()],
    {
    }

    /// A card that a foundation accepts is the next rank of its run.
    proof fn lemma_foundation_push(&self, s: Suit, card: Card)
        requires
            self.foundation_ok(s),
            accepts(StackKind::Ordered(s), self.top(PileId::Foundation(s)), card, false),
        ensures
            self.pile(PileId::Foundation(s)).len() < 13,
            card == (Card { suit: s, kind: CardKind::from_col(self.pile(PileId::Foundation(s)).len() as int) }),
    {
        let f = self.pile(PileId::Foundation(s));
        if f.len() > 0 {
            let j = f.len() - 1;
            assert(f[j] == Card { suit: s, kind: CardKind::from_col(j) });
            lemma_from_col_next(j);
        }
    }

    /// Checks `move_ok`.
    pub fn can_move(&self, card: Card, from: PileId, to: PileId) -> (r: bool)
        requires
            self.wf(),
        ensures
            r == self.move_ok(card, from, to),
    {
        match from {
            PileId::Tableau(i) => if i >= TABLEAU_COLUMNS {
                return false;
            },
            PileId::Deck => return false,
            _ => {},
        }
        let dest = match to {
            PileId::Tableau(i) => {
                if i >= TABLEAU_COLUMNS {
                    return false;
                }
                Stack::new(StackKind::Stack)
            },
            PileId::Foundation(s) => Stack::new(StackKind::Ordered(s)),
            _ => return false,
        };
        if from == to {
            return false;
        }
        match self.top_card(from) {
            Some(c) => if c != card {
                return false;
            },
            None => return false,
        }
        let dest_top = self.top_card(to);
        let r = match dest_top {
            Some(t) => dest.can_stack(Some(&t), card, false),
            None => dest.can_stack(None, card, false),
        };
        r
    }

    /// The top card of a pile.
    pub fn top_card(&self, id: PileId) -> (r: Option<Card>)
        requires
            self.wf(),
            id.valid(),
        ensures
            r == self.top(id),
    {
        let k = id.index_exec();
        let n = self.piles[k].len();
        if n == 0 {
            None
        } else {
            Some(self.piles[k][n - 1])
        }
    }

    /// After the top card of `src` went onto `dst`, with the foundations'
    /// order respected and the columns well laid out, the session is well
    /// formed again.
    proof fn lemma_shift_wf(&self, post: &Self, src: PileId, dst: PileId, card: Card)
        requires
            self.wf(),
            post.shape_ok(),
            src.valid(),
            dst.valid(),
            src != dst,
            self.pile(src).len() > 0,
            card == self.pile(src).last(),
            dst is Foundation ==> accepts(kind_of(dst), self.top(dst), card, false),
            forall|id: PileId| id.valid() ==> #[trigger] post.pile(id) == if id == src {
                self.pile(src).drop_last()
            } else if id == dst {
                self.pile(dst).push(card)
            } else {
                self.pile(id)
            },
            sum_piles(post.piles_view()) == sum_piles(self.piles_view()),
            forall|col: int| 0 <= col < 7 ==> #[trigger] post.column_ok(col),
        ensures
            post.wf(),
    {
        self.lemma_all_cards();
        post.lemma_all_cards();
        assert forall|t: Suit| #[trigger] post.foundation_ok(t) by {
            assert(self.foundation_ok(t));
            let ft = PileId::Foundation(t);
            assert(ft.valid());
            if ft == dst {
                self.lemma_foundation_push(t, card);
                assert forall|j: int| 0 <= j < post.pile(ft).len() implies #[trigger] post.pile(ft)[j]
                    == (Card { suit: t, kind: CardKind::from_col(j) }) by {
                    if j < self.pile(ft).len() {
                        assert(post.pile(ft)[j] == self.pile(ft)[j]);
                    }
                }
            } else if ft == src {
                assert forall|j: int| 0 <= j < post.pile(ft).len() implies #[trigger] post.pile(ft)[j]
                    == (Card { suit: t, kind: CardKind::from_col(j) }) by {
                    assert(post.pile(ft)[j] == self.pile(ft)[j]);
                }
            } else {
                assert(post.pile(ft) == self.pile(ft));
            }
        }
    }

    /// Moves the top card of `from` onto `to` and turns up what it uncovers.
    /// Returns whether a face-down card was uncovered.
    fn move_top(&mut self, from: PileId, to: PileId) -> (pfd: bool)
        requires
            old(self).wf(),
            from.valid(),
            to.valid(),
            from != to,
            old(self).pile(from).len() > 0,
            to is Foundation ==> accepts(
                kind_of(to),
                old(self).top(to),
                old(self).pile(from).last(),
                false,
            ),
        ensures
            final(self).wf(),
            pfd == old(self).uncovers(from),
            old(self).moved(final(self), old(self).pile(from).last(), from, to),
            final(self).log() == old(self).log(),
            final(self).mode() == old(self).mode(),
            old(self).same_settings(final(self)),
    {
        let ghost pre = *self;
        let fi = from.index_exec();
        let ti = to.index_exec();
        let card = self.take_top(fi);
        let ghost mid = *self;
        self.put_top(ti, card);
        proof {
            pre.lemma_pile_view(from);
            pre.lemma_pile_view(to);
            assert(mid.piles_view()[ti as int] == pre.piles_view()[ti as int]);
            assert(self.piles_view()[fi as int] == pre.pile(from).drop_last());
            assert(self.piles@[fi as int]@ == pre.pile(from).drop_last());
        }
        let ghost moved_piles = *self;
        let mut pfd = false;
        if let PileId::Tableau(i) = from {
            let n = self.piles[fi].len();
            assert(self.hidden@[i as int] == pre.hidden_of(i as int));
            if n > 0 && self.hidden[i] == n {
                self.hidden.set(i, n - 1);
                pfd = true;
            }
        }
        proof {
            broadcast use vstd::multiset::group_multiset_axioms;

            assert(self.piles_view() == pre.piles_view().update(fi as int, pre.pile(from).drop_last()).update(ti as int, pre.pile(to).push(card)));
            assert(pfd == pre.uncovers(from));
            assert forall|c: int| 0 <= c < 7 implies #[trigger] self.hidden_of(c) == if pre.uncovers(from) && from
                == PileId::Tableau(c as usize) {
                pre.hidden_of(c) - 1
            } else {
                pre.hidden_of(c)
            } by {
                assert(moved_piles.hidden == pre.hidden);
            }
            assert forall|id: PileId| id.valid() implies #[trigger] self.pile(id) == if id == from {
                pre.pile(from).drop_last()
            } else if id == to {
                pre.pile(to).push(card)
            } else {
                pre.pile(id)
            } by {
                self.lemma_pile_view(id);
                pre.lemma_pile_view(id);
            }
            assert(sum_piles(self.piles_view()) == sum_piles(pre.piles_view()));
            assert forall|col: int| 0 <= col < 7 implies #[trigger] self.column_ok(col) by {
                assert(pre.column_ok(col));
                assert(PileId::Tableau(col as usize).valid());
            }
            pre.lemma_shift_wf(self, from, to, card);
        }
        pfd
    }
}

impl GameSession {
    /// Only piles `a` and `b` may differ between this session and `post`, and
    /// no column changed its face-down count.
    pub open spec fn same_except(&self, post: &Self, a: PileId, b: PileId) -> bool {
        &&& forall|id: PileId|
            id.valid() && id != a && id != b ==> #[trigger] post.pile(id) == self.pile(id)
        &&& forall|c: int| 0 <= c < 7 ==> #[trigger] post.hidden_of(c) == self.hidden_of(c)
    }

    /// Draw mode, phase and timer are those of this session.
    pub open spec fn same_settings(&self, post: &Self) -> bool {
        &&& post.mode() == self.mode()
        &&& post.phase() == self.phase()
        &&& post.solve_timer() == self.solve_timer()
        &&& post.solver_started() == self.solver_started()
    }

    /// Every pile and face-down count is that of this session.
    pub open spec fn same_table(&self, post: &Self) -> bool {
        &&& forall|id: PileId| id.valid() ==> #[trigger] post.pile(id) == self.pile(id)
        &&& forall|c: int| 0 <= c < 7 ==> #[trigger] post.hidden_of(c) == self.hidden_of(c)
    }

    /// How many cards a draw turns over: the draw mode's count, or what is
    /// left in the deck if that is less.
    pub open spec fn draw_count(&self) -> nat {
        let d = self.pile(PileId::Deck).len();
        if self.mode().count() < d {
            self.mode().count()
        } else {
            d
        }
    }

    /// `post` has the top `n` cards of `src` turned onto `dst` one by one.
    pub open spec fn turned(&self, post: &Self, src: PileId, dst: PileId, n: nat) -> bool {
        let s = self.pile(src);
        &&& n <= s.len()
        &&& post.pile(src) == s.take(s.len() - n)
        &&& post.pile(dst) == self.pile(dst) + reversed(s.subrange(s.len() - n, s.len() as int))
        &&& self.same_except(post, src, dst)
    }

    /// A session whose columns and foundations did not change and whose cards
    /// were only moved about is still well formed.
    proof fn lemma_wf_keep(&self, post: &Self)
        requires
            self.wf(),
            post.shape_ok(),
            sum_piles(post.piles_view()) == sum_piles(self.piles_view()),
            post.hidden == self.hidden,
            forall|k: int| 0 <= k < 11 ==> #[trigger] post.piles@[k]@ == self.piles@[k]@,
        ensures
            post.wf(),
    {
        self.lemma_all_cards();
        post.lemma_all_cards();
        assert forall|col: int| 0 <= col < 7 implies #[trigger] post.column_ok(col) by {
            assert(self.column_ok(col));
        }
        assert forall|t: Suit| #[trigger] post.foundation_ok(t) by {
            assert(self.foundation_ok(t));
            assert(post.pile(PileId::Foundation(t)) == self.pile(PileId::Foundation(t)));
        }
    }

    /// Turns the top `n` cards of `src` onto `dst`, where both are the deck or
    /// the discard pile.
    fn turn_cards(&mut self, src: PileId, dst: PileId, n: usize)
        requires
            old(self).wf(),
            src is Deck || src is Discard,
            dst is Deck || dst is Discard,
            src != dst,
            n <= old(self).pile(src).len(),
        ensures
            final(self).wf(),
            old(self).turned(final(self), src, dst, n as nat),
            final(self).log() == old(self).log(),
            old(self).same_settings(final(self)),
    {
        let ghost pre = *self;
        let si = src.index_exec();
        let di = dst.index_exec();
        self.transfer(si, di, n);
        proof {
            pre.lemma_pile_view(src);
            pre.lemma_pile_view(dst);
            assert forall|id: PileId| id.valid() && id != src && id != dst implies #[trigger] self.pile(id)
                == pre.pile(id) by {
                self.lemma_pile_view(id);
                pre.lemma_pile_view(id);
            }
            self.lemma_pile_view(src);
            self.lemma_pile_view(dst);
            assert forall|k: int| 0 <= k < 11 implies #[trigger] self.piles@[k]@ == pre.piles@[k]@ by {
                assert(self.piles_view()[k] == pre.piles_view()[k]);
            }
            pre.lemma_wf_keep(self);
        }
    }

    /// Moves a card back from the top of `to` onto `from`, turning the card
    /// below it face down again when `recover` is set.
    fn move_back(&mut self, card: Card, from: PileId, to: PileId, recover: bool)
        requires
            old(self).wf(),
            old(self).undo_ok(Action::MoveCard { card, from, to, parent_face_down: recover }),
        ensures
            final(self).wf(),
            old(self).undone(final(self), Action::MoveCard { card, from, to, parent_face_down: recover }),
            final(self).log() == old(self).log(),
            old(self).same_settings(final(self)),
    {
        let ghost pre = *self;
        let fi = from.index_exec();
        let ti = to.index_exec();
        let c = self.take_top(ti);
        let ghost mid = *self;
        self.put_top(fi, c);
        proof {
            pre.lemma_pile_view(from);
            pre.lemma_pile_view(to);
            assert(mid.piles_view()[fi as int] == pre.piles_view()[fi as int]);
            assert(self.piles_view()[fi as int] == pre.pile(from).push(c));
            assert(self.piles@[fi as int]@ == self.piles_view()[fi as int]);
        }
        if recover {
            if let PileId::Tableau(i) = from {
                let h = self.hidden[i];
                assert(h == pre.pile(from).len() - 1);
                assert(self.piles@[fi as int]@.len() == pre.pile(from).len() + 1);
                assert(self.piles@[fi as int].len() == self.piles@[fi as int]@.len());
                self.hidden.set(i, h + 1);
            }
        }
        proof {
            broadcast use vstd::multiset::group_multiset_axioms;

            assert(self.piles_view() == pre.piles_view().update(ti as int, pre.pile(to).drop_last()).update(fi as int, pre.pile(from).push(card)));
            assert forall|id: PileId| id.valid() implies #[trigger] self.pile(id) == if id == from {
                pre.pile(from).push(card)
            } else if id == to {
                pre.pile(to).drop_last()
            } else {
                pre.pile(id)
            } by {
                self.lemma_pile_view(id);
                pre.lemma_pile_view(id);
            }
            assert(sum_piles(self.piles_view()) == sum_piles(pre.piles_view()));
            assert forall|col: int| 0 <= col < 7 implies #[trigger] self.column_ok(col) by {
                assert(pre.column_ok(col));
                assert(PileId::Tableau(col as usize).valid());
            }
            pre.lemma_shift_wf(self, to, from, card);
        }
    }

    /// The last logged action `a` can be taken back on this table.
    pub open spec fn undo_ok(&self, a: Action) -> bool {
        match a {
            Action::MoveCard { card, from, to, parent_face_down } => {
                &&& from.valid()
                &&& to.valid()
                &&& from != to
                &&& self.top(to) == Some(card)
                &&& !self.uncovers(to)
                &&& from is Foundation ==> accepts(kind_of(from), self.top(from), card, false)
                &&& parent_face_down ==> (from matches PileId::Tableau(i) && self.pile(from).len() > 0
                    && self.hidden_of(i as int) == self.pile(from).len() - 1)
            },
            Action::ResetDeck => true,
            Action::Draw(n) => n <= self.pile(PileId::Discard).len(),
        }
    }

    /// `post` is this table with `a` taken back (the log aside).
    pub open spec fn undone(&self, post: &Self, a: Action) -> bool {
        match a {
            Action::MoveCard { card, from, to, parent_face_down } => {
                &&& forall|id: PileId|
                    id.valid() && id != from && id != to ==> #[trigger] post.pile(id) == self.pile(id)
                &&& post.pile(to) == self.pile(to).drop_last()
                &&& post.pile(from) == self.pile(from).push(card)
                &&& forall|c: int|
                    0 <= c < 7 ==> #[trigger] post.hidden_of(c) == if parent_face_down && from
                        == PileId::Tableau(c as usize) {
                        self.hidden_of(c) + 1
                    } else {
                        self.hidden_of(c)
                    }
            },
            Action::ResetDeck => self.turned(
                post,
                PileId::Deck,
                PileId::Discard,
                self.pile(PileId::Deck).len(),
            ),
            Action::Draw(n) => self.turned(post, PileId::Discard, PileId::Deck, n as nat),
        }
    }
}

impl GameSession {
    /// Moves `card`, the exposed top of `from`, onto `to` when the rules allow
    /// it, turns up the card it uncovers and logs the move. A refused move
    /// changes nothing.
    pub fn request_move(&mut self, card: Card, from: PileId, to: PileId) -> (r: bool)
        requires
            old(self).wf(),
        ensures
            final(self).wf(),
            r == old(self).move_ok(card, from, to),
            r ==> old(self).moved(final(self), card, from, to),
            r ==> final(self).log() == old(self).log().push(
                Action::MoveCard { card, from, to, parent_face_down: old(self).uncovers(from) },
            ),
            r ==> old(self).same_settings(final(self)),
            !r ==> *final(self) == *old(self),
    {
        if !self.can_move(card, from, to) {
            return false;
        }
        let pfd = self.move_top(from, to);
        self.log_action(Action::MoveCard { card, from, to, parent_face_down: pfd });
        true
    }

    /// Turns cards from the deck onto the discard pile, as many as the draw
    /// mode says or what is left, and logs the draw. Returns how many were
    /// turned; an empty deck is refused with 0 and nothing changes.
    pub fn request_draw(&mut self) -> (n: usize)
        requires
            old(self).wf(),
        ensures
            final(self).wf(),
            n == old(self).draw_count(),
            n == 0 <==> old(self).pile(PileId::Deck).len() == 0,
            n > 0 ==> old(self).turned(final(self), PileId::Deck, PileId::Discard, n as nat),
            n > 0 ==> final(self).log() == old(self).log().push(Action::Draw(n)),
            n > 0 ==> old(self).same_settings(final(self)),
            n == 0 ==> *final(self) == *old(self),
    {
        let d = self.piles[DECK_PILE].len();
        let want = self.draw_mode.num();
        let n = if want < d {
            want
        } else {
            d
        };
        if n == 0 {
            return 0;
        }
        self.turn_cards(PileId::Deck, PileId::Discard, n);
        self.log_action(Action::Draw(n));
        n
    }

    /// Turning the discard pile over into the deck is allowed when the deck
    /// is empty and the discard pile is not.
    pub open spec fn reset_ok(&self) -> bool {
        self.pile(PileId::Deck).len() == 0 && self.pile(PileId::Discard).len() > 0
    }

    /// Turns the discard pile over into the deck, so that its bottom card is
    /// drawn first, and logs it. Refused, with nothing changed, unless
    /// `reset_ok`.
    pub fn request_reset_deck(&mut self) -> (r: bool)
        requires
            old(self).wf(),
        ensures
            final(self).wf(),
            r == old(self).reset_ok(),
            r ==> final(self).pile(PileId::Deck) == reversed(old(self).pile(PileId::Discard)),
            r ==> final(self).pile(PileId::Discard).len() == 0,
            r ==> old(self).same_except(final(self), PileId::Deck, PileId::Discard),
            r ==> final(self).log() == old(self).log().push(Action::ResetDeck),
            r ==> old(self).same_settings(final(self)),
            !r ==> *final(self) == *old(self),
    {
        let d = self.piles[DECK_PILE].len();
        let n = self.piles[DISCARD_PILE].len();
        if d != 0 || n == 0 {
            return false;
        }
        let ghost pre = *self;
        self.turn_cards(PileId::Discard, PileId::Deck, n);
        proof {
            let ds = pre.pile(PileId::Discard);
            assert(ds.subrange(0, ds.len() as int) =~= ds);
            assert(pre.pile(PileId::Deck) + reversed(ds) =~= reversed(ds));
        }
        self.log_action(Action::ResetDeck);
        true
    }

    /// What a click on the deck does: draw when it holds cards, otherwise
    /// turn the discard pile over. Returns whether anything happened.
    pub fn click_deck(&mut self) -> (r: bool)
        requires
            old(self).wf(),
        ensures
            final(self).wf(),
            r == (old(self).pile(PileId::Deck).len() > 0 || old(self).reset_ok()),
            old(self).pile(PileId::Deck).len() > 0 ==> old(self).turned(
                final(self),
                PileId::Deck,
                PileId::Discard,
                old(self).draw_count(),
            ) && final(self).log() == old(self).log().push(
                Action::Draw(old(self).draw_count() as usize),
            ) && old(self).same_settings(final(self)),
            old(self).reset_ok() ==> final(self).pile(PileId::Deck) == reversed(
                old(self).pile(PileId::Discard),
            ) && final(self).pile(PileId::Discard).len() == 0 && old(self).same_except(
                final(self),
                PileId::Deck,
                PileId::Discard,
            ) && final(self).log() == old(self).log().push(Action::ResetDeck) && old(
                self,
            ).same_settings(final(self)),
            !r ==> *final(self) == *old(self),
    {
        if self.piles[DECK_PILE].len() > 0 {
            self.request_draw();
            true
        } else {
            self.request_reset_deck()
        }
    }

    /// The last logged action, if any, can be taken back on this table. It
    /// always can when the log was kept by this session's own operations: a
    /// mismatch means the caller's view of the game has gone out of step,
    /// which `undo` does not accept.
    pub open spec fn last_undo_fits(&self) -> bool {
        self.log().len() > 0 ==> self.undo_ok(self.log().last())
    }

    /// Checks `last_undo_fits`.
    pub fn undo_fits(&self) -> (r: bool)
        requires
            self.wf(),
        ensures
            r == self.last_undo_fits(),
    {
        let len = self.actions.0.len();
        if len == 0 {
            true
        } else {
            self.can_undo(self.actions.0[len - 1])
        }
    }

    /// Undo is available: the game is being played and the auto-solver has
    /// not started in it.
    pub open spec fn undo_available(&self) -> bool {
        self.phase() == GameState::Playing && !self.solver_started()
    }

    /// Checks `undo_available`.
    pub fn is_undo_available(&self) -> (r: bool)
        ensures
            r == self.undo_available(),
    {
        self.state == GameState::Playing && !self.started
    }

    /// Takes back the last logged action, removes it from the log and returns
    /// it. Nothing happens while a card is being dragged, when undo is not
    /// available (outside play, or once the auto-solver has started) or when
    /// the log is empty.
    pub fn undo(&mut self, dragging: bool) -> (r: Option<Action>)
        requires
            old(self).wf(),
            !dragging && old(self).undo_available() ==> old(self).last_undo_fits(),
        ensures
            final(self).wf(),
            dragging || !old(self).undo_available() || old(self).log().len() == 0 ==> r is None
                && *final(self) == *old(self),
            !dragging && old(self).undo_available() && old(self).log().len() > 0 ==> r == Some(
                old(self).log().last(),
            ) && old(self).undone(final(self), old(self).log().last()) && final(self).log()
                == old(self).log().drop_last() && old(self).same_settings(final(self)),
    {
        if dragging || self.state != GameState::Playing || self.started {
            return None;
        }
        let len = self.actions.0.len();
        if len == 0 {
            return None;
        }
        let a = self.actions.0[len - 1];
        let ghost pre = *self;
        match a {
            Action::MoveCard { card, from, to, parent_face_down } => {
                self.move_back(card, from, to, parent_face_down);
            },
            Action::ResetDeck => {
                let n = self.piles[DECK_PILE].len();
                self.turn_cards(PileId::Deck, PileId::Discard, n);
            },
            Action::Draw(n) => {
                self.turn_cards(PileId::Discard, PileId::Deck, n);
            },
        }
        let ghost undone = *self;
        self.unlog();
        proof {
            assert forall|id: PileId| id.valid() implies #[trigger] self.pile(id) == undone.pile(id) by {}
            assert forall|c: int| 0 <= c < 7 implies #[trigger] self.hidden_of(c) == undone.hidden_of(c) by {}
        }
        Some(a)
    }

    /// Checks `undo_ok`.
    fn can_undo(&self, a: Action) -> (r: bool)
        requires
            self.wf(),
        ensures
            r == self.undo_ok(a),
    {
        match a {
            Action::MoveCard { card, from, to, parent_face_down } => {
                if !from.is_valid() || !to.is_valid() || from == to {
                    return false;
                }
                match self.top_card(to) {
                    Some(c) => if c != card {
                        return false;
                    },
                    None => return false,
                }
                if self.exposes_hidden(to) {
                    return false;
                }
                if let PileId::Foundation(s) = from {
                    let f = Stack::new(StackKind::Ordered(s));
                    let ok = match self.top_card(from) {
                        Some(t) => f.can_stack(Some(&t), card, false),
                        None => f.can_stack(None, card, false),
                    };
                    if !ok {
                        return false;
                    }
                }
                if parent_face_down {
                    match from {
                        PileId::Tableau(i) => {
                            let n = self.piles[i].len();
                            n > 0 && self.hidden[i] == n - 1
                        },
                        _ => false,
                    }
                } else {
                    true
                }
            },
            Action::ResetDeck => true,
            Action::Draw(n) => n <= self.piles[DISCARD_PILE].len(),
        }
    }

    /// Checks `uncovers`.
    fn exposes_hidden(&self, id: PileId) -> (r: bool)
        requires
            self.wf(),
            id.valid(),
        ensures
            r == self.uncovers(id),
    {
        match id {
            PileId::Tableau(i) => {
                let n = self.piles[i].len();
                n >= 2 && self.hidden[i] == n - 1
            },
            _ => false,
        }
    }
}

impl PileId {
    /// Checks `valid`.
    pub fn is_valid(&self) -> (r: bool)
        ensures
            r == self.valid(),
    {
        match self {
            PileId::Tableau(i) => *i < TABLEAU_COLUMNS,
            _ => true,
        }
    }
}

impl GameSession {
    /// Appends `a` to the undo log.
    fn log_action(&mut self, a: Action)
        requires
            old(self).wf(),
        ensures
            final(self).wf(),
            final(self).log() == old(self).log().push(a),
            old(self).same_table(final(self)),
            old(self).same_settings(final(self)),
            final(self).piles == old(self).piles,
            final(self).hidden == old(self).hidden,
    {
        let ghost pre = *self;
        self.actions.0.push(a);
        proof {
            pre.lemma_same_piles(self);
        }
    }

    /// Drops the last entry of the undo log.
    fn unlog(&mut self)
        requires
            old(self).wf(),
            old(self).log().len() > 0,
        ensures
            final(self).wf(),
            final(self).log() == old(self).log().drop_last(),
            old(self).same_table(final(self)),
            old(self).same_settings(final(self)),
            final(self).piles == old(self).piles,
            final(self).hidden == old(self).hidden,
    {
        let ghost pre = *self;
        self.actions.0.pop();
        proof {
            pre.lemma_same_piles(self);
            assert(self.log() =~= pre.log().drop_last());
        }
    }

    /// Two sessions with the same piles and face-down counts agree on the
    /// table and on well-formedness.
    proof fn lemma_same_piles(&self, post: &Self)
        requires
            post.piles == self.piles,
            post.hidden == self.hidden,
        ensures
            self.same_table(post),
            self.all_cards() == post.all_cards(),
            self.wf() ==> post.wf(),
    {
        assert(Seq::new(13, |k: int| self.pile(pile_at(k))) =~= Seq::new(
            13,
            |k: int| post.pile(pile_at(k)),
        ));
        if self.wf() {
            assert forall|col: int| 0 <= col < 7 implies #[trigger] post.column_ok(col) by {
                assert(self.column_ok(col));
            }
            assert forall|t: Suit| #[trigger] post.foundation_ok(t) by {
                assert(self.foundation_ok(t));
            }
        }
    }
}

impl GameSession {
    /// A pile holds `c` at most as often as the whole table does.
    proof fn lemma_sum_covers(ps: Seq<Seq<Card>>, k: int, c: Card)
        requires
            0 <= k < ps.len(),
        ensures
            ps[k].to_multiset().count(c) <= sum_piles(ps).count(c),
        decreases ps.len(),
    {
        broadcast use vstd::multiset::group_multiset_axioms;

        if k < ps.len() - 1 {
            GameSession::lemma_sum_covers(ps.drop_last(), k, c);
        }
    }

    /// Every card on a well-formed table has a valid rank.
    pub proof fn lemma_cards_valid(&self, id: PileId, j: int)
        requires
            self.wf(),
            id.valid(),
            0 <= j < self.pile(id).len(),
        ensures
            self.pile(id)[j].kind.wf(),
    {
        broadcast use vstd::seq_lib::to_multiset_contains;

        let c = self.pile(id)[j];
        self.lemma_all_cards();
        self.lemma_pile_view(id);
        assert(self.pile(id).contains(c));
        GameSession::lemma_sum_covers(self.piles_view(), id.index(), c);
        lemma_standard_deck_counts();
    }

    /// The top card of each foundation, in deck-building suit order.
    pub open spec fn foundation_tops_view(&self) -> Seq<Option<Card>> {
        Seq::new(4, |f: int| self.top(PileId::Foundation(suit_at(f))))
    }

    /// The top card of each column, left to right.
    pub open spec fn tableau_tops_view(&self) -> Seq<Option<Card>> {
        Seq::new(7, |i: int| self.top(PileId::Tableau(i as usize)))
    }

    pub fn foundation_tops(&self) -> (r: Vec<Option<Card>>)
        requires
            self.wf(),
        ensures
            r@ == self.foundation_tops_view(),
    {
        let mut r: Vec<Option<Card>> = Vec::new();
        let mut f: usize = 0;
        while f < 4
            invariant
                self.wf(),
                f <= 4,
                r@ == self.foundation_tops_view().take(f as int),
            decreases 4 - f,
        {
            let suit = match f {
                0 => Suit::Spades,
                1 => Suit::Clubs,
                2 => Suit::Hearts,
                _ => Suit::Diamonds,
            };
            r.push(self.top_card(PileId::Foundation(suit)));
            f = f + 1;
            assert(r@ =~= self.foundation_tops_view().take(f as int));
        }
        assert(r@ =~= self.foundation_tops_view());
        r
    }

    pub fn tableau_tops(&self) -> (r: Vec<Option<Card>>)
        requires
            self.wf(),
        ensures
            r@ == self.tableau_tops_view(),
            tops_valid(r@),
    {
        let mut r: Vec<Option<Card>> = Vec::new();
        let mut i: usize = 0;
        while i < TABLEAU_COLUMNS
            invariant
                self.wf(),
                i <= TABLEAU_COLUMNS,
                r@ == self.tableau_tops_view().take(i as int),
            decreases TABLEAU_COLUMNS - i,
        {
            r.push(self.top_card(PileId::Tableau(i)));
            i = i + 1;
            assert(r@ =~= self.tableau_tops_view().take(i as int));
        }
        assert(r@ =~= self.tableau_tops_view());
        assert forall|i: int| 0 <= i < r@.len() implies (#[trigger] r@[i] matches Some(c) ==> c.kind.wf()) by {
            let id = PileId::Tableau(i as usize);
            if self.pile(id).len() > 0 {
                self.lemma_cards_valid(id, self.pile(id).len() - 1);
            }
        }
        r
    }

    /// Every foundation shows a King.
    pub open spec fn won(&self) -> bool {
        forall|s: Suit| #[trigger] self.top(PileId::Foundation(s)) matches Some(c) && c.kind is King
    }

    pub fn is_won(&self) -> (r: bool)
        requires
            self.wf(),
        ensures
            r == self.won(),
    {
        let tops = self.foundation_tops();
        let r = crate::solver::is_won(&tops);
        proof {
            assert forall|s: Suit| #![auto] self.top(PileId::Foundation(s)) == tops@[suit_index(s)] by {}
        }
        r
    }

    /// No column holds a face-down card.
    pub open spec fn all_face_up(&self) -> bool {
        forall|c: int| 0 <= c < 7 ==> #[trigger] self.hidden_of(c) == 0
    }

    /// Deck and discard pile are empty and every card is face up. The discard
    /// pile must be empty, not merely down to one exposed card: the solver
    /// only moves tableau cards, so a card left there would never be played.
    pub open spec fn autosolve_ready(&self) -> bool {
        &&& self.pile(PileId::Deck).len() == 0
        &&& self.all_face_up()
        &&& self.pile(PileId::Discard).len() == 0
    }

    pub fn all_cards_face_up(&self) -> (r: bool)
        requires
            self.wf(),
        ensures
            r == self.all_face_up(),
    {
        let mut i: usize = 0;
        while i < TABLEAU_COLUMNS
            invariant
                self.wf(),
                i <= TABLEAU_COLUMNS,
                forall|c: int| 0 <= c < i ==> #[trigger] self.hidden_of(c) == 0,
            decreases TABLEAU_COLUMNS - i,
        {
            if self.hidden[i] != 0 {
                assert(self.hidden_of(i as int) != 0);
                return false;
            }
            i = i + 1;
        }
        true
    }

    /// The check made after every change while playing: a won game ends, and
    /// a game with nothing left to uncover starts the auto-solver with a
    /// fresh timer. In any other phase nothing changes.
    pub fn win_check(&mut self)
        requires
            old(self).wf(),
        ensures
            final(self).wf(),
            old(self).same_table(final(self)),
            final(self).log() == old(self).log(),
            final(self).mode() == old(self).mode(),
            old(self).phase() == GameState::Playing ==> (final(self).phase() == GameState::Won
                <==> old(self).won()),
            final(self).solver_started() == (old(self).solver_started() || final(self).phase()
                == GameState::AutoSolving && old(self).phase() == GameState::Playing),
            final(self).phase() == if old(self).phase() != GameState::Playing {
                old(self).phase()
            } else if old(self).won() {
                GameState::Won
            } else if old(self).autosolve_ready() {
                GameState::AutoSolving
            } else {
                GameState::Playing
            },
            final(self).solve_timer() == if old(self).phase() == GameState::Playing && !old(self).won()
                && old(self).autosolve_ready() {
                SolveTimer::new_spec(SOLVE_PERIOD_MS)
            } else {
                old(self).solve_timer()
            },
    {
        let ghost pre = *self;
        if self.state != GameState::Playing {
            proof {
                pre.lemma_same_piles(self);
            }
            return;
        }
        if self.is_won() {
            self.state = GameState::Won;
        } else {
            let ready = should_attempt_autosolve(
                self.piles[DECK_PILE].len() == 0,
                self.all_cards_face_up(),
                self.piles[DISCARD_PILE].len() == 0,
            );
            if ready {
                self.timer = SolveTimer::new(SOLVE_PERIOD_MS);
                self.state = GameState::AutoSolving;
                self.started = true;
            }
        }
        proof {
            pre.lemma_same_piles(self);
        }
    }

    /// One frame of the auto-solver, `elapsed` milliseconds after the last.
    /// Outside the auto-solving phase nothing happens. Otherwise the timer
    /// advances; when it runs out, the chosen column's top card goes to its
    /// foundation and is returned, and when no column holds a card the phase
    /// goes back to playing. A solver move is not logged: once the solver has
    /// started, undo is no longer available in this game.
    pub fn auto_solve_tick(&mut self, elapsed: u64) -> (r: Option<Action>)
        requires
            old(self).wf(),
        ensures
            final(self).wf(),
            final(self).log() == old(self).log(),
            final(self).solver_started() == (old(self).solver_started() || old(self).phase()
                == GameState::AutoSolving),
            final(self).mode() == old(self).mode(),
            old(self).phase() != GameState::AutoSolving ==> r is None && *final(self) == *old(self),
            old(self).phase() == GameState::AutoSolving ==> final(self).solve_timer()
                == old(self).solve_timer().after(elapsed),
            old(self).phase() == GameState::AutoSolving && !old(self).solve_timer().fires(elapsed)
                ==> r is None && old(self).same_table(final(self)) && final(self).phase()
                == GameState::AutoSolving,
            old(self).phase() == GameState::AutoSolving && old(self).solve_timer().fires(elapsed)
                && (forall|i: int| 0 <= i < 7 ==> #[trigger] old(self).tableau_tops_view()[i] is None)
                ==> r is None && old(self).same_table(final(self)) && final(self).phase()
                == GameState::Playing,
            old(self).phase() == GameState::AutoSolving && old(self).solve_timer().fires(elapsed)
                && (exists|i: int| 0 <= i < 7 && #[trigger] old(self).tableau_tops_view()[i] is Some)
                ==> final(self).phase() == GameState::AutoSolving && (r is None <==> forall|j: int|
                !#[trigger] eligible(old(self).foundation_tops_view(), old(self).tableau_tops_view(), j))
                && (r is None ==> old(self).same_table(final(self))),
            r matches Some(a) ==> a matches Action::MoveCard { card, from, to, parent_face_down }
                && from matches PileId::Tableau(i) && best_choice(
                old(self).foundation_tops_view(),
                old(self).tableau_tops_view(),
                i as int,
            ) && old(self).tableau_tops_view()[i as int] == Some(card) && to == PileId::Foundation(
                card.suit,
            ) && parent_face_down == old(self).uncovers(from) && old(self).moved(
                final(self),
                card,
                from,
                to,
            ),
    {
        let ghost pre = *self;
        if self.state != GameState::AutoSolving {
            return None;
        }
        self.started = true;
        let fired = self.timer.tick(elapsed);
        proof {
            pre.lemma_same_piles(self);
        }
        if !fired {
            return None;
        }
        let tt = self.tableau_tops();
        let mut any = false;
        let mut i: usize = 0;
        while i < TABLEAU_COLUMNS
            invariant
                i <= TABLEAU_COLUMNS,
                tt@.len() == 7,
                any <==> exists|j: int| 0 <= j < i && #[trigger] tt@[j] is Some,
            decreases TABLEAU_COLUMNS - i,
        {
            if tt[i].is_some() {
                any = true;
            }
            i = i + 1;
        }
        proof {
            assert(tt@ == pre.tableau_tops_view()) by {
                assert(self.tableau_tops_view() =~= pre.tableau_tops_view());
            }
        }
        if !any {
            let ghost ticked = *self;
            self.state = GameState::Playing;
            proof {
                pre.lemma_same_piles(self);
                ticked.lemma_same_piles(self);
            }
            return None;
        }
        let ft = self.foundation_tops();
        proof {
            assert(ft@ =~= pre.foundation_tops_view());
        }
        match pick_solver_move(&ft, &tt) {
            None => None,
            Some(i) => {
                let card = tt[i].unwrap();
                let from = PileId::Tableau(i);
                let to = PileId::Foundation(card.suit);
                proof {
                    assert(ft@[suit_index(card.suit)] == self.top(to));
                }
                let pfd = self.move_top(from, to);
                Some(Action::MoveCard { card, from, to, parent_face_down: pfd })
            },
        }
    }
}

/// Whether the `i`-th card (from the bottom) of a pile faces up: the deck is
/// face down, a column below its face-down count, and the rest face up.
pub open spec fn face_at(hidden: int, id: PileId, i: int) -> CardFace {
    match id {
        PileId::Deck => CardFace::Down,
        PileId::Tableau(_) => if i < hidden {
            CardFace::Down
        } else {
            CardFace::Up
        },
        _ => CardFace::Up,
    }
}

impl GameSession {
    /// Shuffles a fresh deck and deals it as a new game with an empty log.
    pub fn new_deal(draw_mode: DrawMode) -> (s: Self)
        ensures
            s.wf(),
            s.log().len() == 0,
            s.mode() == draw_mode,
            s.phase() == GameState::Playing,
            s.solve_timer() == SolveTimer::new_spec(SOLVE_PERIOD_MS),
            !s.solver_started(),
            forall|c: int|
                0 <= c < 7 ==> #[trigger] s.pile(PileId::Tableau(c as usize)).len() == c + 1
                    && s.hidden_of(c) == c,
            forall|t: Suit| #[trigger] s.pile(PileId::Foundation(t)).len() == 0,
            s.pile(PileId::Deck).len() == 24,
            s.pile(PileId::Discard).len() == 0,
    {
        let deck = shuffled_deck();
        GameSession::deal_from(deck, draw_mode)
    }

    /// The cards of a pile, bottom to top.
    pub fn cards(&self, id: PileId) -> (r: &Vec<Card>)
        requires
            self.wf(),
            id.valid(),
        ensures
            r@ == self.pile(id),
    {
        &self.piles[id.index_exec()]
    }

    /// How many cards at the bottom of column `col` lie face down.
    pub fn hidden_count(&self, col: usize) -> (r: usize)
        requires
            self.wf(),
            col < TABLEAU_COLUMNS,
        ensures
            r == self.hidden_of(col as int),
    {
        self.hidden[col]
    }

    /// Which way the `i`-th card (from the bottom) of a pile faces.
    pub fn face(&self, id: PileId, i: usize) -> (r: CardFace)
        requires
            self.wf(),
            id.valid(),
        ensures
            r == face_at(
                match id {
                    PileId::Tableau(c) => self.hidden_of(c as int),
                    _ => 0,
                },
                id,
                i as int,
            ),
    {
        match id {
            PileId::Deck => CardFace::Down,
            PileId::Tableau(c) => if i < self.hidden[c] {
                CardFace::Down
            } else {
                CardFace::Up
            },
            _ => CardFace::Up,
        }
    }

    /// The undo log, most recent action last.
    pub fn actions(&self) -> (r: &Vec<Action>)
        ensures
            r@ == self.log(),
    {
        &self.actions.0
    }

    pub fn state(&self) -> (r: GameState)
        ensures
            r == self.phase(),
    {
        self.state
    }

    pub fn draw_mode(&self) -> (r: DrawMode)
        ensures
            r == self.mode(),
    {
        self.draw_mode
    }

    pub fn timer(&self) -> (r: SolveTimer)
        ensures
            r == self.solve_timer(),
    {
        self.timer
    }

    /// Whether the deck is empty; the deck is drawn only while it is not.
    pub fn deck_empty(&self) -> (r: bool)
        requires
            self.wf(),
        ensures
            r == (self.pile(PileId::Deck).len() == 0),
    {
        self.piles[DECK_PILE].len() == 0
    }

    /// Enters another phase, as the menus do; the table stays as it is.
    pub fn set_state(&mut self, state: GameState)
        requires
            old(self).wf(),
        ensures
            final(self).wf(),
            final(self).phase() == state,
            final(self).solver_started() == old(self).solver_started(),
            old(self).same_table(final(self)),
            final(self).log() == old(self).log(),
            final(self).mode() == old(self).mode(),
            final(self).solve_timer() == old(self).solve_timer(),
    {
        let ghost pre = *self;
        self.state = state;
        proof {
            pre.lemma_same_piles(self);
        }
    }
}

proof fn lemma_sum_empty(ps: Seq<Seq<Card>>)
    requires
        forall|i: int| 0 <= i < ps.len() ==> (#[trigger] ps[i]).len() == 0,
    ensures
        sum_piles(ps) =~= Multiset::empty(),
    decreases ps.len(),
{
    broadcast use vstd::multiset::group_multiset_axioms, vstd::seq_lib::group_to_multiset_ensures;

    if ps.len() > 0 {
        lemma_sum_empty(ps.drop_last());
        assert(ps.last() =~= Seq::<Card>::empty());
    }
}

} // verus!
