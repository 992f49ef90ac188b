use vstd::prelude::*;
use vstd::multiset::Multiset;
use crate::card::Card;
use crate::deck::{Deck, full_deck};
use crate::error::TableError;
use crate::player::Player;

verus! {

broadcast use vstd::seq_lib::group_to_multiset_ensures, vstd::multiset::group_multiset_axioms;

/// Most players one table seats: two hole cards each and five community
/// cards must fit in one deck.
pub const MAX_PLAYERS: usize = 23;

/// Fewest players that start a hand.
pub const MIN_PLAYERS: usize = 2;

/// The stages of a hand, in the order they are played.
#[derive(Clone, Copy, Debug, PartialEq, Eq, Structural)]
pub enum Phase {
    WaitingForPlayers,
    PreFlop,
    Flop,
    Turn,
    River,
    /// The hand is over. The pot stays on the table: no ranking of hands
    /// decides a winner here.
    Showdown,
}

/// The phases in which a betting round is open.
pub open spec fn is_betting(p: Phase) -> bool {
    p == Phase::PreFlop || p == Phase::Flop || p == Phase::Turn || p == Phase::River
}

/// Position of a phase in the order of play.
pub open spec fn phase_order(p: Phase) -> nat {
    match p {
        Phase::WaitingForPlayers => 0,
        Phase::PreFlop => 1,
        Phase::Flop => 2,
        Phase::Turn => 3,
        Phase::River => 4,
        Phase::Showdown => 5,
    }
}

/// The phase that follows a completed betting round.
pub open spec fn next_phase(p: Phase) -> Phase {
    match p {
        Phase::PreFlop => Phase::Flop,
        Phase::Flop => Phase::Turn,
        Phase::Turn => Phase::River,
        Phase::River => Phase::Showdown,
        _ => p,
    }
}

/// Number of community cards on the table during a betting phase.
pub open spec fn community_count(p: Phase) -> nat {
    match p {
        Phase::Flop => 3,
        Phase::Turn => 4,
        Phase::River => 5,
        _ => 0,
    }
}

/// Number of community cards dealt when the betting round of `p` completes.
pub open spec fn cards_dealt_after(p: Phase) -> nat {
    match p {
        Phase::PreFlop => 3,
        Phase::Flop => 1,
        Phase::Turn => 1,
        _ => 0,
    }
}

impl Phase {
    pub fn is_betting(&self) -> (r: bool)
        ensures
            r == is_betting(*self),
    {
        match self {
            Phase::PreFlop | Phase::Flop | Phase::Turn | Phase::River => true,
            _ => false,
        }
    }

    pub fn next(&self) -> (r: Phase)
        ensures
            r == next_phase(*self),
    {
        match self {
            Phase::PreFlop => Phase::Flop,
            Phase::Flop => Phase::Turn,
            Phase::Turn => Phase::River,
            Phase::River => Phase::Showdown,
            Phase::WaitingForPlayers => Phase::WaitingForPlayers,
            Phase::Showdown => Phase::Showdown,
        }
    }

    pub fn cards_dealt_after(&self) -> (r: usize)
        ensures
            r == cards_dealt_after(*self),
    {
        match self {
            Phase::PreFlop => 3,
            Phase::Flop => 1,
            Phase::Turn => 1,
            _ => 0,
        }
    }
}

/// Chips committed by all players.
pub open spec fn sum_bets(ps: Seq<Player>) -> int
    decreases ps.len(),
{
    if ps.len() == 0 { 0 } else { sum_bets(ps.drop_last()) + ps.last().bet }
}

/// Chips held in hand by all players.
pub open spec fn sum_cash(ps: Seq<Player>) -> int
    decreases ps.len(),
{
    if ps.len() == 0 { 0 } else { sum_cash(ps.drop_last()) + ps.last().cash }
}

/// Number of players still in the hand.
pub open spec fn active_count(ps: Seq<Player>) -> nat
    decreases ps.len(),
{
    if ps.len() == 0 {
        0
    } else {
        active_count(ps.drop_last()) + if ps.last().is_active { 1nat } else { 0nat }
    }
}

/// All hole cards held by the players.
pub open spec fn hands_ms(ps: Seq<Player>) -> Multiset<Card>
    decreases ps.len(),
{
    if ps.len() == 0 {
        Multiset::empty()
    } else {
        hands_ms(ps.drop_last()).add(ps.last().hand@.to_multiset())
    }
}

pub open spec fn ids_unique(ps: Seq<Player>) -> bool {
    forall|i: int, j: int| 0 <= i < ps.len() && 0 <= j < ps.len() && i != j ==> ps[i].id != ps[j].id
}

pub open spec fn has_id(ps: Seq<Player>, id: usize) -> bool {
    exists|i: int| 0 <= i < ps.len() && ps[i].id == id
}

/// The seat of the player with the given id.
pub open spec fn seat_of(ps: Seq<Player>, id: usize) -> int {
    choose|i: int| 0 <= i < ps.len() && ps[i].id == id
}

/// Seat `j` comes strictly after `from` and strictly before `to` when the
/// seats are walked round the table starting after `from`.
pub open spec fn between_seats(from: int, to: int, j: int) -> bool {
    if from < to { from < j < to } else { j > from || j < to }
}

/// `r` is the first seat after `from`, going round the table, whose player
/// is still in the hand.
pub open spec fn is_next_active(ps: Seq<Player>, from: int, r: int) -> bool {
    &&& 0 <= r < ps.len()
    &&& ps[r].is_active
    &&& forall|j: int| 0 <= j < ps.len() && between_seats(from, r, j) ==> !ps[j].is_active
}

/// The last `k` cards of a pile, in the order they are dealt from the top.
pub open spec fn top_cards(d: Seq<Card>, k: nat) -> Seq<Card> {
    Seq::new(k, |j: int| d[d.len() - 1 - j])
}

/// A betting round is complete when every player still in the hand has
/// acted since the last raise and has matched the highest bet.
pub open spec fn round_complete(ps: Seq<Player>, acted: Seq<bool>, current_bet: u64) -> bool {
    forall|j: int| 0 <= j < ps.len() && ps[j].is_active ==> acted[j] && ps[j].bet == current_bet
}

pub proof fn lemma_sums_update(ps: Seq<Player>, i: int, p: Player)
    requires
        0 <= i < ps.len(),
    ensures
        sum_bets(ps.update(i, p)) == sum_bets(ps) - ps[i].bet + p.bet,
        sum_cash(ps.update(i, p)) == sum_cash(ps) - ps[i].cash + p.cash,
        active_count(ps.update(i, p)) == active_count(ps) - (if ps[i].is_active { 1int } else { 0int })
            + (if p.is_active { 1int } else { 0int }),
        hands_ms(ps.update(i, p)).add(ps[i].hand@.to_multiset()) == hands_ms(ps).add(p.hand@.to_multiset()),
    decreases ps.len(),
{
    let qs = ps.update(i, p);
    if i == ps.len() - 1 {
        assert(qs.drop_last() =~= ps.drop_last());
        assert(hands_ms(qs).add(ps[i].hand@.to_multiset()) =~= hands_ms(ps).add(p.hand@.to_multiset()));
    } else {
        lemma_sums_update(ps.drop_last(), i, p);
        assert(qs.drop_last() =~= ps.drop_last().update(i, p));
        assert(qs.last() == ps.last());
        assert(ps.drop_last()[i] == ps[i]);
        let a = hands_ms(ps.drop_last().update(i, p));
        let b = hands_ms(ps.drop_last());
        let l = ps.last().hand@.to_multiset();
        assert(a.add(ps[i].hand@.to_multiset()) == b.add(p.hand@.to_multiset()));
        assert(a.add(l).add(ps[i].hand@.to_multiset()) =~= b.add(l).add(p.hand@.to_multiset())) by {
            assert forall|c: Card| #[trigger] a.add(l).add(ps[i].hand@.to_multiset()).count(c)
                == b.add(l).add(p.hand@.to_multiset()).count(c) by {
                assert(a.add(ps[i].hand@.to_multiset()).count(c) == b.add(p.hand@.to_multiset()).count(c));
            }
        }
        assert(hands_ms(qs) == hands_ms(qs.drop_last()).add(qs.last().hand@.to_multiset()));
        assert(hands_ms(ps) == hands_ms(ps.drop_last()).add(ps.last().hand@.to_multiset()));
        assert(hands_ms(qs).add(ps[i].hand@.to_multiset()) =~= hands_ms(ps).add(p.hand@.to_multiset()));
    }
}

pub proof fn lemma_member_bounded(ps: Seq<Player>, i: int)
    requires
        0 <= i < ps.len(),
    ensures
        ps[i].bet <= sum_bets(ps),
        ps[i].cash <= sum_cash(ps),
        0 <= sum_bets(ps),
        0 <= sum_cash(ps),
    decreases ps.len(),
{
    lemma_sums_nonneg(ps.drop_last());
    if i < ps.len() - 1 {
        lemma_member_bounded(ps.drop_last(), i);
    }
}

pub proof fn lemma_sums_nonneg(ps: Seq<Player>)
    ensures
        0 <= sum_bets(ps),
        0 <= sum_cash(ps),
    decreases ps.len(),
{
    if ps.len() > 0 {
        lemma_sums_nonneg(ps.drop_last());
    }
}

pub proof fn lemma_prefix_cash(ps: Seq<Player>, i: int)
    requires
        0 <= i <= ps.len(),
    ensures
        sum_cash(ps.take(i)) <= sum_cash(ps),
    decreases ps.len(),
{
    if i < ps.len() {
        lemma_prefix_cash(ps.drop_last(), i);
        assert(ps.drop_last().take(i) =~= ps.take(i));
    } else {
        assert(ps.take(i) =~= ps);
    }
}

/// Sequences of players that agree on chips and on who is in the hand agree
/// on the sums; ones that also agree on the hole cards hold the same cards.
pub proof fn lemma_same_money(ps: Seq<Player>, qs: Seq<Player>)
    requires
        ps.len() == qs.len(),
        forall|j: int| 0 <= j < ps.len() ==> ps[j].bet == qs[j].bet && ps[j].cash == qs[j].cash
            && ps[j].is_active == qs[j].is_active,
    ensures
        sum_bets(ps) == sum_bets(qs),
        sum_cash(ps) == sum_cash(qs),
        active_count(ps) == active_count(qs),
        (forall|j: int| 0 <= j < ps.len() ==> ps[j].hand@ == qs[j].hand@) ==> hands_ms(ps) == hands_ms(qs),
    decreases ps.len(),
{
    if ps.len() > 0 {
        lemma_same_money(ps.drop_last(), qs.drop_last());
    }
}

/// With at least `k` players in the hand, any `k - 1` seats leave one active
/// player out; stated for one and for two.
pub proof fn lemma_active_seat_exists(ps: Seq<Player>, avoid: int)
    ensures
        active_count(ps) >= 1 ==> exists|j: int| 0 <= j < ps.len() && ps[j].is_active,
        active_count(ps) >= 2 ==> exists|j: int| 0 <= j < ps.len() && ps[j].is_active && j != avoid,
    decreases ps.len(),
{
    if ps.len() > 0 {
        lemma_active_seat_exists(ps.drop_last(), avoid);
        let last = ps.len() - 1;
        if active_count(ps) >= 1 && !ps[last].is_active {
            let j = choose|j: int| 0 <= j < ps.drop_last().len() && ps.drop_last()[j].is_active;
            assert(ps[j].is_active);
        }
        if active_count(ps) >= 2 {
            if ps[last].is_active && last != avoid {
            } else if active_count(ps.drop_last()) >= 2 {
                let j = choose|j: int| 0 <= j < ps.drop_last().len() && ps.drop_last()[j].is_active && j != avoid;
                assert(ps[j].is_active);
            } else {
                // the last seat is the avoided one and one other seat is active
                let j = choose|j: int| 0 <= j < ps.drop_last().len() && ps.drop_last()[j].is_active;
                assert(ps[j].is_active && j != avoid);
            }
        }
    }
}

pub proof fn lemma_all_active(ps: Seq<Player>)
    requires
        forall|j: int| 0 <= j < ps.len() ==> ps[j].is_active,
    ensures
        active_count(ps) == ps.len(),
    decreases ps.len(),
{
    if ps.len() > 0 {
        lemma_all_active(ps.drop_last());
    }
}

/// Moving the top card of a pile into the hand of seat `i` keeps the cards
/// of the pile and the hands together.
pub proof fn lemma_card_to_hand(d: Seq<Card>, ps: Seq<Player>, i: int, p: Player)
    requires
        d.len() > 0,
        0 <= i < ps.len(),
        p.hand@ == ps[i].hand@.push(d.last()),
    ensures
        d.drop_last().to_multiset().add(hands_ms(ps.update(i, p))) == d.to_multiset().add(hands_ms(ps)),
{
    lemma_sums_update(ps, i, p);
    assert(d =~= d.drop_last().push(d.last()));
    let c = d.last();
    let x = ps[i].hand@.to_multiset();
    let y = p.hand@.to_multiset();
    assert(y =~= x.insert(c));
    let h1 = hands_ms(ps.update(i, p));
    let h0 = hands_ms(ps);
    assert forall|e: Card| #[trigger] d.drop_last().to_multiset().add(h1).count(e)
        == d.to_multiset().add(h0).count(e) by {
        assert(h1.add(x).count(e) == h0.add(y).count(e));
    }
    assert(d.drop_last().to_multiset().add(h1) =~= d.to_multiset().add(h0));
}

/// Changing anything of seat `i` but its hole cards keeps the hands.
pub proof fn lemma_hands_kept(ps: Seq<Player>, i: int, p: Player)
    requires
        0 <= i < ps.len(),
        p.hand@ == ps[i].hand@,
    ensures
        hands_ms(ps.update(i, p)) == hands_ms(ps),
        sum_bets(ps.update(i, p)) == sum_bets(ps) - ps[i].bet + p.bet,
        sum_cash(ps.update(i, p)) == sum_cash(ps) - ps[i].cash + p.cash,
        active_count(ps.update(i, p)) == active_count(ps) - (if ps[i].is_active { 1int } else { 0int })
            + (if p.is_active { 1int } else { 0int }),
{
    lemma_sums_update(ps, i, p);
    let x = ps[i].hand@.to_multiset();
    assert forall|e: Card| #[trigger] hands_ms(ps.update(i, p)).count(e) == hands_ms(ps).count(e) by {
        assert(hands_ms(ps.update(i, p)).add(x).count(e) == hands_ms(ps).add(x).count(e));
    }
    assert(hands_ms(ps.update(i, p)) =~= hands_ms(ps));
}

/// A vector of `n` times `false`.
fn all_unacted(n: usize) -> (r: Vec<bool>)
    ensures
        r@ == Seq::new(n as nat, |j: int| false),
{
    let mut v: Vec<bool> = Vec::new();
    let mut i: usize = 0;
    while i < n
        invariant
            i <= n,
            v@ == Seq::new(i as nat, |j: int| false),
        decreases n - i,
    {
        v.push(false);
        i = i + 1;
        assert(v@ =~= Seq::new(i as nat, |j: int| false));
    }
    v
}

/// Why a join is refused, if it is: the hand has started, the id is taken,
/// or the chips would no longer fit in a `u64`.
pub open spec fn join_error(s: GameState, id: usize, cash: u64) -> Option<TableError> {
    if s.phase != Phase::WaitingForPlayers {
        Some(TableError::HandInProgress)
    } else if has_id(s.players@, id) {
        Some(TableError::DuplicatePlayer)
    } else if sum_cash(s.players@) + cash > u64::MAX {
        Some(TableError::ChipOverflow)
    } else {
        None
    }
}

/// `f` is `m` after its betting round completed: the next phase, with its
/// community cards dealt from the top of the deck, nobody having acted yet,
/// and the turn with the first player in the hand after the dealer.
pub open spec fn phase_advanced(m: GameState, f: GameState) -> bool {
    let k = cards_dealt_after(m.phase);
    &&& f.phase == next_phase(m.phase)
    &&& f.community_cards@ == m.community_cards@ + top_cards(m.deck@, k)
    &&& f.deck@ == m.deck@.take(m.deck@.len() - k)
    &&& f.acted@ == Seq::new(m.acted@.len(), |j: int| false)
    &&& f.players@ == m.players@
    &&& f.pot == m.pot
    &&& f.current_bet == m.current_bet
    &&& f.dealer_position == m.dealer_position
    &&& f.phase == Phase::Showdown ==> f.current_player == m.current_player
    &&& f.phase != Phase::Showdown ==> is_next_active(m.players@, m.dealer_position as int, f.current_player as int)
}

/// `f` is `m` with the turn passed on: the hand ends (Showdown) when at most
/// one player is left in it; otherwise the turn goes to the next player in
/// the hand.
pub open spec fn turn_passed(m: GameState, f: GameState) -> bool {
    &&& f.players@ == m.players@
    &&& f.deck@ == m.deck@
    &&& f.community_cards@ == m.community_cards@
    &&& f.acted@ == m.acted@
    &&& f.pot == m.pot
    &&& f.current_bet == m.current_bet
    &&& f.dealer_position == m.dealer_position
    &&& if active_count(m.players@) <= 1 {
        f.phase == Phase::Showdown && f.current_player == m.current_player
    } else {
        f.phase == m.phase && is_next_active(m.players@, m.current_player as int, f.current_player as int)
    }
}

/// What follows an accepted bet or fold in state `m`: the hand ends if at
/// most one player is left in it, the phase advances if the betting round is
/// complete, and otherwise the turn passes on.
pub open spec fn settled(m: GameState, f: GameState) -> bool {
    if active_count(m.players@) >= 2 && round_complete(m.players@, m.acted@, m.current_bet) {
        phase_advanced(m, f)
    } else {
        turn_passed(m, f)
    }
}

/// Why a bet is refused, if it is, tested in this order.
pub open spec fn bet_error(s: GameState, id: usize, amount: u64) -> Option<TableError> {
    if !has_id(s.players@, id) {
        Some(TableError::UnknownPlayer)
    } else if !s.players@[seat_of(s.players@, id)].is_active {
        Some(TableError::InactivePlayer)
    } else if !is_betting(s.phase) || seat_of(s.players@, id) != s.current_player {
        Some(TableError::OutOfTurn)
    } else if s.players@[seat_of(s.players@, id)].cash < amount {
        Some(TableError::InsufficientFunds)
    } else {
        None
    }
}

/// Why a fold is refused, if it is, tested in this order.
pub open spec fn fold_error(s: GameState, id: usize) -> Option<TableError> {
    if !has_id(s.players@, id) {
        Some(TableError::UnknownPlayer)
    } else if !s.players@[seat_of(s.players@, id)].is_active {
        Some(TableError::InactivePlayer)
    } else if !is_betting(s.phase) || seat_of(s.players@, id) != s.current_player {
        Some(TableError::OutOfTurn)
    } else {
        None
    }
}

/// `n` flags, set for seat `i` alone.
pub open spec fn only_acted(n: nat, i: int) -> Seq<bool> {
    Seq::new(n, |j: int| j == i)
}

/// `m` is `s` with `amount` moved from the cash of seat `i` to its bet and
/// into the pot. A bet above the highest one is a raise: everyone else must
/// act again.
pub open spec fn bet_applied(s: GameState, m: GameState, i: int, amount: u64) -> bool {
    let p = s.players@[i];
    let nb = p.bet + amount;
    &&& m.players@ == s.players@.update(i, Player { cash: (p.cash - amount) as u64, bet: nb as u64, ..p })
    &&& m.pot == s.pot + amount
    &&& m.current_bet == (if nb > s.current_bet { nb } else { s.current_bet as int })
    &&& m.acted@ == (if nb > s.current_bet {
        only_acted(s.acted@.len(), i)
    } else {
        s.acted@.update(i, true)
    })
    &&& m.deck@ == s.deck@
    &&& m.community_cards@ == s.community_cards@
    &&& m.phase == s.phase
    &&& m.dealer_position == s.dealer_position
    &&& m.current_player == s.current_player
}

/// `m` is `s` with the player in seat `i` out of the hand.
pub open spec fn fold_applied(s: GameState, m: GameState, i: int) -> bool {
    &&& m.players@ == s.players@.update(i, Player { is_active: false, ..s.players@[i] })
    &&& m.pot == s.pot
    &&& m.current_bet == s.current_bet
    &&& m.acted@ == s.acted@
    &&& m.deck@ == s.deck@
    &&& m.community_cards@ == s.community_cards@
    &&& m.phase == s.phase
    &&& m.dealer_position == s.dealer_position
    &&& m.current_player == s.current_player
}

/// The authoritative record of one table: seats, deck, community cards,
/// pot and whose turn it is. `acted[j]` records whether the player in seat
/// `j` has acted since the last raise of the current betting round.
pub struct GameState {
    pub players: Vec<Player>,
    pub deck: Deck,
    pub community_cards: Vec<Card>,
    pub pot: u64,
    pub current_bet: u64,
    pub phase: Phase,
    pub dealer_position: usize,
    pub current_player: usize,
    pub acted: Vec<bool>,
}

impl GameState {
    /// Every card of the deck is in exactly one place: the deck, a hand, or
    /// the community cards.
    pub open spec fn cards_conserved(&self) -> bool {
        self.deck@.to_multiset().add(hands_ms(self.players@)).add(self.community_cards@.to_multiset())
            == full_deck().to_multiset()
    }

    /// The invariant of the table, except for whose turn it is.
    pub open spec fn wf_core(&self) -> bool {
        let ps = self.players@;
        let n = ps.len();
        &&& n <= MAX_PLAYERS
        &&& self.acted@.len() == n
        &&& ids_unique(ps)
        &&& self.pot == sum_bets(ps)
        &&& sum_bets(ps) + sum_cash(ps) <= u64::MAX
        &&& forall|j: int| 0 <= j < n ==> ps[j].bet <= self.current_bet
        &&& self.cards_conserved()
        &&& self.phase == Phase::WaitingForPlayers ==> {
            &&& self.community_cards@.len() == 0
            &&& self.pot == 0
            &&& self.current_bet == 0
            &&& self.deck@.len() == 52
            &&& forall|j: int| 0 <= j < n ==> (#[trigger] ps[j]).hand@.len() == 0 && ps[j].bet == 0
                && ps[j].is_active
            &&& forall|j: int| 0 <= j < n ==> !(#[trigger] self.acted@[j])
        }
        &&& self.phase != Phase::WaitingForPlayers ==> {
            &&& n >= MIN_PLAYERS
            &&& self.dealer_position < n
            &&& self.current_player < n
            &&& self.community_cards@.len() <= 5
            &&& self.deck@.len() + 2 * n + self.community_cards@.len() == 52
            &&& forall|j: int| 0 <= j < n ==> ps[j].hand@.len() == 2
        }
        &&& is_betting(self.phase) ==> self.community_cards@.len() == community_count(self.phase)
    }

    /// The invariant of the table: a table waiting for players has fewer
    /// than `MIN_PLAYERS` seated, and while a betting round is open at least
    /// two players are in the hand and the turn is with one of them.
    pub open spec fn wf(&self) -> bool {
        &&& self.wf_core()
        &&& self.phase == Phase::WaitingForPlayers ==> self.players@.len() < MIN_PLAYERS
        &&& is_betting(self.phase) ==> {
            &&& active_count(self.players@) >= 2
            &&& self.players@[self.current_player as int].is_active
        }
    }

    /// An empty table, waiting for players, with a fresh deck.
    pub fn new() -> (s: GameState)
        ensures
            s.wf(),
            s.players@.len() == 0,
            s.phase == Phase::WaitingForPlayers,
            s.pot == 0,
    {
        let s = GameState {
            players: Vec::new(),
            deck: Deck::new(),
            community_cards: Vec::new(),
            pot: 0,
            current_bet: 0,
            phase: Phase::WaitingForPlayers,
            dealer_position: 0,
            current_player: 0,
            acted: Vec::new(),
        };
        proof {
            assert(hands_ms(s.players@) =~= Multiset::empty());
            assert(s.community_cards@.to_multiset() =~= Multiset::empty());
            assert(s.deck@.to_multiset().add(hands_ms(s.players@)).add(s.community_cards@.to_multiset())
                =~= full_deck().to_multiset());
        }
        s
    }

    /// The seat of the player with the given id, if one is seated.
    pub fn find_seat(&self, player_id: usize) -> (r: Option<usize>)
        requires
            ids_unique(self.players@),
        ensures
            r.is_none() == !has_id(self.players@, player_id),
            r.is_some() ==> r.unwrap() == seat_of(self.players@, player_id)
                && self.players@[r.unwrap() as int].id == player_id,
    {
        let mut i: usize = 0;
        while i < self.players.len()
            invariant
                i <= self.players@.len(),
                ids_unique(self.players@),
                forall|j: int| 0 <= j < i ==> self.players@[j].id != player_id,
            decreases self.players@.len() - i,
        {
            if self.players[i].id == player_id {
                proof {
                    let k = seat_of(self.players@, player_id);
                    assert(has_id(self.players@, player_id));
                    assert(0 <= k < self.players@.len() && self.players@[k].id == player_id);
                    if k != i as int {
                        assert(self.players@[k].id != self.players@[i as int].id);
                    }
                    assert(self.players@[i as int].id == player_id);
                    assert(k == i as int);
                }
                return Some(i);
            }
            i = i + 1;
        }
        None
    }

    /// Number of players still in the hand.
    pub fn count_active(&self) -> (r: usize)
        ensures
            r == active_count(self.players@),
    {
        let mut i: usize = 0;
        let mut c: usize = 0;
        while i < self.players.len()
            invariant
                i <= self.players@.len(),
                c == active_count(self.players@.take(i as int)),
                c <= i,
            decreases self.players@.len() - i,
        {
            proof {
                assert(self.players@.take(i + 1).drop_last() =~= self.players@.take(i as int));
            }
            if self.players[i].is_active {
                c = c + 1;
            }
            i = i + 1;
        }
        assert(self.players@.take(i as int) =~= self.players@);
        c
    }

    /// Whether every player still in the hand has acted since the last
    /// raise and matched the highest bet.
    pub fn is_round_complete(&self) -> (r: bool)
        requires
            self.acted@.len() == self.players@.len(),
        ensures
            r == round_complete(self.players@, self.acted@, self.current_bet),
    {
        let mut i: usize = 0;
        while i < self.players.len()
            invariant
                i <= self.players@.len(),
                self.acted@.len() == self.players@.len(),
                forall|j: int| 0 <= j < i ==> (#[trigger] self.players@[j]).is_active ==> self.acted@[j]
                    && self.players@[j].bet == self.current_bet,
            decreases self.players@.len() - i,
        {
            if self.players[i].is_active && (!self.acted[i] || self.players[i].bet != self.current_bet) {
                return false;
            }
            assert(self.players@[i as int].is_active ==> self.acted@[i as int]
                && self.players@[i as int].bet == self.current_bet);
            i = i + 1;
        }
        true
    }

    /// The first seat after `from`, going round the table, whose player is
    /// still in the hand.
    pub fn next_active_seat(&self, from: usize) -> (r: usize)
        requires
            from < self.players@.len(),
            active_count(self.players@) >= 1,
        ensures
            is_next_active(self.players@, from as int, r as int),
    {
        let n = self.players.len();
        let mut j: usize = from + 1;
        while j < n
            invariant
                n == self.players@.len(),
                from < j <= n,
                forall|k: int| from < k < j ==> !self.players@[k].is_active,
            decreases n - j,
        {
            if self.players[j].is_active {
                return j;
            }
            j = j + 1;
        }
        let mut j: usize = 0;
        while j <= from
            invariant
                n == self.players@.len(),
                from < n,
                j <= from + 1,
                forall|k: int| from < k < n ==> !self.players@[k].is_active,
                forall|k: int| 0 <= k < j ==> !self.players@[k].is_active,
            decreases from + 1 - j,
        {
            if self.players[j].is_active {
                return j;
            }
            j = j + 1;
        }
        proof {
            lemma_active_seat_exists(self.players@, 0);
        }
        from
    }

    /// A hand that has just been dealt: everyone holds two hole cards,
    /// nothing is bet, the dealer button is on the last seat and the first
    /// seat is to act.
    pub open spec fn hand_started(&self) -> bool {
        let n = self.players@.len();
        &&& self.phase == Phase::PreFlop
        &&& self.pot == 0
        &&& self.current_bet == 0
        &&& self.community_cards@.len() == 0
        &&& self.dealer_position == n - 1
        &&& self.current_player == 0
        &&& self.deck@.len() == 52 - 2 * n
        &&& forall|j: int| 0 <= j < n ==> self.players@[j].hand@.len() == 2 && !self.acted@[j]
    }

    /// Starts the hand: shuffles the deck and deals two hole cards to each
    /// player, seat by seat.
    pub fn start_game(&mut self)
        requires
            old(self).wf_core(),
            old(self).phase == Phase::WaitingForPlayers,
            old(self).players@.len() >= MIN_PLAYERS,
        ensures
            final(self).wf(),
            final(self).hand_started(),
            final(self).players@.len() == old(self).players@.len(),
            forall|j: int| 0 <= j < old(self).players@.len() ==> final(self).players@[j] == (Player {
                hand: final(self).players@[j].hand,
                ..old(self).players@[j]
            }),
    {
        let ghost s0 = *self;
        assert(forall|j: int| 0 <= j < s0.players@.len() ==> s0.players@[j].hand@.len() == 0
            && s0.players@[j].bet == 0 && s0.players@[j].is_active && !s0.acted@[j]);
        assert(s0.community_cards@.to_multiset() =~= Multiset::empty());
        self.deck.shuffle();
        let n = self.players.len();
        let mut i: usize = 0;
        while i < n
            invariant
                s0.wf_core(),
                s0.phase == Phase::WaitingForPlayers,
                n == self.players@.len(),
                n == s0.players@.len(),
                2 <= n <= MAX_PLAYERS,
                i <= n,
                self.deck@.len() == 52 - 2 * i,
                self.deck@.to_multiset().add(hands_ms(self.players@)) == full_deck().to_multiset(),
                forall|j: int| 0 <= j < n ==> self.players@[j] == (Player {
                    hand: self.players@[j].hand,
                    ..s0.players@[j]
                }),
                forall|j: int| 0 <= j < i ==> self.players@[j].hand@.len() == 2,
                forall|j: int| i <= j < n ==> self.players@[j].hand@.len() == 0,
                self.community_cards == s0.community_cards,
                self.pot == s0.pot,
                self.current_bet == s0.current_bet,
                self.phase == s0.phase,
                self.acted == s0.acted,
            decreases n - i,
        {
            let ghost d0 = self.deck@;
            let ghost p0 = self.players@;
            let c1 = match self.deck.deal() {
                Ok(c) => c,
                Err(_) => { return; }
            };
            self.players[i].add_card(c1);
            proof {
                lemma_card_to_hand(d0, p0, i as int, self.players@[i as int]);
                assert(self.players@ == p0.update(i as int, self.players@[i as int]));
            }
            let ghost d1 = self.deck@;
            let ghost p1 = self.players@;
            let c2 = match self.deck.deal() {
                Ok(c) => c,
                Err(_) => { return; }
            };
            self.players[i].add_card(c2);
            proof {
                lemma_card_to_hand(d1, p1, i as int, self.players@[i as int]);
                assert(self.players@ == p1.update(i as int, self.players@[i as int]));
            }
            i = i + 1;
        }
        proof {
            lemma_same_money(self.players@, s0.players@);
            assert forall|j: int| 0 <= j < n implies #[trigger] self.players@[j].is_active
                && self.players@[j].bet == 0 by {
                assert(self.players@[j] == (Player { hand: self.players@[j].hand, ..s0.players@[j] }));
            }
            lemma_all_active(self.players@);
            assert(self.community_cards@.to_multiset() =~= Multiset::empty());
            assert(self.deck@.to_multiset().add(hands_ms(self.players@)).add(self.community_cards@.to_multiset())
                =~= full_deck().to_multiset());
        }
        self.phase = Phase::PreFlop;
        self.dealer_position = n - 1;
        self.current_player = 0;
    }

    /// Seats a new player with `cash` chips. The hand starts as soon as
    /// `MIN_PLAYERS` are seated, so the table never fills beyond that; later
    /// joins are refused.
    pub fn add_player(&mut self, id: usize, name: String, cash: u64) -> (r: Result<(), TableError>)
        requires
            old(self).wf(),
        ensures
            final(self).wf(),
            match join_error(*old(self), id, cash) {
                Some(e) => r == Err::<(), TableError>(e) && *final(self) == *old(self),
                None => {
                    let n = old(self).players@.len();
                    &&& r == Ok::<(), TableError>(())
                    &&& final(self).players@.len() == n + 1
                    &&& forall|j: int| 0 <= j < n ==> final(self).players@[j] == (Player {
                        hand: final(self).players@[j].hand,
                        ..old(self).players@[j]
                    })
                    &&& final(self).players@[n as int] == (Player {
                        id,
                        name,
                        cash,
                        hand: final(self).players@[n as int].hand,
                        bet: 0,
                        is_active: true,
                    })
                    &&& n + 1 >= MIN_PLAYERS ==> final(self).hand_started()
                    &&& n + 1 < MIN_PLAYERS ==> final(self).phase == Phase::WaitingForPlayers
                        && final(self).players@[n as int].hand@.len() == 0
                },
            },
    {
        if self.phase != Phase::WaitingForPlayers {
            return Err(TableError::HandInProgress);
        }
        if self.find_seat(id).is_some() {
            return Err(TableError::DuplicatePlayer);
        }
        let mut total: u64 = 0;
        let mut i: usize = 0;
        while i < self.players.len()
            invariant
                i <= self.players@.len(),
                total == sum_cash(self.players@.take(i as int)),
                sum_cash(self.players@) <= u64::MAX,
            decreases self.players@.len() - i,
        {
            proof {
                assert(self.players@.take(i + 1).drop_last() =~= self.players@.take(i as int));
                lemma_prefix_cash(self.players@, i + 1);
            }
            total = total + self.players[i].cash;
            i = i + 1;
        }
        proof {
            assert(self.players@.take(i as int) =~= self.players@);
        }
        if cash > u64::MAX - total {
            return Err(TableError::ChipOverflow);
        }
        let ghost s0 = *self;
        let p = Player::new(id, name, cash);
        self.players.push(p);
        self.acted.push(false);
        proof {
            let ps = self.players@;
            assert(ps.drop_last() =~= s0.players@);
            lemma_sums_nonneg(s0.players@);
            assert(hands_ms(ps) =~= hands_ms(s0.players@));
            assert forall|j: int| 0 <= j < ps.len() implies (#[trigger] ps[j]).hand@.len() == 0 && ps[j].bet == 0
                && ps[j].is_active by {
                if j < s0.players@.len() {
                    assert(ps[j] == s0.players@[j]);
                }
            }
            assert forall|j: int| 0 <= j < ps.len() implies !(#[trigger] self.acted@[j]) by {
                if j < s0.players@.len() {
                    assert(self.acted@[j] == s0.acted@[j]);
                }
            }
            assert forall|a: int, b: int| 0 <= a < ps.len() && 0 <= b < ps.len() && a != b
                implies ps[a].id != ps[b].id by {
                if a == ps.len() - 1 {
                    assert(ps[b] == s0.players@[b]);
                } else if b == ps.len() - 1 {
                    assert(ps[a] == s0.players@[a]);
                }
            }
        }
        if self.players.len() >= MIN_PLAYERS {
            self.start_game();
        }
        Ok(())
    }

    /// Ends the betting round of the current phase: deals the next phase's
    /// community cards (three for the flop, one for the turn and one for the
    /// river, none for the showdown) and opens the next round.
    pub fn advance_phase(&mut self)
        requires
            old(self).wf(),
            is_betting(old(self).phase),
        ensures
            final(self).wf(),
            phase_advanced(*old(self), *final(self)),
            final(self).community_cards@.len() == old(self).community_cards@.len()
                + cards_dealt_after(old(self).phase),
            is_betting(final(self).phase) ==> final(self).community_cards@.len()
                == community_count(final(self).phase),
    {
        self.advance_phase_from_core();
    }

    fn advance_phase_from_core(&mut self)
        requires
            old(self).wf_core(),
            is_betting(old(self).phase),
            active_count(old(self).players@) >= 2,
        ensures
            final(self).wf(),
            phase_advanced(*old(self), *final(self)),
            final(self).community_cards@.len() == old(self).community_cards@.len()
                + cards_dealt_after(old(self).phase),
    {
        let ghost s0 = *self;
        let k = self.phase.cards_dealt_after();
        let mut j: usize = 0;
        while j < k
            invariant
                s0.wf_core(),
                is_betting(s0.phase),
                k == cards_dealt_after(s0.phase),
                j <= k,
                self.deck@.len() == s0.deck@.len() - j,
                s0.deck@.len() >= k,
                self.deck@ == s0.deck@.take(s0.deck@.len() - j),
                self.community_cards@ == s0.community_cards@ + top_cards(s0.deck@, j as nat),
                self.deck@.to_multiset().add(self.community_cards@.to_multiset())
                    == s0.deck@.to_multiset().add(s0.community_cards@.to_multiset()),
                self.players == s0.players,
                self.pot == s0.pot,
                self.current_bet == s0.current_bet,
                self.phase == s0.phase,
                self.acted == s0.acted,
                self.dealer_position == s0.dealer_position,
                self.current_player == s0.current_player,
            decreases k - j,
        {
            let ghost d = self.deck@;
            let ghost c0 = self.community_cards@;
            match self.deck.deal() {
                Ok(c) => {
                    self.community_cards.push(c);
                    proof {
                        assert(d =~= self.deck@.push(c));
                        assert(top_cards(s0.deck@, (j + 1) as nat) =~= top_cards(s0.deck@, j as nat).push(c));
                        assert(self.community_cards@ =~= s0.community_cards@ + top_cards(s0.deck@, (j + 1) as nat));
                        assert(self.deck@ =~= s0.deck@.take(s0.deck@.len() - (j + 1)));
                        assert(self.deck@.to_multiset().add(self.community_cards@.to_multiset())
                            =~= d.to_multiset().add(c0.to_multiset()));
                    }
                }
                Err(_) => {}
            }
            j = j + 1;
        }
        proof {
            let h = hands_ms(s0.players@);
            assert forall|e: Card| #[trigger] self.deck@.to_multiset().add(h).add(self.community_cards@.to_multiset()).count(e)
                == s0.deck@.to_multiset().add(h).add(s0.community_cards@.to_multiset()).count(e) by {
                assert(self.deck@.to_multiset().add(self.community_cards@.to_multiset()).count(e)
                    == s0.deck@.to_multiset().add(s0.community_cards@.to_multiset()).count(e));
            }
            assert(self.deck@.to_multiset().add(h).add(self.community_cards@.to_multiset())
                =~= s0.deck@.to_multiset().add(h).add(s0.community_cards@.to_multiset()));
        }
        self.phase = self.phase.next();
        self.acted = all_unacted(self.players.len());
        if self.phase.is_betting() {
            proof {
                lemma_active_seat_exists(self.players@, 0);
            }
            self.current_player = self.next_active_seat(self.dealer_position);
        }
    }

    /// Passes the turn on. When at most one player is left in the hand, the
    /// hand ends at once (Showdown) instead of looking for a next player.
    pub fn advance_to_next_player(&mut self)
        requires
            old(self).wf_core(),
            is_betting(old(self).phase),
        ensures
            final(self).wf(),
            turn_passed(*old(self), *final(self)),
    {
        let active = self.count_active();
        if active <= 1 {
            self.phase = Phase::Showdown;
        } else {
            self.current_player = self.next_active_seat(self.current_player);
        }
    }

    /// Settles the table after an accepted bet or fold.
    fn finish_turn(&mut self)
        requires
            old(self).wf_core(),
            is_betting(old(self).phase),
        ensures
            final(self).wf(),
            settled(*old(self), *final(self)),
    {
        let active = self.count_active();
        if active >= 2 && self.is_round_complete() {
            self.advance_phase_from_core();
        } else {
            self.advance_to_next_player();
        }
    }

    /// The player `player_id` bets `amount` chips: they move from the
    /// player's cash into the pot, and the turn passes on or the round ends.
    /// A refused bet changes nothing.
    pub fn place_bet(&mut self, player_id: usize, amount: u64) -> (r: Result<(), TableError>)
        requires
            old(self).wf(),
        ensures
            final(self).wf(),
            match bet_error(*old(self), player_id, amount) {
                Some(e) => r == Err::<(), TableError>(e) && *final(self) == *old(self),
                None => r == Ok::<(), TableError>(()) && exists|m: GameState|
                    bet_applied(*old(self), m, seat_of(old(self).players@, player_id), amount)
                    && #[trigger] settled(m, *final(self)),
            },
    {
        let i = match self.find_seat(player_id) {
            Some(i) => i,
            None => { return Err(TableError::UnknownPlayer); }
        };
        if !self.players[i].is_active {
            return Err(TableError::InactivePlayer);
        }
        if !self.phase.is_betting() || i != self.current_player {
            return Err(TableError::OutOfTurn);
        }
        if self.players[i].cash < amount {
            return Err(TableError::InsufficientFunds);
        }
        let ghost s0 = *self;
        proof {
            lemma_member_bounded(s0.players@, i as int);
        }
        self.players[i].place_bet(amount);
        self.pot = self.pot + amount;
        let nb = self.players[i].bet;
        if nb > self.current_bet {
            self.current_bet = nb;
            self.acted = all_unacted(self.players.len());
        }
        self.acted.set(i, true);
        let ghost m = *self;
        proof {
            let p0 = s0.players@[i as int];
            let p1 = Player { cash: (p0.cash - amount) as u64, bet: (p0.bet + amount) as u64, ..p0 };
            assert(m.players@ == s0.players@.update(i as int, p1));
            lemma_hands_kept(s0.players@, i as int, p1);
            if nb > s0.current_bet {
                assert(m.acted@ =~= only_acted(s0.acted@.len(), i as int));
            } else {
                assert(m.acted@ == s0.acted@.update(i as int, true));
            }
            assert(bet_applied(s0, m, i as int, amount));
            assert forall|j: int| 0 <= j < m.players@.len() implies m.players@[j].bet <= m.current_bet by {
                if j != i as int {
                    assert(m.players@[j] == s0.players@[j]);
                }
            }
            assert(m.wf_core());
        }
        self.finish_turn();
        Ok(())
    }

    /// The player `player_id` folds: leaves the hand, and the turn passes on,
    /// the round ends, or the hand ends when one player is left. A refused
    /// fold changes nothing.
    pub fn fold(&mut self, player_id: usize) -> (r: Result<(), TableError>)
        requires
            old(self).wf(),
        ensures
            final(self).wf(),
            match fold_error(*old(self), player_id) {
                Some(e) => r == Err::<(), TableError>(e) && *final(self) == *old(self),
                None => r == Ok::<(), TableError>(()) && exists|m: GameState|
                    fold_applied(*old(self), m, seat_of(old(self).players@, player_id))
                    && #[trigger] settled(m, *final(self)),
            },
    {
        let i = match self.find_seat(player_id) {
            Some(i) => i,
            None => { return Err(TableError::UnknownPlayer); }
        };
        if !self.players[i].is_active {
            return Err(TableError::InactivePlayer);
        }
        if !self.phase.is_betting() || i != self.current_player {
            return Err(TableError::OutOfTurn);
        }
        let ghost s0 = *self;
        self.players[i].is_active = false;
        let ghost m = *self;
        proof {
            let p1 = Player { is_active: false, ..s0.players@[i as int] };
            assert(m.players@ == s0.players@.update(i as int, p1));
            lemma_hands_kept(s0.players@, i as int, p1);
            assert(fold_applied(s0, m, i as int));
            assert forall|j: int| 0 <= j < m.players@.len() implies m.players@[j].bet <= m.current_bet by {
                if j != i as int {
                    assert(m.players@[j] == s0.players@[j]);
                }
            }
            assert(m.wf_core());
        }
        self.finish_turn();
        Ok(())
    }
}

} // verus!
