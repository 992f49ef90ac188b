use vstd::prelude::*;
use crate::card::Card;
use crate::deck::{full_deck, lemma_full_deck_distinct};
use crate::player::Player;
use crate::table::{
    GameState, Phase, active_count, hands_ms, phase_order, bet_applied, fold_applied, is_betting, lemma_hands_kept,
    lemma_member_bounded, settled, sum_bets,
};

verus! {

/// An accepted bet or fold, and everything that follows it (the turn
/// passing on, the phase advancing or the hand ending), keeps the pot equal
/// to the sum of all players' bets.
pub proof fn lemma_action_keeps_pot_equal_to_bets(
    s: GameState,
    m: GameState,
    f: GameState,
    i: int,
    amount: u64,
    is_bet: bool,
)
    requires
        s.wf(),
        0 <= i < s.players@.len(),
        is_bet ==> amount <= s.players@[i].cash && bet_applied(s, m, i, amount),
        !is_bet ==> fold_applied(s, m, i),
        settled(m, f),
    ensures
        s.pot == sum_bets(s.players@),
        f.pot == sum_bets(f.players@),
{
    let p = s.players@[i];
    lemma_member_bounded(s.players@, i);
    if is_bet {
        lemma_hands_kept(s.players@, i, Player { cash: (p.cash - amount) as u64, bet: (p.bet + amount) as u64, ..p });
    } else {
        lemma_hands_kept(s.players@, i, Player { is_active: false, ..p });
    }
}

/// Whenever a betting round is open the turn is with a player still in the
/// hand; once at most one player is left in a started hand, the hand is
/// over.
pub proof fn lemma_turn_is_with_active_player(s: GameState)
    requires
        s.wf(),
    ensures
        is_betting(s.phase) ==> 0 <= s.current_player < s.players@.len()
            && s.players@[s.current_player as int].is_active,
        s.phase != Phase::WaitingForPlayers && active_count(s.players@) <= 1 ==> s.phase == Phase::Showdown,
{
}

/// After an accepted action, a hand with at most one player left ends at
/// once, and otherwise the turn lands on a player still in the hand.
pub proof fn lemma_settled_turn(m: GameState, f: GameState)
    requires
        m.wf_core(),
        is_betting(m.phase),
        settled(m, f),
    ensures
        active_count(m.players@) <= 1 ==> f.phase == Phase::Showdown,
        is_betting(f.phase) ==> f.players@[f.current_player as int].is_active,
{
}

/// Each phase change deals the prescribed community cards: the flop makes
/// three, the turn four, the river five, and the showdown deals none.
pub proof fn lemma_community_cards_by_phase(s: GameState)
    requires
        s.wf(),
    ensures
        s.phase == Phase::PreFlop ==> s.community_cards@.len() == 0,
        s.phase == Phase::Flop ==> s.community_cards@.len() == 3,
        s.phase == Phase::Turn ==> s.community_cards@.len() == 4,
        s.phase == Phase::River ==> s.community_cards@.len() == 5,
{
}

/// Advancing from a phase deals the number of cards that makes the next
/// phase's count, and the step from the river to the showdown deals none.
pub proof fn lemma_phase_step_deals(m: GameState, f: GameState)
    requires
        m.wf(),
        is_betting(m.phase),
        crate::table::phase_advanced(m, f),
    ensures
        m.phase == Phase::PreFlop ==> f.phase == Phase::Flop && f.community_cards@.len() == 3,
        m.phase == Phase::Flop ==> f.phase == Phase::Turn && f.community_cards@.len() == 4,
        m.phase == Phase::Turn ==> f.phase == Phase::River && f.community_cards@.len() == 5,
        m.phase == Phase::River ==> f.phase == Phase::Showdown
            && f.community_cards@ == m.community_cards@,
{
    assert(m.community_cards@ + crate::table::top_cards(m.deck@, 0) =~= m.community_cards@);
}

/// Every one of the 52 cards lies in exactly one place at a time: in the
/// deck, in one player's hand, or among the community cards; no card is
/// ever held twice.
pub proof fn lemma_each_card_in_one_place(s: GameState)
    requires
        s.wf_core(),
    ensures
        ({
            let all = s.deck@.to_multiset().add(hands_ms(s.players@)).add(s.community_cards@.to_multiset());
            &&& all.len() == 52
            &&& forall|c: Card| #[trigger] all.count(c) <= 1
        }),
{
    broadcast use vstd::seq_lib::group_to_multiset_ensures;
    lemma_full_deck_distinct();
    full_deck().lemma_multiset_has_no_duplicates();
    assert(full_deck().to_multiset().len() == 52);
    assert forall|c: Card| #[trigger] full_deck().to_multiset().count(c) <= 1 by {
        if full_deck().to_multiset().count(c) > 0 {
            assert(full_deck().to_multiset().contains(c));
        }
    }
}

/// The phase never moves back: an accepted action leaves it where it was
/// or moves it forward.
pub proof fn lemma_phase_moves_forward(m: GameState, f: GameState)
    requires
        is_betting(m.phase),
        settled(m, f),
    ensures
        phase_order(f.phase) >= phase_order(m.phase),
{
}

} // verus!
