use card_table::error::TableError;
use card_table::table::{GameState, Phase};

fn sum_bets(s: &GameState) -> u64 {
    s.players.iter().map(|p| p.bet).sum()
}

fn two_player_table(cash_a: u64, cash_b: u64) -> GameState {
    let mut s = GameState::new();
    s.add_player(0, "Alice".to_string(), cash_a).unwrap();
    s.add_player(1, "Bob".to_string(), cash_b).unwrap();
    s
}

fn all_cards(s: &GameState) -> Vec<(String, usize)> {
    let mut v: Vec<(String, usize)> = Vec::new();
    for c in s.deck.cards() {
        v.push((c.display(), 0));
    }
    for p in &s.players {
        for c in &p.hand {
            v.push((c.display(), 1));
        }
    }
    for c in &s.community_cards {
        v.push((c.display(), 2));
    }
    v
}

fn distinct_cards(s: &GameState) -> usize {
    let mut names: Vec<String> = all_cards(s).into_iter().map(|(n, _)| n).collect();
    names.sort();
    names.dedup();
    names.len()
}

#[test]
fn new_table_waits_for_players() {
    let s = GameState::new();
    assert_eq!(s.phase, Phase::WaitingForPlayers);
    assert!(s.players.is_empty());
    assert_eq!(s.pot, 0);
    assert_eq!(s.deck.len(), 52);
}

#[test]
fn one_player_does_not_start_the_hand() {
    let mut s = GameState::new();
    s.add_player(7, "Alice".to_string(), 100).unwrap();
    assert_eq!(s.phase, Phase::WaitingForPlayers);
    assert_eq!(s.players.len(), 1);
    assert!(s.players[0].hand.is_empty());
}

#[test]
fn two_players_play_to_the_flop() {
    let mut s = two_player_table(100, 100);
    assert_eq!(s.phase, Phase::PreFlop);
    assert_eq!(s.players[0].hand.len(), 2);
    assert_eq!(s.players[1].hand.len(), 2);
    assert_eq!(s.deck.len(), 48);
    assert_eq!(s.current_player, 0);
    assert_eq!(s.dealer_position, 1);

    s.place_bet(0, 10).unwrap();
    assert_eq!(s.pot, 10);
    assert_eq!(s.players[0].cash, 90);
    assert_eq!(s.current_bet, 10);
    assert_eq!(s.phase, Phase::PreFlop);
    assert_eq!(s.current_player, 1);

    s.place_bet(1, 10).unwrap();
    assert_eq!(s.pot, 20);
    assert_eq!(s.players[1].cash, 90);
    assert_eq!(s.phase, Phase::Flop);
    assert_eq!(s.community_cards.len(), 3);
    assert_eq!(s.deck.len(), 45);
    assert_eq!(s.current_player, 0);
    assert_eq!(distinct_cards(&s), 52);
}

#[test]
fn unknown_player_bet_changes_nothing() {
    let mut s = two_player_table(100, 100);
    assert_eq!(s.place_bet(99, 10), Err(TableError::UnknownPlayer));
    assert_eq!(s.pot, 0);
    assert_eq!(s.players[0].cash, 100);
    assert_eq!(s.players[1].cash, 100);
    assert_eq!(s.current_player, 0);
}

#[test]
fn bet_beyond_cash_is_refused() {
    let mut s = two_player_table(5, 100);
    assert_eq!(s.place_bet(0, 10), Err(TableError::InsufficientFunds));
    assert_eq!(s.players[0].cash, 5);
    assert_eq!(s.pot, 0);
    assert_eq!(s.current_player, 0);
}

#[test]
fn bet_out_of_turn_is_refused() {
    let mut s = two_player_table(100, 100);
    assert_eq!(s.place_bet(1, 10), Err(TableError::OutOfTurn));
    assert_eq!(s.fold(1), Err(TableError::OutOfTurn));
    assert_eq!(s.players[1].cash, 100);
    assert!(s.players[1].is_active);
}

#[test]
fn bet_before_the_hand_is_refused() {
    let mut s = GameState::new();
    s.add_player(0, "Alice".to_string(), 100).unwrap();
    assert_eq!(s.place_bet(0, 10), Err(TableError::OutOfTurn));
    assert_eq!(s.fold(0), Err(TableError::OutOfTurn));
    assert_eq!(s.players[0].cash, 100);
}

#[test]
fn fold_with_two_players_ends_the_hand() {
    let mut s = two_player_table(100, 100);
    s.place_bet(0, 10).unwrap();
    s.fold(1).unwrap();
    assert!(!s.players[1].is_active);
    assert_eq!(s.phase, Phase::Showdown);
    assert_eq!(s.pot, 10);
    assert_eq!(s.place_bet(1, 5), Err(TableError::InactivePlayer));
    assert_eq!(s.fold(1), Err(TableError::InactivePlayer));
    assert_eq!(s.place_bet(0, 5), Err(TableError::OutOfTurn));
}

#[test]
fn unknown_player_fold_is_refused() {
    let mut s = two_player_table(100, 100);
    assert_eq!(s.fold(42), Err(TableError::UnknownPlayer));
    assert!(s.players.iter().all(|p| p.is_active));
}

#[test]
fn join_after_start_is_refused() {
    let mut s = two_player_table(100, 100);
    assert_eq!(s.add_player(2, "Carol".to_string(), 100), Err(TableError::HandInProgress));
    assert_eq!(s.players.len(), 2);
}

#[test]
fn duplicate_join_is_refused() {
    let mut s = GameState::new();
    s.add_player(4, "Alice".to_string(), 100).unwrap();
    assert_eq!(s.add_player(4, "Again".to_string(), 100), Err(TableError::DuplicatePlayer));
    assert_eq!(s.players.len(), 1);
    assert_eq!(s.phase, Phase::WaitingForPlayers);
}

#[test]
fn join_that_overflows_chips_is_refused() {
    let mut s = GameState::new();
    s.add_player(0, "Rich".to_string(), u64::MAX).unwrap();
    assert_eq!(s.add_player(1, "Poor".to_string(), 1), Err(TableError::ChipOverflow));
    assert_eq!(s.players.len(), 1);
    s.add_player(1, "Broke".to_string(), 0).unwrap();
    assert_eq!(s.phase, Phase::PreFlop);
}

#[test]
fn raise_reopens_the_round() {
    let mut s = two_player_table(100, 100);
    s.place_bet(0, 10).unwrap();
    s.place_bet(1, 30).unwrap();
    assert_eq!(s.current_bet, 30);
    assert_eq!(s.phase, Phase::PreFlop);
    assert_eq!(s.current_player, 0);
    s.place_bet(0, 20).unwrap();
    assert_eq!(s.phase, Phase::Flop);
    assert_eq!(s.pot, 60);
    assert_eq!(s.players[0].cash, 70);
    assert_eq!(s.players[1].cash, 70);
}

#[test]
fn community_cards_follow_the_phases() {
    let mut s = two_player_table(100, 100);
    assert_eq!(s.community_cards.len(), 0);
    let expected = [(Phase::Flop, 3), (Phase::Turn, 4), (Phase::River, 5), (Phase::Showdown, 5)];
    for (phase, count) in expected.iter() {
        s.place_bet(0, 0).unwrap();
        s.place_bet(1, 0).unwrap();
        assert_eq!(s.phase, *phase);
        assert_eq!(s.community_cards.len(), *count);
        assert_eq!(distinct_cards(&s), 52);
        assert_eq!(all_cards(&s).len(), 52);
    }
    assert_eq!(s.deck.len(), 52 - 4 - 5);
}

#[test]
fn pot_equals_bets_after_every_action() {
    let mut s = two_player_table(100, 100);
    let actions: [(usize, u64); 7] = [(0, 5), (1, 10), (0, 5), (1, 0), (0, 20), (1, 20), (0, 3)];
    for (id, amount) in actions.iter() {
        let _ = s.place_bet(*id, *amount);
        assert_eq!(s.pot, sum_bets(&s));
        let total: u64 = s.players.iter().map(|p| p.cash + p.bet).sum();
        assert_eq!(total, 200);
    }
    let _ = s.fold(1);
    assert_eq!(s.pot, sum_bets(&s));
}

#[test]
fn turn_is_always_with_an_active_player() {
    let mut s = two_player_table(100, 100);
    let actions: [(usize, u64); 6] = [(0, 10), (1, 10), (0, 0), (1, 5), (0, 5), (0, 0)];
    for (id, amount) in actions.iter() {
        s.place_bet(*id, *amount).unwrap();
        if s.phase != Phase::Showdown {
            assert!(s.players[s.current_player].is_active);
        }
    }
    let cur = s.players[s.current_player].id;
    s.fold(cur).unwrap();
    assert_eq!(s.phase, Phase::Showdown);
}
