use card_table::coordinator::{ConnectionRegistry, Coordinator, Outcome};
use card_table::error::TableError;
use card_table::protocol::Message;
use card_table::table::Phase;

#[test]
fn joins_seat_players_with_starting_cash_and_start_the_hand() {
    let mut c = Coordinator::new(100);
    assert_eq!(c.handle(3, Message::Join("Alice".to_string())), Outcome::Broadcast);
    assert_eq!(c.state.phase, Phase::WaitingForPlayers);
    assert_eq!(c.handle(5, Message::Join("Bob".to_string())), Outcome::Broadcast);
    assert_eq!(c.state.phase, Phase::PreFlop);
    assert_eq!(c.state.players[0].id, 3);
    assert_eq!(c.state.players[1].name, "Bob");
    assert_eq!(c.state.players[1].cash, 100);
    assert_eq!(
        c.handle(6, Message::Join("Carol".to_string())),
        Outcome::Rejected(TableError::HandInProgress)
    );
}

#[test]
fn bets_act_for_the_sending_connection() {
    let mut c = Coordinator::new(100);
    c.handle(3, Message::Join("Alice".to_string()));
    c.handle(5, Message::Join("Bob".to_string()));
    assert_eq!(c.handle(3, Message::Bet(0, 10)), Outcome::Broadcast);
    assert_eq!(c.state.players[0].cash, 90);
    assert_eq!(c.state.pot, 10);
    assert_eq!(c.handle(3, Message::Bet(5, 10)), Outcome::Rejected(TableError::OutOfTurn));
    assert_eq!(c.handle(5, Message::Bet(0, 10)), Outcome::Broadcast);
    assert_eq!(c.state.phase, Phase::Flop);
    assert_eq!(c.state.community_cards.len(), 3);
}

#[test]
fn refused_actions_are_reported_to_the_sender() {
    let mut c = Coordinator::new(5);
    c.handle(0, Message::Join("Alice".to_string()));
    c.handle(1, Message::Join("Bob".to_string()));
    assert_eq!(c.handle(0, Message::Bet(0, 10)), Outcome::Rejected(TableError::InsufficientFunds));
    assert_eq!(c.state.players[0].cash, 5);
    assert_eq!(c.handle(99, Message::Bet(99, 1)), Outcome::Rejected(TableError::UnknownPlayer));
    assert_eq!(c.handle(99, Message::Fold(99)), Outcome::Rejected(TableError::UnknownPlayer));
    assert_eq!(c.state.pot, 0);
}

#[test]
fn fold_through_the_coordinator_ends_the_hand() {
    let mut c = Coordinator::new(50);
    c.handle(0, Message::Join("Alice".to_string()));
    c.handle(1, Message::Join("Bob".to_string()));
    assert_eq!(c.handle(0, Message::Fold(0)), Outcome::Broadcast);
    assert_eq!(c.state.phase, Phase::Showdown);
}

#[test]
fn a_client_sending_a_snapshot_is_disconnected() {
    let mut c = Coordinator::new(50);
    let snapshot = Coordinator::new(1).state;
    assert_eq!(c.handle(0, Message::Update(snapshot)), Outcome::Disconnect);
    assert!(c.state.players.is_empty());
}

#[test]
fn registry_refuses_duplicate_ids() {
    let mut r = ConnectionRegistry::new();
    assert!(r.register(1));
    assert!(r.register(2));
    assert!(!r.register(1));
    assert_eq!(r.targets(), vec![1, 2]);
    assert!(r.contains(2));
    assert!(!r.contains(3));
}

#[test]
fn failed_write_drops_only_that_connection() {
    let mut r = ConnectionRegistry::new();
    for id in [4usize, 7, 9, 12] {
        r.register(id);
    }
    r.drop_failed(&vec![9]);
    assert_eq!(r.targets(), vec![4, 7, 12]);
    r.drop_failed(&Vec::new());
    assert_eq!(r.targets(), vec![4, 7, 12]);
    r.drop_failed(&vec![4, 12, 30]);
    assert_eq!(r.targets(), vec![7]);
}
