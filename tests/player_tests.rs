use card_table::card::{Card, Rank, Suit};
use card_table::player::Player;

#[test]
fn new_player_is_active_with_no_cards() {
    let p = Player::new(3, "Alice".to_string(), 100);
    assert_eq!(p.id, 3);
    assert_eq!(p.name, "Alice");
    assert_eq!(p.cash, 100);
    assert_eq!(p.bet, 0);
    assert!(p.is_active);
    assert!(p.hand.is_empty());
}

#[test]
fn add_card_appends_to_hand() {
    let mut p = Player::new(0, "Bob".to_string(), 10);
    p.add_card(Card::new(Rank::Two, Suit::Clubs));
    p.add_card(Card::new(Rank::Ace, Suit::Hearts));
    assert_eq!(p.hand.len(), 2);
    assert_eq!(p.hand[1].rank, Rank::Ace);
    assert_eq!(p.cash, 10);
}

#[test]
fn player_bet_moves_cash_to_bet() {
    let mut p = Player::new(0, "Bob".to_string(), 100);
    assert!(p.place_bet(30));
    assert_eq!(p.cash, 70);
    assert_eq!(p.bet, 30);
    assert!(p.place_bet(70));
    assert_eq!(p.cash, 0);
    assert_eq!(p.bet, 100);
}

#[test]
fn player_bet_beyond_cash_is_refused() {
    let mut p = Player::new(0, "Bob".to_string(), 5);
    assert!(!p.place_bet(10));
    assert_eq!(p.cash, 5);
    assert_eq!(p.bet, 0);
}

#[test]
fn winnings_add_to_cash() {
    let mut p = Player::new(0, "Bob".to_string(), 5);
    p.receive_winnings(20);
    assert_eq!(p.cash, 25);
    assert_eq!(p.bet, 0);
}
