use card_table::card::{Card, Rank, Suit};
use card_table::deck::Deck;
use card_table::error::TableError;

fn key(c: &Card) -> (usize, usize) {
    let suit = match c.suit {
        Suit::Hearts => 0,
        Suit::Diamonds => 1,
        Suit::Clubs => 2,
        Suit::Spades => 3,
    };
    (suit, c.rank.index() as usize)
}

fn distinct(cards: &[Card]) -> usize {
    let mut keys: Vec<(usize, usize)> = cards.iter().map(key).collect();
    keys.sort();
    keys.dedup();
    keys.len()
}

#[test]
fn fresh_deck_has_52_distinct_cards() {
    let d = Deck::new();
    assert_eq!(d.len(), 52);
    assert_eq!(distinct(d.cards()), 52);
}

#[test]
fn shuffle_keeps_the_same_52_cards() {
    let fresh = Deck::new();
    let mut before: Vec<(usize, usize)> = fresh.cards().iter().map(key).collect();
    before.sort();
    for _ in 0..20 {
        let mut d = Deck::new();
        d.shuffle();
        assert_eq!(d.len(), 52);
        assert_eq!(distinct(d.cards()), 52);
        let mut after: Vec<(usize, usize)> = d.cards().iter().map(key).collect();
        after.sort();
        assert_eq!(after, before);
    }
}

#[test]
fn shuffle_changes_the_order() {
    let fresh: Vec<(usize, usize)> = Deck::new().cards().iter().map(key).collect();
    let mut moved = false;
    for _ in 0..5 {
        let mut d = Deck::new();
        d.shuffle();
        let order: Vec<(usize, usize)> = d.cards().iter().map(key).collect();
        if order != fresh {
            moved = true;
        }
    }
    assert!(moved);
}

#[test]
fn fifty_third_deal_fails() {
    let mut d = Deck::new();
    d.shuffle();
    for _ in 0..52 {
        assert!(d.deal().is_ok());
    }
    assert_eq!(d.len(), 0);
    assert!(matches!(d.deal(), Err(TableError::EmptyDeck)));
    assert_eq!(d.len(), 0);
}

#[test]
fn deal_takes_the_top_card() {
    let mut d = Deck::new();
    let c = d.deal().unwrap();
    assert_eq!(c.rank, Rank::Ace);
    assert_eq!(c.suit, Suit::Spades);
    assert_eq!(d.len(), 51);
    let c2 = d.deal().unwrap();
    assert_eq!(c2.rank, Rank::King);
    assert_eq!(c2.suit, Suit::Spades);
}

#[test]
fn fresh_deck_order_is_suit_by_suit() {
    let d = Deck::new();
    let cards = d.cards();
    assert_eq!(cards[0].rank, Rank::Two);
    assert_eq!(cards[0].suit, Suit::Hearts);
    assert_eq!(cards[12].rank, Rank::Ace);
    assert_eq!(cards[13].suit, Suit::Diamonds);
    assert_eq!(cards[51].suit, Suit::Spades);
}

#[test]
fn card_display_names_rank_and_suit() {
    assert_eq!(Card::new(Rank::Ten, Suit::Hearts).display(), "10 of Hearts");
    assert_eq!(Card::new(Rank::Ace, Suit::Spades).display(), "A of Spades");
    assert_eq!(Card::new(Rank::Two, Suit::Clubs).display(), "2 of Clubs");
}

#[test]
fn cards_compare_by_rank_only() {
    let a = Card::new(Rank::Queen, Suit::Hearts);
    let b = Card::new(Rank::Queen, Suit::Spades);
    let c = Card::new(Rank::King, Suit::Hearts);
    assert!(a == b);
    assert!(a != c);
    assert!(a < c);
    assert!(c > b);
    assert_eq!(a.partial_cmp(&b), Some(std::cmp::Ordering::Equal));
}

#[test]
fn rank_index_round_trips() {
    for i in 0u8..13 {
        assert_eq!(Rank::from_index(i).index(), i);
    }
    assert_eq!(Rank::from_index(8).label(), "10");
    assert_eq!(Suit::from_index(1).label(), "Diamonds");
}
