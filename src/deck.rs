use rand::seq::SliceRandom;
use vstd::prelude::*;
use crate::card::{Card, Rank, Suit, rank_at, suit_at, rank_index, suit_index};
use crate::error::TableError;

verus! {

/// Number of cards in a full deck.
pub const DECK_SIZE: usize = 52;

/// The card at position `i` of a fresh deck: suits in the order Hearts,
/// Diamonds, Clubs, Spades, and within each suit the ranks from Two to Ace.
pub open spec fn card_at(i: int) -> Card {
    Card { rank: rank_at((i % 13) as nat), suit: suit_at((i / 13) as nat) }
}

/// A fresh, unshuffled deck: one card of each rank and suit.
pub open spec fn full_deck() -> Seq<Card> {
    Seq::new(52, |i: int| card_at(i))
}

/// An ordered pile of cards; the top card is the last one.
pub struct Deck {
    cards: Vec<Card>,
}

impl View for Deck {
    type V = Seq<Card>;

    closed spec fn view(&self) -> Seq<Card> {
        self.cards@
    }
}

/// Relies on rand's `SliceRandom::shuffle` with `thread_rng()`: it only swaps
/// elements of the slice, so the result is a permutation of its input.
#[verifier::external_body]
fn shuffle_cards(cards: &mut Vec<Card>)
    ensures
        final(cards)@.to_multiset() == old(cards)@.to_multiset(),
{
    cards.shuffle(&mut rand::thread_rng());
}

proof fn lemma_index_round_trip(i: int)
    requires
        0 <= i < 52,
    ensures
        rank_index(card_at(i).rank) == i % 13,
        suit_index(card_at(i).suit) == i / 13,
        i == 13 * (i / 13) + i % 13,
{
}

/// A fresh deck holds 52 cards, no two alike.
pub proof fn lemma_full_deck_distinct()
    ensures
        full_deck().len() == 52,
        full_deck().no_duplicates(),
{
    assert forall|i: int, j: int|
        0 <= i < full_deck().len() && 0 <= j < full_deck().len() && i != j
        implies full_deck()[i] != full_deck()[j] by {
        lemma_index_round_trip(i);
        lemma_index_round_trip(j);
    }
}

/// A permutation of a pile keeps its size and its set of cards, and a pile
/// without duplicates stays without duplicates.
pub proof fn lemma_permutation_keeps_cards(before: Seq<Card>, after: Seq<Card>)
    requires
        after.to_multiset() == before.to_multiset(),
    ensures
        after.len() == before.len(),
        forall|c: Card| after.contains(c) <==> before.contains(c),
        before.no_duplicates() ==> after.no_duplicates(),
{
    broadcast use vstd::seq_lib::group_to_multiset_ensures;
    assert(after.len() == after.to_multiset().len());
    assert(before.len() == before.to_multiset().len());
    assert forall|c: Card| after.contains(c) <==> before.contains(c) by {
        assert(after.contains(c) <==> after.to_multiset().count(c) > 0);
        assert(before.contains(c) <==> before.to_multiset().count(c) > 0);
    }
    if before.no_duplicates() {
        before.lemma_multiset_has_no_duplicates();
        after.lemma_multiset_has_no_duplicates_conv();
    }
}

impl Deck {
    /// A fresh deck in the order of `full_deck`.
    pub fn new() -> (d: Deck)
        ensures
            d@ == full_deck(),
    {
        let mut cards: Vec<Card> = Vec::new();
        let mut s: u8 = 0;
        while s < 4
            invariant
                s <= 4,
                cards@ == full_deck().take(13 * s as int),
            decreases 4 - s,
        {
            let mut r: u8 = 0;
            while r < 13
                invariant
                    s < 4,
                    r <= 13,
                    cards@ == full_deck().take(13 * s as int + r as int),
                decreases 13 - r,
            {
                let c = Card::new(Rank::from_index(r), Suit::from_index(s));
                proof {
                    let k = 13 * s as int + r as int;
                    assert(k % 13 == r as int && k / 13 == s as int);
                    assert(full_deck()[k] == c);
                    assert(full_deck().take(k + 1) =~= full_deck().take(k).push(c));
                }
                cards.push(c);
                r = r + 1;
            }
            s = s + 1;
        }
        assert(cards@ =~= full_deck());
        Deck { cards }
    }

    /// A pile holding exactly these cards, the top card last.
    pub fn from_cards(cards: Vec<Card>) -> (d: Deck)
        ensures
            d@ == cards@,
    {
        Deck { cards }
    }

    /// The cards left, the top card last.
    pub fn cards(&self) -> (r: &Vec<Card>)
        ensures
            r@ == self@,
    {
        &self.cards
    }

    /// Number of cards left.
    pub fn len(&self) -> (n: usize)
        ensures
            n == self@.len(),
    {
        self.cards.len()
    }

    /// Puts the cards in a random order, keeping the same cards.
    pub fn shuffle(&mut self)
        ensures
            final(self)@.to_multiset() == old(self)@.to_multiset(),
            final(self)@.len() == old(self)@.len(),
            old(self)@.no_duplicates() ==> final(self)@.no_duplicates(),
    {
        shuffle_cards(&mut self.cards);
        proof {
            lemma_permutation_keeps_cards(old(self)@, self@);
        }
    }

    /// Removes and returns the top card; fails when the deck is empty.
    pub fn deal(&mut self) -> (r: Result<Card, TableError>)
        ensures
            old(self)@.len() == 0 ==> r == Err::<Card, TableError>(TableError::EmptyDeck)
                && final(self)@ == old(self)@,
            old(self)@.len() > 0 ==> r == Ok::<Card, TableError>(old(self)@.last())
                && final(self)@ == old(self)@.drop_last(),
    {
        match self.cards.pop() {
            Some(c) => Ok(c),
            None => Err(TableError::EmptyDeck),
        }
    }
}

} // verus!
