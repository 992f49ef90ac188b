use vstd::prelude::*;

verus! {

/// The thirteen ranks, from lowest to highest.
#[derive(Clone, Copy, Debug, PartialEq, Eq, Structural)]
pub enum Rank {
    Two,
    Three,
    Four,
    Five,
    Six,
    Seven,
    Eight,
    Nine,
    Ten,
    Jack,
    Queen,
    King,
    Ace,
}

/// The four suits.
#[derive(Clone, Copy, Debug, PartialEq, Eq, Structural)]
pub enum Suit {
    Hearts,
    Diamonds,
    Clubs,
    Spades,
}

/// Position of a rank in the order Two < Three < ... < Ace.
pub open spec fn rank_index(r: Rank) -> nat {
    match r {
        Rank::Two => 0,
        Rank::Three => 1,
        Rank::Four => 2,
        Rank::Five => 3,
        Rank::Six => 4,
        Rank::Seven => 5,
        Rank::Eight => 6,
        Rank::Nine => 7,
        Rank::Ten => 8,
        Rank::Jack => 9,
        Rank::Queen => 10,
        Rank::King => 11,
        Rank::Ace => 12,
    }
}

pub open spec fn suit_index(s: Suit) -> nat {
    match s {
        Suit::Hearts => 0,
        Suit::Diamonds => 1,
        Suit::Clubs => 2,
        Suit::Spades => 3,
    }
}

/// The rank at a position of the rank order.
pub open spec fn rank_at(i: nat) -> Rank {
    if i == 0 { Rank::Two }
    else if i == 1 { Rank::Three }
    else if i == 2 { Rank::Four }
    else if i == 3 { Rank::Five }
    else if i == 4 { Rank::Six }
    else if i == 5 { Rank::Seven }
    else if i == 6 { Rank::Eight }
    else if i == 7 { Rank::Nine }
    else if i == 8 { Rank::Ten }
    else if i == 9 { Rank::Jack }
    else if i == 10 { Rank::Queen }
    else if i == 11 { Rank::King }
    else { Rank::Ace }
}

pub open spec fn suit_at(i: nat) -> Suit {
    if i == 0 { Suit::Hearts }
    else if i == 1 { Suit::Diamonds }
    else if i == 2 { Suit::Clubs }
    else { Suit::Spades }
}

pub open spec fn rank_label(r: Rank) -> Seq<char> {
    match r {
        Rank::Two => "2"@,
        Rank::Three => "3"@,
        Rank::Four => "4"@,
        Rank::Five => "5"@,
        Rank::Six => "6"@,
        Rank::Seven => "7"@,
        Rank::Eight => "8"@,
        Rank::Nine => "9"@,
        Rank::Ten => "10"@,
        Rank::Jack => "J"@,
        Rank::Queen => "Q"@,
        Rank::King => "K"@,
        Rank::Ace => "A"@,
    }
}

pub open spec fn suit_label(s: Suit) -> Seq<char> {
    match s {
        Suit::Hearts => "Hearts"@,
        Suit::Diamonds => "Diamonds"@,
        Suit::Clubs => "Clubs"@,
        Suit::Spades => "Spades"@,
    }
}

impl Rank {
    /// The rank's position in the order Two < ... < Ace.
    pub fn index(&self) -> (r: u8)
        ensures
            r as nat == rank_index(*self),
    {
        match self {
            Rank::Two => 0,
            Rank::Three => 1,
            Rank::Four => 2,
            Rank::Five => 3,
            Rank::Six => 4,
            Rank::Seven => 5,
            Rank::Eight => 6,
            Rank::Nine => 7,
            Rank::Ten => 8,
            Rank::Jack => 9,
            Rank::Queen => 10,
            Rank::King => 11,
            Rank::Ace => 12,
        }
    }

    /// The rank at position `i` of the rank order.
    pub fn from_index(i: u8) -> (r: Rank)
        requires
            i < 13,
        ensures
            r == rank_at(i as nat),
            rank_index(r) == i as nat,
    {
        if i == 0 { Rank::Two }
        else if i == 1 { Rank::Three }
        else if i == 2 { Rank::Four }
        else if i == 3 { Rank::Five }
        else if i == 4 { Rank::Six }
        else if i == 5 { Rank::Seven }
        else if i == 6 { Rank::Eight }
        else if i == 7 { Rank::Nine }
        else if i == 8 { Rank::Ten }
        else if i == 9 { Rank::Jack }
        else if i == 10 { Rank::Queen }
        else if i == 11 { Rank::King }
        else { Rank::Ace }
    }

    pub fn label(&self) -> (r: &'static str)
        ensures
            r@ == rank_label(*self),
    {
        match self {
            Rank::Two => "2",
            Rank::Three => "3",
            Rank::Four => "4",
            Rank::Five => "5",
            Rank::Six => "6",
            Rank::Seven => "7",
            Rank::Eight => "8",
            Rank::Nine => "9",
            Rank::Ten => "10",
            Rank::Jack => "J",
            Rank::Queen => "Q",
            Rank::King => "K",
            Rank::Ace => "A",
        }
    }
}

impl Suit {
    pub fn from_index(i: u8) -> (s: Suit)
        requires
            i < 4,
        ensures
            s == suit_at(i as nat),
            suit_index(s) == i as nat,
    {
        if i == 0 { Suit::Hearts }
        else if i == 1 { Suit::Diamonds }
        else if i == 2 { Suit::Clubs }
        else { Suit::Spades }
    }

    pub fn label(&self) -> (r: &'static str)
        ensures
            r@ == suit_label(*self),
    {
        match self {
            Suit::Hearts => "Hearts",
            Suit::Diamonds => "Diamonds",
            Suit::Clubs => "Clubs",
            Suit::Spades => "Spades",
        }
    }
}

/// A playing card. At run time two cards compare equal, and are ordered, by
/// rank alone; in proofs `==` on cards still tells suits apart.
#[derive(Clone, Copy, Debug)]
pub struct Card {
    pub rank: Rank,
    pub suit: Suit,
}

/// Relies on `format!`: the rank's label, " of ", then the suit's label.
#[verifier::external_body]
fn join_label(rank: &str, suit: &str) -> (r: String)
    ensures
        r@ == rank@ + " of "@ + suit@,
{
    format!("{} of {}", rank, suit)
}

impl Card {
    pub fn new(rank: Rank, suit: Suit) -> (c: Card)
        ensures
            c.rank == rank,
            c.suit == suit,
    {
        Card { rank, suit }
    }

    /// Human readable name, such as "10 of Hearts".
    pub fn display(&self) -> (r: String)
        ensures
            r@ == rank_label(self.rank) + " of "@ + suit_label(self.suit),
    {
        join_label(self.rank.label(), self.suit.label())
    }
}

impl PartialEq for Card {
    fn eq(&self, other: &Card) -> (r: bool) {
        self.rank.index() == other.rank.index()
    }
}

impl vstd::std_specs::cmp::PartialEqSpecImpl for Card {
    open spec fn obeys_eq_spec() -> bool {
        true
    }

    open spec fn eq_spec(&self, other: &Card) -> bool {
        rank_index(self.rank) == rank_index(other.rank)
    }
}

impl PartialOrd for Card {
    fn partial_cmp(&self, other: &Card) -> (r: Option<core::cmp::Ordering>) {
        let a = self.rank.index();
        let b = other.rank.index();
        if a < b {
            Some(core::cmp::Ordering::Less)
        } else if a > b {
            Some(core::cmp::Ordering::Greater)
        } else {
            Some(core::cmp::Ordering::Equal)
        }
    }
}

impl vstd::std_specs::cmp::PartialOrdSpecImpl for Card {
    open spec fn obeys_partial_cmp_spec() -> bool {
        true
    }

    open spec fn partial_cmp_spec(&self, other: &Card) -> Option<core::cmp::Ordering> {
        if rank_index(self.rank) < rank_index(other.rank) {
            Some(core::cmp::Ordering::Less)
        } else if rank_index(self.rank) > rank_index(other.rank) {
            Some(core::cmp::Ordering::Greater)
        } else {
            Some(core::cmp::Ordering::Equal)
        }
    }
}

} // verus!
