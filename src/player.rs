use vstd::prelude::*;
use crate::card::Card;

verus! {

/// A seated player: chips in hand (`cash`), chips committed to the pot this
/// hand (`bet`), hole cards, and whether the player is still in the hand.
#[derive(Clone, Debug)]
pub struct Player {
    pub id: usize,
    pub name: String,
    pub cash: u64,
    pub hand: Vec<Card>,
    pub bet: u64,
    pub is_active: bool,
}

impl Player {
    /// A player who has just sat down: no cards, nothing bet, in the hand.
    pub fn new(id: usize, name: String, cash: u64) -> (p: Player)
        ensures
            p.id == id,
            p.name == name,
            p.cash == cash,
            p.hand@.len() == 0,
            p.bet == 0,
            p.is_active,
    {
        Player { id, name, cash, hand: Vec::new(), bet: 0, is_active: true }
    }

    /// Gives the player one more hole card.
    pub fn add_card(&mut self, card: Card)
        ensures
            final(self).hand@ == old(self).hand@.push(card),
            final(self).id == old(self).id,
            final(self).name == old(self).name,
            final(self).cash == old(self).cash,
            final(self).bet == old(self).bet,
            final(self).is_active == old(self).is_active,
    {
        self.hand.push(card);
    }

    /// Moves `amount` chips from cash to the player's bet, if the cash
    /// covers it; otherwise changes nothing and returns false.
    pub fn place_bet(&mut self, amount: u64) -> (ok: bool)
        requires
            old(self).cash + old(self).bet <= u64::MAX,
        ensures
            ok == (amount <= old(self).cash),
            ok ==> *final(self) == (Player {
                cash: (old(self).cash - amount) as u64,
                bet: (old(self).bet + amount) as u64,
                ..*old(self)
            }),
            !ok ==> *final(self) == *old(self),
    {
        if self.cash >= amount {
            self.cash = self.cash - amount;
            self.bet = self.bet + amount;
            true
        } else {
            false
        }
    }

    /// Adds chips won from the pot to the player's cash.
    pub fn receive_winnings(&mut self, amount: u64)
        requires
            old(self).cash + amount <= u64::MAX,
        ensures
            *final(self) == (Player { cash: (old(self).cash + amount) as u64, ..*old(self) }),
    {
        self.cash = self.cash + amount;
    }
}

} // verus!
