use vstd::prelude::*;

verus! {

/// Why the table rejected an action. A rejected action leaves the table as
/// it was.
#[derive(Clone, Copy, Debug, PartialEq, Eq, Structural)]
pub enum TableError {
    /// The bet is larger than the player's cash.
    InsufficientFunds,
    /// No seated player has the given id.
    UnknownPlayer,
    /// The player has folded this hand.
    InactivePlayer,
    /// The deck has no card left to deal.
    EmptyDeck,
    /// It is not this player's turn, or no betting round is open.
    OutOfTurn,
    /// A join arrived after the hand had started.
    HandInProgress,
    /// A player with this id is already seated.
    DuplicatePlayer,
    /// The chips on the table would no longer fit in a `u64`.
    ChipOverflow,
}

} // verus!
