//! Authoritative state of a networked card table: the deck, the players,
//! the betting rounds, the coordinator that applies client actions one at a
//! time, and the framing of the wire protocol.
pub mod card;
pub mod deck;
pub mod error;
pub mod player;
pub mod table;
pub mod laws;
pub mod protocol;
pub mod coordinator;
