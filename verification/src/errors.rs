//! Error conditions raised while processing player commands.
//!
//! All of them are contained within the tick in which they occur: a failed
//! command is dropped and recorded for diagnostics, never escalated.

use vstd::prelude::*;
use crate::events::PlayerId;
use crate::protocol::NetworkObjectId;

verus! {

/// Why a player command was rejected by the server-side validator.
#[derive(Debug, Clone, Copy, PartialEq, Eq, Structural)]
pub enum PlayerCommandValidationError {
    /// The requesting player does not own the unit the command names.
    NotOwned { attempted: PlayerId, owner: PlayerId },
}

/// Why a brand-new entity could not be added to the store.
#[derive(Debug, Clone, Copy, PartialEq, Eq, Structural)]
pub enum EntityInsertError {
    /// The randomly drawn identifier is already in use; the caller may draw
    /// a fresh one and retry instead of silently overwriting.
    DuplicateNetworkId { id: NetworkObjectId },
}

} // verus!
