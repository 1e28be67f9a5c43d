//! The messages exchanged on the gameplay channel.

use vstd::prelude::*;
use crate::game::{Location, Movable};
use crate::protocol::NetworkSync;

verus! {

/// A stable integer identity for a connected player, assigned once per
/// connection by the server.
pub type PlayerId = u32;

/// Everything that travels on the gameplay channel, in either direction.
#[derive(Debug, Copy, Clone, PartialEq, Eq, Structural)]
pub enum GameEvent {
    /// Client to server: a command for a unit.
    PlayerCommand(PlayerCommand),
    /// Server to client: an authoritative state change.
    ServerUpdate(ServerEvent),
}

/// A client-issued command.
#[derive(Debug, Copy, Clone, PartialEq, Eq, Structural)]
pub enum PlayerCommand {
    /// Ask the server to retarget the named unit.
    PointerMoveChange(NetworkSync, Movable),
    /// A liveness probe with an arbitrary payload; has no gameplay effect.
    Ping(u32),
}

/// An immutable fact about server state, broadcast to every client.
#[derive(Debug, Copy, Clone, PartialEq, Eq, Structural)]
pub enum ServerEvent {
    /// A new owned pointer entity exists at the given location.
    PointerSpawn(NetworkSync, PlayerId, Location),
    /// The named entity's movement state and location changed.
    EntityMovementChange(NetworkSync, Movable, Location),
}

} // verus!
