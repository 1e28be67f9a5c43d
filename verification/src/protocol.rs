//! Identities and session metadata: network-wide entity names, per-connection
//! player identification, and the model of transport-level connection events.

use vstd::prelude::*;
use crate::events::PlayerId;

verus! {

/// A 32-bit identifier naming one synchronized entity across the server and
/// all clients; generated once, at entity creation.
pub type NetworkObjectId = u32;

/// The transport's identifier for one peer connection; used only to route
/// messages, never exposed to game logic beyond the identity registry.
pub type ConnectionHandle = u32;

/// Draw a fresh random entity identifier.
pub fn generate_network_id() -> NetworkObjectId {
    crate::get_random()
}

/// What the transport reports about a peer connection. Payload bytes and
/// error details stay with the transport; only the routing handle matters
/// to the protocol.
#[derive(Debug, Clone, Copy, PartialEq, Eq, Structural)]
pub enum NetworkEvent {
    Connected(ConnectionHandle),
    Disconnected(ConnectionHandle),
    Packet(ConnectionHandle),
    Error(ConnectionHandle),
}

/// Everything that travels on the metadata channel (server to client).
#[derive(Debug, Clone)]
pub enum MetaInformation {
    ClientIdentificationMessage(ClientIdentification),
    DisconnectReason(String),
}

/// The identity a server assigned to one connection.
#[derive(Debug, Clone, Copy, PartialEq, Eq, Structural)]
pub struct ClientIdentification {
    pub player_id: PlayerId,
}

impl ClientIdentification {
    pub fn new(id: PlayerId) -> (c: ClientIdentification)
        ensures
            c.player_id == id,
    {
        ClientIdentification { player_id: id }
    }

    /// Adopt a newly received identity (last writer wins).
    pub fn update(&mut self, other: ClientIdentification)
        ensures
            *final(self) == other,
    {
        self.player_id = other.player_id;
    }
}

/// The network-wide name of one synchronized entity.
#[derive(Debug, Clone, Copy, PartialEq, Eq, Structural)]
pub struct NetworkSync {
    pub unique_id: NetworkObjectId,
}

impl NetworkSync {
    /// Name a new entity with a freshly drawn random identifier.
    pub fn new() -> NetworkSync {
        NetworkSync { unique_id: generate_network_id() }
    }
}

} // verus!
