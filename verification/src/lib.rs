//! An authoritative entity-synchronization protocol for a shared set of
//! movable, player-owned tokens.
//!
//! Remote clients command the tokens they own; a single authoritative server
//! validates each command against ownership, advances active tokens toward
//! their targets once per fixed tick, and broadcasts every observed change so
//! that all connected clients converge to the server's state. Newly joined
//! clients receive an identity over a metadata channel and a full replay of
//! the current entity set over the gameplay channel.
//!
//! The transport itself (connection establishment, framing, retransmission)
//! is an external collaborator: this library consumes plain per-tick batches
//! of received messages and produces the batches to send back.

use vstd::prelude::*;

pub mod client;
pub mod errors;
pub mod events;
pub mod game;
pub mod internal_events;
pub mod pointer;
pub mod protocol;
pub mod server;
pub mod store;

verus! {

/// Well-known port for gameplay traffic.
pub const SERVER_PORT: u16 = 15678;

/// Port for the browser-compatible secondary transport carrying the same
/// logical protocol.
pub const SERVER_WEBRTC_PORT: u16 = 15679;

/// Relies on `rand::random::<u32>`: draws a value from the thread-local
/// generator. The result is random, so nothing is promised of it.
#[verifier::external_body]
pub fn get_random() -> u32 {
    rand::random::<u32>()
}

} // verus!
