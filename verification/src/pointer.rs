//! The one entity archetype of this protocol: a movable, player-owned
//! pointer token, and the client-side handler that spawns tokens announced
//! by the server.

use vstd::prelude::*;
use crate::events::{PlayerId, ServerEvent};
use crate::game::{Location, Movable, PlayerControllable};
use crate::protocol::{NetworkObjectId, NetworkSync};
use crate::store::EntityStore;

verus! {

/// The full component set of one synchronized entity.
#[derive(Debug, Clone, Copy, PartialEq, Eq, Structural)]
pub struct PlayerPointer {
    pub control: PlayerControllable,
    pub movable: Movable,
    pub network_sync: NetworkSync,
    pub location: Location,
}

/// The components a pointer carries right after spawning at `location`:
/// owned by `owner`, ordered to (and already at) `location`.
pub open spec fn spawned_pointer(netsync: NetworkSync, owner: PlayerId, location: Location) -> PlayerPointer {
    PlayerPointer {
        control: PlayerControllable { owner },
        movable: Movable { target_location: location, active: true, speed: crate::game::POINTER_SPEED },
        network_sync: netsync,
        location,
    }
}

impl PlayerPointer {
    /// Materialize a pointer announced by the server. Spawning is an upsert:
    /// replaying the same announcement twice leaves the same store.
    pub fn spawn(
        store: &mut EntityStore,
        owner: &PlayerId,
        location: &Location,
        netsync: &NetworkSync,
    )
        requires
            old(store).wf(),
        ensures
            final(store).wf(),
            final(store).contents() == old(store).contents().insert(
                netsync.unique_id,
                spawned_pointer(*netsync, *owner, *location),
            ),
    {
        let pointer = PlayerPointer {
            control: PlayerControllable::new(*owner),
            movable: Movable::new(*location),
            network_sync: *netsync,
            location: *location,
        };
        store.upsert(pointer);
    }
}

/// A spawn announcement applied to an entity set: an upsert of the freshly
/// spawned component set under the announced name.
pub open spec fn apply_spawn(
    c: Map<NetworkObjectId, PlayerPointer>,
    ns: NetworkSync,
    owner: PlayerId,
    loc: Location,
) -> Map<NetworkObjectId, PlayerPointer> {
    c.insert(ns.unique_id, spawned_pointer(ns, owner, loc))
}

/// All spawn announcements of a batch applied in order; other announcements
/// are left to the movement handler.
pub open spec fn apply_spawns(
    c: Map<NetworkObjectId, PlayerPointer>,
    events: Seq<ServerEvent>,
) -> Map<NetworkObjectId, PlayerPointer>
    decreases events.len(),
{
    if events.len() == 0 {
        c
    } else {
        let c0 = apply_spawns(c, events.drop_last());
        match events.last() {
            ServerEvent::PointerSpawn(ns, owner, loc) => apply_spawn(c0, ns, owner, loc),
            _ => c0,
        }
    }
}

/// Materialize every pointer announced in this batch. Spawns are upserts, so
/// receiving an announcement again — as a new joiner does once via the
/// broadcast and once via the replay — is harmless.
pub fn handle_pointer_spawns(reader: &Vec<ServerEvent>, store: &mut EntityStore)
    requires
        old(store).wf(),
    ensures
        final(store).wf(),
        final(store).contents() == apply_spawns(old(store).contents(), reader@),
{
    let n = reader.len();
    let mut i: usize = 0;
    while i < n
        invariant
            i <= n,
            n == reader@.len(),
            store.wf(),
            store.contents() == apply_spawns(old(store).contents(), reader@.take(i as int)),
        decreases n - i,
    {
        proof {
            assert(reader@.take(i + 1).drop_last() =~= reader@.take(i as int));
            assert(reader@.take(i + 1).last() == reader@[i as int]);
        }
        let event = reader[i];
        match event {
            ServerEvent::PointerSpawn(netsync, owner, location) => {
                PlayerPointer::spawn(store, &owner, &location, &netsync);
            },
            _ => {},
        }
        i = i + 1;
    }
    proof {
        assert(reader@.take(n as int) =~= reader@);
    }
}

} // verus!
