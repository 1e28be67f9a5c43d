//! The client's per-tick systems: adopting the identity the server assigns,
//! filtering inbound gameplay traffic, reconciling local entities with
//! authoritative announcements, and turning pointer clicks into commands.

use vstd::prelude::*;
use crate::events::{GameEvent, PlayerCommand, ServerEvent};
use crate::game::{Location, Movable};
use crate::pointer::PlayerPointer;
use crate::protocol::{ClientIdentification, MetaInformation, NetworkEvent, NetworkObjectId, NetworkSync};
use crate::store::{EntityStore, lemma_contents_at, lemma_contents_key};

verus! {

/// Queue a command for the transport to send to the server.
pub fn send_command(net: &mut Vec<GameEvent>, command: PlayerCommand)
    ensures
        final(net)@ == old(net)@.push(GameEvent::PlayerCommand(command)),
{
    net.push(GameEvent::PlayerCommand(command));
}

/// One liveness probe per completed connection, in order.
pub open spec fn pings_of(events: Seq<NetworkEvent>) -> Seq<GameEvent>
    decreases events.len(),
{
    if events.len() == 0 {
        Seq::empty()
    } else {
        let rest = pings_of(events.drop_last());
        match events.last() {
            NetworkEvent::Connected(_) => rest.push(GameEvent::PlayerCommand(PlayerCommand::Ping(42))),
            _ => rest,
        }
    }
}

/// React to this tick's transport notices: each completed connection is
/// greeted with a liveness probe; everything else is only of interest to the
/// process's logging and changes no gameplay state.
pub fn log_connectivity(reader: &Vec<NetworkEvent>, net: &mut Vec<GameEvent>)
    ensures
        final(net)@ == old(net)@ + pings_of(reader@),
{
    let n = reader.len();
    let mut i: usize = 0;
    while i < n
        invariant
            i <= n,
            n == reader@.len(),
            net@ == old(net)@ + pings_of(reader@.take(i as int)),
        decreases n - i,
    {
        proof {
            assert(reader@.take(i + 1).drop_last() =~= reader@.take(i as int));
            assert(reader@.take(i + 1).last() == reader@[i as int]);
        }
        let event = reader[i];
        match event {
            NetworkEvent::Connected(_) => {
                send_command(net, PlayerCommand::Ping(42));
            },
            _ => {},
        }
        i = i + 1;
    }
    proof {
        assert(reader@.take(n as int) =~= reader@);
    }
}

/// The last identity assigned in a batch of metadata messages, if any.
pub open spec fn last_identification(msgs: Seq<MetaInformation>) -> Option<ClientIdentification>
    decreases msgs.len(),
{
    if msgs.len() == 0 {
        None
    } else {
        match msgs.last() {
            MetaInformation::ClientIdentificationMessage(id) => Some(id),
            _ => last_identification(msgs.drop_last()),
        }
    }
}

/// Adopt the identity the server assigned: each identification message
/// overwrites the previous one, so the last of the batch wins. Disconnect
/// notices carry no identity and leave it alone.
pub fn receive_initial(inbound: &Vec<MetaInformation>, identity: &mut ClientIdentification)
    ensures
        *final(identity) == match last_identification(inbound@) {
            Some(id) => id,
            None => *old(identity),
        },
{
    let n = inbound.len();
    let mut i: usize = 0;
    while i < n
        invariant
            i <= n,
            n == inbound@.len(),
            *identity == match last_identification(inbound@.take(i as int)) {
                Some(id) => id,
                None => *old(identity),
            },
        decreases n - i,
    {
        proof {
            assert(inbound@.take(i + 1).drop_last() =~= inbound@.take(i as int));
            assert(inbound@.take(i + 1).last() == inbound@[i as int]);
        }
        match &inbound[i] {
            MetaInformation::ClientIdentificationMessage(id) => {
                identity.update(*id);
            },
            MetaInformation::DisconnectReason(_) => {
                // surfaced to the process's logging; no identity change
            },
        }
        i = i + 1;
    }
    proof {
        assert(inbound@.take(n as int) =~= inbound@);
    }
}

/// The authoritative announcements in a batch of gameplay messages, in
/// order; anything else on the channel is not for a client.
pub open spec fn server_updates_of(inbound: Seq<GameEvent>) -> Seq<ServerEvent>
    decreases inbound.len(),
{
    if inbound.len() == 0 {
        Seq::empty()
    } else {
        let rest = server_updates_of(inbound.drop_last());
        match inbound.last() {
            GameEvent::ServerUpdate(e) => rest.push(e),
            _ => rest,
        }
    }
}

/// Keep the authoritative announcements of this tick's gameplay traffic, in
/// arrival order, and drop everything else.
pub fn receive_server_events(inbound: &Vec<GameEvent>, writer: &mut Vec<ServerEvent>)
    ensures
        final(writer)@ == old(writer)@ + server_updates_of(inbound@),
{
    let n = inbound.len();
    let mut i: usize = 0;
    while i < n
        invariant
            i <= n,
            n == inbound@.len(),
            writer@ == old(writer)@ + server_updates_of(inbound@.take(i as int)),
        decreases n - i,
    {
        proof {
            assert(inbound@.take(i + 1).drop_last() =~= inbound@.take(i as int));
            assert(inbound@.take(i + 1).last() == inbound@[i as int]);
        }
        let event = inbound[i];
        match event {
            GameEvent::ServerUpdate(e) => {
                writer.push(e);
            },
            GameEvent::PlayerCommand(_) => {},
        }
        i = i + 1;
    }
    proof {
        assert(inbound@.take(n as int) =~= inbound@);
    }
}

/// A movement announcement applied to an entity set: the named entity's
/// movement state and location are overwritten — the server's word is final —
/// and an announcement naming no local entity is dropped.
pub open spec fn apply_movement(
    c: Map<NetworkObjectId, PlayerPointer>,
    ns: NetworkSync,
    m: Movable,
    loc: Location,
) -> Map<NetworkObjectId, PlayerPointer> {
    if c.contains_key(ns.unique_id) {
        c.insert(ns.unique_id, PlayerPointer { movable: m, location: loc, ..c[ns.unique_id] })
    } else {
        c
    }
}

/// All movement announcements of a batch applied in order; spawns are left
/// to the spawn handler.
pub open spec fn apply_movements(
    c: Map<NetworkObjectId, PlayerPointer>,
    events: Seq<ServerEvent>,
) -> Map<NetworkObjectId, PlayerPointer>
    decreases events.len(),
{
    if events.len() == 0 {
        c
    } else {
        let c0 = apply_movements(c, events.drop_last());
        match events.last() {
            ServerEvent::EntityMovementChange(ns, m, loc) => apply_movement(c0, ns, m, loc),
            _ => c0,
        }
    }
}

/// Overwrite local movement state with every announcement of this batch,
/// last writer winning. An announcement for an entity this client has not
/// spawned yet is dropped, never fatal.
pub fn handle_movement_changes(events: &Vec<ServerEvent>, store: &mut EntityStore)
    requires
        old(store).wf(),
    ensures
        final(store).wf(),
        final(store).contents() == apply_movements(old(store).contents(), events@),
{
    let n = events.len();
    let mut i: usize = 0;
    while i < n
        invariant
            i <= n,
            n == events@.len(),
            store.wf(),
            store.contents() == apply_movements(old(store).contents(), events@.take(i as int)),
        decreases n - i,
    {
        proof {
            assert(events@.take(i + 1).drop_last() =~= events@.take(i as int));
            assert(events@.take(i + 1).last() == events@[i as int]);
        }
        let event = events[i];
        match event {
            ServerEvent::EntityMovementChange(netsync, movable, pos) => {
                proof {
                    lemma_contents_key(store.entries@, netsync.unique_id);
                }
                match store.index_of(netsync.unique_id) {
                    Some(idx) => {
                        proof {
                            lemma_contents_at(store.entries@, idx as int);
                        }
                        store.set_movement(idx, movable, pos);
                    },
                    None => {
                        // no local entity by this name yet: dropped
                    },
                }
            },
            ServerEvent::PointerSpawn(_, _, _) => {},
        }
        i = i + 1;
    }
    proof {
        assert(events@.take(n as int) =~= events@);
    }
}

/// One authoritative announcement applied to a local entity set.
pub open spec fn apply_server_event(
    c: Map<NetworkObjectId, PlayerPointer>,
    e: ServerEvent,
) -> Map<NetworkObjectId, PlayerPointer> {
    match e {
        ServerEvent::PointerSpawn(ns, owner, loc) => crate::pointer::apply_spawn(c, ns, owner, loc),
        ServerEvent::EntityMovementChange(ns, m, loc) => apply_movement(c, ns, m, loc),
    }
}

/// Idempotent resync: replaying any announcement twice leaves the same local
/// entity set as replaying it once.
pub proof fn lemma_idempotent_resync(c: Map<NetworkObjectId, PlayerPointer>, e: ServerEvent)
    ensures
        apply_server_event(apply_server_event(c, e), e) == apply_server_event(c, e),
{
    let c1 = apply_server_event(c, e);
    match e {
        ServerEvent::PointerSpawn(ns, owner, loc) => {
            assert(apply_server_event(c1, e) =~= c1);
        },
        ServerEvent::EntityMovementChange(ns, m, loc) => {
            if c.contains_key(ns.unique_id) {
                assert(apply_server_event(c1, e) =~= c1);
            }
        },
    }
}

/// A client's whole per-tick reconciliation of a batch of announcements:
/// spawns materialized by the spawn handler, movement overwritten by the
/// movement handler.
pub open spec fn reconcile(
    c: Map<NetworkObjectId, PlayerPointer>,
    events: Seq<ServerEvent>,
) -> Map<NetworkObjectId, PlayerPointer> {
    apply_movements(crate::pointer::apply_spawns(c, events), events)
}

/// Broadcast convergence: reconciliation is a function of the announcements
/// alone, so two clients holding equal entity sets that receive the same
/// batch — as every connected peer does, the broadcast being unconditional —
/// still hold equal entity sets afterwards.
pub proof fn lemma_broadcast_convergence(
    c1: Map<NetworkObjectId, PlayerPointer>,
    c2: Map<NetworkObjectId, PlayerPointer>,
    events: Seq<ServerEvent>,
)
    requires
        c1 == c2,
    ensures
        reconcile(c1, events) == reconcile(c2, events),
{
}

/// The position of the first entity owned by `player`, if any: the pointer a
/// click of that player commands.
pub open spec fn my_pointer_at(s: Seq<crate::store::EntityEntry>, player: u32, i: int) -> bool {
    &&& 0 <= i < s.len()
    &&& s[i].pointer.control.owner == player
    &&& forall|j: int| 0 <= j < i ==> (#[trigger] s[j]).pointer.control.owner != player
}

/// Turn a pointer click at `position` into the command to send: a move order
/// for this player's own pointer, or — when no local entity belongs to this
/// identity — a bare liveness probe.
pub fn capture_clicks(
    store: &EntityStore,
    identity: &ClientIdentification,
    position: Location,
) -> (r: PlayerCommand)
    ensures
        forall|i: int| my_pointer_at(store.entries@, identity.player_id, i)
            ==> r == PlayerCommand::PointerMoveChange(
                (#[trigger] store.entries@[i]).pointer.network_sync,
                (Movable {
                    target_location: position,
                    active: true,
                    speed: crate::game::POINTER_SPEED,
                }),
            ),
        (forall|i: int| 0 <= i < store.entries@.len()
            ==> (#[trigger] store.entries@[i]).pointer.control.owner != identity.player_id)
            ==> r == PlayerCommand::Ping(42),
{
    let n = store.len();
    let mut i: usize = 0;
    while i < n
        invariant
            i <= n,
            n == store.entries@.len(),
            forall|j: int| 0 <= j < i ==> (#[trigger] store.entries@[j]).pointer.control.owner != identity.player_id,
        decreases n - i,
    {
        let pointer = store.get_at(i);
        if pointer.control.owner == identity.player_id {
            let netsync = pointer.network_sync;
            return PlayerCommand::PointerMoveChange(netsync, Movable::new(position));
        }
        i = i + 1;
    }
    PlayerCommand::Ping(42)
}

} // verus!
