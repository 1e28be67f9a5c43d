//! Server-internal connection-lifecycle events and their handlers: telling a
//! new peer its identity, spawning its owned pointer, and replaying the full
//! entity set to it.

use vstd::prelude::*;
use crate::client::{apply_movement, apply_movements};
use crate::events::{GameEvent, PlayerId, ServerEvent};
use crate::game::Location;
use crate::pointer::{PlayerPointer, apply_spawn, apply_spawns, spawned_pointer};
use crate::protocol::{ClientIdentification, ConnectionHandle, MetaInformation, NetworkObjectId, NetworkSync};
use crate::server::broadcast_server_event;
use crate::store::{EntityEntry, EntityStore, contents_of, entry_id, has_id, ids_distinct};

verus! {

/// A fact one server phase hands to the next within a tick.
#[derive(Debug, Clone, Copy, PartialEq, Eq, Structural)]
pub enum Internal {
    /// A peer finished the transport handshake and was assigned an identity.
    PlayerConnected(ConnectionHandle, ClientIdentification),
}

/// The connection handle an internal event concerns.
pub open spec fn internal_handle(ev: Internal) -> ConnectionHandle {
    match ev {
        Internal::PlayerConnected(h, _) => h,
    }
}

/// The identity an internal event carries.
pub open spec fn internal_ident(ev: Internal) -> ClientIdentification {
    match ev {
        Internal::PlayerConnected(_, id) => id,
    }
}

/// One identification message per new connection, addressed to it, in order.
pub open spec fn identifications_of(rs: Seq<Internal>) -> Seq<(ConnectionHandle, MetaInformation)>
    decreases rs.len(),
{
    if rs.len() == 0 {
        Seq::empty()
    } else {
        identifications_of(rs.drop_last()).push(
            (
                internal_handle(rs.last()),
                MetaInformation::ClientIdentificationMessage(internal_ident(rs.last())),
            ),
        )
    }
}

/// Tell every newly connected peer, over the metadata channel, which
/// identity it was assigned.
pub fn handle_new_player_connections(
    reader: &Vec<Internal>,
    net_out: &mut Vec<(ConnectionHandle, MetaInformation)>,
)
    ensures
        final(net_out)@ == old(net_out)@ + identifications_of(reader@),
{
    let n = reader.len();
    let mut i: usize = 0;
    while i < n
        invariant
            i <= n,
            n == reader@.len(),
            net_out@ == old(net_out)@ + identifications_of(reader@.take(i as int)),
        decreases n - i,
    {
        proof {
            assert(reader@.take(i + 1).drop_last() =~= reader@.take(i as int));
            assert(reader@.take(i + 1).last() == reader@[i as int]);
        }
        let Internal::PlayerConnected(handle, id) = reader[i];
        net_out.push((handle, MetaInformation::ClientIdentificationMessage(id)));
        i = i + 1;
    }
    proof {
        assert(reader@.take(n as int) =~= reader@);
    }
}

/// Where every fresh pointer spawns.
pub open spec fn initial_spawn_location() -> Location {
    Location { x: 50, y: 50 }
}

/// Announce a fresh owned pointer for `player` under the drawn name
/// `netsync` — unless the name is already taken, in which case nothing is
/// announced and the caller may draw again instead of overwriting.
pub fn spawn_point_for_player(
    player: PlayerId,
    netsync: NetworkSync,
    store: &EntityStore,
    server_events: &mut Vec<ServerEvent>,
) -> (fresh: bool)
    ensures
        fresh == !store.contents().contains_key(netsync.unique_id),
        fresh ==> final(server_events)@ == old(server_events)@.push(
            ServerEvent::PointerSpawn(netsync, player, initial_spawn_location()),
        ),
        !fresh ==> final(server_events)@ == old(server_events)@,
{
    if store.contains(netsync.unique_id) {
        false
    } else {
        broadcast_server_event(
            server_events,
            ServerEvent::PointerSpawn(netsync, player, Location { x: 50, y: 50 }),
        );
        true
    }
}

/// The spawn announcements a batch of connections produces, given the name
/// drawn for the k-th connection in `syncs[k]`: one per connection whose
/// drawn name is not already taken in `c`.
pub open spec fn spawn_events_fold(
    c: Map<NetworkObjectId, PlayerPointer>,
    rs: Seq<Internal>,
    syncs: Seq<NetworkSync>,
) -> Seq<ServerEvent>
    decreases rs.len(),
{
    if rs.len() == 0 || syncs.len() == 0 {
        Seq::empty()
    } else {
        let rest = spawn_events_fold(c, rs.drop_last(), syncs.drop_last());
        if !c.contains_key(syncs.last().unique_id) {
            rest.push(
                ServerEvent::PointerSpawn(
                    syncs.last(),
                    internal_ident(rs.last()).player_id,
                    initial_spawn_location(),
                ),
            )
        } else {
            rest
        }
    }
}

/// Announce one freshly named owned pointer per new connection. The names
/// are drawn at random; the drawn names are returned, and a drawn name that
/// collides with an existing entity produces no announcement.
pub fn spawn_point_on_player_connect(
    reader: &Vec<Internal>,
    store: &EntityStore,
    server_events: &mut Vec<ServerEvent>,
) -> (syncs: Vec<NetworkSync>)
    ensures
        syncs@.len() == reader@.len(),
        final(server_events)@ == old(server_events)@ + spawn_events_fold(
            store.contents(),
            reader@,
            syncs@,
        ),
{
    let mut syncs: Vec<NetworkSync> = Vec::new();
    let n = reader.len();
    let mut i: usize = 0;
    while i < n
        invariant
            i <= n,
            n == reader@.len(),
            syncs@.len() == i,
            server_events@ == old(server_events)@ + spawn_events_fold(
                store.contents(),
                reader@.take(i as int),
                syncs@,
            ),
        decreases n - i,
    {
        proof {
            assert(reader@.take(i + 1).drop_last() =~= reader@.take(i as int));
            assert(reader@.take(i + 1).last() == reader@[i as int]);
        }
        let Internal::PlayerConnected(_, id) = reader[i];
        let netsync = NetworkSync::new();
        let ghost prev = syncs@;
        syncs.push(netsync);
        proof {
            assert(syncs@.drop_last() =~= prev);
            assert(syncs@.last() == netsync);
        }
        spawn_point_for_player(id.player_id, netsync, store, server_events);
        i = i + 1;
    }
    proof {
        assert(reader@.take(n as int) =~= reader@);
    }
    syncs
}

/// The full-state replay for one store: for every entity, in store order, a
/// spawn announcement followed by a movement announcement, together carrying
/// its complete component set.
pub open spec fn replay_events(s: Seq<EntityEntry>) -> Seq<ServerEvent>
    decreases s.len(),
{
    if s.len() == 0 {
        Seq::empty()
    } else {
        replay_events(s.drop_last()) + seq![
            ServerEvent::PointerSpawn(
                s.last().pointer.network_sync,
                s.last().pointer.control.owner,
                s.last().pointer.location,
            ),
            ServerEvent::EntityMovementChange(
                s.last().pointer.network_sync,
                s.last().pointer.movable,
                s.last().pointer.location,
            ),
        ]
    }
}

/// A batch of announcements addressed to one peer, in order.
pub open spec fn addressed_to(
    h: ConnectionHandle,
    events: Seq<ServerEvent>,
) -> Seq<(ConnectionHandle, GameEvent)>
    decreases events.len(),
{
    if events.len() == 0 {
        Seq::empty()
    } else {
        addressed_to(h, events.drop_last()).push((h, GameEvent::ServerUpdate(events.last())))
    }
}

/// The full-state replay addressed to every new connection in turn.
pub open spec fn replay_out(
    rs: Seq<Internal>,
    s: Seq<EntityEntry>,
) -> Seq<(ConnectionHandle, GameEvent)>
    decreases rs.len(),
{
    if rs.len() == 0 {
        Seq::empty()
    } else {
        replay_out(rs.drop_last(), s) + addressed_to(internal_handle(rs.last()), replay_events(s))
    }
}

/// Replay the whole current entity set to every newly connected peer over
/// the gameplay channel, one self-contained spawn/movement pair per entity.
pub fn sync_pointers_on_connect(
    reader: &Vec<Internal>,
    pointers: &EntityStore,
    net_out: &mut Vec<(ConnectionHandle, GameEvent)>,
)
    ensures
        final(net_out)@ == old(net_out)@ + replay_out(reader@, pointers.entries@),
{
    let n = reader.len();
    let m = pointers.len();
    let mut i: usize = 0;
    while i < n
        invariant
            i <= n,
            n == reader@.len(),
            m == pointers.entries@.len(),
            net_out@ == old(net_out)@ + replay_out(reader@.take(i as int), pointers.entries@),
        decreases n - i,
    {
        proof {
            assert(reader@.take(i + 1).drop_last() =~= reader@.take(i as int));
            assert(reader@.take(i + 1).last() == reader@[i as int]);
        }
        let Internal::PlayerConnected(handle, _) = reader[i];
        let mut j: usize = 0;
        while j < m
            invariant
                j <= m,
                m == pointers.entries@.len(),
                net_out@ == old(net_out)@ + replay_out(reader@.take(i as int), pointers.entries@)
                    + addressed_to(handle, replay_events(pointers.entries@.take(j as int))),
            decreases m - j,
        {
            proof {
                assert(pointers.entries@.take(j + 1).drop_last() =~= pointers.entries@.take(j as int));
                assert(pointers.entries@.take(j + 1).last() == pointers.entries@[j as int]);
            }
            let pointer = pointers.get_at(j);
            let spawn_event = ServerEvent::PointerSpawn(
                pointer.network_sync,
                pointer.control.owner,
                pointer.location,
            );
            let move_event = ServerEvent::EntityMovementChange(
                pointer.network_sync,
                pointer.movable,
                pointer.location,
            );
            net_out.push((handle, GameEvent::ServerUpdate(spawn_event)));
            net_out.push((handle, GameEvent::ServerUpdate(move_event)));
            proof {
                let a = replay_events(pointers.entries@.take(j as int));
                let b = replay_events(pointers.entries@.take(j + 1));
                assert(b == a + seq![spawn_event, move_event]);
                assert((a + seq![spawn_event, move_event]).drop_last() =~= a.push(spawn_event));
                assert((a + seq![spawn_event, move_event]).last() == move_event);
                assert(a.push(spawn_event).drop_last() =~= a);
                assert(a.push(spawn_event).last() == spawn_event);
                assert(addressed_to(handle, a.push(spawn_event)) == addressed_to(handle, a).push(
                    (handle, GameEvent::ServerUpdate(spawn_event)),
                ));
                assert(addressed_to(handle, b) == addressed_to(handle, a.push(spawn_event)).push(
                    (handle, GameEvent::ServerUpdate(move_event)),
                ));
                assert(net_out@ =~= old(net_out)@ + replay_out(reader@.take(i as int), pointers.entries@)
                    + addressed_to(handle, b));
            }
            j = j + 1;
        }
        proof {
            assert(pointers.entries@.take(m as int) =~= pointers.entries@);
        }
        i = i + 1;
    }
    proof {
        assert(reader@.take(n as int) =~= reader@);
    }
}

/// Spawn announcements of concatenated batches apply one batch after the
/// other.
pub proof fn lemma_spawns_append(
    c: Map<NetworkObjectId, PlayerPointer>,
    a: Seq<ServerEvent>,
    b: Seq<ServerEvent>,
)
    ensures
        apply_spawns(c, a + b) == apply_spawns(apply_spawns(c, a), b),
    decreases b.len(),
{
    if b.len() == 0 {
        assert(a + b =~= a);
    } else {
        lemma_spawns_append(c, a, b.drop_last());
        assert((a + b).drop_last() =~= a + b.drop_last());
        assert((a + b).last() == b.last());
    }
}

/// Movement announcements of concatenated batches apply one batch after the
/// other.
pub proof fn lemma_movements_append(
    c: Map<NetworkObjectId, PlayerPointer>,
    a: Seq<ServerEvent>,
    b: Seq<ServerEvent>,
)
    ensures
        apply_movements(c, a + b) == apply_movements(apply_movements(c, a), b),
    decreases b.len(),
{
    if b.len() == 0 {
        assert(a + b =~= a);
    } else {
        lemma_movements_append(c, a, b.drop_last());
        assert((a + b).drop_last() =~= a + b.drop_last());
        assert((a + b).last() == b.last());
    }
}

/// Whether an announcement is a movement change for the entity named `id`.
pub open spec fn is_movement_of(e: ServerEvent, id: NetworkObjectId) -> bool {
    match e {
        ServerEvent::EntityMovementChange(ns, _, _) => ns.unique_id == id,
        _ => false,
    }
}

/// Whether any announcement of the batch moves the entity named `id`.
pub open spec fn movement_mentions(events: Seq<ServerEvent>, id: NetworkObjectId) -> bool {
    exists|i: int| 0 <= i < events.len() && is_movement_of(#[trigger] events[i], id)
}

/// Movement announcements leave an entity they never name alone: inserting
/// it commutes with applying them.
pub proof fn lemma_movements_frame(
    c: Map<NetworkObjectId, PlayerPointer>,
    events: Seq<ServerEvent>,
    id: NetworkObjectId,
    p: PlayerPointer,
)
    requires
        !movement_mentions(events, id),
    ensures
        apply_movements(c.insert(id, p), events) == apply_movements(c, events).insert(id, p),
    decreases events.len(),
{
    if events.len() == 0 {
    } else {
        let e0 = events.drop_last();
        assert forall|i: int| 0 <= i < e0.len() implies !is_movement_of(#[trigger] e0[i], id) by {
            assert(e0[i] == events[i]);
        }
        lemma_movements_frame(c, e0, id, p);
        let x = apply_movements(c, e0);
        match events.last() {
            ServerEvent::EntityMovementChange(ns, m, loc) => {
                assert(is_movement_of(events[events.len() - 1], id) == (ns.unique_id == id));
                assert(ns.unique_id != id);
                if x.contains_key(ns.unique_id) {
                    assert(x.insert(id, p)[ns.unique_id] == x[ns.unique_id]);
                    assert(apply_movement(x.insert(id, p), ns, m, loc) =~= apply_movement(
                        x,
                        ns,
                        m,
                        loc,
                    ).insert(id, p));
                } else {
                    assert(!x.insert(id, p).contains_key(ns.unique_id));
                }
            },
            _ => {},
        }
    }
}

/// The full-state replay moves only entities the store holds.
pub proof fn lemma_replay_mentions(s: Seq<EntityEntry>, id: NetworkObjectId)
    requires
        !has_id(s, id),
    ensures
        !movement_mentions(replay_events(s), id),
    decreases s.len(),
{
    if s.len() == 0 {
    } else {
        let s0 = s.drop_last();
        assert forall|i: int| 0 <= i < s0.len() implies #[trigger] entry_id(s0[i]) != id by {
            assert(s0[i] == s[i]);
            assert(entry_id(s[i]) != id);
        }
        lemma_replay_mentions(s0, id);
        let r0 = replay_events(s0);
        let r = replay_events(s);
        assert(entry_id(s[s.len() - 1]) != id);
        if movement_mentions(r, id) {
            let i = choose|i: int| 0 <= i < r.len() && is_movement_of(#[trigger] r[i], id);
            if i < r0.len() {
                assert(r[i] == r0[i]);
                assert(movement_mentions(r0, id));
            } else {
                assert(r[i] == seq![
                    ServerEvent::PointerSpawn(
                        s.last().pointer.network_sync,
                        s.last().pointer.control.owner,
                        s.last().pointer.location,
                    ),
                    ServerEvent::EntityMovementChange(
                        s.last().pointer.network_sync,
                        s.last().pointer.movable,
                        s.last().pointer.location,
                    ),
                ][i - r0.len()]);
            }
            assert(false);
        }
    }
}

/// New-joiner full view: applying the full-state replay — spawns through the
/// spawn handler, movement changes through the movement handler — to an
/// empty local store reproduces exactly the entity set the replay was taken
/// from.
pub proof fn lemma_new_joiner_full_view(entries: Seq<EntityEntry>)
    requires
        ids_distinct(entries),
    ensures
        crate::client::reconcile(Map::empty(), replay_events(entries)) == contents_of(entries),
    decreases entries.len(),
{
    if entries.len() == 0 {
    } else {
        let s0 = entries.drop_last();
        let last = entries.last();
        let ns_l = last.pointer.network_sync;
        let id_l = ns_l.unique_id;
        let owner_l = last.pointer.control.owner;
        let loc_l = last.pointer.location;
        let sp = ServerEvent::PointerSpawn(ns_l, owner_l, loc_l);
        let mv = ServerEvent::EntityMovementChange(ns_l, last.pointer.movable, loc_l);
        let pair = seq![sp, mv];
        let r0 = replay_events(s0);
        let r = replay_events(entries);
        assert(r == r0 + pair);

        crate::store::lemma_distinct_drop_last(entries);
        lemma_new_joiner_full_view(s0);

        // the spawn pass: the prefix replay, then the new entity's spawn
        let spawned_l = spawned_pointer(ns_l, owner_l, loc_l);
        let s_prefix = apply_spawns(Map::empty(), r0);
        lemma_spawns_append(Map::empty(), r0, pair);
        assert(pair.drop_last() =~= seq![sp]);
        assert(pair.last() == mv);
        assert(seq![sp].drop_last() =~= Seq::<ServerEvent>::empty());
        assert(seq![sp].last() == sp);
        assert(apply_spawns(s_prefix, Seq::<ServerEvent>::empty()) == s_prefix);
        assert(apply_spawns(s_prefix, seq![sp]) == apply_spawn(s_prefix, ns_l, owner_l, loc_l));
        let s_full = apply_spawns(Map::empty(), r);
        assert(s_full == s_prefix.insert(id_l, spawned_l));

        // the movement pass over the prefix replay leaves the new entity as
        // spawned: the prefix never names it
        assert(!has_id(s0, id_l)) by {
            if has_id(s0, id_l) {
                let i = choose|i: int| 0 <= i < s0.len() && #[trigger] entry_id(s0[i]) == id_l;
                assert(s0[i] == entries[i]);
                assert(entry_id(entries[i]) != entry_id(entries[entries.len() - 1]));
            }
        }
        lemma_replay_mentions(s0, id_l);
        lemma_movements_append(s_full, r0, pair);
        lemma_movements_frame(s_prefix, r0, id_l, spawned_l);
        assert(apply_movements(s_full, r0) == contents_of(s0).insert(id_l, spawned_l));

        // the pair's own movement overwrites the spawn state with the
        // entity's actual components
        let x = contents_of(s0).insert(id_l, spawned_l);
        assert(apply_movements(x, Seq::<ServerEvent>::empty()) == x);
        assert(apply_movements(x, seq![sp]) == x);
        assert(apply_movements(x, pair) == apply_movement(x, ns_l, last.pointer.movable, loc_l));
        assert(x.contains_key(id_l) && x[id_l] == spawned_l);
        let upd = PlayerPointer { movable: last.pointer.movable, location: loc_l, ..spawned_l };
        assert(upd == last.pointer);
        assert(apply_movements(apply_spawns(Map::empty(), r), r)
            == contents_of(s0).insert(id_l, spawned_l).insert(id_l, last.pointer));
        assert(contents_of(s0).insert(id_l, spawned_l).insert(id_l, last.pointer)
            =~= contents_of(entries));
    }
}

/// Groups the connection-lifecycle handlers that run on the server each
/// tick.
pub struct InternalPlugin {}

impl InternalPlugin {
    /// Run the whole lifecycle phase for one tick's new connections: send
    /// each peer its identity, announce a freshly named owned pointer for
    /// it, and replay the current entity set to it. Returns the drawn names.
    pub fn process(
        &self,
        reader: &Vec<Internal>,
        store: &EntityStore,
        meta_out: &mut Vec<(ConnectionHandle, MetaInformation)>,
        game_out: &mut Vec<(ConnectionHandle, GameEvent)>,
        server_events: &mut Vec<ServerEvent>,
    ) -> (syncs: Vec<NetworkSync>)
        ensures
            final(meta_out)@ == old(meta_out)@ + identifications_of(reader@),
            syncs@.len() == reader@.len(),
            final(server_events)@ == old(server_events)@ + spawn_events_fold(
                store.contents(),
                reader@,
                syncs@,
            ),
            final(game_out)@ == old(game_out)@ + replay_out(reader@, store.entries@),
    {
        handle_new_player_connections(reader, meta_out);
        let syncs = spawn_point_on_player_connect(reader, store, server_events);
        sync_pointers_on_connect(reader, store, game_out);
        syncs
    }
}

} // verus!
