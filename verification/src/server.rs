//! The authoritative server's tick phases: attaching inbound commands to
//! identities, the connection lifecycle, ownership-validated command
//! application, change detection, and broadcast fan-out.
//!
//! All state lives in explicit context passed into each phase (entity store,
//! identity registry, per-tick message queues); the phases are pure of any
//! transport concern.

use vstd::prelude::*;
use crate::errors::PlayerCommandValidationError;
use crate::events::{GameEvent, PlayerCommand, PlayerId, ServerEvent};
use crate::game::{Movable, validate_player_command};
use crate::internal_events::Internal;
use crate::pointer::PlayerPointer;
use crate::protocol::{ClientIdentification, ConnectionHandle, NetworkEvent, NetworkObjectId, NetworkSync};
use crate::store::{EntityEntry, EntityStore, entry_id, lemma_contents_at, lemma_contents_key};

verus! {

/// A command already attributed to the player identity that sent it.
pub type AssociatedCommand = (PlayerId, PlayerCommand);

/// No two registry rows name the same connection.
pub open spec fn handles_distinct(s: Seq<(ConnectionHandle, PlayerId)>) -> bool {
    forall|i: int, j: int| 0 <= i < j < s.len() ==> (#[trigger] s[i]).0 != (#[trigger] s[j]).0
}

/// The registry's mathematical model: connection handle to player identity.
pub open spec fn mapping_of(s: Seq<(ConnectionHandle, PlayerId)>) -> Map<ConnectionHandle, PlayerId>
    decreases s.len(),
{
    if s.len() == 0 {
        Map::empty()
    } else {
        mapping_of(s.drop_last()).insert(s.last().0, s.last().1)
    }
}

/// `mapping_of` holds a handle exactly when some row names it.
pub proof fn lemma_mapping_key(s: Seq<(ConnectionHandle, PlayerId)>, h: ConnectionHandle)
    ensures
        mapping_of(s).contains_key(h) <==> exists|i: int| 0 <= i < s.len() && (#[trigger] s[i]).0 == h,
    decreases s.len(),
{
    if s.len() > 0 {
        let s0 = s.drop_last();
        lemma_mapping_key(s0, h);
        if h == s.last().0 {
            assert(s[s.len() - 1].0 == h);
        } else {
            if exists|i: int| 0 <= i < s0.len() && (#[trigger] s0[i]).0 == h {
                let i = choose|i: int| 0 <= i < s0.len() && (#[trigger] s0[i]).0 == h;
                assert(s[i].0 == h);
            }
            if exists|i: int| 0 <= i < s.len() && (#[trigger] s[i]).0 == h {
                let i = choose|i: int| 0 <= i < s.len() && (#[trigger] s[i]).0 == h;
                assert(s0[i].0 == h);
            }
        }
    }
}

/// With distinct handles, each row is what its handle maps to.
pub proof fn lemma_mapping_at(s: Seq<(ConnectionHandle, PlayerId)>, i: int)
    requires
        handles_distinct(s),
        0 <= i < s.len(),
    ensures
        mapping_of(s).contains_key(s[i].0),
        mapping_of(s)[s[i].0] == s[i].1,
    decreases s.len(),
{
    if i < s.len() - 1 {
        let s0 = s.drop_last();
        assert(s0[i] == s[i]);
        assert forall|p: int, q: int| 0 <= p < q < s0.len() implies (#[trigger] s0[p]).0 != (#[trigger] s0[q]).0 by {
            assert(s0[p] == s[p]);
            assert(s0[q] == s[q]);
        }
        lemma_mapping_at(s0, i);
        assert(s[i].0 != s.last().0);
    }
}

/// Replacing row `i` by one with the same handle updates the model at
/// exactly that key.
pub proof fn lemma_mapping_update(s: Seq<(ConnectionHandle, PlayerId)>, i: int, r: (ConnectionHandle, PlayerId))
    requires
        handles_distinct(s),
        0 <= i < s.len(),
        r.0 == s[i].0,
    ensures
        mapping_of(s.update(i, r)) == mapping_of(s).insert(r.0, r.1),
        handles_distinct(s.update(i, r)),
    decreases s.len(),
{
    let su = s.update(i, r);
    let s0 = s.drop_last();
    assert forall|p: int, q: int| 0 <= p < q < su.len() implies (#[trigger] su[p]).0 != (#[trigger] su[q]).0 by {
        assert(su[p].0 == s[p].0);
        assert(su[q].0 == s[q].0);
    }
    assert forall|p: int, q: int| 0 <= p < q < s0.len() implies (#[trigger] s0[p]).0 != (#[trigger] s0[q]).0 by {
        assert(s0[p] == s[p]);
        assert(s0[q] == s[q]);
    }
    if i == s.len() - 1 {
        assert(su.drop_last() =~= s0);
        assert(mapping_of(s0).insert(r.0, r.1) =~= mapping_of(s).insert(r.0, r.1));
    } else {
        assert(su.drop_last() =~= s0.update(i, r));
        assert(s0[i] == s[i]);
        lemma_mapping_update(s0, i, r);
        assert(su.last() == s.last());
        assert(r.0 != s.last().0);
        assert(mapping_of(s0).insert(r.0, r.1).insert(s.last().0, s.last().1)
            =~= mapping_of(s).insert(r.0, r.1));
    }
}

/// Appending a row with a fresh handle inserts it into the model.
pub proof fn lemma_mapping_push(s: Seq<(ConnectionHandle, PlayerId)>, r: (ConnectionHandle, PlayerId))
    requires
        handles_distinct(s),
        !mapping_of(s).contains_key(r.0),
    ensures
        mapping_of(s.push(r)) == mapping_of(s).insert(r.0, r.1),
        handles_distinct(s.push(r)),
{
    let sp = s.push(r);
    assert(sp.drop_last() =~= s);
    lemma_mapping_key(s, r.0);
    assert forall|p: int, q: int| 0 <= p < q < sp.len() implies (#[trigger] sp[p]).0 != (#[trigger] sp[q]).0 by {
        if q == s.len() {
            assert(sp[p] == s[p]);
        } else {
            assert(sp[p] == s[p]);
            assert(sp[q] == s[q]);
        }
    }
}

/// Removing row `i` removes exactly its handle from the model.
pub proof fn lemma_mapping_remove(s: Seq<(ConnectionHandle, PlayerId)>, i: int)
    requires
        handles_distinct(s),
        0 <= i < s.len(),
    ensures
        mapping_of(s.remove(i)) == mapping_of(s).remove(s[i].0),
        handles_distinct(s.remove(i)),
    decreases s.len(),
{
    let sr = s.remove(i);
    let s0 = s.drop_last();
    assert forall|p: int, q: int| 0 <= p < q < sr.len() implies (#[trigger] sr[p]).0 != (#[trigger] sr[q]).0 by {
        if p < i && q < i {
            assert(sr[p] == s[p]);
            assert(sr[q] == s[q]);
        } else if p < i {
            assert(sr[p] == s[p]);
            assert(sr[q] == s[q + 1]);
        } else {
            assert(sr[p] == s[p + 1]);
            assert(sr[q] == s[q + 1]);
        }
    }
    assert forall|p: int, q: int| 0 <= p < q < s0.len() implies (#[trigger] s0[p]).0 != (#[trigger] s0[q]).0 by {
        assert(s0[p] == s[p]);
        assert(s0[q] == s[q]);
    }
    if i == s.len() - 1 {
        assert(sr =~= s0);
        lemma_mapping_key(s0, s[i].0);
        assert forall|p: int| 0 <= p < s0.len() implies (#[trigger] s0[p]).0 != s[i].0 by {
            assert(s0[p] == s[p]);
        }
        assert(!mapping_of(s0).contains_key(s[i].0));
        assert(mapping_of(s0) =~= mapping_of(s).remove(s[i].0));
    } else {
        assert(sr.drop_last() =~= s0.remove(i));
        assert(sr.last() == s.last());
        assert(s0[i] == s[i]);
        lemma_mapping_remove(s0, i);
        assert(s[i].0 != s.last().0);
        assert(mapping_of(s0).remove(s[i].0).insert(s.last().0, s.last().1)
            =~= mapping_of(s).remove(s[i].0));
    }
}

/// The identity registry: which player identity each live connection was
/// assigned. Built and torn down entirely by the connection lifecycle.
#[derive(Debug)]
pub struct ClientHandleMap {
    pub entries: Vec<(ConnectionHandle, PlayerId)>,
}

impl ClientHandleMap {
    /// The registry's invariant: one row per connection.
    pub open spec fn wf(self) -> bool {
        handles_distinct(self.entries@)
    }

    /// The registry's mathematical model.
    pub open spec fn mapping(self) -> Map<ConnectionHandle, PlayerId> {
        mapping_of(self.entries@)
    }

    /// An empty registry.
    pub fn new() -> (m: ClientHandleMap)
        ensures
            m.wf(),
            m.mapping() == Map::<ConnectionHandle, PlayerId>::empty(),
    {
        ClientHandleMap { entries: Vec::new() }
    }

    /// The position of the row naming `handle`, if any.
    fn position_of(&self, handle: ConnectionHandle) -> (r: Option<usize>)
        ensures
            match r {
                Some(i) => i < self.entries@.len() && self.entries@[i as int].0 == handle,
                None => forall|i: int| 0 <= i < self.entries@.len() ==> (#[trigger] self.entries@[i]).0 != handle,
            },
    {
        let n = self.entries.len();
        let mut i: usize = 0;
        while i < n
            invariant
                i <= n,
                n == self.entries@.len(),
                forall|j: int| 0 <= j < i ==> (#[trigger] self.entries@[j]).0 != handle,
            decreases n - i,
        {
            if self.entries[i].0 == handle {
                return Some(i);
            }
            i = i + 1;
        }
        None
    }

    /// The identity assigned to `handle`, if one was.
    pub fn get(&self, handle: ConnectionHandle) -> (r: Option<PlayerId>)
        requires
            self.wf(),
        ensures
            match r {
                Some(id) => self.mapping().contains_key(handle) && id == self.mapping()[handle],
                None => !self.mapping().contains_key(handle),
            },
    {
        proof {
            lemma_mapping_key(self.entries@, handle);
        }
        match self.position_of(handle) {
            Some(i) => {
                proof {
                    lemma_mapping_at(self.entries@, i as int);
                }
                Some(self.entries[i].1)
            },
            None => None,
        }
    }

    /// Record (or overwrite) the identity assigned to `handle`.
    pub fn insert(&mut self, handle: ConnectionHandle, id: PlayerId)
        requires
            old(self).wf(),
        ensures
            final(self).wf(),
            final(self).mapping() == old(self).mapping().insert(handle, id),
    {
        match self.position_of(handle) {
            Some(i) => {
                proof {
                    lemma_mapping_update(self.entries@, i as int, (handle, id));
                }
                self.entries.set(i, (handle, id));
            },
            None => {
                proof {
                    lemma_mapping_key(self.entries@, handle);
                    lemma_mapping_push(self.entries@, (handle, id));
                }
                self.entries.push((handle, id));
            },
        }
    }

    /// Tear down the row for a departed connection, if one exists.
    pub fn remove(&mut self, handle: ConnectionHandle)
        requires
            old(self).wf(),
        ensures
            final(self).wf(),
            final(self).mapping() == old(self).mapping().remove(handle),
    {
        match self.position_of(handle) {
            Some(i) => {
                proof {
                    lemma_mapping_remove(self.entries@, i as int);
                }
                self.entries.remove(i);
            },
            None => {
                proof {
                    lemma_mapping_key(self.entries@, handle);
                    assert(old(self).mapping() =~= old(self).mapping().remove(handle));
                }
            },
        }
    }
}

/// Inbound gameplay traffic attributed to identities: player commands from
/// registered connections keep their order; commands from unmapped
/// connections and client-sent server updates are dropped.
pub open spec fn associated_from(
    map: Map<ConnectionHandle, PlayerId>,
    inbound: Seq<(ConnectionHandle, GameEvent)>,
) -> Seq<AssociatedCommand>
    decreases inbound.len(),
{
    if inbound.len() == 0 {
        Seq::empty()
    } else {
        let rest = associated_from(map, inbound.drop_last());
        match inbound.last().1 {
            GameEvent::PlayerCommand(cmd) => if map.contains_key(inbound.last().0) {
                rest.push((map[inbound.last().0], cmd))
            } else {
                rest
            },
            GameEvent::ServerUpdate(_) => rest,
        }
    }
}

/// Drain this tick's inbound gameplay messages: each player command from a
/// registered connection is queued under its sender's identity; a command
/// from an unregistered connection is dropped, as is anything that only the
/// server may send.
pub fn handle_clients_commands(
    client_player_map: &ClientHandleMap,
    inbound: &Vec<(ConnectionHandle, GameEvent)>,
    player_command_queue: &mut Vec<AssociatedCommand>,
)
    requires
        client_player_map.wf(),
    ensures
        final(player_command_queue)@ == old(player_command_queue)@ + associated_from(
            client_player_map.mapping(),
            inbound@,
        ),
{
    let n = inbound.len();
    let mut i: usize = 0;
    while i < n
        invariant
            i <= n,
            n == inbound@.len(),
            client_player_map.wf(),
            player_command_queue@ == old(player_command_queue)@ + associated_from(
                client_player_map.mapping(),
                inbound@.take(i as int),
            ),
        decreases n - i,
    {
        proof {
            assert(inbound@.take(i + 1).drop_last() =~= inbound@.take(i as int));
            assert(inbound@.take(i + 1).last() == inbound@[i as int]);
        }
        let (handle, event) = inbound[i];
        match event {
            GameEvent::PlayerCommand(cmd) => {
                match client_player_map.get(handle) {
                    Some(id) => player_command_queue.push((id, cmd)),
                    None => {
                        // an unmapped connection sent a command: dropped
                    },
                }
            },
            GameEvent::ServerUpdate(_) => {
                // a client should never send a server update: dropped
            },
        }
        i = i + 1;
    }
    proof {
        assert(inbound@.take(n as int) =~= inbound@);
    }
}

/// The handles of this tick's newly completed connections, in order.
pub open spec fn connected_handles(events: Seq<NetworkEvent>) -> Seq<ConnectionHandle>
    decreases events.len(),
{
    if events.len() == 0 {
        Seq::empty()
    } else {
        let rest = connected_handles(events.drop_last());
        match events.last() {
            NetworkEvent::Connected(h) => rest.push(h),
            _ => rest,
        }
    }
}

/// The identities a batch of lifecycle events carries, in order.
pub open spec fn internal_ids(rs: Seq<Internal>) -> Seq<PlayerId>
    decreases rs.len(),
{
    if rs.len() == 0 {
        Seq::empty()
    } else {
        internal_ids(rs.drop_last()).push(crate::internal_events::internal_ident(rs.last()).player_id)
    }
}

/// The registry after a tick's connection events, with the identity drawn
/// for the k-th new connection given by `ids[k]`: each new connection is
/// registered, each departed one is torn down, in order.
pub open spec fn conn_fold(
    m: Map<ConnectionHandle, PlayerId>,
    events: Seq<NetworkEvent>,
    ids: Seq<PlayerId>,
) -> Map<ConnectionHandle, PlayerId>
    decreases events.len(),
{
    if events.len() == 0 {
        m
    } else {
        match events.last() {
            NetworkEvent::Connected(h) => if ids.len() > 0 {
                conn_fold(m, events.drop_last(), ids.drop_last()).insert(h, ids.last())
            } else {
                conn_fold(m, events.drop_last(), ids)
            },
            NetworkEvent::Disconnected(h) => conn_fold(m, events.drop_last(), ids).remove(h),
            _ => conn_fold(m, events.drop_last(), ids),
        }
    }
}

/// Assign `id` to a newly connected peer: record it in the registry and
/// announce the connection to the rest of the tick.
pub fn identify_client(
    handle_map: &mut ClientHandleMap,
    handle: ConnectionHandle,
    id: PlayerId,
) -> (ev: Internal)
    requires
        old(handle_map).wf(),
    ensures
        final(handle_map).wf(),
        final(handle_map).mapping() == old(handle_map).mapping().insert(handle, id),
        ev == Internal::PlayerConnected(handle, ClientIdentification { player_id: id }),
{
    handle_map.insert(handle, id);
    Internal::PlayerConnected(handle, ClientIdentification::new(id))
}

/// Drain this tick's transport events: every completed connection is
/// assigned a freshly drawn identity and announced; every disconnect tears
/// its registry row down. Packet and error notices concern only the
/// transport and are ignored here.
pub fn handle_client_connections(
    events: &Vec<NetworkEvent>,
    handle_map: &mut ClientHandleMap,
) -> (internals: Vec<Internal>)
    requires
        old(handle_map).wf(),
    ensures
        final(handle_map).wf(),
        internals@.len() == connected_handles(events@).len(),
        forall|k: int| 0 <= k < internals@.len()
            ==> crate::internal_events::internal_handle(#[trigger] internals@[k])
                == connected_handles(events@)[k],
        final(handle_map).mapping() == conn_fold(
            old(handle_map).mapping(),
            events@,
            internal_ids(internals@),
        ),
{
    let mut internals: Vec<Internal> = Vec::new();
    let n = events.len();
    let mut i: usize = 0;
    while i < n
        invariant
            i <= n,
            n == events@.len(),
            handle_map.wf(),
            internals@.len() == connected_handles(events@.take(i as int)).len(),
            forall|k: int| 0 <= k < internals@.len()
                ==> crate::internal_events::internal_handle(#[trigger] internals@[k])
                    == connected_handles(events@.take(i as int))[k],
            handle_map.mapping() == conn_fold(
                old(handle_map).mapping(),
                events@.take(i as int),
                internal_ids(internals@),
            ),
        decreases n - i,
    {
        proof {
            assert(events@.take(i + 1).drop_last() =~= events@.take(i as int));
            assert(events@.take(i + 1).last() == events@[i as int]);
        }
        let event = events[i];
        match event {
            NetworkEvent::Connected(handle) => {
                let new_id = crate::get_random();
                let ev = identify_client(handle_map, handle, new_id);
                let ghost prev = internals@;
                internals.push(ev);
                proof {
                    assert(internals@.drop_last() =~= prev);
                    assert(internals@.last() == ev);
                    assert(internal_ids(internals@) == internal_ids(prev).push(new_id));
                    assert(internal_ids(internals@).drop_last() =~= internal_ids(prev));
                    assert(internal_ids(internals@).last() == new_id);
                }
            },
            NetworkEvent::Disconnected(handle) => {
                handle_map.remove(handle);
            },
            NetworkEvent::Packet(_) => {},
            NetworkEvent::Error(_) => {},
        }
        i = i + 1;
    }
    proof {
        assert(events@.take(n as int) =~= events@);
    }
    internals
}

/// A validated move command applied to the entity set: the named entity's
/// movement order is overwritten only when it exists and the requester owns
/// it; otherwise nothing changes.
pub open spec fn apply_move_command(
    c: Map<NetworkObjectId, PlayerPointer>,
    player: PlayerId,
    ns: NetworkSync,
    m: Movable,
) -> Map<NetworkObjectId, PlayerPointer> {
    if c.contains_key(ns.unique_id) && player == c[ns.unique_id].control.owner {
        c.insert(ns.unique_id, PlayerPointer { movable: m, ..c[ns.unique_id] })
    } else {
        c
    }
}

/// One attributed command applied to the entity set; a ping changes nothing.
pub open spec fn apply_command(
    c: Map<NetworkObjectId, PlayerPointer>,
    cmd: AssociatedCommand,
) -> Map<NetworkObjectId, PlayerPointer> {
    match cmd.1 {
        PlayerCommand::PointerMoveChange(ns, m) => apply_move_command(c, cmd.0, ns, m),
        PlayerCommand::Ping(_) => c,
    }
}

/// A whole tick's command queue applied in order.
pub open spec fn apply_commands(
    c: Map<NetworkObjectId, PlayerPointer>,
    cmds: Seq<AssociatedCommand>,
) -> Map<NetworkObjectId, PlayerPointer>
    decreases cmds.len(),
{
    if cmds.len() == 0 {
        c
    } else {
        apply_command(apply_commands(c, cmds.drop_last()), cmds.last())
    }
}

/// The validation verdict for one command against the current entity set:
/// an ownership violation exactly when the named entity exists and the
/// requester is not its owner.
pub open spec fn command_error(
    c: Map<NetworkObjectId, PlayerPointer>,
    cmd: AssociatedCommand,
) -> Option<PlayerCommandValidationError> {
    match cmd.1 {
        PlayerCommand::PointerMoveChange(ns, _) => if c.contains_key(ns.unique_id)
            && cmd.0 != c[ns.unique_id].control.owner {
            Some(PlayerCommandValidationError::NotOwned {
                attempted: cmd.0,
                owner: c[ns.unique_id].control.owner,
            })
        } else {
            None
        },
        PlayerCommand::Ping(_) => None,
    }
}

/// The ownership violations a tick's command queue raises, in order, each
/// judged against the entity set as it stood when its command was reached.
pub open spec fn command_errors(
    c: Map<NetworkObjectId, PlayerPointer>,
    cmds: Seq<AssociatedCommand>,
) -> Seq<PlayerCommandValidationError>
    decreases cmds.len(),
{
    if cmds.len() == 0 {
        Seq::empty()
    } else {
        let rest = command_errors(c, cmds.drop_last());
        match command_error(apply_commands(c, cmds.drop_last()), cmds.last()) {
            Some(e) => rest.push(e),
            None => rest,
        }
    }
}

/// The entity a command will move, judged against an entity set: its name,
/// when the entity exists and the requester owns it; nothing otherwise.
pub open spec fn accepted_command_id(
    c: Map<NetworkObjectId, PlayerPointer>,
    cmd: AssociatedCommand,
) -> Option<NetworkObjectId> {
    match cmd.1 {
        PlayerCommand::PointerMoveChange(ns, _) => if c.contains_key(ns.unique_id)
            && cmd.0 == c[ns.unique_id].control.owner {
            Some(ns.unique_id)
        } else {
            None
        },
        PlayerCommand::Ping(_) => None,
    }
}

/// Commands never create, destroy, rename or re-own entities: which entities
/// exist, their owners and their names are invariants of the command phase.
pub proof fn lemma_commands_preserve_identity(
    c: Map<NetworkObjectId, PlayerPointer>,
    cmds: Seq<AssociatedCommand>,
)
    ensures
        forall|id: NetworkObjectId|
            #[trigger] apply_commands(c, cmds).contains_key(id) <==> c.contains_key(id),
        forall|id: NetworkObjectId| c.contains_key(id)
            ==> (#[trigger] apply_commands(c, cmds)[id]).control == c[id].control
                && apply_commands(c, cmds)[id].network_sync == c[id].network_sync,
    decreases cmds.len(),
{
    if cmds.len() > 0 {
        lemma_commands_preserve_identity(c, cmds.drop_last());
        let x = apply_commands(c, cmds.drop_last());
        let y = apply_commands(c, cmds);
        assert(y == apply_command(x, cmds.last()));
        assert forall|id: NetworkObjectId| #[trigger] y.contains_key(id) <==> c.contains_key(id) by {
            assert(x.contains_key(id) <==> c.contains_key(id));
        }
        assert forall|id: NetworkObjectId| c.contains_key(id)
            implies (#[trigger] y[id]).control == c[id].control
                && y[id].network_sync == c[id].network_sync by {
            assert(x.contains_key(id) && x[id].control == c[id].control
                && x[id].network_sync == c[id].network_sync);
            match cmds.last().1 {
                PlayerCommand::PointerMoveChange(ns, m) => {
                    if x.contains_key(ns.unique_id) && cmds.last().0 == x[ns.unique_id].control.owner {
                        if id == ns.unique_id {
                            assert(y[id] == PlayerPointer { movable: m, ..x[id] });
                        } else {
                            assert(y[id] == x[id]);
                        }
                    }
                },
                PlayerCommand::Ping(_) => {},
            }
        }
    }
}

/// Ownership invariant: a command whose identity is not the owner of the
/// entity it names leaves the entity set unchanged — as does a command
/// naming an entity that does not exist.
pub proof fn lemma_ownership_invariant(
    c: Map<NetworkObjectId, PlayerPointer>,
    player: PlayerId,
    ns: NetworkSync,
    m: Movable,
)
    requires
        c.contains_key(ns.unique_id) ==> player != c[ns.unique_id].control.owner,
    ensures
        apply_command(c, (player, PlayerCommand::PointerMoveChange(ns, m))) == c,
{
}

/// Apply this tick's attributed commands to the authoritative entity set,
/// validating each against ownership first. A rejected command changes
/// nothing and yields a diagnostic; a command naming an unknown entity is a
/// silent no-op; an accepted command overwrites the unit's movement order
/// and marks it for broadcast.
pub fn handle_client_move_commands(
    command_queue: &Vec<AssociatedCommand>,
    store: &mut EntityStore,
) -> (errors: Vec<PlayerCommandValidationError>)
    requires
        old(store).wf(),
    ensures
        final(store).wf(),
        final(store).contents() == apply_commands(old(store).contents(), command_queue@),
        errors@ == command_errors(old(store).contents(), command_queue@),
        forall|id: NetworkObjectId| old(store).is_changed(id) ==> final(store).is_changed(id),
        forall|k: int| 0 <= k < command_queue@.len()
            && accepted_command_id(old(store).contents(), #[trigger] command_queue@[k]) is Some
            ==> final(store).is_changed(
                accepted_command_id(old(store).contents(), command_queue@[k])->Some_0,
            ),
{
    let ghost c0 = old(store).contents();
    let mut errors: Vec<PlayerCommandValidationError> = Vec::new();
    let n = command_queue.len();
    let mut i: usize = 0;
    while i < n
        invariant
            i <= n,
            n == command_queue@.len(),
            store.wf(),
            c0 == old(store).contents(),
            store.contents() == apply_commands(c0, command_queue@.take(i as int)),
            errors@ == command_errors(c0, command_queue@.take(i as int)),
            forall|id: NetworkObjectId| old(store).is_changed(id) ==> store.is_changed(id),
            forall|k: int| 0 <= k < i
                && accepted_command_id(c0, #[trigger] command_queue@[k]) is Some
                ==> store.is_changed(accepted_command_id(c0, command_queue@[k])->Some_0),
        decreases n - i,
    {
        proof {
            assert(command_queue@.take(i + 1).drop_last() =~= command_queue@.take(i as int));
            assert(command_queue@.take(i + 1).last() == command_queue@[i as int]);
            lemma_commands_preserve_identity(c0, command_queue@.take(i as int));
        }
        let ghost store_before = *store;
        let (player_id, cmd) = command_queue[i];
        match cmd {
            PlayerCommand::PointerMoveChange(unit_id, target_movable) => {
                proof {
                    lemma_contents_key(store.entries@, unit_id.unique_id);
                }
                match store.index_of(unit_id.unique_id) {
                    Some(idx) => {
                        proof {
                            lemma_contents_at(store.entries@, idx as int);
                        }
                        let control = store.get_at(idx).control;
                        match validate_player_command(player_id, &control, cmd) {
                            Ok(()) => {
                                store.set_movable(idx, target_movable);
                                proof {
                                    assert(accepted_command_id(c0, command_queue@[i as int])
                                        == Some(unit_id.unique_id));
                                    assert(entry_id(store.entries@[idx as int]) == unit_id.unique_id
                                        && store.entries@[idx as int].changed);
                                    assert(store.is_changed(unit_id.unique_id));
                                    assert forall|id: NetworkObjectId| store_before.is_changed(id)
                                        implies store.is_changed(id) by {
                                        let j = choose|j: int| 0 <= j < store_before.entries@.len()
                                            && store_before.entries@[j].changed
                                            && #[trigger] entry_id(store_before.entries@[j]) == id;
                                        if j == idx as int {
                                            assert(entry_id(store.entries@[j]) == id);
                                        } else {
                                            assert(store.entries@[j] == store_before.entries@[j]);
                                        }
                                    }
                                }
                            },
                            Err(e) => {
                                errors.push(e);
                                proof {
                                    assert(accepted_command_id(c0, command_queue@[i as int]) is None);
                                }
                            },
                        }
                    },
                    None => {
                        // the command names no stored entity: dropped
                        proof {
                            assert(accepted_command_id(c0, command_queue@[i as int]) is None);
                        }
                    },
                }
            },
            PlayerCommand::Ping(_) => {},
        }
        i = i + 1;
    }
    proof {
        assert(command_queue@.take(n as int) =~= command_queue@);
    }
    errors
}

/// The movement-change announcement for one entity's current state.
pub open spec fn movement_event_of(p: PlayerPointer) -> ServerEvent {
    ServerEvent::EntityMovementChange(p.network_sync, p.movable, p.location)
}

/// Exactly one movement-change announcement per marked entry, in store
/// order.
pub open spec fn sync_events_of(s: Seq<EntityEntry>) -> Seq<ServerEvent>
    decreases s.len(),
{
    if s.len() == 0 {
        Seq::empty()
    } else {
        let rest = sync_events_of(s.drop_last());
        if s.last().changed {
            rest.push(movement_event_of(s.last().pointer))
        } else {
            rest
        }
    }
}

/// Queue one authoritative state change for broadcast.
pub fn broadcast_server_event(event_writer: &mut Vec<ServerEvent>, event: ServerEvent)
    ensures
        final(event_writer)@ == old(event_writer)@.push(event),
{
    event_writer.push(event);
}

/// Emit exactly one movement-change announcement for every entity whose
/// state changed since the last broadcast, and clear the marks. The entities
/// themselves are untouched.
pub fn sync_movable(to_sync: &mut EntityStore, server_events: &mut Vec<ServerEvent>)
    requires
        old(to_sync).wf(),
    ensures
        final(to_sync).wf(),
        final(to_sync).entries@.len() == old(to_sync).entries@.len(),
        forall|i: int| 0 <= i < old(to_sync).entries@.len()
            ==> final(to_sync).entries@[i] == (EntityEntry {
                pointer: old(to_sync).entries@[i].pointer,
                changed: false,
            }),
        final(to_sync).contents() == old(to_sync).contents(),
        final(server_events)@ == old(server_events)@ + sync_events_of(old(to_sync).entries@),
{
    let n = to_sync.entries.len();
    let mut i: usize = 0;
    while i < n
        invariant
            i <= n,
            n == to_sync.entries@.len(),
            n == old(to_sync).entries@.len(),
            forall|j: int| 0 <= j < i
                ==> to_sync.entries@[j] == (EntityEntry {
                    pointer: old(to_sync).entries@[j].pointer,
                    changed: false,
                }),
            forall|j: int| i <= j < n ==> to_sync.entries@[j] == old(to_sync).entries@[j],
            server_events@ == old(server_events)@ + sync_events_of(old(to_sync).entries@.take(i as int)),
        decreases n - i,
    {
        proof {
            assert(old(to_sync).entries@.take(i + 1).drop_last() =~= old(to_sync).entries@.take(i as int));
            assert(old(to_sync).entries@.take(i + 1).last() == old(to_sync).entries@[i as int]);
        }
        let e = to_sync.entries[i];
        if e.changed {
            broadcast_server_event(
                server_events,
                ServerEvent::EntityMovementChange(e.pointer.network_sync, e.pointer.movable, e.pointer.location),
            );
            to_sync.entries.set(i, EntityEntry { pointer: e.pointer, changed: false });
        }
        i = i + 1;
    }
    proof {
        assert(old(to_sync).entries@.take(n as int) =~= old(to_sync).entries@);
        assert forall|p: int, q: int| 0 <= p < q < to_sync.entries@.len()
            implies entry_id(to_sync.entries@[p]) != entry_id(to_sync.entries@[q]) by {
            assert(entry_id(to_sync.entries@[p]) == entry_id(old(to_sync).entries@[p]));
            assert(entry_id(to_sync.entries@[q]) == entry_id(old(to_sync).entries@[q]));
        }
        crate::store::lemma_contents_pointwise(to_sync.entries@, old(to_sync).entries@);
    }
}

/// One gameplay message per peer for one announcement, in peer order.
pub open spec fn fanout_one(
    e: ServerEvent,
    conns: Seq<ConnectionHandle>,
) -> Seq<(ConnectionHandle, GameEvent)>
    decreases conns.len(),
{
    if conns.len() == 0 {
        Seq::empty()
    } else {
        fanout_one(e, conns.drop_last()).push((conns.last(), GameEvent::ServerUpdate(e)))
    }
}

/// Every announcement fanned out to every peer, announcements in order.
pub open spec fn broadcast_out(
    events: Seq<ServerEvent>,
    conns: Seq<ConnectionHandle>,
) -> Seq<(ConnectionHandle, GameEvent)>
    decreases events.len(),
{
    if events.len() == 0 {
        Seq::empty()
    } else {
        broadcast_out(events.drop_last(), conns) + fanout_one(events.last(), conns)
    }
}

/// Fan this tick's announcements out: every currently connected peer is sent
/// every announcement, unconditionally — all entities are globally visible.
/// Each peer's outbound queue is independent; one message per event per
/// peer.
pub fn broadcast_server_events(
    server_events: &Vec<ServerEvent>,
    connections: &Vec<ConnectionHandle>,
    out: &mut Vec<(ConnectionHandle, GameEvent)>,
)
    ensures
        final(out)@ == old(out)@ + broadcast_out(server_events@, connections@),
{
    let n = server_events.len();
    let m = connections.len();
    let mut i: usize = 0;
    while i < n
        invariant
            i <= n,
            n == server_events@.len(),
            m == connections@.len(),
            out@ == old(out)@ + broadcast_out(server_events@.take(i as int), connections@),
        decreases n - i,
    {
        proof {
            assert(server_events@.take(i + 1).drop_last() =~= server_events@.take(i as int));
            assert(server_events@.take(i + 1).last() == server_events@[i as int]);
        }
        let event = server_events[i];
        let mut j: usize = 0;
        while j < m
            invariant
                j <= m,
                m == connections@.len(),
                n == server_events@.len(),
                i < n,
                event == server_events@[i as int],
                out@ == old(out)@ + broadcast_out(server_events@.take(i as int), connections@)
                    + fanout_one(event, connections@.take(j as int)),
            decreases m - j,
        {
            proof {
                assert(connections@.take(j + 1).drop_last() =~= connections@.take(j as int));
                assert(connections@.take(j + 1).last() == connections@[j as int]);
            }
            out.push((connections[j], GameEvent::ServerUpdate(event)));
            j = j + 1;
        }
        proof {
            assert(connections@.take(m as int) =~= connections@);
        }
        i = i + 1;
    }
    proof {
        assert(server_events@.take(n as int) =~= server_events@);
    }
}

/// A marked entry's announcement is among the tick's announcements.
pub proof fn lemma_sync_contains(s: Seq<EntityEntry>, i: int)
    requires
        0 <= i < s.len(),
        s[i].changed,
    ensures
        exists|t: int| 0 <= t < sync_events_of(s).len()
            && sync_events_of(s)[t] == movement_event_of(s[i].pointer),
    decreases s.len(),
{
    if i == s.len() - 1 {
        let t = sync_events_of(s.drop_last()).len() as int;
        assert(sync_events_of(s)[t] == movement_event_of(s[i].pointer));
    } else {
        let s0 = s.drop_last();
        assert(s0[i] == s[i]);
        lemma_sync_contains(s0, i);
        let t = choose|t: int| 0 <= t < sync_events_of(s0).len()
            && sync_events_of(s0)[t] == movement_event_of(s0[i].pointer);
        assert(sync_events_of(s)[t] == movement_event_of(s[i].pointer));
    }
}

/// Each peer's copy of an announcement is in the fan-out for that
/// announcement.
pub proof fn lemma_fanout_contains(e: ServerEvent, conns: Seq<ConnectionHandle>, j: int)
    requires
        0 <= j < conns.len(),
    ensures
        exists|k: int| 0 <= k < fanout_one(e, conns).len()
            && fanout_one(e, conns)[k] == (conns[j], GameEvent::ServerUpdate(e)),
    decreases conns.len(),
{
    if j == conns.len() - 1 {
        let k = fanout_one(e, conns.drop_last()).len() as int;
        assert(fanout_one(e, conns)[k] == (conns[j], GameEvent::ServerUpdate(e)));
    } else {
        let c0 = conns.drop_last();
        assert(c0[j] == conns[j]);
        lemma_fanout_contains(e, c0, j);
        let k = choose|k: int| 0 <= k < fanout_one(e, c0).len()
            && fanout_one(e, c0)[k] == (c0[j], GameEvent::ServerUpdate(e));
        assert(fanout_one(e, conns)[k] == (conns[j], GameEvent::ServerUpdate(e)));
    }
}

/// Every announcement reaches every peer's outbound queue.
pub proof fn lemma_broadcast_contains(
    events: Seq<ServerEvent>,
    conns: Seq<ConnectionHandle>,
    t: int,
    j: int,
)
    requires
        0 <= t < events.len(),
        0 <= j < conns.len(),
    ensures
        exists|k: int| 0 <= k < broadcast_out(events, conns).len()
            && broadcast_out(events, conns)[k] == (conns[j], GameEvent::ServerUpdate(events[t])),
    decreases events.len(),
{
    if t == events.len() - 1 {
        lemma_fanout_contains(events.last(), conns, j);
        let k = choose|k: int| 0 <= k < fanout_one(events.last(), conns).len()
            && fanout_one(events.last(), conns)[k] == (conns[j], GameEvent::ServerUpdate(events.last()));
        let off = broadcast_out(events.drop_last(), conns).len() as int;
        assert(broadcast_out(events, conns)[off + k] == (conns[j], GameEvent::ServerUpdate(events[t])));
    } else {
        let e0 = events.drop_last();
        assert(e0[t] == events[t]);
        lemma_broadcast_contains(e0, conns, t, j);
        let k = choose|k: int| 0 <= k < broadcast_out(e0, conns).len()
            && broadcast_out(e0, conns)[k] == (conns[j], GameEvent::ServerUpdate(e0[t]));
        assert(broadcast_out(events, conns)[k] == (conns[j], GameEvent::ServerUpdate(events[t])));
    }
}

/// Broadcast fan-out: a state change to any entity — a marked store entry —
/// produces a movement-change announcement for it that is delivered to every
/// connected peer's outbound queue.
pub proof fn lemma_broadcast_fan_out(
    entries: Seq<EntityEntry>,
    peers: Seq<ConnectionHandle>,
    i: int,
    j: int,
)
    requires
        0 <= i < entries.len(),
        entries[i].changed,
        0 <= j < peers.len(),
    ensures
        exists|k: int| 0 <= k < broadcast_out(sync_events_of(entries), peers).len()
            && broadcast_out(sync_events_of(entries), peers)[k]
                == (peers[j], GameEvent::ServerUpdate(movement_event_of(entries[i].pointer))),
{
    lemma_sync_contains(entries, i);
    let t = choose|t: int| 0 <= t < sync_events_of(entries).len()
        && sync_events_of(entries)[t] == movement_event_of(entries[i].pointer);
    lemma_broadcast_contains(sync_events_of(entries), peers, t, j);
}

} // verus!
