use entity_sync::client::{
    capture_clicks, handle_movement_changes, log_connectivity, receive_initial,
    receive_server_events, send_command,
};
use entity_sync::errors::PlayerCommandValidationError;
use entity_sync::events::{GameEvent, PlayerCommand, ServerEvent};
use entity_sync::game::{move_movable, Location, Movable, PlayerControllable, POINTER_SPEED};
use entity_sync::internal_events::{
    handle_new_player_connections, spawn_point_for_player, sync_pointers_on_connect, Internal,
    InternalPlugin,
};
use entity_sync::pointer::{handle_pointer_spawns, PlayerPointer};
use entity_sync::protocol::{ClientIdentification, MetaInformation, NetworkEvent, NetworkSync};
use entity_sync::server::{
    broadcast_server_events, handle_client_connections, handle_client_move_commands,
    handle_clients_commands, identify_client, sync_movable, ClientHandleMap,
};
use entity_sync::store::EntityStore;

fn pointer(id: u32, owner: u32, x: i32, y: i32) -> PlayerPointer {
    PlayerPointer {
        control: PlayerControllable { owner },
        movable: Movable {
            target_location: Location { x, y },
            active: false,
            speed: POINTER_SPEED,
        },
        network_sync: NetworkSync { unique_id: id },
        location: Location { x, y },
    }
}

fn same_entities(a: &EntityStore, b: &EntityStore, ids: &[u32]) {
    assert_eq!(a.len(), b.len());
    for &id in ids {
        let pa = a.get(id).expect("entity missing on one side");
        let pb = b.get(id).expect("entity missing on the other side");
        assert_eq!(pa, pb);
    }
}

#[test]
fn commands_are_attributed_or_dropped() {
    let mut map = ClientHandleMap::new();
    map.insert(1, 100);
    let inbound = vec![
        (1, GameEvent::PlayerCommand(PlayerCommand::Ping(7))),
        (2, GameEvent::PlayerCommand(PlayerCommand::Ping(8))), // unmapped: dropped
        (1, GameEvent::ServerUpdate(ServerEvent::PointerSpawn(
            NetworkSync { unique_id: 5 },
            100,
            Location { x: 0, y: 0 },
        ))), // clients never send this: dropped
    ];
    let mut queue = Vec::new();
    handle_clients_commands(&map, &inbound, &mut queue);
    assert_eq!(queue, vec![(100, PlayerCommand::Ping(7))]);
}

#[test]
fn connection_events_register_and_tear_down() {
    let mut map = ClientHandleMap::new();
    let events = vec![
        NetworkEvent::Connected(1),
        NetworkEvent::Packet(1),
        NetworkEvent::Connected(2),
        NetworkEvent::Error(2),
        NetworkEvent::Disconnected(1),
    ];
    let internals = handle_client_connections(&events, &mut map);
    assert_eq!(internals.len(), 2);
    let Internal::PlayerConnected(h0, id0) = internals[0];
    let Internal::PlayerConnected(h1, id1) = internals[1];
    assert_eq!(h0, 1);
    assert_eq!(h1, 2);
    // the departed connection is gone; the live one keeps its identity
    assert_eq!(map.get(1), None);
    assert_eq!(map.get(2), Some(id1.player_id));
    let _ = id0;
}

#[test]
fn ownership_violation_changes_nothing() {
    let mut store = EntityStore::new();
    store.insert(pointer(5, 1, 10, 10)).unwrap();
    let foreign_order = Movable::new(Location { x: 99, y: 99 });
    let queue = vec![(2u32, PlayerCommand::PointerMoveChange(NetworkSync { unique_id: 5 }, foreign_order))];
    let errors = handle_client_move_commands(&queue, &mut store);
    assert_eq!(errors, vec![PlayerCommandValidationError::NotOwned { attempted: 2, owner: 1 }]);
    let unit = store.get(5).unwrap();
    assert_eq!(unit.movable.target_location, Location { x: 10, y: 10 });
    assert!(!unit.movable.active);
}

#[test]
fn unknown_entity_command_is_a_silent_no_op() {
    let mut store = EntityStore::new();
    store.insert(pointer(5, 1, 10, 10)).unwrap();
    let order = Movable::new(Location { x: 99, y: 99 });
    let queue = vec![(1u32, PlayerCommand::PointerMoveChange(NetworkSync { unique_id: 404 }, order))];
    let errors = handle_client_move_commands(&queue, &mut store);
    assert!(errors.is_empty());
    assert_eq!(store.get(5).unwrap().movable.target_location, Location { x: 10, y: 10 });
    assert!(!store.contains(404));
}

#[test]
fn owner_command_retargets_the_unit() {
    let mut store = EntityStore::new();
    store.insert(pointer(5, 1, 10, 10)).unwrap();
    let order = Movable::new(Location { x: 99, y: 99 });
    let queue = vec![(1u32, PlayerCommand::PointerMoveChange(NetworkSync { unique_id: 5 }, order))];
    let errors = handle_client_move_commands(&queue, &mut store);
    assert!(errors.is_empty());
    let unit = store.get(5).unwrap();
    assert_eq!(unit.movable, order);
    // the location itself only moves on ticks
    assert_eq!(unit.location, Location { x: 10, y: 10 });
}

#[test]
fn sync_announces_each_change_exactly_once() {
    let mut store = EntityStore::new();
    store.insert(pointer(1, 1, 0, 0)).unwrap();
    store.insert(pointer(2, 2, 0, 0)).unwrap();
    let mut events = Vec::new();
    sync_movable(&mut store, &mut events);
    // fresh inserts count as changes
    assert_eq!(events.len(), 2);
    // with no further change, nothing is announced again
    let mut quiet = Vec::new();
    sync_movable(&mut store, &mut quiet);
    assert!(quiet.is_empty());
}

#[test]
fn broadcast_reaches_every_peer_with_every_event() {
    let e1 = ServerEvent::PointerSpawn(NetworkSync { unique_id: 1 }, 10, Location { x: 0, y: 0 });
    let e2 = ServerEvent::EntityMovementChange(
        NetworkSync { unique_id: 1 },
        Movable::new(Location { x: 4, y: 4 }),
        Location { x: 2, y: 2 },
    );
    let events = vec![e1, e2];
    let peers = vec![7u32, 8, 9];
    let mut out = Vec::new();
    broadcast_server_events(&events, &peers, &mut out);
    assert_eq!(out.len(), 6);
    for &p in &peers {
        for &e in &events {
            assert!(out.contains(&(p, GameEvent::ServerUpdate(e))));
        }
    }
    // events go out in order, each fanned out over the peers in order
    assert_eq!(out, vec![
        (7, GameEvent::ServerUpdate(e1)),
        (8, GameEvent::ServerUpdate(e1)),
        (9, GameEvent::ServerUpdate(e1)),
        (7, GameEvent::ServerUpdate(e2)),
        (8, GameEvent::ServerUpdate(e2)),
        (9, GameEvent::ServerUpdate(e2)),
    ]);
}

#[test]
fn identification_messages_are_addressed_to_their_peer() {
    let internals = vec![
        Internal::PlayerConnected(3, ClientIdentification::new(30)),
        Internal::PlayerConnected(4, ClientIdentification::new(40)),
    ];
    let mut out = Vec::new();
    handle_new_player_connections(&internals, &mut out);
    assert_eq!(out.len(), 2);
    assert_eq!(out[0].0, 3);
    match &out[0].1 {
        MetaInformation::ClientIdentificationMessage(id) => assert_eq!(id.player_id, 30),
        _ => panic!("expected an identification"),
    }
    assert_eq!(out[1].0, 4);
}

#[test]
fn spawn_announcement_carries_owner_and_spawn_location() {
    let store = EntityStore::new();
    let mut events = Vec::new();
    let fresh = spawn_point_for_player(30, NetworkSync { unique_id: 77 }, &store, &mut events);
    assert!(fresh);
    assert_eq!(events.len(), 1);
    match events[0] {
        ServerEvent::PointerSpawn(ns, owner, loc) => {
            assert_eq!(ns.unique_id, 77);
            assert_eq!(owner, 30);
            assert_eq!(loc, Location { x: 50, y: 50 });
        }
        _ => panic!("expected a spawn"),
    }
}

#[test]
fn colliding_spawn_name_is_refused_not_overwritten() {
    let mut store = EntityStore::new();
    store.insert(pointer(77, 1, 0, 0)).unwrap();
    let mut events = Vec::new();
    let fresh = spawn_point_for_player(30, NetworkSync { unique_id: 77 }, &store, &mut events);
    assert!(!fresh);
    assert!(events.is_empty());
    assert_eq!(store.get(77).unwrap().control.owner, 1);
}

#[test]
fn resync_replay_is_idempotent() {
    let spawn = ServerEvent::PointerSpawn(NetworkSync { unique_id: 9 }, 90, Location { x: 1, y: 2 });
    let movement = ServerEvent::EntityMovementChange(
        NetworkSync { unique_id: 9 },
        Movable { target_location: Location { x: 5, y: 5 }, active: true, speed: 3 },
        Location { x: 3, y: 3 },
    );

    let mut once = EntityStore::new();
    handle_pointer_spawns(&vec![spawn], &mut once);
    handle_movement_changes(&vec![movement], &mut once);

    let mut twice = EntityStore::new();
    handle_pointer_spawns(&vec![spawn, spawn], &mut twice);
    handle_movement_changes(&vec![movement, movement], &mut twice);

    same_entities(&once, &twice, &[9]);
}

#[test]
fn movement_for_unknown_entity_is_dropped() {
    let mut store = EntityStore::new();
    let movement = ServerEvent::EntityMovementChange(
        NetworkSync { unique_id: 123 },
        Movable::new(Location { x: 5, y: 5 }),
        Location { x: 3, y: 3 },
    );
    handle_movement_changes(&vec![movement], &mut store);
    assert_eq!(store.len(), 0);
}

#[test]
fn new_joiner_sees_the_full_entity_set() {
    let mut server = EntityStore::new();
    server.insert(pointer(1, 10, 3, 4)).unwrap();
    server.insert(pointer(2, 20, -7, 8)).unwrap();
    let mut active = pointer(3, 30, 0, 0);
    active.movable = Movable { target_location: Location { x: 9, y: 9 }, active: true, speed: 2 };
    server.insert(active).unwrap();

    let internals = vec![Internal::PlayerConnected(42, ClientIdentification::new(10))];
    let mut game_out = Vec::new();
    sync_pointers_on_connect(&internals, &server, &mut game_out);
    assert_eq!(game_out.len(), 6);

    // the joining client applies what it was sent
    let mut inbound = Vec::new();
    for (handle, msg) in game_out {
        assert_eq!(handle, 42);
        inbound.push(msg);
    }
    let mut replayed = Vec::new();
    receive_server_events(&inbound, &mut replayed);
    let mut client = EntityStore::new();
    handle_pointer_spawns(&replayed, &mut client);
    handle_movement_changes(&replayed, &mut client);

    same_entities(&server, &client, &[1, 2, 3]);
}

#[test]
fn lifecycle_phase_produces_all_three_outputs() {
    let mut server = EntityStore::new();
    server.insert(pointer(1, 10, 3, 4)).unwrap();

    let internals = vec![Internal::PlayerConnected(8, ClientIdentification::new(80))];
    let plugin = InternalPlugin {};
    let mut meta_out = Vec::new();
    let mut game_out = Vec::new();
    let mut server_events = Vec::new();
    let syncs = plugin.process(&internals, &server, &mut meta_out, &mut game_out, &mut server_events);

    assert_eq!(meta_out.len(), 1);
    assert_eq!(syncs.len(), 1);
    assert_eq!(server_events.len(), 1);
    match server_events[0] {
        ServerEvent::PointerSpawn(ns, owner, loc) => {
            assert_eq!(ns.unique_id, syncs[0].unique_id);
            assert_eq!(owner, 80);
            assert_eq!(loc, Location { x: 50, y: 50 });
        }
        _ => panic!("expected a spawn"),
    }
    // the replay: one spawn/movement pair for the one existing entity
    assert_eq!(game_out.len(), 2);
}

#[test]
fn client_adopts_last_identity_and_keeps_it_over_disconnect_notes() {
    let mut identity = ClientIdentification::new(0);
    let inbound = vec![
        MetaInformation::ClientIdentificationMessage(ClientIdentification::new(5)),
        MetaInformation::DisconnectReason(String::from("server going down")),
        MetaInformation::ClientIdentificationMessage(ClientIdentification::new(6)),
    ];
    receive_initial(&inbound, &mut identity);
    assert_eq!(identity.player_id, 6);

    let none: Vec<MetaInformation> = Vec::new();
    receive_initial(&none, &mut identity);
    assert_eq!(identity.player_id, 6);
}

#[test]
fn only_server_updates_pass_the_gameplay_filter() {
    let spawn = ServerEvent::PointerSpawn(NetworkSync { unique_id: 9 }, 90, Location { x: 1, y: 2 });
    let inbound = vec![
        GameEvent::PlayerCommand(PlayerCommand::Ping(1)),
        GameEvent::ServerUpdate(spawn),
    ];
    let mut updates = Vec::new();
    receive_server_events(&inbound, &mut updates);
    assert_eq!(updates, vec![spawn]);
}

#[test]
fn each_connection_is_greeted_with_a_ping() {
    let notices = vec![
        NetworkEvent::Connected(1),
        NetworkEvent::Disconnected(2),
        NetworkEvent::Connected(3),
    ];
    let mut net = Vec::new();
    log_connectivity(&notices, &mut net);
    assert_eq!(net, vec![
        GameEvent::PlayerCommand(PlayerCommand::Ping(42)),
        GameEvent::PlayerCommand(PlayerCommand::Ping(42)),
    ]);
}

#[test]
fn send_command_wraps_for_the_gameplay_channel() {
    let mut net = Vec::new();
    send_command(&mut net, PlayerCommand::Ping(3));
    assert_eq!(net, vec![GameEvent::PlayerCommand(PlayerCommand::Ping(3))]);
}

#[test]
fn clicks_command_own_pointer_only() {
    let mut store = EntityStore::new();
    store.insert(pointer(1, 10, 0, 0)).unwrap();
    store.insert(pointer(2, 20, 0, 0)).unwrap();

    let me = ClientIdentification::new(20);
    let cmd = capture_clicks(&store, &me, Location { x: 33, y: 44 });
    match cmd {
        PlayerCommand::PointerMoveChange(ns, m) => {
            assert_eq!(ns.unique_id, 2);
            assert_eq!(m.target_location, Location { x: 33, y: 44 });
            assert!(m.active);
            assert_eq!(m.speed, POINTER_SPEED);
        }
        _ => panic!("expected a move order"),
    }

    let stranger = ClientIdentification::new(999);
    assert_eq!(capture_clicks(&store, &stranger, Location { x: 1, y: 1 }), PlayerCommand::Ping(42));
}

/// Two clients connect and are told apart; a foreign move order is dropped
/// with the victim unchanged; the owner's order converges on both clients.
#[test]
fn two_client_session_converges() {
    let mut registry = ClientHandleMap::new();
    let mut server = EntityStore::new();
    let mut client_a = EntityStore::new();
    let mut client_b = EntityStore::new();

    // both peers identified, with distinct identities
    let ev_a = identify_client(&mut registry, 71, 1);
    let ev_b = identify_client(&mut registry, 72, 2);
    let mut meta_out = Vec::new();
    handle_new_player_connections(&vec![ev_a, ev_b], &mut meta_out);
    let mut id_a = ClientIdentification::new(0);
    let mut id_b = ClientIdentification::new(0);
    receive_initial(&vec![meta_out[0].1.clone()], &mut id_a);
    receive_initial(&vec![meta_out[1].1.clone()], &mut id_b);
    assert_eq!(id_a.player_id, 1);
    assert_eq!(id_b.player_id, 2);
    assert_ne!(id_a.player_id, id_b.player_id);

    // one owned pointer spawned per player, applied everywhere via broadcast
    let mut spawns = Vec::new();
    assert!(spawn_point_for_player(1, NetworkSync { unique_id: 1001 }, &server, &mut spawns));
    assert!(spawn_point_for_player(2, NetworkSync { unique_id: 1002 }, &server, &mut spawns));
    handle_pointer_spawns(&spawns, &mut server);
    let peers = vec![71u32, 72];
    let mut wire = Vec::new();
    broadcast_server_events(&spawns, &peers, &mut wire);
    let mut inbound_a = Vec::new();
    let mut inbound_b = Vec::new();
    for (peer, msg) in wire {
        if peer == 71 {
            inbound_a.push(msg);
        } else {
            inbound_b.push(msg);
        }
    }
    let mut updates_a = Vec::new();
    receive_server_events(&inbound_a, &mut updates_a);
    handle_pointer_spawns(&updates_a, &mut client_a);
    handle_movement_changes(&updates_a, &mut client_a);
    let mut updates_b = Vec::new();
    receive_server_events(&inbound_b, &mut updates_b);
    handle_pointer_spawns(&updates_b, &mut client_b);
    handle_movement_changes(&updates_b, &mut client_b);

    // A tries to move B's pointer: dropped, B's entity unchanged
    let b_entity_before = *server.get(1002).unwrap();
    let mut net_a = Vec::new();
    send_command(
        &mut net_a,
        PlayerCommand::PointerMoveChange(
            NetworkSync { unique_id: 1002 },
            Movable::new(Location { x: 100, y: 100 }),
        ),
    );
    let inbound: Vec<(u32, GameEvent)> = net_a.iter().map(|m| (71u32, *m)).collect();
    let mut queue = Vec::new();
    handle_clients_commands(&registry, &inbound, &mut queue);
    assert_eq!(queue.len(), 1);
    assert_eq!(queue[0].0, 1);
    let errors = handle_client_move_commands(&queue, &mut server);
    assert_eq!(errors, vec![PlayerCommandValidationError::NotOwned { attempted: 1, owner: 2 }]);
    assert_eq!(server.get(1002).unwrap(), &b_entity_before);

    // A moves its own pointer to (100, 100); the simulation converges there
    let click = capture_clicks(&client_a, &id_a, Location { x: 100, y: 100 });
    let mut net_a = Vec::new();
    send_command(&mut net_a, click);
    let inbound: Vec<(u32, GameEvent)> = net_a.iter().map(|m| (71u32, *m)).collect();
    let mut queue = Vec::new();
    handle_clients_commands(&registry, &inbound, &mut queue);
    let errors = handle_client_move_commands(&queue, &mut server);
    assert!(errors.is_empty());

    // drain the pending spawn marks once, then run ticks and broadcasts
    for _ in 0..10 {
        move_movable(&mut server, 1);
        let mut changes = Vec::new();
        sync_movable(&mut server, &mut changes);
        let mut wire = Vec::new();
        broadcast_server_events(&changes, &peers, &mut wire);
        let mut inbound_a = Vec::new();
        let mut inbound_b = Vec::new();
        for (peer, msg) in wire {
            if peer == 71 {
                inbound_a.push(msg);
            } else {
                inbound_b.push(msg);
            }
        }
        let mut updates_a = Vec::new();
        receive_server_events(&inbound_a, &mut updates_a);
        handle_pointer_spawns(&updates_a, &mut client_a);
        handle_movement_changes(&updates_a, &mut client_a);
        let mut updates_b = Vec::new();
        receive_server_events(&inbound_b, &mut updates_b);
        handle_pointer_spawns(&updates_b, &mut client_b);
        handle_movement_changes(&updates_b, &mut client_b);
    }

    for view in [&server, &client_a, &client_b] {
        let unit = view.get(1001).unwrap();
        assert_eq!(unit.location, Location { x: 100, y: 100 });
        assert!(!unit.movable.active);
    }
    same_entities(&server, &client_a, &[1001, 1002]);
    same_entities(&server, &client_b, &[1001, 1002]);
}
