use entity_sync::errors::{EntityInsertError, PlayerCommandValidationError};
use entity_sync::game::{validate_player_command, Location, Movable, PlayerControllable};
use entity_sync::events::PlayerCommand;
use entity_sync::pointer::PlayerPointer;
use entity_sync::protocol::NetworkSync;
use entity_sync::server::ClientHandleMap;
use entity_sync::store::EntityStore;

fn pointer(id: u32, owner: u32) -> PlayerPointer {
    PlayerPointer {
        control: PlayerControllable { owner },
        movable: Movable::new(Location { x: 0, y: 0 }),
        network_sync: NetworkSync { unique_id: id },
        location: Location { x: 0, y: 0 },
    }
}

#[test]
fn insert_refuses_duplicate_identifiers() {
    let mut store = EntityStore::new();
    assert!(store.insert(pointer(7, 1)).is_ok());
    let err = store.insert(pointer(7, 2)).unwrap_err();
    assert_eq!(err, EntityInsertError::DuplicateNetworkId { id: 7 });
    // the original entity survives untouched
    assert_eq!(store.get(7).unwrap().control.owner, 1);
    assert_eq!(store.len(), 1);
}

#[test]
fn upsert_overwrites_in_place() {
    let mut store = EntityStore::new();
    store.upsert(pointer(7, 1));
    store.upsert(pointer(7, 2));
    assert_eq!(store.len(), 1);
    assert_eq!(store.get(7).unwrap().control.owner, 2);
}

#[test]
fn lookup_by_identifier() {
    let mut store = EntityStore::new();
    store.insert(pointer(1, 10)).unwrap();
    store.insert(pointer(2, 20)).unwrap();
    assert!(store.contains(1));
    assert!(store.contains(2));
    assert!(!store.contains(3));
    assert!(store.get(3).is_none());
    assert_eq!(store.get(2).unwrap().control.owner, 20);
}

#[test]
fn registry_assigns_and_tears_down() {
    let mut map = ClientHandleMap::new();
    map.insert(5, 500);
    map.insert(6, 600);
    assert_eq!(map.get(5), Some(500));
    assert_eq!(map.get(6), Some(600));
    assert_eq!(map.get(7), None);
    // a reassignment overwrites
    map.insert(5, 501);
    assert_eq!(map.get(5), Some(501));
    map.remove(5);
    assert_eq!(map.get(5), None);
    assert_eq!(map.get(6), Some(600));
    // removing an unknown handle is harmless
    map.remove(99);
    assert_eq!(map.get(6), Some(600));
}

#[test]
fn validation_accepts_only_the_owner() {
    let control = PlayerControllable::new(11);
    let cmd = PlayerCommand::Ping(0);
    assert!(validate_player_command(11, &control, cmd).is_ok());
    let err = validate_player_command(12, &control, cmd).unwrap_err();
    assert_eq!(err, PlayerCommandValidationError::NotOwned { attempted: 12, owner: 11 });
}

#[test]
fn random_identifiers_can_name_entities() {
    let mut store = EntityStore::new();
    let ns = NetworkSync::new();
    let mut p = pointer(0, 1);
    p.network_sync = ns;
    store.insert(p).unwrap();
    assert!(store.contains(ns.unique_id));
    // a second generated identifier exists and is a plain value
    let _other = entity_sync::protocol::generate_network_id();
    let _raw = entity_sync::get_random();
}

#[test]
fn engine_settings_defaults() {
    let plugin = entity_sync::game::GameEnginePlugin::default();
    assert!(!plugin.settings.is_network_authority);
    assert!(!plugin.settings.headless);
    assert!(!entity_sync::game::headless_condition(&plugin.settings));
    let headless = entity_sync::game::GameInfo { is_network_authority: true, headless: true };
    assert!(entity_sync::game::headless_condition(&headless));
}
