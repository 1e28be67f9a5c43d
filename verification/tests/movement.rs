use entity_sync::game::{step_unit, move_movable, Location, Movable, POINTER_SPEED};
use entity_sync::pointer::PlayerPointer;
use entity_sync::game::PlayerControllable;
use entity_sync::protocol::NetworkSync;
use entity_sync::store::EntityStore;

fn unit_at(x: i32, y: i32, tx: i32, ty: i32, speed: u64) -> (Movable, Location) {
    (
        Movable { target_location: Location { x: tx, y: ty }, active: true, speed },
        Location { x, y },
    )
}

#[test]
fn arrival_is_exact_after_enough_ticks() {
    // gap 100 per axis, 30 units per tick: 4 ticks to land exactly
    let (mut m, mut loc) = unit_at(0, 0, 100, 100, 30);
    step_unit(&mut m, &mut loc, 1);
    assert_eq!(loc, Location { x: 30, y: 30 });
    assert!(m.active);
    step_unit(&mut m, &mut loc, 1);
    assert_eq!(loc, Location { x: 60, y: 60 });
    step_unit(&mut m, &mut loc, 1);
    assert_eq!(loc, Location { x: 90, y: 90 });
    assert!(m.active);
    step_unit(&mut m, &mut loc, 1);
    assert_eq!(loc, Location { x: 100, y: 100 });
    assert!(!m.active);
}

#[test]
fn arrival_never_overshoots() {
    // one displacement larger than the remaining gap snaps to the target
    let (mut m, mut loc) = unit_at(0, 0, 10, 5, 100);
    step_unit(&mut m, &mut loc, 1);
    assert_eq!(loc, Location { x: 10, y: 5 });
    assert!(!m.active);
    // and a further tick leaves it at rest
    step_unit(&mut m, &mut loc, 1);
    assert_eq!(loc, Location { x: 10, y: 5 });
    assert!(!m.active);
}

#[test]
fn axes_move_independently_toward_target() {
    let (mut m, mut loc) = unit_at(0, 0, -50, 80, 20);
    step_unit(&mut m, &mut loc, 1);
    assert_eq!(loc, Location { x: -20, y: 20 });
    step_unit(&mut m, &mut loc, 1);
    assert_eq!(loc, Location { x: -40, y: 40 });
    step_unit(&mut m, &mut loc, 1);
    // x lands, y keeps going
    assert_eq!(loc, Location { x: -50, y: 60 });
    assert!(m.active);
    step_unit(&mut m, &mut loc, 1);
    assert_eq!(loc, Location { x: -50, y: 80 });
    assert!(!m.active);
}

#[test]
fn zero_delta_moves_nothing() {
    let (mut m, mut loc) = unit_at(3, 4, 100, 100, 50);
    step_unit(&mut m, &mut loc, 0);
    assert_eq!(loc, Location { x: 3, y: 4 });
    assert!(m.active);
}

#[test]
fn zero_delta_still_detects_arrival_in_place() {
    // a unit already standing on its target comes to rest even with no time
    let (mut m, mut loc) = unit_at(7, 7, 7, 7, 50);
    step_unit(&mut m, &mut loc, 0);
    assert_eq!(loc, Location { x: 7, y: 7 });
    assert!(!m.active);
}

#[test]
fn inactive_unit_is_untouched() {
    let mut m = Movable { target_location: Location { x: 9, y: 9 }, active: false, speed: 100 };
    let mut loc = Location { x: 1, y: 2 };
    step_unit(&mut m, &mut loc, 5);
    assert_eq!(loc, Location { x: 1, y: 2 });
    assert!(!m.active);
}

#[test]
fn huge_speed_and_delta_snap_without_overflow() {
    let (mut m, mut loc) = unit_at(i32::MIN, i32::MIN, i32::MAX, i32::MAX, u64::MAX);
    step_unit(&mut m, &mut loc, u64::MAX);
    assert_eq!(loc, Location { x: i32::MAX, y: i32::MAX });
    assert!(!m.active);
}

#[test]
fn movable_new_uses_default_pointer_speed() {
    let m = Movable::new(Location { x: 5, y: 6 });
    assert_eq!(m.target_location, Location { x: 5, y: 6 });
    assert!(m.active);
    assert_eq!(m.speed, POINTER_SPEED);
}

#[test]
fn movable_update_overwrites_all_fields() {
    let mut m = Movable::new(Location { x: 0, y: 0 });
    let incoming = Movable { target_location: Location { x: 8, y: 9 }, active: false, speed: 7 };
    m.update(incoming);
    assert_eq!(m, incoming);
}

fn pointer(id: u32, owner: u32, x: i32, y: i32, tx: i32, ty: i32, active: bool) -> PlayerPointer {
    PlayerPointer {
        control: PlayerControllable { owner },
        movable: Movable {
            target_location: Location { x: tx, y: ty },
            active,
            speed: 10,
        },
        network_sync: NetworkSync { unique_id: id },
        location: Location { x, y },
    }
}

#[test]
fn tick_advances_every_active_unit_and_marks_it() {
    let mut store = EntityStore::new();
    store.insert(pointer(1, 100, 0, 0, 40, 0, true)).unwrap();
    store.insert(pointer(2, 200, 5, 5, 5, 5, false)).unwrap();
    // a broadcast pass clears the marks fresh inserts carry
    let mut drained = Vec::new();
    entity_sync::server::sync_movable(&mut store, &mut drained);

    move_movable(&mut store, 1);

    let moved = store.get(1).unwrap();
    assert_eq!(moved.location, Location { x: 10, y: 0 });
    assert!(moved.movable.active);
    let resting = store.get(2).unwrap();
    assert_eq!(resting.location, Location { x: 5, y: 5 });

    // only the unit the tick touched is announced
    let mut events = Vec::new();
    entity_sync::server::sync_movable(&mut store, &mut events);
    assert_eq!(events.len(), 1);
    match events[0] {
        entity_sync::events::ServerEvent::EntityMovementChange(ns, m, loc) => {
            assert_eq!(ns.unique_id, 1);
            assert!(m.active);
            assert_eq!(loc, Location { x: 10, y: 0 });
        }
        _ => panic!("expected a movement change"),
    }
}
