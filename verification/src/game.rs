//! Core gameplay state: locations, movable units, ownership, and the
//! per-tick movement step.
//!
//! World space is a fixed-point integer grid. A tick advances every active
//! unit toward its target by at most `speed * delta` units on each axis and
//! deactivates it exactly when it lands on the target; it never overshoots.

use vstd::prelude::*;
use crate::errors::PlayerCommandValidationError;
use crate::events::{PlayerCommand, PlayerId};
use crate::pointer::PlayerPointer;
use crate::store::{EntityEntry, EntityStore, entry_id};

verus! {

/// Units a freshly spawned pointer travels per time quantum.
pub const POINTER_SPEED: u64 = 100;

/// Displacements above this bound behave identically (they reach any target
/// in one step), so per-step displacement is capped here to keep coordinate
/// arithmetic in range. It exceeds the widest possible axis gap.
pub const DISP_CAP: u64 = 0x2_0000_0000;

/// A world-space position: the source of truth for where an entity is.
/// Distinct from any render transform, which is presentation-only.
#[derive(Debug, Clone, Copy, PartialEq, Eq, Structural)]
pub struct Location {
    pub x: i32,
    pub y: i32,
}

/// Movement state of one unit. `active == false` means the unit rests at its
/// last known location.
#[derive(Debug, Copy, Clone, PartialEq, Eq, Structural)]
pub struct Movable {
    pub target_location: Location,
    pub active: bool,
    pub speed: u64,
}

impl Movable {
    /// A fresh movement order toward `target` at the default pointer speed.
    pub fn new(target: Location) -> (m: Movable)
        ensures
            m == (Movable { target_location: target, active: true, speed: POINTER_SPEED }),
    {
        Movable { target_location: target, active: true, speed: POINTER_SPEED }
    }

    /// Overwrite this movement state with a received one (last writer wins).
    pub fn update(&mut self, new: Movable)
        ensures
            *final(self) == new,
    {
        self.speed = new.speed;
        self.active = new.active;
        self.target_location = new.target_location;
    }
}

/// Ownership of a unit: only commands from `owner` may move it.
#[derive(Debug, Clone, Copy, PartialEq, Eq, Structural)]
pub struct PlayerControllable {
    pub owner: PlayerId,
}

impl PlayerControllable {
    pub fn new(owner: PlayerId) -> (c: PlayerControllable)
        ensures
            c.owner == owner,
    {
        PlayerControllable { owner }
    }
}

/// Role and presentation settings of the running process.
#[derive(Clone)]
pub struct GameInfo {
    pub is_network_authority: bool,
    pub headless: bool,
}

/// The shared gameplay rules, configured for one process.
pub struct GameEnginePlugin {
    pub settings: GameInfo,
}

impl Default for GameEnginePlugin {
    fn default() -> (p: GameEnginePlugin)
        ensures
            !p.settings.is_network_authority,
            !p.settings.headless,
    {
        GameEnginePlugin { settings: GameInfo { is_network_authority: false, headless: false } }
    }
}

/// Whether presentation systems should be skipped for these settings.
pub fn headless_condition(settings: &GameInfo) -> (r: bool)
    ensures
        r == settings.headless,
{
    settings.headless
}

/// Where one coordinate ends up after moving from `cur` toward `tgt` by at
/// most `disp` units: it lands on `tgt` exactly when the gap fits in `disp`.
pub open spec fn axis_step(cur: int, tgt: int, disp: int) -> int {
    if tgt >= cur {
        if tgt - cur <= disp {
            tgt
        } else {
            cur + disp
        }
    } else {
        if cur - tgt <= disp {
            tgt
        } else {
            cur - disp
        }
    }
}

/// The distance a step can close per axis: the larger axis gap.
pub open spec fn distance_between(a: Location, b: Location) -> int {
    let dx = vstd::math::abs(a.x - b.x);
    let dy = vstd::math::abs(a.y - b.y);
    vstd::math::max(dx as int, dy as int)
}

/// One tick's movement, capped so coordinate arithmetic stays in range.
pub open spec fn displacement_of(speed: u64, delta: u64) -> int {
    vstd::math::min(speed * delta, DISP_CAP as int)
}

/// Both coordinates after one step of at most `disp` units toward `tgt`.
pub open spec fn stepped_location(cur: Location, tgt: Location, disp: int) -> Location {
    Location {
        x: axis_step(cur.x as int, tgt.x as int, disp) as i32,
        y: axis_step(cur.y as int, tgt.y as int, disp) as i32,
    }
}

/// One simulation tick for one unit: an active unit advances toward its
/// target and deactivates exactly on arrival; an inactive unit is untouched.
pub open spec fn step_movable(m: Movable, loc: Location, delta: u64) -> (Movable, Location) {
    if m.active {
        let nl = stepped_location(loc, m.target_location, displacement_of(m.speed, delta));
        (Movable { active: nl != m.target_location, ..m }, nl)
    } else {
        (m, loc)
    }
}

/// The unit's state after `n` ticks of `delta` each.
pub open spec fn step_movable_n(m: Movable, loc: Location, delta: u64, n: nat) -> (Movable, Location)
    decreases n,
{
    if n == 0 {
        (m, loc)
    } else {
        let (m1, l1) = step_movable(m, loc, delta);
        step_movable_n(m1, l1, delta, (n - 1) as nat)
    }
}

/// The per-step displacement, capped at `DISP_CAP`.
fn displacement(speed: u64, delta: u64) -> (d: u64)
    ensures
        d == displacement_of(speed, delta),
{
    if delta == 0 {
        0
    } else if speed > DISP_CAP / delta {
        proof {
            assert(speed * delta > DISP_CAP) by (nonlinear_arith)
                requires
                    delta > 0,
                    speed > DISP_CAP / delta,
                    DISP_CAP / delta == DISP_CAP as int / delta as int,
            {
            }
        }
        DISP_CAP
    } else {
        proof {
            assert(speed * delta <= DISP_CAP) by (nonlinear_arith)
                requires
                    delta > 0,
                    speed <= DISP_CAP / delta,
                    DISP_CAP / delta == DISP_CAP as int / delta as int,
            {
            }
        }
        speed * delta
    }
}

/// Move one coordinate toward `tgt` by at most `disp`, landing exactly.
fn axis_move(cur: i32, tgt: i32, disp: u64) -> (r: i32)
    requires
        disp <= DISP_CAP,
    ensures
        r as int == axis_step(cur as int, tgt as int, disp as int),
{
    let c: i64 = cur as i64;
    let t: i64 = tgt as i64;
    let d: i64 = disp as i64;
    if t >= c {
        if t - c <= d {
            tgt
        } else {
            (c + d) as i32
        }
    } else {
        if c - t <= d {
            tgt
        } else {
            (c - d) as i32
        }
    }
}

/// Advance one unit by one tick of `delta` time quanta: on arrival the
/// location snaps to the target and the unit deactivates; otherwise both
/// coordinates close in by `speed * delta` without overshooting.
pub fn step_unit(m: &mut Movable, loc: &mut Location, delta: u64)
    ensures
        (*final(m), *final(loc)) == step_movable(*old(m), *old(loc), delta),
{
    if m.active {
        let disp = displacement(m.speed, delta);
        let nx = axis_move(loc.x, m.target_location.x, disp);
        let ny = axis_move(loc.y, m.target_location.y, disp);
        loc.x = nx;
        loc.y = ny;
        m.active = !(nx == m.target_location.x && ny == m.target_location.y);
    }
}

/// A store entry after one tick: the unit stepped, and the entry marked as
/// awaiting broadcast exactly when the tick moved or deactivated it.
pub open spec fn stepped_entry(e: EntityEntry, delta: u64) -> EntityEntry {
    let (m, l) = step_movable(e.pointer.movable, e.pointer.location, delta);
    EntityEntry {
        pointer: PlayerPointer { movable: m, location: l, ..e.pointer },
        changed: e.changed || m != e.pointer.movable || l != e.pointer.location,
    }
}

/// One fixed tick of the authoritative movement simulation: every active
/// unit advances toward its target by `speed * delta` per axis, deactivating
/// exactly on arrival, and every unit the tick touched is marked for
/// broadcast.
pub fn move_movable(store: &mut EntityStore, delta: u64)
    requires
        old(store).wf(),
    ensures
        final(store).wf(),
        final(store).entries@.len() == old(store).entries@.len(),
        forall|i: int| 0 <= i < old(store).entries@.len()
            ==> final(store).entries@[i] == stepped_entry(old(store).entries@[i], delta),
{
    let n = store.entries.len();
    let mut i: usize = 0;
    while i < n
        invariant
            i <= n,
            n == store.entries@.len(),
            n == old(store).entries@.len(),
            forall|j: int| 0 <= j < i
                ==> store.entries@[j] == stepped_entry(old(store).entries@[j], delta),
            forall|j: int| i <= j < n ==> store.entries@[j] == old(store).entries@[j],
        decreases n - i,
    {
        let e = store.entries[i];
        if e.pointer.movable.active {
            let mut m = e.pointer.movable;
            let mut loc = e.pointer.location;
            step_unit(&mut m, &mut loc, delta);
            let moved = !(m == e.pointer.movable) || !(loc == e.pointer.location);
            let ne = EntityEntry {
                pointer: PlayerPointer { movable: m, location: loc, ..e.pointer },
                changed: e.changed || moved,
            };
            store.entries.set(i, ne);
        }
        i = i + 1;
    }
    proof {
        assert forall|p: int, q: int| 0 <= p < q < store.entries@.len()
            implies entry_id(store.entries@[p]) != entry_id(store.entries@[q]) by {
            assert(entry_id(store.entries@[p]) == entry_id(old(store).entries@[p]));
            assert(entry_id(store.entries@[q]) == entry_id(old(store).entries@[q]));
        }
    }
}

/// Whether `b` lies on the closed segment between `a` and `c`.
pub open spec fn on_segment(a: int, b: int, c: int) -> bool {
    (a <= b <= c) || (c <= b <= a)
}

/// A single tick never overshoots: each coordinate of the stepped location
/// stays between where the unit was and its target.
pub proof fn lemma_no_overshoot(m: Movable, loc: Location, delta: u64)
    ensures
        on_segment(loc.x as int, step_movable(m, loc, delta).1.x as int, m.target_location.x as int),
        on_segment(loc.y as int, step_movable(m, loc, delta).1.y as int, m.target_location.y as int),
{
}

/// A unit at rest stays exactly where it is, however many ticks pass.
pub proof fn lemma_inactive_stable(m: Movable, loc: Location, delta: u64, n: nat)
    requires
        !m.active,
    ensures
        step_movable_n(m, loc, delta, n) == (m, loc),
    decreases n,
{
    if n > 0 {
        lemma_inactive_stable(m, loc, delta, (n - 1) as nat);
    }
}

/// One tick closes the gap by exactly the displacement: it snaps to the
/// target when the gap fits, and otherwise leaves the unit active with the
/// gap shrunk by `speed * delta`.
pub proof fn lemma_step_distance(m: Movable, loc: Location, delta: u64)
    requires
        m.active,
    ensures
        distance_between(loc, m.target_location) <= displacement_of(m.speed, delta) ==> {
            &&& step_movable(m, loc, delta).1 == m.target_location
            &&& !step_movable(m, loc, delta).0.active
        },
        distance_between(loc, m.target_location) > displacement_of(m.speed, delta) ==> {
            &&& step_movable(m, loc, delta).0 == (Movable { active: true, ..m })
            &&& distance_between(step_movable(m, loc, delta).1, m.target_location)
                == distance_between(loc, m.target_location) - displacement_of(m.speed, delta)
        },
{
    let tgt = m.target_location;
    let disp = displacement_of(m.speed, delta);
    let nx = axis_step(loc.x as int, tgt.x as int, disp);
    let ny = axis_step(loc.y as int, tgt.y as int, disp);
    assert(loc.x as int <= nx <= tgt.x as int || tgt.x as int <= nx <= loc.x as int);
    assert(loc.y as int <= ny <= tgt.y as int || tgt.y as int <= ny <= loc.y as int);
    assert(nx as i32 as int == nx);
    assert(ny as i32 as int == ny);
}

/// Running the tick loop long enough makes the unit arrive: after any `n`
/// ticks that add up to at least the starting gap, the location equals the
/// target exactly and the unit is at rest.
pub proof fn lemma_arrival_convergence(m: Movable, loc: Location, delta: u64, n: nat)
    requires
        m.active,
        n >= 1,
        m.speed * delta > 0,
        n * (m.speed * delta) >= distance_between(loc, m.target_location),
    ensures
        step_movable_n(m, loc, delta, n).0.active == false,
        step_movable_n(m, loc, delta, n).1 == m.target_location,
        step_movable_n(m, loc, delta, n).0.target_location == m.target_location,
    decreases n,
{
    let sd = m.speed * delta;
    let disp = displacement_of(m.speed, delta);
    let d0 = distance_between(loc, m.target_location);
    let (m1, l1) = step_movable(m, loc, delta);
    lemma_step_distance(m, loc, delta);
    assert(d0 < DISP_CAP);
    if d0 <= disp {
        assert(l1 == m.target_location && !m1.active && m1.target_location == m.target_location);
        lemma_inactive_stable(m1, l1, delta, (n - 1) as nat);
    } else {
        assert(disp == sd);
        assert(n > 1) by {
            if n == 1 {
                assert(n * sd == sd) by (nonlinear_arith)
                    requires n == 1,
                {
                }
            }
        }
        assert((n - 1) * sd == n * sd - sd) by (nonlinear_arith) {}
        lemma_arrival_convergence(m1, l1, delta, (n - 1) as nat);
    }
}

/// Validate that `player_id` may command the unit owned by `controllable`;
/// rejected exactly when the requester is not the owner. The command itself
/// is carried only for diagnostics.
pub fn validate_player_command(
    player_id: PlayerId,
    controllable: &PlayerControllable,
    command: PlayerCommand,
) -> (r: Result<(), PlayerCommandValidationError>)
    ensures
        r is Ok <==> player_id == controllable.owner,
        r is Err ==> r == Err::<(), PlayerCommandValidationError>(
            PlayerCommandValidationError::NotOwned { attempted: player_id, owner: controllable.owner },
        ),
{
    if player_id != controllable.owner {
        Err(PlayerCommandValidationError::NotOwned { attempted: player_id, owner: controllable.owner })
    } else {
        Ok(())
    }
}

} // verus!
