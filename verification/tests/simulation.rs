use bomber_core::entity::{Entity, Kind};
use bomber_core::input::InputState;
use bomber_core::store::Handle;
use bomber_core::world::{Config, World, BOMB_SIZE, EXPLOSION_LENGTH, MOVE_STEP, PLAYER_SIZE};

// the reference setup, with time in hundredths of a unit: a 5-unit fuse
// and a 2-unit hazard lifetime
fn cfg() -> Config {
    Config {
        fuse: 500,
        hazard_life: 200,
        actor_size: PLAYER_SIZE,
        device_size: BOMB_SIZE,
        blast_length: EXPLOSION_LENGTH,
        move_step: MOVE_STEP,
    }
}

fn world_at_origin() -> World {
    World::new(cfg(), "Glen".to_string(), 0, 0).unwrap()
}

fn held(trigger: bool) -> InputState {
    InputState { up: false, down: false, left: false, right: false, trigger_held: trigger }
}

/// Presses and releases the trigger without moving the clock, so a device
/// is placed at the current position and time.
fn place_device(w: &mut World) {
    w.step(held(true), 0);
    w.step(held(false), 0);
}

fn count(w: &World, k: Kind) -> usize {
    w.count_kind(k)
}

#[test]
fn zero_duration_config_rejected() {
    let mut c = cfg();
    c.fuse = 0;
    assert!(World::new(c, "Glen".to_string(), 0, 0).is_err());
    let mut c2 = cfg();
    c2.blast_length = 0;
    assert!(World::new(c2, "Glen".to_string(), 0, 0).is_err());
    assert!(World::new(cfg(), "Glen".to_string(), 0, 0).is_ok());
}

#[test]
fn new_world_holds_only_the_actor() {
    let w = world_at_origin();
    assert_eq!(count(&w, Kind::Actor), 1);
    assert_eq!(count(&w, Kind::Device), 0);
    assert_eq!(count(&w, Kind::Hazard), 0);
    assert_eq!(w.now(), 0);
    assert_eq!(w.label().as_str(), "Glen");
    let a = w.actor_state();
    assert_eq!((a.x, a.y, a.health, a.ammo), (0, 0, 10, 1));
}

#[test]
fn movement_follows_pressed_directions() {
    let mut w = world_at_origin();
    let input = InputState { up: true, down: false, left: false, right: true, trigger_held: false };
    w.step(input, 1);
    let a = w.actor_state();
    assert_eq!((a.x, a.y), (2, 2));
    w.step(input, 1);
    let a = w.actor_state();
    assert_eq!((a.x, a.y), (4, 4));
}

#[test]
fn opposite_keys_cancel() {
    let mut w = world_at_origin();
    let input = InputState { up: true, down: true, left: true, right: true, trigger_held: false };
    w.step(input, 1);
    let a = w.actor_state();
    assert_eq!((a.x, a.y), (0, 0));
}

#[test]
fn held_trigger_does_not_move_the_actor() {
    let mut w = world_at_origin();
    w.step(held(true), 1);
    let a = w.actor_state();
    assert_eq!((a.x, a.y), (0, 0));
}

#[test]
fn one_device_per_release_edge() {
    let mut w = world_at_origin();
    // holding across many steps places nothing
    for _ in 0..5 {
        w.step(held(true), 1);
        assert_eq!(count(&w, Kind::Device), 0);
    }
    // the release edge places exactly one
    let r = w.step(held(false), 1);
    assert!(r.placed.is_some());
    assert_eq!(count(&w, Kind::Device), 1);
    // staying released places nothing more
    let r2 = w.step(held(false), 1);
    assert!(r2.placed.is_none());
    assert_eq!(count(&w, Kind::Device), 1);
    // a quick press-and-release cycle places exactly one more
    w.step(held(true), 1);
    assert_eq!(count(&w, Kind::Device), 1);
    w.step(held(false), 1);
    assert_eq!(count(&w, Kind::Device), 2);
}

#[test]
fn device_is_placed_at_post_movement_position() {
    let mut w = world_at_origin();
    w.step(held(true), 1);
    // movement runs before placement, so the device lands at the moved
    // position
    let input = InputState { up: false, down: false, left: false, right: true, trigger_held: false };
    let r = w.step(input, 1);
    let h = r.placed.unwrap();
    match w.get(h) {
        Some(Entity::Device(d)) => {
            assert_eq!((d.x, d.y), (2, 0));
        },
        _ => panic!("expected the placed device"),
    }
}

#[test]
fn device_does_not_detonate_early() {
    let mut w = world_at_origin();
    place_device(&mut w);
    w.step(held(false), 499);
    assert_eq!(count(&w, Kind::Device), 1);
    assert_eq!(count(&w, Kind::Hazard), 0);
}

#[test]
fn device_detonates_when_clock_reaches_fuse() {
    let mut w = world_at_origin();
    place_device(&mut w);
    w.step(held(false), 499);
    let r = w.step(held(false), 1);
    assert_eq!(w.now(), 500);
    assert_eq!(count(&w, Kind::Device), 0);
    assert_eq!(count(&w, Kind::Hazard), 2);
    assert_eq!(r.spawned.len(), 2);
    assert_eq!(r.despawned.len(), 1);
}

#[test]
fn detonation_leaves_the_blast_pair_at_the_device_position() {
    let mut w = world_at_origin();
    place_device(&mut w);
    // move away before the detonation: the hazards stay at the device's
    // last position, not the actor's
    let right = InputState { up: false, down: false, left: false, right: true, trigger_held: false };
    for _ in 0..10 {
        w.step(right, 50);
    }
    assert_eq!(count(&w, Kind::Device), 0);
    assert_eq!(count(&w, Kind::Hazard), 2);
    let mut seen_vertical = false;
    let mut seen_horizontal = false;
    for i in 0..w.slot_count() {
        if let Some(Entity::Hazard(h)) = w.entity_at(i) {
            assert_eq!((h.x, h.y), (0, 0));
            if (h.width, h.height) == (BOMB_SIZE, EXPLOSION_LENGTH) {
                seen_vertical = true;
            }
            if (h.width, h.height) == (EXPLOSION_LENGTH, BOMB_SIZE) {
                seen_horizontal = true;
            }
        }
    }
    assert!(seen_vertical && seen_horizontal);
}

#[test]
fn hazards_expire_after_their_lifetime() {
    let mut w = world_at_origin();
    place_device(&mut w);
    w.step(held(false), 500);
    assert_eq!(count(&w, Kind::Hazard), 2);
    // hazards were spawned at t=500 and live 200 ticks
    w.step(held(false), 199);
    assert_eq!(count(&w, Kind::Hazard), 2);
    let r = w.step(held(false), 1);
    assert_eq!(count(&w, Kind::Hazard), 0);
    assert_eq!(r.despawned.len(), 2);
}

#[test]
fn expired_hazard_handle_goes_stale() {
    let mut w = world_at_origin();
    place_device(&mut w);
    let r = w.step(held(false), 500);
    let h = r.spawned[0];
    assert!(w.get(h).is_some());
    w.step(held(false), 200);
    assert!(w.get(h).is_none());
    assert!(w.render_info(h).is_none());
}

#[test]
fn overlapping_hazard_reports_hits() {
    let mut w = world_at_origin();
    place_device(&mut w);
    // the actor stands on the device: both bars overlap it the step they
    // appear
    let r = w.step(held(false), 500);
    assert_eq!(r.hits.len(), 2);
    assert_eq!(r.hits[0].actor, w.actor());
}

#[test]
fn distant_actor_reports_no_hits() {
    let mut w = world_at_origin();
    place_device(&mut w);
    // walk right 2 units per step for 100 steps of 5 ticks: x = 200 at
    // detonation time t = 500
    let right = InputState { up: false, down: false, left: false, right: true, trigger_held: false };
    let mut hits = 0;
    for _ in 0..100 {
        let r = w.step(right, 5);
        hits += r.hits.len();
    }
    assert_eq!(w.actor_state().x, 200);
    assert_eq!(count(&w, Kind::Hazard), 2);
    assert_eq!(hits, 0);
}

#[test]
fn end_to_end_device_lifecycle() {
    // place a device at (0,0) at t=0 with a 5-unit fuse and a 2-unit
    // hazard lifetime (100 ticks per unit); at t=5.01 two hazards exist at
    // (0,0); at t=7.02 both are gone and the store holds only the actor
    let mut w = world_at_origin();
    place_device(&mut w);
    assert_eq!(w.now(), 0);
    assert_eq!(count(&w, Kind::Device), 1);
    w.step(held(false), 501);
    assert_eq!(w.now(), 501);
    assert_eq!(count(&w, Kind::Device), 0);
    assert_eq!(count(&w, Kind::Hazard), 2);
    for i in 0..w.slot_count() {
        if let Some(Entity::Hazard(h)) = w.entity_at(i) {
            assert_eq!((h.x, h.y), (0, 0));
        }
    }
    w.step(held(false), 201);
    assert_eq!(w.now(), 702);
    assert_eq!(count(&w, Kind::Actor), 1);
    assert_eq!(count(&w, Kind::Device), 0);
    assert_eq!(count(&w, Kind::Hazard), 0);
}

#[test]
fn apply_hit_decrements_health() {
    let mut w = world_at_origin();
    place_device(&mut w);
    let r = w.step(held(false), 500);
    assert!(r.hits.len() > 0);
    assert!(w.apply_hit(r.hits[0]));
    assert_eq!(w.actor_state().health, 9);
    // repeated hits from a persisting hazard are tolerated
    assert!(w.apply_hit(r.hits[1]));
    assert_eq!(w.actor_state().health, 8);
}

#[test]
fn stale_hit_is_absorbed() {
    let mut w = world_at_origin();
    let stale = Handle { index: 0, gen: 7 };
    let bogus = bomber_core::world::Hit { hazard: stale, actor: stale };
    assert!(!w.apply_hit(bogus));
    assert_eq!(w.actor_state().health, 10);
}

#[test]
fn render_info_exposes_positions_and_footprints() {
    let mut w = world_at_origin();
    let actor_info = w.render_info(w.actor()).unwrap();
    assert_eq!(
        (actor_info.x, actor_info.y, actor_info.depth, actor_info.width, actor_info.height),
        (0, 0, 0, PLAYER_SIZE, PLAYER_SIZE),
    );
    place_device(&mut w);
    let mut device_seen = false;
    for i in 0..w.slot_count() {
        if let Some(Entity::Device(_)) = w.entity_at(i) {
            let info = w.render_info(w.handle_at(i)).unwrap();
            assert_eq!(
                (info.x, info.y, info.depth, info.width, info.height),
                (0, 0, -1, BOMB_SIZE, BOMB_SIZE),
            );
            device_seen = true;
        }
    }
    assert!(device_seen);
}

#[test]
fn slots_are_reused_with_fresh_generations() {
    let mut w = world_at_origin();
    place_device(&mut w);
    let r = w.step(held(false), 500);
    // the device's slot was freed and refilled by a spawned hazard: the
    // despawned handle must not alias the new occupant
    let gone = r.despawned[0];
    assert!(w.get(gone).is_none());
    assert_eq!(count(&w, Kind::Hazard), 2);
}

#[test]
fn clock_is_monotonic_across_steps() {
    let mut w = world_at_origin();
    let mut last = w.now();
    for d in [0u64, 3, 0, 10, 1] {
        w.step(InputState::idle(), d);
        assert!(w.now() >= last);
        assert_eq!(w.last_delta(), d);
        last = w.now();
    }
}

#[test]
fn spawn_order_is_vertical_then_horizontal() {
    let mut w = world_at_origin();
    place_device(&mut w);
    let r = w.step(held(false), 500);
    match (w.get(r.spawned[0]), w.get(r.spawned[1])) {
        (Some(Entity::Hazard(v)), Some(Entity::Hazard(hz))) => {
            assert_eq!((v.width, v.height), (BOMB_SIZE, EXPLOSION_LENGTH));
            assert_eq!((hz.width, hz.height), (EXPLOSION_LENGTH, BOMB_SIZE));
        },
        _ => panic!("expected two live hazards"),
    }
}
