//! The simulation world and its per-step pipeline.

use crate::entity::{ActorData, DeviceData, Entity, HazardData, Kind};
use crate::geom::spec_overlap;
use crate::input::{release_edge, InputState};
use crate::store::{
    entry_of, handle_valid, lemma_insert_all_len, lemma_insert_all_props, lemma_insert_all_snoc,
    lemma_insert_props, lemma_store_len, slot_live, spec_insert, spec_insert_all, Handle, Slot,
    Store,
};
use vstd::prelude::*;

verus! {

/// Full extent of the actor's square footprint in the reference setup.
pub const PLAYER_SIZE: u64 = 25;

/// Full extent of a device's square footprint in the reference setup.
pub const BOMB_SIZE: u64 = 25;

/// Long extent of a hazard bar in the reference setup.
pub const EXPLOSION_LENGTH: u64 = 250;

/// Per-axis displacement of the actor per step in the reference setup.
pub const MOVE_STEP: u64 = 2;

/// Health the actor starts with.
pub const START_HEALTH: i64 = 10;

/// Ammo the actor starts with (informational; placement does not consume it).
pub const START_AMMO: i64 = 1;

/// The fixed durations and extents of a simulation. All are in the caller's
/// units: plane units for extents, clock ticks for durations.
#[derive(Clone, Copy, PartialEq, Eq, Structural)]
pub struct Config {
    /// Ticks from placement of a device to its detonation.
    pub fuse: u64,
    /// Ticks a hazard lives after its creation.
    pub hazard_life: u64,
    /// Full extent of the actor's square footprint.
    pub actor_size: u64,
    /// Full extent of a device's square footprint.
    pub device_size: u64,
    /// Long extent of a hazard bar.
    pub blast_length: u64,
    /// Per-axis displacement of the actor per step.
    pub move_step: u64,
}

/// A fixed duration or extent of zero would make timers fire instantly or
/// footprints empty; such a configuration is rejected at startup.
#[derive(Clone, Copy, PartialEq, Eq, Structural, Debug)]
pub struct ConfigError;

impl Config {
    /// Every fixed duration and extent must be positive.
    pub open spec fn ok(self) -> bool {
        &&& self.fuse > 0
        &&& self.hazard_life > 0
        &&& self.actor_size > 0
        &&& self.device_size > 0
        &&& self.blast_length > 0
        &&& self.move_step > 0
    }

    /// The run-time check behind `Config::ok`.
    pub fn check(&self) -> (r: bool)
        ensures
            r == self.ok(),
    {
        self.fuse > 0 && self.hazard_life > 0 && self.actor_size > 0 && self.device_size > 0
            && self.blast_length > 0 && self.move_step > 0
    }
}

/// Saturating addition of a duration to a clock tick: a countdown near the
/// end of the clock's range pins to the largest representable tick instead
/// of wrapping around.
pub fn sat_add_u64(a: u64, b: u64) -> (r: u64)
    ensures
        r == sat_u64(a + b),
{
    if a > u64::MAX - b {
        u64::MAX
    } else {
        a + b
    }
}

/// Saturation of a mathematical integer into the `i64` range.
pub open spec fn sat_i64(v: int) -> i64 {
    if v < i64::MIN {
        i64::MIN
    } else if v > i64::MAX {
        i64::MAX
    } else {
        v as i64
    }
}

/// Saturation of a mathematical integer into the `u64` range. Deadlines are
/// formed with it, so a countdown near the end of the clock's range pins to
/// the largest representable tick instead of wrapping around.
pub open spec fn sat_u64(v: int) -> u64 {
    if v < 0 {
        0
    } else if v > u64::MAX {
        u64::MAX
    } else {
        v as u64
    }
}

/// One coordinate after a step of movement: the fixed displacement is added
/// once for the positive key and once for the negative key, each axis on its
/// own, so opposite keys cancel; the result saturates at the plane's edge.
/// The displacement is per step, deliberately not scaled by the step's
/// delta, so the actor's effective speed follows the step rate.
pub open spec fn spec_move_coord(x: i64, step: u64, pos: bool, neg: bool) -> i64 {
    sat_i64(x + (if pos { step as int } else { 0 }) - (if neg { step as int } else { 0 }))
}

/// One coordinate after a step of movement (see `spec_move_coord`); the
/// arithmetic is widened so no input can overflow.
pub fn move_coord(x: i64, step: u64, pos: bool, neg: bool) -> (r: i64)
    ensures
        r == spec_move_coord(x, step, pos, neg),
{
    let p: i128 = if pos {
        step as i128
    } else {
        0
    };
    let n: i128 = if neg {
        step as i128
    } else {
        0
    };
    let v: i128 = (x as i128) + p - n;
    if v < i64::MIN as i128 {
        i64::MIN
    } else if v > i64::MAX as i128 {
        i64::MAX
    } else {
        v as i64
    }
}

/// The actor after one step of movement: right/left drive `x`, up/down
/// drive `y`; the other attributes are untouched.
pub open spec fn spec_move_actor(a: ActorData, input: InputState, step: u64) -> ActorData {
    ActorData {
        x: spec_move_coord(a.x, step, input.right, input.left),
        y: spec_move_coord(a.y, step, input.up, input.down),
        ..a
    }
}

/// The movement pass: only the actor's slot changes, to the moved actor.
pub open spec fn spec_movement(slots: Seq<Slot>, actor: Handle, input: InputState, step: u64) -> Seq<
    Slot,
> {
    let i = actor.index as int;
    slots.update(
        i,
        Slot {
            gen: slots[i].gen,
            entry: Some(Entity::Actor(spec_move_actor(entry_of(slots, i).as_actor(), input, step))),
        },
    )
}

/// The device a placement edge leaves at the actor's position, armed for
/// `fuse` ticks from the current step's clock.
pub open spec fn spec_new_device(x: i64, y: i64, now: u64, cfg: Config) -> Entity {
    Entity::Device(DeviceData { x, y, expires_at: sat_u64(now + cfg.fuse) })
}

/// The two hazards a detonation at `(x, y)` produces: a vertical bar and a
/// horizontal bar, both centered at the device's last position, each alive
/// for `hazard_life` ticks from the current step's clock.
pub open spec fn spec_blast_pair(x: i64, y: i64, now: u64, cfg: Config) -> Seq<Entity> {
    seq![
        Entity::Hazard(
            HazardData {
                x,
                y,
                width: cfg.device_size,
                height: cfg.blast_length,
                expires_at: sat_u64(now + cfg.hazard_life),
            },
        ),
        Entity::Hazard(
            HazardData {
                x,
                y,
                width: cfg.blast_length,
                height: cfg.device_size,
                expires_at: sat_u64(now + cfg.hazard_life),
            },
        ),
    ]
}

/// The lifecycle pass, removal half: every slot whose occupant's countdown
/// has run out is emptied with a bumped generation; every other slot stays.
pub open spec fn spec_cleared(slots: Seq<Slot>, now: u64) -> Seq<Slot> {
    Seq::new(
        slots.len(),
        |i: int|
            if slot_live(slots, i) && entry_of(slots, i).is_expired(now) {
                Slot { gen: crate::store::bump(slots[i].gen), entry: None }
            } else {
                slots[i]
            },
    )
}

/// The handle an expired occupant of slot `i` contributes, else nothing.
pub open spec fn despawn_contrib(s: Slot, i: int, now: u64) -> Seq<Handle> {
    match s.entry {
        Some(e) => if e.is_expired(now) {
            seq![Handle { index: i as usize, gen: s.gen }]
        } else {
            Seq::<Handle>::empty()
        },
        None => Seq::<Handle>::empty(),
    }
}

/// The handles of the entities the lifecycle pass removes, in slot order.
pub open spec fn spec_despawned(slots: Seq<Slot>, now: u64) -> Seq<Handle>
    decreases slots.len(),
{
    if slots.len() == 0 {
        Seq::<Handle>::empty()
    } else {
        spec_despawned(slots.drop_last(), now) + despawn_contrib(
            slots.last(),
            slots.len() - 1,
            now,
        )
    }
}

/// The blast pair an expired device in `s` contributes, else nothing.
pub open spec fn spawn_contrib(s: Slot, now: u64, cfg: Config) -> Seq<Entity> {
    match s.entry {
        Some(Entity::Device(d)) => if d.expires_at <= now {
            spec_blast_pair(d.x, d.y, now, cfg)
        } else {
            Seq::<Entity>::empty()
        },
        _ => Seq::<Entity>::empty(),
    }
}

/// The hazards the lifecycle pass spawns: for each expired device, in slot
/// order, its blast pair at the device's last position.
pub open spec fn spec_spawns(slots: Seq<Slot>, now: u64, cfg: Config) -> Seq<Entity>
    decreases slots.len(),
{
    if slots.len() == 0 {
        Seq::<Entity>::empty()
    } else {
        spec_spawns(slots.drop_last(), now, cfg) + spawn_contrib(slots.last(), now, cfg)
    }
}

/// The whole lifecycle pass: expired entities leave as a batch, then the
/// blast pairs of the expired devices are inserted as a batch. The result is
/// the new slots, the handles of the spawned hazards and the handles of the
/// removed entities.
pub open spec fn spec_lifecycle(slots: Seq<Slot>, now: u64, cfg: Config) -> (
    Seq<Slot>,
    Seq<Handle>,
    Seq<Handle>,
) {
    let (s2, spawned) = spec_insert_all(spec_cleared(slots, now), spec_spawns(slots, now, cfg));
    (s2, spawned, spec_despawned(slots, now))
}

/// Every entity the lifecycle pass spawns is a hazard whose countdown runs
/// `hazard_life` ticks from the current step's clock.
pub proof fn lemma_spawns_are_hazards(slots: Seq<Slot>, now: u64, cfg: Config)
    ensures
        forall|k: int|
            0 <= k < spec_spawns(slots, now, cfg).len() ==> spec_spawns(slots, now, cfg)[k]
                is Hazard && spec_spawns(slots, now, cfg)[k].deadline() == sat_u64(
                now + cfg.hazard_life,
            ),
    decreases slots.len(),
{
    if slots.len() > 0 {
        lemma_spawns_are_hazards(slots.drop_last(), now, cfg);
        let pre = spec_spawns(slots.drop_last(), now, cfg);
        let c = spawn_contrib(slots.last(), now, cfg);
        assert forall|k: int|
            0 <= k < spec_spawns(slots, now, cfg).len() implies spec_spawns(slots, now, cfg)[k]
            is Hazard && spec_spawns(slots, now, cfg)[k].deadline() == sat_u64(
            now + cfg.hazard_life,
        ) by {
            if k < pre.len() {
                assert(spec_spawns(slots, now, cfg)[k] == pre[k]);
            } else {
                assert(spec_spawns(slots, now, cfg)[k] == c[k - pre.len()]);
            }
        }
    }
}

/// Whether a hazard's box overlaps the actor's square footprint.
pub open spec fn spec_hazard_hits_actor(h: HazardData, a: ActorData, actor_size: u64) -> bool {
    spec_overlap(
        h.x as int,
        h.y as int,
        h.width as int,
        h.height as int,
        a.x as int,
        a.y as int,
        actor_size as int,
        actor_size as int,
    )
}

/// The hit a live hazard in slot `i` contributes when its box overlaps the
/// actor, else nothing.
pub open spec fn hit_contrib(s: Slot, i: int, a: ActorData, actor: Handle, actor_size: u64) -> Seq<
    Hit,
> {
    match s.entry {
        Some(Entity::Hazard(h)) => if spec_hazard_hits_actor(h, a, actor_size) {
            seq![Hit { hazard: Handle { index: i as usize, gen: s.gen }, actor }]
        } else {
            Seq::<Hit>::empty()
        },
        _ => Seq::<Hit>::empty(),
    }
}

/// The hit events of the collision pass: one per live hazard whose box
/// overlaps the actor, in slot order.
pub open spec fn spec_hits(slots: Seq<Slot>, a: ActorData, actor: Handle, actor_size: u64) -> Seq<
    Hit,
>
    decreases slots.len(),
{
    if slots.len() == 0 {
        Seq::<Hit>::empty()
    } else {
        spec_hits(slots.drop_last(), a, actor, actor_size) + hit_contrib(
            slots.last(),
            slots.len() - 1,
            a,
            actor,
            actor_size,
        )
    }
}

/// A reported overlap between a live hazard and an actor, by their handles.
#[derive(Clone, Copy, PartialEq, Eq, Structural, Debug)]
pub struct Hit {
    pub hazard: Handle,
    pub actor: Handle,
}

/// Everything one simulation step decides, as one mathematical value.
pub struct StepModel {
    /// The store's slots after the step.
    pub slots: Seq<Slot>,
    /// The clock after the step.
    pub now: u64,
    /// The handle of the device placed this step, if the trigger fired.
    pub placed: Option<Handle>,
    /// The handles of the hazards spawned by detonations this step.
    pub spawned: Seq<Handle>,
    /// The handles of the entities removed by expiry this step.
    pub despawned: Seq<Handle>,
    /// The hazard/actor overlaps present after the step.
    pub hits: Seq<Hit>,
}

/// What one step hands back to the caller: the spawn/despawn events (so a
/// render collaborator can mirror the store) and the hit events.
pub struct StepReport {
    /// Handle of the device placed this step, if any.
    pub placed: Option<Handle>,
    /// Handles of the hazards spawned by detonations this step.
    pub spawned: Vec<Handle>,
    /// Handles of the entities removed by expiry this step.
    pub despawned: Vec<Handle>,
    /// One hit per live hazard overlapping the actor after the step.
    pub hits: Vec<Hit>,
}

/// What the render collaborator reads for one live entity: a position with
/// a depth layer, and a footprint.
#[derive(Clone, Copy, PartialEq, Eq, Structural, Debug)]
pub struct RenderInfo {
    pub x: i64,
    pub y: i64,
    pub depth: i64,
    pub width: u64,
    pub height: u64,
}

/// The simulation world: the entity store, the single actor's handle, the
/// clock, and the fixed configuration.
pub struct World {
    store: Store,
    actor: Handle,
    name: String,
    now: u64,
    last_delta: u64,
    prev_trigger: bool,
    config: Config,
}

impl World {
    /// The store's slots.
    pub closed spec fn slots(self) -> Seq<Slot> {
        self.store@
    }

    /// The single actor's handle.
    pub closed spec fn actor_handle(self) -> Handle {
        self.actor
    }

    /// Elapsed ticks since simulation start; strictly non-decreasing.
    pub closed spec fn spec_now(self) -> u64 {
        self.now
    }

    /// Ticks the most recent step advanced the clock by.
    pub closed spec fn spec_last_delta(self) -> u64 {
        self.last_delta
    }

    /// Whether the trigger was held in the most recent snapshot.
    pub closed spec fn spec_prev_trigger(self) -> bool {
        self.prev_trigger
    }

    /// The fixed configuration.
    pub closed spec fn spec_config(self) -> Config {
        self.config
    }

    /// The actor's display label.
    pub closed spec fn spec_name(self) -> Seq<char> {
        self.name@
    }

    /// The actor's attributes.
    pub open spec fn actor_data(self) -> ActorData {
        entry_of(self.slots(), self.actor_handle().index as int).as_actor()
    }

    /// Well-formedness: the configuration is positive, the actor's handle is
    /// valid and refers to an `Actor`, and no other slot holds an `Actor`
    /// (single-player design).
    pub open spec fn wf(self) -> bool {
        &&& self.spec_config().ok()
        &&& handle_valid(self.slots(), self.actor_handle())
        &&& entry_of(self.slots(), self.actor_handle().index as int) is Actor
        &&& forall|i: int|
            slot_live(self.slots(), i) && entry_of(self.slots(), i) is Actor ==> i
                == self.actor_handle().index as int
    }

    /// Starts a simulation: clock at zero and a store holding exactly one
    /// entity, the actor at `(x, y)`. A configuration with a zero duration
    /// or extent is rejected.
    pub fn new(config: Config, name: String, x: i64, y: i64) -> (r: Result<World, ConfigError>)
        ensures
            config.ok() <==> r is Ok,
            r matches Ok(w) ==> {
                &&& w.wf()
                &&& w.slots() =~= seq![
                    Slot {
                        gen: 0,
                        entry: Some(
                            Entity::Actor(
                                ActorData { x, y, health: START_HEALTH, ammo: START_AMMO },
                            ),
                        ),
                    },
                ]
                &&& w.actor_handle() == (Handle { index: 0usize, gen: 0u64 })
                &&& w.spec_now() == 0
                &&& w.spec_last_delta() == 0
                &&& w.spec_prev_trigger() == false
                &&& w.spec_config() == config
                &&& w.spec_name() == name@
            },
    {
        if !config.check() {
            return Err(ConfigError);
        }
        let mut store = Store::new();
        let actor = store.insert(
            Entity::Actor(ActorData { x, y, health: START_HEALTH, ammo: START_AMMO }),
        );
        Ok(
            World {
                store,
                actor,
                name,
                now: 0,
                last_delta: 0,
                prev_trigger: false,
                config,
            },
        )
    }

    /// Everything one step decides, as a function of the world before it:
    /// the clock advances by `delta`; the actor moves by the input; a
    /// release edge of the trigger places a device at the moved actor's
    /// position; expired entities leave, expired devices leaving their
    /// blast pairs behind; and each live hazard overlapping the actor
    /// reports a hit.
    pub open spec fn step_model(self, input: InputState, delta: u64) -> StepModel {
        let cfg = self.spec_config();
        let now2 = sat_u64(self.spec_now() + delta);
        let a2 = spec_move_actor(self.actor_data(), input, cfg.move_step);
        let s1 = spec_movement(self.slots(), self.actor_handle(), input, cfg.move_step);
        let edge = release_edge(self.spec_prev_trigger(), input.trigger_held);
        let ins = spec_insert(s1, spec_new_device(a2.x, a2.y, now2, cfg));
        let s2 = if edge {
            ins.0
        } else {
            s1
        };
        let placed = if edge {
            Some(ins.1)
        } else {
            None::<Handle>
        };
        let life = spec_lifecycle(s2, now2, cfg);
        StepModel {
            slots: life.0,
            now: now2,
            placed,
            spawned: life.1,
            despawned: life.2,
            hits: spec_hits(life.0, a2, self.actor_handle(), cfg.actor_size),
        }
    }

    /// The movement pass: applies the directional input to the actor.
    fn movement_pass(&mut self, input: InputState)
        requires
            old(self).wf(),
        ensures
            final(self).wf(),
            final(self).slots() == spec_movement(
                old(self).slots(),
                old(self).actor_handle(),
                input,
                old(self).spec_config().move_step,
            ),
            final(self).actor_data() == spec_move_actor(
                old(self).actor_data(),
                input,
                old(self).spec_config().move_step,
            ),
            final(self).actor_handle() == old(self).actor_handle(),
            final(self).spec_now() == old(self).spec_now(),
            final(self).spec_last_delta() == old(self).spec_last_delta(),
            final(self).spec_prev_trigger() == old(self).spec_prev_trigger(),
            final(self).spec_config() == old(self).spec_config(),
            final(self).spec_name() == old(self).spec_name(),
    {
        let h = self.actor;
        let step = self.config.move_step;
        match self.store.get(h) {
            Some(Entity::Actor(a)) => {
                let nx = move_coord(a.x, step, input.right, input.left);
                let ny = move_coord(a.y, step, input.up, input.down);
                self.store.set_at(h.index, Entity::Actor(ActorData { x: nx, y: ny, ..a }));
                proof {
                    let u = self.store@;
                    let old_s = old(self).slots();
                    let ai = h.index as int;
                    assert forall|i: int|
                        slot_live(u, i) && entry_of(u, i) is Actor implies i == ai by {
                        if i != ai {
                            assert(u[i] == old_s[i]);
                            assert(slot_live(old_s, i) && entry_of(old_s, i) is Actor);
                        }
                    }
                }
            },
            _ => {
                proof {
                    assert(false);
                }
            },
        }
    }

    /// The placement pass when the trigger fired: a device appears at the
    /// actor's position, armed for `fuse` ticks.
    fn place_device(&mut self, now2: u64) -> (h: Handle)
        requires
            old(self).wf(),
        ensures
            final(self).wf(),
            (final(self).slots(), h) == spec_insert(
                old(self).slots(),
                spec_new_device(
                    old(self).actor_data().x,
                    old(self).actor_data().y,
                    now2,
                    old(self).spec_config(),
                ),
            ),
            final(self).actor_data() == old(self).actor_data(),
            final(self).actor_handle() == old(self).actor_handle(),
            final(self).spec_now() == old(self).spec_now(),
            final(self).spec_last_delta() == old(self).spec_last_delta(),
            final(self).spec_prev_trigger() == old(self).spec_prev_trigger(),
            final(self).spec_config() == old(self).spec_config(),
            final(self).spec_name() == old(self).spec_name(),
    {
        proof {
            lemma_store_len(&self.store);
            lemma_insert_props(
                self.store@,
                spec_new_device(self.actor_data().x, self.actor_data().y, now2, self.config),
            );
        }
        match self.store.get(self.actor) {
            Some(Entity::Actor(a)) => {
                let expires = sat_add_u64(now2, self.config.fuse);
                let dev = Entity::Device(DeviceData { x: a.x, y: a.y, expires_at: expires });
                let h = self.store.insert(dev);
                proof {
                    let s2 = self.store@;
                    let old_s = old(self).slots();
                    let dev_spec = spec_new_device(
                        old(self).actor_data().x,
                        old(self).actor_data().y,
                        now2,
                        old(self).spec_config(),
                    );
                    assert(dev == dev_spec);
                    assert((s2, h) == spec_insert(old_s, dev_spec));
                    assert forall|i: int|
                        slot_live(s2, i) && entry_of(s2, i) is Actor implies i == self.actor.index
                        as int by {
                        if i == h.index as int {
                            assert(entry_of(s2, i) == dev_spec);
                        } else {
                            assert(s2[i] == old_s[i]);
                            assert(slot_live(old_s, i) && entry_of(old_s, i) is Actor);
                        }
                    }
                }
                h
            },
            _ => {
                proof {
                    assert(false);
                }
                Handle { index: 0, gen: 0 }
            },
        }
    }

    /// The lifecycle pass: every entity whose countdown has run out leaves
    /// the store as a batch; then, for each expired device, its blast pair
    /// is inserted as a batch. Returns the spawned and despawned handles.
    fn lifecycle_pass(&mut self, now2: u64) -> (r: (Vec<Handle>, Vec<Handle>))
        requires
            old(self).wf(),
        ensures
            final(self).wf(),
            ({
                let life = spec_lifecycle(old(self).slots(), now2, old(self).spec_config());
                &&& final(self).slots() == life.0
                &&& r.0@ == life.1
                &&& r.1@ == life.2
            }),
            final(self).actor_data() == old(self).actor_data(),
            final(self).actor_handle() == old(self).actor_handle(),
            final(self).spec_now() == old(self).spec_now(),
            final(self).spec_last_delta() == old(self).spec_last_delta(),
            final(self).spec_prev_trigger() == old(self).spec_prev_trigger(),
            final(self).spec_config() == old(self).spec_config(),
            final(self).spec_name() == old(self).spec_name(),
    {
        let ghost orig = old(self).slots();
        let ghost cfg = old(self).spec_config();
        let len = self.store.slot_count();
        let mut despawned: Vec<Handle> = Vec::new();
        let mut pending: Vec<Entity> = Vec::new();
        let mut i: usize = 0;
        while i < len
            invariant
                self.store@.len() == len,
                orig.len() == len,
                i <= len,
                forall|j: int| i <= j < len ==> self.store@[j] == orig[j],
                forall|j: int| 0 <= j < i ==> self.store@[j] == spec_cleared(orig, now2)[j],
                despawned@ == spec_despawned(orig.take(i as int), now2),
                pending@ == spec_spawns(orig.take(i as int), now2, cfg),
                self.actor == old(self).actor,
                self.now == old(self).now,
                self.last_delta == old(self).last_delta,
                self.prev_trigger == old(self).prev_trigger,
                self.config == old(self).config,
                self.name == old(self).name,
                cfg == self.config,
            decreases len - i,
        {
            proof {
                assert(orig.take(i as int + 1).drop_last() =~= orig.take(i as int));
                assert(orig.take(i as int + 1).last() == orig[i as int]);
            }
            let s = self.store.slot_at(i);
            let ghost pre_d = despawned@;
            let ghost pre_p = pending@;
            match s.entry {
                Some(e) => {
                    if e.expired_at(now2) {
                        despawned.push(Handle { index: i, gen: s.gen });
                        match e {
                            Entity::Device(d) => {
                                let hl = sat_add_u64(now2, self.config.hazard_life);
                                pending.push(
                                    Entity::Hazard(
                                        HazardData {
                                            x: d.x,
                                            y: d.y,
                                            width: self.config.device_size,
                                            height: self.config.blast_length,
                                            expires_at: hl,
                                        },
                                    ),
                                );
                                pending.push(
                                    Entity::Hazard(
                                        HazardData {
                                            x: d.x,
                                            y: d.y,
                                            width: self.config.blast_length,
                                            height: self.config.device_size,
                                            expires_at: hl,
                                        },
                                    ),
                                );
                                proof {
                                    assert(pending@ =~= pre_p + spawn_contrib(orig[i as int], now2, cfg));
                                }
                            },
                            _ => {
                                proof {
                                    assert(pending@ =~= pre_p + spawn_contrib(orig[i as int], now2, cfg));
                                }
                            },
                        }
                        self.store.clear_at(i);
                        proof {
                            assert(despawned@ =~= pre_d + despawn_contrib(orig[i as int], i as int, now2));
                        }
                    } else {
                        proof {
                            assert(despawned@ =~= pre_d + despawn_contrib(orig[i as int], i as int, now2));
                            assert(pending@ =~= pre_p + spawn_contrib(orig[i as int], now2, cfg));
                            assert(self.store@[i as int] == spec_cleared(orig, now2)[i as int]);
                        }
                    }
                },
                None => {
                    proof {
                        assert(despawned@ =~= pre_d + despawn_contrib(orig[i as int], i as int, now2));
                        assert(pending@ =~= pre_p + spawn_contrib(orig[i as int], now2, cfg));
                        assert(self.store@[i as int] == spec_cleared(orig, now2)[i as int]);
                    }
                },
            }
            i += 1;
        }
        proof {
            assert(orig.take(len as int) =~= orig);
            assert(self.store@ =~= spec_cleared(orig, now2));
        }
        let ghost cleared = spec_cleared(orig, now2);
        let ghost es = spec_spawns(orig, now2, cfg);
        let mut spawned: Vec<Handle> = Vec::new();
        let np = pending.len();
        let mut j: usize = 0;
        proof {
            assert(es.take(0) =~= Seq::<Entity>::empty());
            assert(spec_insert_all(cleared, es.take(0)) == (cleared, Seq::<Handle>::empty()));
        }
        while j < np
            invariant
                np == es.len(),
                pending@ == es,
                j <= np,
                (self.store@, spawned@) == spec_insert_all(cleared, es.take(j as int)),
                self.actor == old(self).actor,
                self.now == old(self).now,
                self.last_delta == old(self).last_delta,
                self.prev_trigger == old(self).prev_trigger,
                self.config == old(self).config,
                self.name == old(self).name,
            decreases np - j,
        {
            proof {
                lemma_insert_all_snoc(cleared, es.take(j as int), es[j as int]);
                assert(es.take(j as int).push(es[j as int]) =~= es.take(j as int + 1));
            }
            let e = pending[j];
            let h = self.store.insert(e);
            spawned.push(h);
            j += 1;
        }
        proof {
            assert(es.take(np as int) =~= es);
            let s3 = self.store@;
            lemma_store_len(&self.store);
            lemma_insert_all_len(cleared, es);
            lemma_insert_all_props(cleared, es);
            lemma_spawns_are_hazards(orig, now2, cfg);
            let ai = old(self).actor.index as int;
            assert(cleared[ai] == orig[ai]);
            assert(s3[ai] == cleared[ai]);
            assert(s3 == spec_insert_all(cleared, es).0);
            assert forall|i2: int|
                slot_live(s3, i2) && entry_of(s3, i2) is Actor implies i2 == ai by {
                if 0 <= i2 < cleared.len() && cleared[i2].entry is Some {
                    assert(s3[i2] == cleared[i2]);
                    assert(cleared[i2] == orig[i2]);
                    assert(slot_live(orig, i2) && entry_of(orig, i2) is Actor);
                } else {
                    assert(0 <= i2 < s3.len() && s3[i2].entry is Some);
                    assert(exists|k: int|
                        0 <= k < es.len() && spec_insert_all(cleared, es).1[k].index as int == i2
                            && entry_of(s3, i2) == es[k]);
                    let k = choose|k: int|
                        0 <= k < es.len() && spec_insert_all(cleared, es).1[k].index as int == i2
                            && entry_of(s3, i2) == es[k];
                    assert(es[k] is Hazard);
                }
            }
        }
        (spawned, despawned)
    }

    /// The collision pass: one hit event per live hazard whose box overlaps
    /// the actor's footprint, in slot order.
    fn collision_pass(&self) -> (r: Vec<Hit>)
        requires
            self.wf(),
        ensures
            r@ == spec_hits(
                self.slots(),
                self.actor_data(),
                self.actor_handle(),
                self.spec_config().actor_size,
            ),
    {
        let actor_h = self.actor;
        let asize = self.config.actor_size;
        let mut hits: Vec<Hit> = Vec::new();
        match self.store.get(actor_h) {
            Some(Entity::Actor(a)) => {
                let len = self.store.slot_count();
                let mut i: usize = 0;
                while i < len
                    invariant
                        len == self.slots().len(),
                        i <= len,
                        a == self.actor_data(),
                        actor_h == self.actor_handle(),
                        asize == self.spec_config().actor_size,
                        hits@ == spec_hits(self.slots().take(i as int), a, actor_h, asize),
                    decreases len - i,
                {
                    proof {
                        assert(self.slots().take(i as int + 1).drop_last() =~= self.slots().take(
                            i as int,
                        ));
                        assert(self.slots().take(i as int + 1).last() == self.slots()[i as int]);
                    }
                    let s = self.store.slot_at(i);
                    let ghost pre = hits@;
                    match s.entry {
                        Some(Entity::Hazard(hz)) => {
                            if crate::geom::boxes_overlap(
                                hz.x,
                                hz.y,
                                hz.width,
                                hz.height,
                                a.x,
                                a.y,
                                asize,
                                asize,
                            ) {
                                hits.push(
                                    Hit { hazard: Handle { index: i, gen: s.gen }, actor: actor_h },
                                );
                            }
                            proof {
                                assert(hits@ =~= pre + hit_contrib(
                                    self.slots()[i as int],
                                    i as int,
                                    a,
                                    actor_h,
                                    asize,
                                ));
                            }
                        },
                        _ => {
                            proof {
                                assert(hits@ =~= pre + hit_contrib(
                                    self.slots()[i as int],
                                    i as int,
                                    a,
                                    actor_h,
                                    asize,
                                ));
                            }
                        },
                    }
                    i += 1;
                }
                proof {
                    assert(self.slots().take(len as int) =~= self.slots());
                }
            },
            _ => {
                proof {
                    assert(false);
                }
            },
        }
        hits
    }

    /// Advances the simulation by one step of `delta` ticks: movement, then
    /// placement, then the timer/lifecycle sweep, then collision, in that
    /// order. The whole effect equals `step_model` of the starting world;
    /// the report carries the step's placement, spawn, despawn and hit
    /// events for the render collaborator.
    pub fn step(&mut self, input: InputState, delta: u64) -> (r: StepReport)
        requires
            old(self).wf(),
            old(self).spec_now() + delta <= u64::MAX,
        ensures
            final(self).wf(),
            ({
                let m = old(self).step_model(input, delta);
                &&& final(self).slots() == m.slots
                &&& final(self).spec_now() == m.now
                &&& m.now == old(self).spec_now() + delta
                &&& final(self).spec_last_delta() == delta
                &&& final(self).spec_prev_trigger() == input.trigger_held
                &&& final(self).actor_handle() == old(self).actor_handle()
                &&& final(self).spec_config() == old(self).spec_config()
                &&& final(self).spec_name() == old(self).spec_name()
                &&& final(self).actor_data() == spec_move_actor(
                    old(self).actor_data(),
                    input,
                    old(self).spec_config().move_step,
                )
                &&& r.placed == m.placed
                &&& r.spawned@ == m.spawned
                &&& r.despawned@ == m.despawned
                &&& r.hits@ == m.hits
            }),
    {
        let now2 = self.now + delta;
        let edge = self.prev_trigger && !input.trigger_held;
        self.now = now2;
        self.last_delta = delta;
        self.prev_trigger = input.trigger_held;
        self.movement_pass(input);
        let placed = if edge {
            Some(self.place_device(now2))
        } else {
            None
        };
        let lif = self.lifecycle_pass(now2);
        let hits = self.collision_pass();
        StepReport { placed, spawned: lif.0, despawned: lif.1, hits }
    }

    /// The slot sequence fits the machine's index range.
    pub proof fn lemma_slots_len(&self)
        ensures
            self.slots().len() <= usize::MAX,
    {
        lemma_store_len(&self.store);
    }

    /// Elapsed ticks since simulation start.
    pub fn now(&self) -> (t: u64)
        ensures
            t == self.spec_now(),
    {
        self.now
    }

    /// Ticks the most recent step advanced the clock by.
    pub fn last_delta(&self) -> (d: u64)
        ensures
            d == self.spec_last_delta(),
    {
        self.last_delta
    }

    /// The single actor's handle.
    pub fn actor(&self) -> (h: Handle)
        ensures
            h == self.actor_handle(),
    {
        self.actor
    }

    /// The fixed configuration.
    pub fn config(&self) -> (c: Config)
        ensures
            c == self.spec_config(),
    {
        self.config
    }

    /// The actor's display label.
    pub fn label(&self) -> (n: &String)
        ensures
            n@ == self.spec_name(),
    {
        &self.name
    }

    /// The actor's current attributes.
    pub fn actor_state(&self) -> (a: ActorData)
        requires
            self.wf(),
        ensures
            a == self.actor_data(),
    {
        match self.store.get(self.actor) {
            Some(Entity::Actor(a)) => a,
            _ => {
                proof {
                    assert(false);
                }
                ActorData { x: 0, y: 0, health: 0, ammo: 0 }
            },
        }
    }

    /// How many slots the store has (occupied or free).
    pub fn slot_count(&self) -> (n: usize)
        ensures
            n == self.slots().len(),
    {
        self.store.slot_count()
    }

    /// The occupant of slot `i`, if any.
    pub fn entity_at(&self, i: usize) -> (r: Option<Entity>)
        requires
            i < self.slots().len(),
        ensures
            r == self.slots()[i as int].entry,
    {
        self.store.slot_at(i).entry
    }

    /// The handle that currently refers to slot `i`.
    pub fn handle_at(&self, i: usize) -> (h: Handle)
        requires
            i < self.slots().len(),
        ensures
            h == (Handle { index: i, gen: self.slots()[i as int].gen }),
    {
        let s = self.store.slot_at(i);
        Handle { index: i, gen: s.gen }
    }

    /// The entity a handle refers to, or `None` for a stale handle.
    pub fn get(&self, h: Handle) -> (r: Option<Entity>)
        ensures
            handle_valid(self.slots(), h) ==> r == Some(entry_of(self.slots(), h.index as int)),
            !handle_valid(self.slots(), h) ==> r is None,
    {
        self.store.get(h)
    }

    /// How many live entities of kind `k` the store holds.
    pub fn count_kind(&self, k: Kind) -> (n: usize)
        ensures
            n == crate::store::spec_count_kind(self.slots(), k),
    {
        self.store.count_kind(k)
    }

    /// What a live entity is drawn as: its center, a depth layer (the
    /// actor above, devices and hazards below), and its footprint.
    pub open spec fn spec_render_info(e: Entity, cfg: Config) -> RenderInfo {
        match e {
            Entity::Actor(a) => RenderInfo {
                x: a.x,
                y: a.y,
                depth: 0i64,
                width: cfg.actor_size,
                height: cfg.actor_size,
            },
            Entity::Device(d) => RenderInfo {
                x: d.x,
                y: d.y,
                depth: -1i64,
                width: cfg.device_size,
                height: cfg.device_size,
            },
            Entity::Hazard(h) => RenderInfo {
                x: h.x,
                y: h.y,
                depth: -1i64,
                width: h.width,
                height: h.height,
            },
        }
    }

    /// What the render collaborator draws for the entity behind `h`, or
    /// `None` for a stale handle.
    pub fn render_info(&self, h: Handle) -> (r: Option<RenderInfo>)
        ensures
            handle_valid(self.slots(), h) ==> r == Some(
                Self::spec_render_info(entry_of(self.slots(), h.index as int), self.spec_config()),
            ),
            !handle_valid(self.slots(), h) ==> r is None,
    {
        match self.store.get(h) {
            Some(Entity::Actor(a)) => Some(
                RenderInfo {
                    x: a.x,
                    y: a.y,
                    depth: 0,
                    width: self.config.actor_size,
                    height: self.config.actor_size,
                },
            ),
            Some(Entity::Device(d)) => Some(
                RenderInfo {
                    x: d.x,
                    y: d.y,
                    depth: -1,
                    width: self.config.device_size,
                    height: self.config.device_size,
                },
            ),
            Some(Entity::Hazard(hz)) => Some(
                RenderInfo { x: hz.x, y: hz.y, depth: -1, width: hz.width, height: hz.height },
            ),
            None => None,
        }
    }

    /// The actor's health after one hit: one less, pinned at the lowest
    /// representable value.
    pub open spec fn spec_health_after_hit(a: ActorData) -> ActorData {
        ActorData {
            health: if a.health == i64::MIN {
                i64::MIN
            } else {
                (a.health - 1) as i64
            },
            ..a
        }
    }

    /// The hit hook: decrements the hit actor's health by one. A hit whose
    /// actor handle is stale or refers to a non-actor is absorbed as a
    /// no-op, so repeated hits from a hazard persisting across steps are
    /// tolerated; whether to feed every reported hit to this hook, or only
    /// the first per hazard, is the caller's policy.
    pub fn apply_hit(&mut self, hit: Hit) -> (applied: bool)
        requires
            old(self).wf(),
        ensures
            final(self).wf(),
            ({
                let s = old(self).slots();
                let i = hit.actor.index as int;
                if handle_valid(s, hit.actor) && entry_of(s, i) is Actor {
                    &&& applied
                    &&& final(self).slots() == s.update(
                        i,
                        Slot {
                            gen: s[i].gen,
                            entry: Some(
                                Entity::Actor(Self::spec_health_after_hit(entry_of(s, i).as_actor())),
                            ),
                        },
                    )
                } else {
                    &&& !applied
                    &&& final(self).slots() == s
                }
            }),
            final(self).actor_handle() == old(self).actor_handle(),
            final(self).spec_now() == old(self).spec_now(),
            final(self).spec_last_delta() == old(self).spec_last_delta(),
            final(self).spec_prev_trigger() == old(self).spec_prev_trigger(),
            final(self).spec_config() == old(self).spec_config(),
            final(self).spec_name() == old(self).spec_name(),
    {
        match self.store.get(hit.actor) {
            Some(Entity::Actor(a)) => {
                let nh = if a.health == i64::MIN {
                    i64::MIN
                } else {
                    a.health - 1
                };
                self.store.set_at(hit.actor.index, Entity::Actor(ActorData { health: nh, ..a }));
                proof {
                    let u = self.store@;
                    let old_s = old(self).slots();
                    let hi = hit.actor.index as int;
                    assert(slot_live(old_s, hi) && entry_of(old_s, hi) is Actor);
                    assert(hi == old(self).actor.index as int);
                    assert forall|i: int|
                        slot_live(u, i) && entry_of(u, i) is Actor implies i == self.actor.index
                        as int by {
                        if i != hi {
                            assert(u[i] == old_s[i]);
                            assert(slot_live(old_s, i) && entry_of(old_s, i) is Actor);
                        }
                    }
                }
                true
            },
            _ => false,
        }
    }
}

} // verus!
