//! The simulation's laws: machine-checked statements about the step
//! pipeline, proved over the step model that `World::step`'s contract ties
//! to the executable code.

use crate::entity::{Entity, Kind};
use crate::input::{release_edge, InputState};
use crate::store::{
    bump, entry_of, first_free, handle_valid, lemma_count_kind_push,
    lemma_count_kind_update, lemma_first_free_from_props, lemma_insert_all_keeps,
    lemma_insert_all_len, lemma_insert_all_props, lemma_insert_keeps, slot_live, spec_count_kind,
    spec_insert, spec_insert_all, Handle, Slot,
};
use crate::world::{
    lemma_spawns_are_hazards, sat_u64, spawn_contrib, spec_blast_pair, spec_cleared,
    spec_move_actor, spec_movement, spec_new_device, spec_spawns, Config, World,
};
use vstd::prelude::*;

verus! {

/// After any step, the actor's slot holds exactly the moved actor under
/// its unchanged generation, and the actor's handle is still valid.
pub proof fn lemma_actor_after_step(w: World, input: InputState, delta: u64)
    requires
        w.wf(),
    ensures
        ({
            let m = w.step_model(input, delta);
            let ai = w.actor_handle().index as int;
            &&& 0 <= ai < m.slots.len()
            &&& m.slots[ai].gen == w.slots()[ai].gen
            &&& m.slots[ai].entry == Some(
                Entity::Actor(spec_move_actor(w.actor_data(), input, w.spec_config().move_step)),
            )
            &&& handle_valid(m.slots, w.actor_handle())
        }),
{
    let cfg = w.spec_config();
    let now2 = sat_u64(w.spec_now() + delta);
    let a2 = spec_move_actor(w.actor_data(), input, cfg.move_step);
    let s1 = spec_movement(w.slots(), w.actor_handle(), input, cfg.move_step);
    let ai = w.actor_handle().index as int;
    let edge = release_edge(w.spec_prev_trigger(), input.trigger_held);
    let dev = spec_new_device(a2.x, a2.y, now2, cfg);
    let s2 = if edge {
        spec_insert(s1, dev).0
    } else {
        s1
    };
    if edge {
        lemma_insert_keeps(s1, dev);
    }
    assert(s2[ai] == s1[ai]);
    let cleared = spec_cleared(s2, now2);
    assert(cleared[ai] == s2[ai]);
    let es = spec_spawns(s2, now2, cfg);
    lemma_insert_all_keeps(cleared, es);
    let m = w.step_model(input, delta);
    assert(m.slots == spec_insert_all(cleared, es).0);
    assert(m.slots[ai] == cleared[ai]);
}

/// Movement law: in one step the actor's position changes by exactly the
/// fixed per-axis displacement for each pressed direction — `right` and
/// `left` on `x`, `up` and `down` on `y`, opposite keys cancelling — and
/// by nothing else; a held trigger or any other part of the input leaves
/// it untouched. Excluded here is only an actor already pinned within one
/// displacement of the representable plane's edge, where the movement
/// saturates instead.
pub proof fn lemma_movement_displacement(w: World, input: InputState, delta: u64)
    requires
        w.wf(),
        i64::MIN + w.spec_config().move_step <= w.actor_data().x <= i64::MAX
            - w.spec_config().move_step,
        i64::MIN + w.spec_config().move_step <= w.actor_data().y <= i64::MAX
            - w.spec_config().move_step,
    ensures
        ({
            let m = w.step_model(input, delta);
            let ai = w.actor_handle().index as int;
            let a = w.actor_data();
            let ms = w.spec_config().move_step as int;
            let a2 = entry_of(m.slots, ai).as_actor();
            &&& slot_live(m.slots, ai)
            &&& entry_of(m.slots, ai) is Actor
            &&& a2.x == a.x + (if input.right {
                ms
            } else {
                0
            }) - (if input.left {
                ms
            } else {
                0
            })
            &&& a2.y == a.y + (if input.up {
                ms
            } else {
                0
            }) - (if input.down {
                ms
            } else {
                0
            })
            &&& a2.health == a.health
            &&& a2.ammo == a.ammo
        }),
{
    lemma_actor_after_step(w, input, delta);
}

/// 1 when the slot holds a live entity of kind `k` whose countdown has run
/// out at `now`, else 0.
pub open spec fn expired_contrib(s: Slot, now: u64, k: Kind) -> int {
    match s.entry {
        Some(e) => if e.kind() == k && e.is_expired(now) {
            1
        } else {
            0
        },
        None => 0,
    }
}

/// How many live entities of kind `k` have an expired countdown.
pub open spec fn spec_count_expired(slots: Seq<Slot>, now: u64, k: Kind) -> int
    decreases slots.len(),
{
    if slots.len() == 0 {
        0
    } else {
        spec_count_expired(slots.drop_last(), now, k) + expired_contrib(slots.last(), now, k)
    }
}

/// Updating one slot changes an expired count by the difference of the old
/// and new slot's contribution.
pub proof fn lemma_expired_count_update(slots: Seq<Slot>, i: int, s: Slot, now: u64, k: Kind)
    requires
        0 <= i < slots.len(),
    ensures
        spec_count_expired(slots.update(i, s), now, k) == spec_count_expired(slots, now, k)
            - expired_contrib(slots[i], now, k) + expired_contrib(s, now, k),
    decreases slots.len(),
{
    let u = slots.update(i, s);
    if i == slots.len() - 1 {
        assert(u.drop_last() =~= slots.drop_last());
    } else {
        assert(u.drop_last() =~= slots.drop_last().update(i, s));
        assert(u.last() == slots.last());
        lemma_expired_count_update(slots.drop_last(), i, s, now, k);
    }
}

/// Appending a slot adds its contribution to an expired count.
pub proof fn lemma_expired_count_push(slots: Seq<Slot>, s: Slot, now: u64, k: Kind)
    ensures
        spec_count_expired(slots.push(s), now, k) == spec_count_expired(slots, now, k)
            + expired_contrib(s, now, k),
{
    assert(slots.push(s).drop_last() =~= slots);
}

/// One insertion raises the inserted kind's count by one and no other
/// kind's.
pub proof fn lemma_insert_count(slots: Seq<Slot>, e: Entity, k: Kind)
    ensures
        spec_count_kind(spec_insert(slots, e).0, k) == spec_count_kind(slots, k) + (if e.kind()
            == k {
            1int
        } else {
            0int
        }),
{
    lemma_first_free_from_props(slots, 0);
    let ff = first_free(slots);
    if ff < slots.len() {
        lemma_count_kind_update(slots, ff, Slot { gen: slots[ff].gen, entry: Some(e) }, k);
    } else {
        lemma_count_kind_push(slots, Slot { gen: 0, entry: Some(e) }, k);
    }
}

/// One insertion adds the inserted entity's contribution to an expired
/// count.
pub proof fn lemma_insert_expired(slots: Seq<Slot>, e: Entity, now: u64, k: Kind)
    ensures
        spec_count_expired(spec_insert(slots, e).0, now, k) == spec_count_expired(slots, now, k) + (
        if e.kind() == k && e.is_expired(now) {
            1int
        } else {
            0int
        }),
{
    lemma_first_free_from_props(slots, 0);
    let ff = first_free(slots);
    if ff < slots.len() {
        lemma_expired_count_update(slots, ff, Slot { gen: slots[ff].gen, entry: Some(e) }, now, k);
    } else {
        lemma_expired_count_push(slots, Slot { gen: 0, entry: Some(e) }, now, k);
    }
}

/// The removal half of the lifecycle pass takes exactly the expired
/// entities of each kind out of that kind's count.
pub proof fn lemma_cleared_count(slots: Seq<Slot>, now: u64, k: Kind)
    ensures
        spec_count_kind(spec_cleared(slots, now), k) == spec_count_kind(slots, k)
            - spec_count_expired(slots, now, k),
    decreases slots.len(),
{
    let c = spec_cleared(slots, now);
    if slots.len() == 0 {
        assert(c =~= Seq::<Slot>::empty());
    } else {
        lemma_cleared_count(slots.drop_last(), now, k);
        assert(c.drop_last() =~= spec_cleared(slots.drop_last(), now));
        assert(c.last() == c[slots.len() - 1]);
    }
}

/// Inserting a batch that holds no entity of kind `k` leaves that kind's
/// count unchanged.
pub proof fn lemma_insert_all_count(slots: Seq<Slot>, es: Seq<Entity>, k: Kind)
    requires
        forall|j: int| 0 <= j < es.len() ==> es[j].kind() != k,
    ensures
        spec_count_kind(spec_insert_all(slots, es).0, k) == spec_count_kind(slots, k),
    decreases es.len(),
{
    if es.len() > 0 {
        lemma_insert_count(slots, es[0], k);
        let s1 = spec_insert(slots, es[0]).0;
        assert(forall|j: int| 0 <= j < es.skip(1).len() ==> es.skip(1)[j] == es[j + 1]);
        lemma_insert_all_count(s1, es.skip(1), k);
    }
}

/// Placement law: a step creates exactly one device on a release edge of
/// the trigger (a press-then-release cycle of the placement key) and none
/// otherwise, and devices leave only by detonation: the device count after
/// a step is the count before, plus one for the edge, minus the devices
/// whose countdown ran out in the step.
pub proof fn lemma_one_device_per_edge(w: World, input: InputState, delta: u64)
    requires
        w.wf(),
        w.spec_now() + delta < u64::MAX,
    ensures
        ({
            let m = w.step_model(input, delta);
            let now2 = (w.spec_now() + delta) as u64;
            let placed: int = if release_edge(w.spec_prev_trigger(), input.trigger_held) {
                1
            } else {
                0
            };
            spec_count_kind(m.slots, Kind::Device) == spec_count_kind(w.slots(), Kind::Device)
                + placed - spec_count_expired(w.slots(), now2, Kind::Device)
        }),
{
    let cfg = w.spec_config();
    let now2 = sat_u64(w.spec_now() + delta);
    let a2 = spec_move_actor(w.actor_data(), input, cfg.move_step);
    let s1 = spec_movement(w.slots(), w.actor_handle(), input, cfg.move_step);
    let ai = w.actor_handle().index as int;
    let moved_slot = Slot { gen: w.slots()[ai].gen, entry: Some(Entity::Actor(a2)) };
    lemma_count_kind_update(w.slots(), ai, moved_slot, Kind::Device);
    lemma_expired_count_update(w.slots(), ai, moved_slot, now2, Kind::Device);
    let edge = release_edge(w.spec_prev_trigger(), input.trigger_held);
    let dev = spec_new_device(a2.x, a2.y, now2, cfg);
    let s2 = if edge {
        spec_insert(s1, dev).0
    } else {
        s1
    };
    if edge {
        lemma_insert_count(s1, dev, Kind::Device);
        lemma_insert_expired(s1, dev, now2, Kind::Device);
        assert(!dev.is_expired(now2));
    }
    assert(spec_count_kind(s2, Kind::Device) == spec_count_kind(w.slots(), Kind::Device) + (
    if edge {
        1int
    } else {
        0int
    }));
    assert(spec_count_expired(s2, now2, Kind::Device) == spec_count_expired(
        w.slots(),
        now2,
        Kind::Device,
    ));
    lemma_cleared_count(s2, now2, Kind::Device);
    let cleared = spec_cleared(s2, now2);
    let es = spec_spawns(s2, now2, cfg);
    lemma_spawns_are_hazards(s2, now2, cfg);
    lemma_insert_all_count(cleared, es, Kind::Device);
}

/// The spawn batch of a step holds exactly two hazards per expired device.
pub proof fn lemma_spawns_len(slots: Seq<Slot>, now: u64, cfg: Config)
    ensures
        spec_spawns(slots, now, cfg).len() == 2 * spec_count_expired(slots, now, Kind::Device),
    decreases slots.len(),
{
    if slots.len() > 0 {
        lemma_spawns_len(slots.drop_last(), now, cfg);
    }
}

/// Inserting a batch of hazards raises the hazard count by the batch size.
pub proof fn lemma_insert_all_hazard_count(slots: Seq<Slot>, es: Seq<Entity>)
    requires
        forall|j: int| 0 <= j < es.len() ==> es[j] is Hazard,
    ensures
        spec_count_kind(spec_insert_all(slots, es).0, Kind::Hazard) == spec_count_kind(
            slots,
            Kind::Hazard,
        ) + es.len(),
    decreases es.len(),
{
    if es.len() > 0 {
        lemma_insert_count(slots, es[0], Kind::Hazard);
        let s1 = spec_insert(slots, es[0]).0;
        assert(forall|j: int| 0 <= j < es.skip(1).len() ==> es.skip(1)[j] == es[j + 1]);
        lemma_insert_all_hazard_count(s1, es.skip(1));
    }
}

/// Detonation count law: each device that detonates in a step adds exactly
/// its pair of hazards, and each hazard whose lifetime ran out leaves: the
/// hazard count after a step is the count before, minus the expired
/// hazards, plus two per detonated device.
pub proof fn lemma_two_hazards_per_detonation(w: World, input: InputState, delta: u64)
    requires
        w.wf(),
        w.spec_now() + delta < u64::MAX,
    ensures
        ({
            let m = w.step_model(input, delta);
            let now2 = (w.spec_now() + delta) as u64;
            spec_count_kind(m.slots, Kind::Hazard) == spec_count_kind(w.slots(), Kind::Hazard)
                - spec_count_expired(w.slots(), now2, Kind::Hazard) + 2 * spec_count_expired(
                w.slots(),
                now2,
                Kind::Device,
            )
        }),
{
    let cfg = w.spec_config();
    let now2 = sat_u64(w.spec_now() + delta);
    let a2 = spec_move_actor(w.actor_data(), input, cfg.move_step);
    let s1 = spec_movement(w.slots(), w.actor_handle(), input, cfg.move_step);
    let ai = w.actor_handle().index as int;
    let moved_slot = Slot { gen: w.slots()[ai].gen, entry: Some(Entity::Actor(a2)) };
    lemma_count_kind_update(w.slots(), ai, moved_slot, Kind::Hazard);
    lemma_expired_count_update(w.slots(), ai, moved_slot, now2, Kind::Hazard);
    lemma_expired_count_update(w.slots(), ai, moved_slot, now2, Kind::Device);
    let edge = release_edge(w.spec_prev_trigger(), input.trigger_held);
    let dev = spec_new_device(a2.x, a2.y, now2, cfg);
    let s2 = if edge {
        spec_insert(s1, dev).0
    } else {
        s1
    };
    if edge {
        lemma_insert_count(s1, dev, Kind::Hazard);
        lemma_insert_expired(s1, dev, now2, Kind::Hazard);
        lemma_insert_expired(s1, dev, now2, Kind::Device);
        assert(!dev.is_expired(now2));
    }
    assert(spec_count_kind(s2, Kind::Hazard) == spec_count_kind(w.slots(), Kind::Hazard));
    assert(spec_count_expired(s2, now2, Kind::Hazard) == spec_count_expired(
        w.slots(),
        now2,
        Kind::Hazard,
    ));
    assert(spec_count_expired(s2, now2, Kind::Device) == spec_count_expired(
        w.slots(),
        now2,
        Kind::Device,
    ));
    lemma_cleared_count(s2, now2, Kind::Hazard);
    let cleared = spec_cleared(s2, now2);
    let es = spec_spawns(s2, now2, cfg);
    lemma_spawns_are_hazards(s2, now2, cfg);
    lemma_spawns_len(s2, now2, cfg);
    lemma_insert_all_hazard_count(cleared, es);
}

/// Timing law for countdowns: a step that ends before a timed entity's
/// deadline leaves its slot exactly as it was — detonation and expiry are
/// never early; the first step whose clock reaches the deadline removes
/// the entity — so the transition happens at a clock time at least the
/// deadline and less than one step past it — and bumps the slot's
/// generation, so the removed entity's handle goes stale and cannot alias
/// whatever reuses the slot.
pub proof fn lemma_timed_expiry(w: World, input: InputState, delta: u64, i: int)
    requires
        w.wf(),
        w.spec_now() + delta <= u64::MAX,
        slot_live(w.slots(), i),
        entry_of(w.slots(), i).is_timed(),
    ensures
        ({
            let m = w.step_model(input, delta);
            let now2 = (w.spec_now() + delta) as u64;
            let dl = entry_of(w.slots(), i).deadline();
            &&& now2 < dl ==> i < m.slots.len() && m.slots[i] == w.slots()[i]
            &&& dl <= now2 ==> i < m.slots.len() && m.slots[i].gen == bump(w.slots()[i].gen)
            &&& dl <= now2 ==> !handle_valid(
                m.slots,
                Handle { index: i as usize, gen: w.slots()[i].gen },
            )
            &&& w.spec_now() < dl ==> now2 < dl + delta
        }),
{
    w.lemma_slots_len();
    let cfg = w.spec_config();
    let now2 = sat_u64(w.spec_now() + delta);
    let a2 = spec_move_actor(w.actor_data(), input, cfg.move_step);
    let s1 = spec_movement(w.slots(), w.actor_handle(), input, cfg.move_step);
    let ai = w.actor_handle().index as int;
    assert(i != ai);
    assert(s1[i] == w.slots()[i]);
    let edge = release_edge(w.spec_prev_trigger(), input.trigger_held);
    let dev = spec_new_device(a2.x, a2.y, now2, cfg);
    let s2 = if edge {
        spec_insert(s1, dev).0
    } else {
        s1
    };
    if edge {
        lemma_insert_keeps(s1, dev);
    }
    assert(s2[i] == s1[i]);
    let cleared = spec_cleared(s2, now2);
    let es = spec_spawns(s2, now2, cfg);
    lemma_insert_all_keeps(cleared, es);
    let m = w.step_model(input, delta);
    assert(m.slots == spec_insert_all(cleared, es).0);
    let e = entry_of(w.slots(), i);
    if now2 < e.deadline() {
        assert(cleared[i] == s2[i]);
        assert(m.slots[i] == cleared[i]);
    } else {
        assert(cleared[i] == Slot { gen: bump(w.slots()[i].gen), entry: None });
        assert(m.slots[i].gen == cleared[i].gen);
        assert(bump(w.slots()[i].gen) != w.slots()[i].gen);
    }
}

/// The blast pair of an expired device at slot `i` appears, in order, in
/// the step's spawn batch.
pub proof fn lemma_spawns_contains(slots: Seq<Slot>, now: u64, cfg: Config, i: int)
    requires
        slot_live(slots, i),
        entry_of(slots, i) is Device,
        entry_of(slots, i).deadline() <= now,
    ensures
        ({
            let es = spec_spawns(slots, now, cfg);
            let d = entry_of(slots, i).as_device();
            let pair = spec_blast_pair(d.x, d.y, now, cfg);
            exists|k: int|
                0 <= k && k + 1 < es.len() && #[trigger] es[k] == pair[0] && es[k + 1] == pair[1]
        }),
    decreases slots.len(),
{
    let es = spec_spawns(slots, now, cfg);
    let d = entry_of(slots, i).as_device();
    let pair = spec_blast_pair(d.x, d.y, now, cfg);
    let pre = spec_spawns(slots.drop_last(), now, cfg);
    let c = spawn_contrib(slots.last(), now, cfg);
    if i == slots.len() - 1 {
        assert(c == pair);
        let k = pre.len() as int;
        assert(es[k] == pair[0] && es[k + 1] == pair[1]);
    } else {
        assert(slots.drop_last()[i] == slots[i]);
        lemma_spawns_contains(slots.drop_last(), now, cfg, i);
        let k = choose|k: int|
            0 <= k && k + 1 < pre.len() && #[trigger] pre[k] == pair[0] && pre[k + 1] == pair[1];
        assert(es[k] == pre[k] && es[k + 1] == pre[k + 1]);
    }
}

/// Detonation law: a device whose countdown runs out in a step leaves the
/// store in that step, and exactly its blast pair appears: two distinct
/// live slots hold the vertical and the horizontal hazard bar, both
/// centered at the device's last position, with fresh countdowns.
pub proof fn lemma_detonation(w: World, input: InputState, delta: u64, i: int)
    requires
        w.wf(),
        w.spec_now() + delta <= u64::MAX,
        slot_live(w.slots(), i),
        entry_of(w.slots(), i) is Device,
        entry_of(w.slots(), i).deadline() <= w.spec_now() + delta,
        w.step_model(input, delta).slots.len() <= usize::MAX,
    ensures
        ({
            let m = w.step_model(input, delta);
            let now2 = (w.spec_now() + delta) as u64;
            let d = entry_of(w.slots(), i).as_device();
            let pair = spec_blast_pair(d.x, d.y, now2, w.spec_config());
            &&& !handle_valid(m.slots, Handle { index: i as usize, gen: w.slots()[i].gen })
            &&& exists|j1: int, j2: int|
                j1 != j2 && slot_live(m.slots, j1) && slot_live(m.slots, j2) && #[trigger] entry_of(
                    m.slots,
                    j1,
                ) == pair[0] && #[trigger] entry_of(m.slots, j2) == pair[1]
        }),
{
    w.lemma_slots_len();
    lemma_timed_expiry(w, input, delta, i);
    let cfg = w.spec_config();
    let now2 = sat_u64(w.spec_now() + delta);
    let a2 = spec_move_actor(w.actor_data(), input, cfg.move_step);
    let s1 = spec_movement(w.slots(), w.actor_handle(), input, cfg.move_step);
    let ai = w.actor_handle().index as int;
    assert(i != ai);
    assert(s1[i] == w.slots()[i]);
    let edge = release_edge(w.spec_prev_trigger(), input.trigger_held);
    let dev = spec_new_device(a2.x, a2.y, now2, cfg);
    let s2 = if edge {
        spec_insert(s1, dev).0
    } else {
        s1
    };
    if edge {
        lemma_insert_keeps(s1, dev);
    }
    assert(s2[i] == w.slots()[i]);
    let cleared = spec_cleared(s2, now2);
    let es = spec_spawns(s2, now2, cfg);
    let m = w.step_model(input, delta);
    assert(m.slots == spec_insert_all(cleared, es).0);
    lemma_spawns_contains(s2, now2, cfg, i);
    let d = entry_of(w.slots(), i).as_device();
    let pair = spec_blast_pair(d.x, d.y, now2, cfg);
    let k = choose|k: int|
        0 <= k && k + 1 < es.len() && #[trigger] es[k] == pair[0] && es[k + 1] == pair[1];
    lemma_insert_all_len(cleared, es);
    lemma_insert_all_props(cleared, es);
    let hs = spec_insert_all(cleared, es).1;
    assert(handle_valid(m.slots, hs[k]) && entry_of(m.slots, hs[k].index as int) == es[k]);
    assert(handle_valid(m.slots, hs[k + 1]) && entry_of(m.slots, hs[k + 1].index as int) == es[k
        + 1]);
    assert(hs[k].index != hs[k + 1].index);
    let j1 = hs[k].index as int;
    let j2 = hs[k + 1].index as int;
    assert(j1 != j2 && slot_live(m.slots, j1) && slot_live(m.slots, j2) && entry_of(m.slots, j1)
        == pair[0] && entry_of(m.slots, j2) == pair[1]);
}

/// Sweep law: no expired entity survives the step its countdown ran out
/// in — after any step, every live device and hazard has a deadline
/// strictly beyond the step's clock, so the store never carries an expired
/// entity into the next step.
pub proof fn lemma_no_expired_survivor(w: World, input: InputState, delta: u64)
    requires
        w.wf(),
        w.spec_now() + delta < u64::MAX,
    ensures
        ({
            let m = w.step_model(input, delta);
            forall|i: int|
                slot_live(m.slots, i) ==> !entry_of(m.slots, i).is_expired(m.now)
        }),
{
    let cfg = w.spec_config();
    let now2 = sat_u64(w.spec_now() + delta);
    let a2 = spec_move_actor(w.actor_data(), input, cfg.move_step);
    let s1 = spec_movement(w.slots(), w.actor_handle(), input, cfg.move_step);
    let edge = release_edge(w.spec_prev_trigger(), input.trigger_held);
    let dev = spec_new_device(a2.x, a2.y, now2, cfg);
    let s2 = if edge {
        spec_insert(s1, dev).0
    } else {
        s1
    };
    let cleared = spec_cleared(s2, now2);
    let es = spec_spawns(s2, now2, cfg);
    lemma_insert_all_keeps(cleared, es);
    lemma_spawns_are_hazards(s2, now2, cfg);
    let m = w.step_model(input, delta);
    assert(m.slots == spec_insert_all(cleared, es).0);
    assert forall|i: int|
        slot_live(m.slots, i) implies !entry_of(m.slots, i).is_expired(m.now) by {
        if 0 <= i < cleared.len() && cleared[i].entry is Some {
            assert(m.slots[i] == cleared[i]);
            assert(cleared[i] == s2[i]);
            assert(!entry_of(s2, i).is_expired(now2));
        } else {
            let k = choose|k: int| 0 <= k < es.len() && entry_of(m.slots, i) == es[k];
            assert(es[k].deadline() == sat_u64(now2 + cfg.hazard_life));
            assert(es[k].deadline() > now2);
        }
    }
}

} // verus!
