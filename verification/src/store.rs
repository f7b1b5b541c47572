//! Arena entity store with generation-checked handles.
//!
//! Entities live in slots. Removing an entity bumps its slot's generation,
//! so a handle taken before the removal can never validate again against
//! that slot; insertion fills the lowest free slot, or appends a new one.

use crate::entity::{Entity, Kind};
use vstd::prelude::*;

verus! {

/// A stable reference to an entity: a slot index plus the generation the
/// slot had when the entity was inserted. The handle is valid only while
/// both still match, so a stale handle never aliases a successor entity in
/// a reused slot.
#[derive(Clone, Copy, PartialEq, Eq, Structural, Debug)]
pub struct Handle {
    pub index: usize,
    pub gen: u64,
}

/// One arena slot: its current generation and its occupant, if any.
#[derive(Clone, Copy)]
pub struct Slot {
    pub gen: u64,
    pub entry: Option<Entity>,
}

/// The entity store.
pub struct Store {
    slots: Vec<Slot>,
}

/// Whether slot `i` exists and holds an entity.
pub open spec fn slot_live(slots: Seq<Slot>, i: int) -> bool {
    0 <= i < slots.len() && slots[i].entry is Some
}

/// The entity in live slot `i`.
pub open spec fn entry_of(slots: Seq<Slot>, i: int) -> Entity
    recommends
        slot_live(slots, i),
{
    match slots[i].entry {
        Some(e) => e,
        None => arbitrary(),
    }
}

/// A handle is valid when its slot is live in its generation.
pub open spec fn handle_valid(slots: Seq<Slot>, h: Handle) -> bool {
    &&& h.index < slots.len()
    &&& slots[h.index as int].gen == h.gen
    &&& slots[h.index as int].entry is Some
}

/// The generation a slot takes when its occupant is removed.
pub open spec fn bump(g: u64) -> u64 {
    if g == u64::MAX {
        0
    } else {
        (g + 1) as u64
    }
}

/// Removal of the occupant of slot `i`: the slot is emptied and its
/// generation bumped, so handles into the old occupancy go stale forever.
pub open spec fn spec_clear(slots: Seq<Slot>, i: int) -> Seq<Slot>
    recommends
        0 <= i < slots.len(),
{
    slots.update(i, Slot { gen: bump(slots[i].gen), entry: None })
}

/// The lowest free slot index at or after `i`, or the length if all slots
/// from `i` on are occupied.
pub open spec fn first_free_from(slots: Seq<Slot>, i: int) -> int
    recommends
        0 <= i <= slots.len(),
    decreases slots.len() - i,
    when 0 <= i <= slots.len()
{
    if i >= slots.len() {
        i
    } else if slots[i].entry is None {
        i
    } else {
        first_free_from(slots, i + 1)
    }
}

/// The lowest free slot index, or the length if the arena is full.
pub open spec fn first_free(slots: Seq<Slot>) -> int {
    first_free_from(slots, 0)
}

/// Insertion: the entity goes into the lowest free slot under that slot's
/// current generation, or into a fresh appended slot at generation 0.
pub open spec fn spec_insert(slots: Seq<Slot>, e: Entity) -> (Seq<Slot>, Handle) {
    let i = first_free(slots);
    if i < slots.len() {
        (
            slots.update(i, Slot { gen: slots[i].gen, entry: Some(e) }),
            Handle { index: i as usize, gen: slots[i].gen },
        )
    } else {
        (
            slots.push(Slot { gen: 0, entry: Some(e) }),
            Handle { index: slots.len() as usize, gen: 0 },
        )
    }
}

/// Insertion of a batch, in order, each into the lowest slot free at its
/// turn; returns the handles in the batch's order.
pub open spec fn spec_insert_all(slots: Seq<Slot>, es: Seq<Entity>) -> (Seq<Slot>, Seq<Handle>)
    decreases es.len(),
{
    if es.len() == 0 {
        (slots, Seq::<Handle>::empty())
    } else {
        let (s1, h) = spec_insert(slots, es[0]);
        let (s2, hs) = spec_insert_all(s1, es.skip(1));
        (s2, seq![h] + hs)
    }
}

/// 1 when the slot holds an entity of kind `k`, else 0.
pub open spec fn kind_contrib(s: Slot, k: Kind) -> int {
    if s.entry matches Some(e) && e.kind() == k {
        1
    } else {
        0
    }
}

/// How many live entities of kind `k` the slots hold.
pub open spec fn spec_count_kind(slots: Seq<Slot>, k: Kind) -> int
    decreases slots.len(),
{
    if slots.len() == 0 {
        0
    } else {
        spec_count_kind(slots.drop_last(), k) + kind_contrib(slots.last(), k)
    }
}

/// A kind count is between 0 and the number of slots.
pub proof fn lemma_count_kind_bounds(slots: Seq<Slot>, k: Kind)
    ensures
        0 <= spec_count_kind(slots, k) <= slots.len(),
    decreases slots.len(),
{
    if slots.len() > 0 {
        lemma_count_kind_bounds(slots.drop_last(), k);
    }
}

/// Updating one slot changes a kind count by the difference of the old and
/// new slot's contribution.
pub proof fn lemma_count_kind_update(slots: Seq<Slot>, i: int, s: Slot, k: Kind)
    requires
        0 <= i < slots.len(),
    ensures
        spec_count_kind(slots.update(i, s), k) == spec_count_kind(slots, k) - kind_contrib(
            slots[i],
            k,
        ) + kind_contrib(s, k),
    decreases slots.len(),
{
    let u = slots.update(i, s);
    if i == slots.len() - 1 {
        assert(u.drop_last() =~= slots.drop_last());
    } else {
        assert(u.drop_last() =~= slots.drop_last().update(i, s));
        assert(u.last() == slots.last());
        lemma_count_kind_update(slots.drop_last(), i, s, k);
    }
}

/// Appending a slot adds its contribution to a kind count.
pub proof fn lemma_count_kind_push(slots: Seq<Slot>, s: Slot, k: Kind)
    ensures
        spec_count_kind(slots.push(s), k) == spec_count_kind(slots, k) + kind_contrib(s, k),
{
    assert(slots.push(s).drop_last() =~= slots);
}

/// Properties of `first_free_from`: it lands on the first free slot at or
/// after `i`, or on the length when none is free.
pub proof fn lemma_first_free_from_props(slots: Seq<Slot>, i: int)
    requires
        0 <= i <= slots.len(),
    ensures
        i <= first_free_from(slots, i) <= slots.len(),
        first_free_from(slots, i) < slots.len() ==> slots[first_free_from(slots, i)].entry
            is None,
        forall|j: int|
            i <= j < first_free_from(slots, i) ==> slots[j].entry is Some,
    decreases slots.len() - i,
{
    if i < slots.len() && slots[i].entry is Some {
        lemma_first_free_from_props(slots, i + 1);
    }
}

/// What one insertion does besides its own slot: every occupied slot is
/// kept as it was, the generations of existing slots do not move, and the
/// returned handle is valid for the inserted entity in a slot that was free.
pub proof fn lemma_insert_props(slots: Seq<Slot>, e: Entity)
    requires
        slots.len() <= usize::MAX,
    ensures
        ({
            let (s2, h) = spec_insert(slots, e);
            &&& slots.len() <= s2.len() <= slots.len() + 1
            &&& forall|i: int| 0 <= i < slots.len() && slots[i].entry is Some ==> s2[i] == slots[i]
            &&& forall|i: int| 0 <= i < slots.len() ==> s2[i].gen == slots[i].gen
            &&& handle_valid(s2, h)
            &&& entry_of(s2, h.index as int) == e
            &&& h.index as int == first_free(slots)
            &&& !slot_live(slots, h.index as int)
            &&& forall|i: int|
                0 <= i < s2.len() && i != h.index as int ==> i < slots.len() && s2[i] == slots[i]
        }),
{
    lemma_first_free_from_props(slots, 0);
}

/// What one insertion keeps, stated without the returned handle: every
/// occupied slot and every generation stays, and every other slot of the
/// result is either the one filled slot (holding the entity) or fresh.
pub proof fn lemma_insert_keeps(slots: Seq<Slot>, e: Entity)
    ensures
        ({
            let s1 = spec_insert(slots, e).0;
            &&& slots.len() <= s1.len() <= slots.len() + 1
            &&& forall|i: int| 0 <= i < slots.len() && slots[i].entry is Some ==> s1[i] == slots[i]
            &&& forall|i: int| 0 <= i < slots.len() ==> s1[i].gen == slots[i].gen
            &&& forall|i: int|
                0 <= i < s1.len() && i != first_free(slots) ==> i < slots.len() && s1[i] == slots[i]
            &&& 0 <= first_free(slots) <= slots.len()
            &&& s1[first_free(slots)].entry == Some(e)
        }),
{
    lemma_first_free_from_props(slots, 0);
}

/// What a batch insertion keeps, stated without the returned handles:
/// every occupied slot and every generation stays, and every slot occupied
/// afterwards but not before holds one of the batch.
pub proof fn lemma_insert_all_keeps(slots: Seq<Slot>, es: Seq<Entity>)
    ensures
        ({
            let s2 = spec_insert_all(slots, es).0;
            &&& slots.len() <= s2.len()
            &&& forall|i: int| 0 <= i < slots.len() && slots[i].entry is Some ==> s2[i] == slots[i]
            &&& forall|i: int| 0 <= i < slots.len() ==> s2[i].gen == slots[i].gen
            &&& forall|i: int|
                0 <= i < s2.len() && s2[i].entry is Some && !(0 <= i < slots.len() && slots[i].entry
                    is Some) ==> exists|k: int| 0 <= k < es.len() && entry_of(s2, i) == es[k]
        }),
    decreases es.len(),
{
    let s2 = spec_insert_all(slots, es).0;
    if es.len() > 0 {
        let (s1, h) = spec_insert(slots, es[0]);
        lemma_insert_keeps(slots, es[0]);
        lemma_insert_all_keeps(s1, es.skip(1));
        let ff = first_free(slots);
        assert(s1[ff].entry is Some);
        assert(s2[ff] == s1[ff]);
        assert forall|i: int|
            0 <= i < s2.len() && s2[i].entry is Some && !(0 <= i < slots.len() && slots[i].entry
                is Some) implies exists|k: int| 0 <= k < es.len() && entry_of(s2, i) == es[k] by {
            if 0 <= i < s1.len() && s1[i].entry is Some {
                assert(i == ff);
                assert(entry_of(s2, i) == es[0]);
            } else {
                let k = choose|k: int|
                    0 <= k < es.skip(1).len() && entry_of(s2, i) == es.skip(1)[k];
                assert(entry_of(s2, i) == es[k + 1]);
            }
        }
    }
}

/// The lengths after a batch insertion: slots never shrink and there is one
/// handle per inserted entity.
pub proof fn lemma_insert_all_len(slots: Seq<Slot>, es: Seq<Entity>)
    ensures
        ({
            let (s2, hs) = spec_insert_all(slots, es);
            &&& slots.len() <= s2.len() <= slots.len() + es.len()
            &&& hs.len() == es.len()
        }),
    decreases es.len(),
{
    if es.len() > 0 {
        let (s1, h) = spec_insert(slots, es[0]);
        lemma_first_free_from_props(slots, 0);
        lemma_insert_all_len(s1, es.skip(1));
        let (s2r, hsr) = spec_insert_all(s1, es.skip(1));
        assert(spec_insert_all(slots, es) == (s2r, seq![h] + hsr));
        assert(slots.len() <= s1.len() <= slots.len() + 1);
        assert((seq![h] + hsr).len() == 1 + hsr.len());
    } else {
        assert(spec_insert_all(slots, es) == (slots, Seq::<Handle>::empty()));
    }
}

/// What a batch insertion does: every occupied slot is kept as it was with
/// its generation, each handle is valid for its entity in a slot that was
/// free before the batch, the handles' slots are pairwise distinct, and
/// every occupied slot afterwards is either an old one kept or one of the
/// batch under its handle.
pub proof fn lemma_insert_all_props(slots: Seq<Slot>, es: Seq<Entity>)
    requires
        spec_insert_all(slots, es).0.len() <= usize::MAX,
    ensures
        ({
            let (s2, hs) = spec_insert_all(slots, es);
            &&& forall|i: int| 0 <= i < slots.len() && slots[i].entry is Some ==> s2[i] == slots[i]
            &&& forall|i: int| 0 <= i < slots.len() ==> s2[i].gen == slots[i].gen
            &&& forall|k: int|
                0 <= k < es.len() ==> handle_valid(s2, hs[k]) && entry_of(s2, hs[k].index as int)
                    == es[k]
            &&& forall|k: int| 0 <= k < es.len() ==> !slot_live(slots, hs[k].index as int)
            &&& forall|k1: int, k2: int| 0 <= k1 < k2 < es.len() ==> hs[k1].index != hs[k2].index
            &&& forall|i: int|
                0 <= i < s2.len() && s2[i].entry is Some && !(0 <= i < slots.len() && slots[i].entry
                    is Some) ==> exists|k: int|
                    0 <= k < es.len() && hs[k].index as int == i && entry_of(s2, i) == es[k]
        }),
    decreases es.len(),
{
    let (s2, hs) = spec_insert_all(slots, es);
    if es.len() > 0 {
        let (s1, h) = spec_insert(slots, es[0]);
        let (s2r, hsr) = spec_insert_all(s1, es.skip(1));
        lemma_insert_all_len(slots, es);
        lemma_insert_all_len(s1, es.skip(1));
        lemma_insert_props(slots, es[0]);
        lemma_insert_all_props(s1, es.skip(1));
        assert(s2 == s2r);
        assert(hs == seq![h] + hsr);
        assert(hs[0] == h);
        assert forall|k: int| 1 <= k < es.len() implies hs[k] == hsr[k - 1] by {}
        // the first handle's slot is occupied in s1, so the rest of the
        // batch keeps it
        assert(s1[h.index as int].entry is Some);
        assert(s2[h.index as int] == s1[h.index as int]);
        assert forall|k: int|
            0 <= k < es.len() implies handle_valid(s2, hs[k]) && entry_of(s2, hs[k].index as int)
            == es[k] by {
            if k == 0 {
                assert(entry_of(s2, h.index as int) == entry_of(s1, h.index as int));
            } else {
                assert(handle_valid(s2r, hsr[k - 1]) && entry_of(s2r, hsr[k - 1].index as int)
                    == es.skip(1)[k - 1]);
                assert(es.skip(1)[k - 1] == es[k]);
            }
        }
        assert forall|k: int| 0 <= k < es.len() implies !slot_live(slots, hs[k].index as int) by {
            if k > 0 {
                let i = hsr[k - 1].index as int;
                assert(!slot_live(s1, i));
                if 0 <= i < slots.len() && slots[i].entry is Some {
                    assert(s1[i] == slots[i]);
                }
            }
        }
        assert forall|k1: int, k2: int|
            0 <= k1 < k2 < es.len() implies hs[k1].index != hs[k2].index by {
            if k1 == 0 {
                assert(!slot_live(s1, hsr[k2 - 1].index as int));
                assert(slot_live(s1, h.index as int));
            }
        }
        assert forall|i: int|
            0 <= i < s2.len() && s2[i].entry is Some && !(0 <= i < slots.len() && slots[i].entry
                is Some) implies exists|k: int|
            0 <= k < es.len() && hs[k].index as int == i && entry_of(s2, i) == es[k] by {
            if 0 <= i < s1.len() && s1[i].entry is Some {
                // occupied after the first insertion but not before the
                // batch: this is the first handle's slot
                assert(i == h.index as int);
                assert(hs[0].index as int == i && entry_of(s2, i) == es[0]);
            } else {
                let k = choose|k: int|
                    0 <= k < es.skip(1).len() && hsr[k].index as int == i && entry_of(s2, i)
                        == es.skip(1)[k];
                assert(hs[k + 1].index as int == i && entry_of(s2, i) == es[k + 1]);
            }
        }
    }
}

/// Inserting a batch extended by one more entity first inserts the batch,
/// then the extra entity.
pub proof fn lemma_insert_all_snoc(slots: Seq<Slot>, es: Seq<Entity>, e: Entity)
    ensures
        ({
            let (s1, hs) = spec_insert_all(slots, es);
            let (s2, h) = spec_insert(s1, e);
            spec_insert_all(slots, es.push(e)) == (s2, hs.push(h))
        }),
    decreases es.len(),
{
    let (s1, hs) = spec_insert_all(slots, es);
    let (s2, h) = spec_insert(s1, e);
    if es.len() == 0 {
        assert(spec_insert_all(slots, es) == (slots, Seq::<Handle>::empty()));
        assert(s1 == slots);
        assert(es.push(e)[0] == e);
        assert(es.push(e).skip(1) =~= Seq::<Entity>::empty());
        assert(spec_insert_all(s2, Seq::<Entity>::empty()) == (s2, Seq::<Handle>::empty()));
        assert(spec_insert_all(slots, es.push(e)) == (s2, seq![h] + Seq::<Handle>::empty()));
        assert(seq![h] + Seq::<Handle>::empty() =~= hs.push(h));
    } else {
        assert(es.push(e)[0] == es[0]);
        let (t1, g) = spec_insert(slots, es[0]);
        let psk = es.push(e).skip(1);
        assert(psk =~= es.skip(1).push(e));
        lemma_insert_all_snoc(t1, es.skip(1), e);
        let (u1, us) = spec_insert_all(t1, es.skip(1));
        let (u2, uh) = spec_insert(u1, e);
        assert(spec_insert_all(t1, psk) == (u2, us.push(uh)));
        assert(s1 == u1 && hs == seq![g] + us);
        assert(spec_insert_all(slots, es.push(e)) == (u2, seq![g] + us.push(uh)));
        assert(seq![g] + us.push(uh) =~= (seq![g] + us).push(uh));
    }
}

/// A store's slot sequence fits the machine's index range.
pub proof fn lemma_store_len(s: &Store)
    ensures
        s@.len() <= usize::MAX,
{
    assert(s.slots@.len() == vstd::std_specs::vec::spec_vec_len(&s.slots));
}

impl Store {
    /// The slots, as the mathematical sequence every contract speaks of.
    pub closed spec fn view(&self) -> Seq<Slot> {
        self.slots@
    }

    /// An empty store.
    pub fn new() -> (s: Store)
        ensures
            s@ == Seq::<Slot>::empty(),
    {
        Store { slots: Vec::new() }
    }

    /// How many slots the arena has (occupied or free).
    pub fn slot_count(&self) -> (n: usize)
        ensures
            n == self@.len(),
    {
        self.slots.len()
    }

    /// The slot at index `i`.
    pub fn slot_at(&self, i: usize) -> (s: Slot)
        requires
            i < self@.len(),
        ensures
            s == self@[i as int],
    {
        self.slots[i]
    }

    /// The entity a handle refers to, or `None` for a stale or unknown
    /// handle (a stale handle is absorbed, never an error).
    pub fn get(&self, h: Handle) -> (r: Option<Entity>)
        ensures
            handle_valid(self@, h) ==> r == Some(entry_of(self@, h.index as int)),
            !handle_valid(self@, h) ==> r is None,
    {
        if h.index < self.slots.len() {
            let s = self.slots[h.index];
            if s.gen == h.gen {
                return s.entry;
            }
        }
        None
    }

    /// Inserts an entity into the lowest free slot (or a fresh one) and
    /// returns its handle.
    pub fn insert(&mut self, e: Entity) -> (h: Handle)
        ensures
            (final(self)@, h) == spec_insert(old(self)@, e),
    {
        proof {
            lemma_first_free_from_props(self@, 0);
        }
        let n = self.slots.len();
        let mut i: usize = 0;
        while i < n
            invariant
                n == self@.len(),
                i <= n,
                self@ == old(self)@,
                forall|j: int| 0 <= j < i ==> self@[j].entry is Some,
            decreases n - i,
        {
            if self.slots[i].entry.is_none() {
                proof {
                    let ff = first_free(self@);
                    lemma_first_free_from_props(self@, 0);
                    if ff < i {
                        assert(self@[ff].entry is Some);
                    }
                    if ff > i {
                        assert(self@[i as int].entry is Some);
                    }
                    assert(ff == i as int);
                }
                let g = self.slots[i].gen;
                self.slots[i] = Slot { gen: g, entry: Some(e) };
                return Handle { index: i, gen: g };
            }
            i += 1;
        }
        self.slots.push(Slot { gen: 0, entry: Some(e) });
        Handle { index: n, gen: 0 }
    }

    /// Replaces the entity in an occupied slot, keeping its generation.
    pub fn set_at(&mut self, i: usize, e: Entity)
        requires
            i < old(self)@.len(),
        ensures
            final(self)@ == old(self)@.update(
                i as int,
                Slot { gen: old(self)@[i as int].gen, entry: Some(e) },
            ),
    {
        let g = self.slots[i].gen;
        self.slots[i] = Slot { gen: g, entry: Some(e) };
    }

    /// Empties slot `i` and bumps its generation.
    pub fn clear_at(&mut self, i: usize)
        requires
            i < old(self)@.len(),
        ensures
            final(self)@ == spec_clear(old(self)@, i as int),
    {
        let g = self.slots[i].gen;
        let g2 = if g == u64::MAX {
            0
        } else {
            g + 1
        };
        self.slots[i] = Slot { gen: g2, entry: None };
    }

    /// Removes the entity a handle refers to and returns it; a stale or
    /// unknown handle is a no-op (the invalid-handle condition is absorbed).
    pub fn remove(&mut self, h: Handle) -> (r: Option<Entity>)
        ensures
            handle_valid(old(self)@, h) ==> {
                &&& r == Some(entry_of(old(self)@, h.index as int))
                &&& final(self)@ == spec_clear(old(self)@, h.index as int)
            },
            !handle_valid(old(self)@, h) ==> r is None && final(self)@ == old(self)@,
    {
        if h.index < self.slots.len() {
            let s = self.slots[h.index];
            if s.gen == h.gen && s.entry.is_some() {
                self.clear_at(h.index);
                return s.entry;
            }
        }
        None
    }

    /// How many live entities of kind `k` the store holds.
    pub fn count_kind(&self, k: Kind) -> (n: usize)
        ensures
            n == spec_count_kind(self@, k),
    {
        let mut n: usize = 0;
        let mut i: usize = 0;
        let len = self.slots.len();
        while i < len
            invariant
                len == self@.len(),
                i <= len,
                n == spec_count_kind(self@.take(i as int), k),
                n <= i,
            decreases len - i,
        {
            proof {
                assert(self@.take(i + 1).drop_last() =~= self@.take(i as int));
                assert(self@.take(i + 1).last() == self@[i as int]);
                lemma_count_kind_bounds(self@.take(i as int), k);
            }
            let s = self.slots[i];
            match s.entry {
                Some(e) => {
                    if e.kind_of() == k {
                        n += 1;
                    }
                },
                None => {},
            }
            i += 1;
        }
        proof {
            assert(self@.take(len as int) =~= self@);
        }
        n
    }
}

} // verus!
