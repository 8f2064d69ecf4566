//! The dynamic instance store: a slot table, a packed record array, and a
//! mirror of the packed records kept ready for upload to a device buffer.
//!
//! The caller-visible model of an [`InstanceManager`] is a finite map from
//! live [`Handle`]s to records. Every operation's contract is stated over
//! that map; the slot table, free list and packed array are internal.

use vstd::prelude::*;

verus! {

/// An opaque, copyable identifier for one record in an [`InstanceManager`].
///
/// A handle carries no ownership: the caller may copy, store and discard it
/// freely. It is valid only while the record it was issued for is live; once
/// the record is removed, the slot's generation is bumped and every copy of
/// the handle becomes permanently stale.
#[derive(Clone, Copy, Debug, PartialEq, Eq, Structural)]
pub struct Handle {
    slot: usize,
    generation: u64,
}

/// Occupancy of one slot. An occupied slot records where in the packed
/// array its record currently lives; a free slot records nothing.
enum SlotState {
    Free,
    Occupied { packed_index: usize },
}

/// One entry of the slot table: occupancy plus the generation under which
/// the slot was last issued.
struct Slot {
    state: SlotState,
    generation: u64,
}

/// One record of the packed array: the payload plus a back-pointer to the
/// slot that owns it, needed to fix the slot table up after a swap-remove.
struct Entry<T> {
    data: T,
    owner: usize,
}

/// A store of fixed-layout records, each addressed by a stable [`Handle`],
/// with all live records kept packed in one contiguous array.
///
/// Insert, update and remove are O(1); removal swaps the last record into
/// the vacated position, so the packed order carries no meaning. A mirror
/// of the packed records, grown geometrically and never shrunk, is refreshed
/// by [`InstanceManager::buffer`] for upload to the graphics device.
pub struct InstanceManager<T> {
    slots: Vec<Slot>,
    free_list: Vec<usize>,
    packed: Vec<Entry<T>>,
    mirror: Vec<T>,
    mirror_capacity: usize,
}

impl<T> View for InstanceManager<T> {
    type V = Map<Handle, T>;

    /// The abstract state: the map from live handles to their records.
    closed spec fn view(&self) -> Map<Handle, T> {
        Map::new(
            |h: Handle| self.handle_live(h),
            |h: Handle| self.packed@[self.slot_pidx(h.slot as int)].data,
        )
    }
}

impl<T> InstanceManager<T> {
    /// Whether `h` addresses a live record: its slot exists, is occupied,
    /// and was last issued under `h`'s generation.
    spec fn handle_live(self, h: Handle) -> bool {
        &&& h.slot < self.slots@.len()
        &&& self.slots@[h.slot as int].state is Occupied
        &&& self.slots@[h.slot as int].generation == h.generation
    }

    /// The packed index an occupied slot points at.
    spec fn slot_pidx(self, s: int) -> int {
        self.slots@[s].state->packed_index as int
    }

    /// The number of live records.
    pub closed spec fn live_count(self) -> nat {
        self.packed@.len()
    }

    /// The payloads of the packed array, in packed order.
    pub closed spec fn records(self) -> Seq<T> {
        self.packed@.map_values(|e: Entry<T>| e.data)
    }

    /// The capacity, in records, of the device-facing mirror.
    pub closed spec fn capacity(self) -> nat {
        self.mirror_capacity as nat
    }

    /// The packed position of the record a live handle addresses.
    /// Meaningful only while `self@.contains_key(h)`.
    pub closed spec fn position_of(self, h: Handle) -> int {
        self.slot_pidx(h.slot as int)
    }

    /// The handle under which the record at packed index `i` is live.
    pub closed spec fn handle_at(self, i: int) -> Handle {
        Handle {
            slot: self.packed@[i].owner,
            generation: self.slots@[self.packed@[i].owner as int].generation,
        }
    }

    /// An occupied slot points into the packed array, and the entry there
    /// points back at it.
    spec fn slot_ok(self, s: int) -> bool {
        self.slots@[s].state is Occupied ==> {
            &&& 0 <= self.slot_pidx(s) < self.packed@.len()
            &&& self.packed@[self.slot_pidx(s)].owner == s
        }
    }

    /// A packed entry's owner is an occupied slot pointing back at it.
    spec fn entry_ok(self, i: int) -> bool {
        &&& self.packed@[i].owner < self.slots@.len()
        &&& self.slots@[self.packed@[i].owner as int].state is Occupied
        &&& self.slot_pidx(self.packed@[i].owner as int) == i
    }

    /// The free list names only existing, free slots, each at most once.
    spec fn free_list_ok(self) -> bool {
        &&& forall|k: int|
            0 <= k < self.free_list@.len() ==> (#[trigger] self.free_list@[k]) < self.slots@.len()
                && self.slots@[self.free_list@[k] as int].state is Free
        &&& forall|k1: int, k2: int|
            0 <= k1 < k2 < self.free_list@.len() ==> self.free_list@[k1] != self.free_list@[k2]
    }

    /// Well-formedness: the slot table and the packed array are inverse
    /// index tables of one another, and the free list is sound.
    pub closed spec fn wf(self) -> bool {
        &&& forall|s: int| 0 <= s < self.slots@.len() ==> #[trigger] self.slot_ok(s)
        &&& forall|i: int| 0 <= i < self.packed@.len() ==> #[trigger] self.entry_ok(i)
        &&& self.free_list_ok()
    }

    /// Creates an empty store. No device memory is mirrored until the first
    /// call of [`InstanceManager::buffer`] with a live record.
    pub fn new() -> (store: Self)
        ensures
            store.wf(),
            store@ == Map::<Handle, T>::empty(),
            store.records() == Seq::<T>::empty(),
            store.live_count() == 0,
            store.capacity() == 0,
    {
        let store = InstanceManager {
            slots: Vec::new(),
            free_list: Vec::new(),
            packed: Vec::new(),
            mirror: Vec::new(),
            mirror_capacity: 0,
        };
        proof {
            assert(store@ =~= Map::<Handle, T>::empty());
        }
        store
    }

    /// Inserts a record and returns the handle it is now live under.
    ///
    /// The handle is fresh: it is not equal to any handle that was live
    /// before the call. Capacity growth is internal and never observable
    /// as an error.
    pub fn insert(&mut self, data: T) -> (h: Handle)
        requires
            old(self).wf(),
        ensures
            final(self).wf(),
            !old(self)@.contains_key(h),
            final(self)@ == old(self)@.insert(h, data),
            final(self).live_count() == old(self).live_count() + 1,
            final(self).capacity() == old(self).capacity(),
            final(self).records() == old(self).records().push(data),
            final(self).position_of(h) == old(self).live_count(),
            forall|h2: Handle|
                #[trigger] old(self)@.contains_key(h2)
                    ==> final(self).position_of(h2) == old(self).position_of(h2),
    {
        let packed_index = self.packed.len();
        let slot: usize;
        let generation: u64;
        match self.free_list.pop() {
            Some(recycled) => {
                slot = recycled;
                generation = self.slots[slot].generation;
            }
            None => {
                slot = self.slots.len();
                generation = 0;
                self.slots.push(Slot { state: SlotState::Free, generation: 0 });
            }
        }
        self.packed.push(Entry { data, owner: slot });
        self.slots[slot] = Slot { state: SlotState::Occupied { packed_index }, generation };
        let h = Handle { slot, generation };
        proof {
            assert forall|s: int| 0 <= s < self.slots@.len() implies #[trigger] self.slot_ok(s) by {
                if s != slot {
                    assert(old(self).slot_ok(s));
                }
            }
            assert forall|i: int| 0 <= i < self.packed@.len() implies #[trigger] self.entry_ok(i) by {
                if i < old(self).packed@.len() {
                    assert(old(self).entry_ok(i));
                }
            }
            assert(self.free_list_ok());
            assert forall|h2: Handle| old(self)@.insert(h, data).contains_key(h2)
                implies self@.contains_key(h2) && self@[h2] == old(self)@.insert(h, data)[h2] by {
                if h2 != h {
                    assert(old(self).handle_live(h2));
                    assert(old(self).slot_ok(h2.slot as int));
                }
            }
            assert forall|h2: Handle| self@.contains_key(h2)
                implies old(self)@.insert(h, data).contains_key(h2) by {
                if h2 != h {
                    assert(self.slot_ok(h2.slot as int));
                }
            }
            assert(final(self)@ =~= old(self)@.insert(h, data));
            assert(final(self).records() =~= old(self).records().push(data));
            assert forall|h2: Handle| #[trigger] old(self)@.contains_key(h2)
                implies final(self).position_of(h2) == old(self).position_of(h2) by {
                assert(old(self).handle_live(h2));
            }
        }
        h
    }

    /// Looks a handle up in the slot table: its record's current packed
    /// index if the handle is live under the slot's current generation,
    /// `None` if it is stale or was never issued.
    fn resolve_index(&self, handle: &Handle) -> (r: Option<usize>)
        requires
            self.wf(),
        ensures
            match r {
                Some(i) => self.handle_live(*handle) && i == self.slot_pidx(handle.slot as int)
                    && i < self.live_count(),
                None => !self.handle_live(*handle),
            },
    {
        if handle.slot >= self.slots.len() {
            return None;
        }
        proof {
            assert(self.slot_ok(handle.slot as int));
        }
        if self.slots[handle.slot].generation != handle.generation {
            return None;
        }
        match self.slots[handle.slot].state {
            SlotState::Occupied { packed_index } => Some(packed_index),
            SlotState::Free => None,
        }
    }

    /// Overwrites the record a live handle addresses, in place.
    ///
    /// On a stale handle this is a no-op: event handling is allowed to race
    /// benignly with render-state teardown, so an update to a removed
    /// record is silently ignored rather than escalated.
    pub fn update(&mut self, handle: &Handle, data: T)
        requires
            old(self).wf(),
        ensures
            final(self).wf(),
            old(self)@.contains_key(*handle) ==> final(self)@ == old(self)@.insert(*handle, data),
            !old(self)@.contains_key(*handle) ==> *final(self) == *old(self),
            final(self).live_count() == old(self).live_count(),
            final(self).capacity() == old(self).capacity(),
            old(self)@.contains_key(*handle) ==> final(self).records() == old(self).records()
                .update(old(self).position_of(*handle), data),
            forall|h2: Handle|
                #[trigger] old(self)@.contains_key(h2)
                    ==> final(self).position_of(h2) == old(self).position_of(h2),
    {
        match self.resolve_index(handle) {
            Some(packed_index) => {
                proof {
                    assert(old(self).slot_ok(handle.slot as int));
                }
                let owner = self.packed[packed_index].owner;
                self.packed[packed_index] = Entry { data, owner };
                proof {
                    assert forall|s: int| 0 <= s < self.slots@.len() implies #[trigger] self.slot_ok(s) by {
                        assert(old(self).slot_ok(s));
                    }
                    assert forall|i: int| 0 <= i < self.packed@.len() implies #[trigger] self.entry_ok(i) by {
                        assert(old(self).entry_ok(i));
                    }
                    assert forall|h2: Handle| #[trigger] self@.contains_key(h2) || old(self)@.insert(*handle, data).contains_key(h2)
                        implies self@.contains_key(h2) && old(self)@.insert(*handle, data).contains_key(h2)
                            && self@[h2] == old(self)@.insert(*handle, data)[h2] by {
                        assert(old(self).handle_live(h2) == self.handle_live(h2));
                        if self.handle_live(h2) && h2 != *handle {
                            assert(old(self).slot_ok(h2.slot as int));
                            assert(self.slot_pidx(h2.slot as int) != packed_index as int) by {
                                if self.slot_pidx(h2.slot as int) == packed_index as int {
                                    assert(old(self).entry_ok(packed_index as int));
                                }
                            }
                        }
                    }
                    assert(final(self)@ =~= old(self)@.insert(*handle, data));
                    assert(final(self).records() =~= old(self).records().update(
                        old(self).position_of(*handle),
                        data,
                    ));
                }
            }
            None => {}
        }
    }

    /// Removes the record a live handle addresses and reports whether
    /// anything was removed.
    ///
    /// Removal is by swap: the last packed record moves into the vacated
    /// position and its slot-table entry is fixed up, so the packed array
    /// stays dense. The freed slot's generation is bumped, permanently
    /// staling every copy of the handle. On a stale handle the call is a
    /// no-op returning `false`, so removing the same handle twice is safe
    /// and only the first call reports success.
    ///
    /// The generation counter wraps on overflow; a handle kept across
    /// 2^64 removals of its slot could in principle collide with a later
    /// one. That risk is accepted rather than defended against.
    pub fn remove(&mut self, handle: &Handle) -> (removed: bool)
        requires
            old(self).wf(),
        ensures
            final(self).wf(),
            removed == old(self)@.contains_key(*handle),
            final(self)@ == old(self)@.remove(*handle),
            removed ==> final(self).live_count() == old(self).live_count() - 1,
            !removed ==> *final(self) == *old(self),
            final(self).capacity() == old(self).capacity(),
            removed ==> final(self).records() == old(self).records().update(
                old(self).position_of(*handle),
                old(self).records().last(),
            ).drop_last(),
            removed ==> forall|h2: Handle|
                #[trigger] old(self)@.contains_key(h2) && h2 != *handle
                    ==> final(self).position_of(h2) == (if old(self).position_of(h2)
                        == old(self).live_count() - 1 {
                        old(self).position_of(*handle)
                    } else {
                        old(self).position_of(h2)
                    }),
    {
        let packed_index = match self.resolve_index(handle) {
            Some(i) => i,
            None => {
                proof {
                    assert(old(self)@.remove(*handle) =~= old(self)@);
                }
                return false;
            }
        };
        proof {
            assert(old(self).slot_ok(handle.slot as int));
        }
        let _ = self.packed.swap_remove(packed_index);
        if packed_index < self.packed.len() {
            proof {
                assert(old(self).entry_ok(old(self).packed@.len() - 1));
            }
            let moved_owner = self.packed[packed_index].owner;
            let moved_generation = self.slots[moved_owner].generation;
            self.slots[moved_owner] = Slot {
                state: SlotState::Occupied { packed_index },
                generation: moved_generation,
            };
        }
        let next_generation = if handle.generation == u64::MAX {
            0
        } else {
            handle.generation + 1
        };
        self.slots[handle.slot] = Slot { state: SlotState::Free, generation: next_generation };
        self.free_list.push(handle.slot);
        proof {
            let pre = *old(self);
            let pi = packed_index as int;
            let old_last = pre.packed@.len() - 1;
            assert forall|s: int| 0 <= s < self.slots@.len() implies #[trigger] self.slot_ok(s) by {
                assert(pre.slot_ok(s));
                if s != handle.slot && self.slots@[s].state is Occupied
                    && self.slot_pidx(s) != pi {
                    assert(pre.slot_pidx(s) != old_last) by {
                        if pre.slot_pidx(s) == old_last {
                            assert(pre.entry_ok(old_last));
                        }
                    }
                    assert(pre.slot_pidx(s) != pi) by {
                        if pre.slot_pidx(s) == pi {
                            assert(pre.entry_ok(pi));
                        }
                    }
                }
            }
            assert forall|i: int| 0 <= i < self.packed@.len() implies #[trigger] self.entry_ok(i) by {
                assert(pre.entry_ok(i));
                if i != pi {
                    assert(pre.packed@[i].owner != handle.slot);
                    assert(pre.packed@[i].owner != pre.packed@[old_last].owner) by {
                        assert(pre.entry_ok(old_last));
                    }
                }
            }
            assert forall|k: int| 0 <= k < self.free_list@.len()
                implies (#[trigger] self.free_list@[k]) < self.slots@.len()
                    && self.slots@[self.free_list@[k] as int].state is Free by {
                if k < pre.free_list@.len() {
                    assert(pre.free_list@[k] != handle.slot);
                    if pi < self.packed@.len() {
                        assert(pre.free_list@[k] != pre.packed@[old_last].owner) by {
                            assert(pre.entry_ok(old_last));
                        }
                    }
                }
            }
            assert(self.free_list_ok());
            assert forall|h2: Handle| #[trigger] self@.contains_key(h2)
                || pre@.remove(*handle).contains_key(h2)
                implies self@.contains_key(h2) && pre@.remove(*handle).contains_key(h2)
                    && self@[h2] == pre@.remove(*handle)[h2] by {
                if h2 != *handle {
                    if h2.slot != handle.slot {
                        assert(pre.handle_live(h2) == self.handle_live(h2));
                        if self.handle_live(h2) {
                            assert(pre.slot_ok(h2.slot as int));
                            assert(self.slot_ok(h2.slot as int));
                            if pre.slot_pidx(h2.slot as int) == old_last {
                                assert(pre.entry_ok(old_last));
                            }
                        }
                    }
                }
            }
            assert(final(self)@ =~= pre@.remove(*handle));
            assert(final(self).records() =~= pre.records().update(
                pre.position_of(*handle),
                pre.records().last(),
            ).drop_last());
            assert forall|h2: Handle| #[trigger] pre@.contains_key(h2) && h2 != *handle
                implies final(self).position_of(h2) == (if pre.position_of(h2)
                    == pre.live_count() - 1 {
                    pre.position_of(*handle)
                } else {
                    pre.position_of(h2)
                }) by {
                assert(pre.slot_ok(h2.slot as int));
                if pre.position_of(h2) == old_last {
                    assert(pre.entry_ok(old_last));
                }
            }
        }
        true
    }

    /// The number of live records.
    pub fn len(&self) -> (n: usize)
        ensures
            n == self.live_count(),
    {
        self.packed.len()
    }

    /// Resolves a handle to its record's current position in the packed
    /// array, or `None` if the handle is stale. The position is only valid
    /// until the next remove, which may move records.
    pub fn resolve(&self, handle: &Handle) -> (r: Option<usize>)
        requires
            self.wf(),
        ensures
            match r {
                Some(i) => self@.contains_key(*handle) && i < self.live_count()
                    && i == self.position_of(*handle)
                    && self.handle_at(i as int) == *handle
                    && self.records()[i as int] == self@[*handle],
                None => !self@.contains_key(*handle),
            },
    {
        let r = self.resolve_index(handle);
        proof {
            if let Some(i) = r {
                assert(self.slot_ok(handle.slot as int));
                assert(self.handle_at(i as int) == *handle);
                assert(self.records()[i as int] == self.packed@[i as int].data);
            }
        }
        r
    }

    /// Borrows the record a live handle addresses, or `None` if the handle
    /// is stale.
    pub fn get(&self, handle: &Handle) -> (r: Option<&T>)
        requires
            self.wf(),
        ensures
            match r {
                Some(data) => self@.contains_key(*handle) && *data == self@[*handle],
                None => !self@.contains_key(*handle),
            },
    {
        match self.resolve_index(handle) {
            Some(i) => Some(&self.packed[i].data),
            None => None,
        }
    }
}

impl<T: Copy> InstanceManager<T> {
    /// The smallest power-of-two-stepped capacity that fits `needed`
    /// records, growing geometrically from `current`.
    fn grow_capacity(current: usize, needed: usize) -> (c: usize)
        requires
            current < needed,
        ensures
            needed <= c,
            current <= c,
    {
        let mut c: usize = if current == 0 {
            4
        } else {
            current
        };
        while c < needed
            invariant
                1 <= c,
                current <= c,
            decreases usize::MAX - c,
        {
            if c <= usize::MAX / 2 {
                c = c * 2;
            } else {
                c = needed;
            }
        }
        c
    }

    /// Synchronizes the device-facing mirror with the packed array and
    /// returns it, or `None` when no record is live (the caller must then
    /// skip the draw call entirely).
    ///
    /// The returned buffer holds exactly the live records, in packed
    /// order, reflecting every insert, update and remove since the
    /// previous call. The mirror's capacity grows geometrically when the
    /// live count outgrows it and is never shrunk.
    pub fn buffer(&mut self) -> (r: Option<&Vec<T>>)
        requires
            old(self).wf(),
        ensures
            final(self).wf(),
            final(self)@ == old(self)@,
            final(self).records() == old(self).records(),
            final(self).live_count() == old(self).live_count(),
            final(self).capacity() >= old(self).capacity(),
            old(self).live_count() > 0 ==> final(self).capacity() >= final(self).live_count(),
            match r {
                Some(contents) => old(self).live_count() > 0 && contents@ == old(self).records()
                    && contents@.len() == old(self).live_count(),
                None => old(self).live_count() == 0,
            },
    {
        let count = self.packed.len();
        if count == 0 {
            return None;
        }
        if self.mirror_capacity < count {
            self.mirror_capacity = Self::grow_capacity(self.mirror_capacity, count);
        }
        self.mirror.clear();
        let mut j: usize = 0;
        while j < self.packed.len()
            invariant
                j <= self.packed@.len(),
                self.mirror@ == self.records().subrange(0, j as int),
                self.slots == old(self).slots,
                self.free_list == old(self).free_list,
                self.packed == old(self).packed,
                self.mirror_capacity >= old(self).mirror_capacity,
                self.mirror_capacity >= self.packed@.len(),
            decreases self.packed@.len() - j,
        {
            self.mirror.push(self.packed[j].data);
            proof {
                assert(self.mirror@ =~= self.records().subrange(0, j + 1));
            }
            j += 1;
        }
        proof {
            assert(self.mirror@ =~= self.records());
            assert forall|s: int| 0 <= s < self.slots@.len() implies #[trigger] self.slot_ok(s) by {
                assert(old(self).slot_ok(s));
            }
            assert forall|i: int| 0 <= i < self.packed@.len() implies #[trigger] self.entry_ok(i) by {
                assert(old(self).entry_ok(i));
            }
            assert(self.free_list_ok());
            assert forall|h2: Handle| #[trigger] self@.contains_key(h2)
                || old(self)@.contains_key(h2)
                implies self@.contains_key(h2) && old(self)@.contains_key(h2)
                    && self@[h2] == old(self)@[h2] by {
                assert(self.handle_live(h2) == old(self).handle_live(h2));
            }
            assert(final(self)@ =~= old(self)@);
        }
        Some(&self.mirror)
    }
}

impl<T> InstanceManager<T> {
    /// Packing: after any sequence of inserts and removes, the packed
    /// records are, as a set, exactly the payloads of the currently-live
    /// handles. Every packed position is owned by one live handle, no two
    /// positions by the same handle, and every live handle owns a
    /// position; the order of the positions carries no meaning.
    pub proof fn lemma_records_match_live_handles(self)
        requires
            self.wf(),
        ensures
            self.records().len() == self.live_count(),
            forall|i: int|
                0 <= i < self.live_count() ==> #[trigger] self@.contains_key(self.handle_at(i))
                    && self@[self.handle_at(i)] == self.records()[i],
            forall|i: int, j: int|
                0 <= i < self.live_count() && 0 <= j < self.live_count() && i != j
                    ==> self.handle_at(i) != self.handle_at(j),
            forall|h: Handle|
                #[trigger] self@.contains_key(h)
                    ==> exists|i: int| 0 <= i < self.live_count() && self.handle_at(i) == h,
    {
        assert forall|i: int|
            0 <= i < self.live_count() implies #[trigger] self@.contains_key(self.handle_at(i))
                && self@[self.handle_at(i)] == self.records()[i] by {
            assert(self.entry_ok(i));
        }
        assert forall|i: int, j: int|
            0 <= i < self.live_count() && 0 <= j < self.live_count() && i != j
                implies self.handle_at(i) != self.handle_at(j) by {
            assert(self.entry_ok(i));
            assert(self.entry_ok(j));
        }
        assert forall|h: Handle| #[trigger] self@.contains_key(h)
            implies exists|i: int| 0 <= i < self.live_count() && self.handle_at(i) == h by {
            assert(self.slot_ok(h.slot as int));
            let i = self.slot_pidx(h.slot as int);
            assert(0 <= i < self.live_count() && self.handle_at(i) == h);
        }
    }

    /// Round trip: overwriting the record under a live handle and reading
    /// it back through the same handle yields exactly the written record.
    /// `pre` is the store's map before the overwrite, as `update`'s and
    /// `get`'s contracts speak of it.
    pub proof fn lemma_update_round_trip(pre: Map<Handle, T>, h: Handle, data: T)
        requires
            pre.contains_key(h),
        ensures
            pre.insert(h, data).contains_key(h),
            pre.insert(h, data)[h] == data,
    {
    }

    /// Staleness: once a handle has been removed from the store's map, it
    /// is gone for good — by `remove`'s contract a second remove of it
    /// reports `false`, and by `update`'s contract an update through it is
    /// a no-op.
    pub proof fn lemma_removed_handle_stale(pre: Map<Handle, T>, h: Handle)
        ensures
            !pre.remove(h).contains_key(h),
    {
    }
}

} // verus!
