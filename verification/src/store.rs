//! Durable storage: one flat growable memory region, partitioned into
//! fixed slots by a memory manager, holding one persisted counter and one
//! ordered map of encoded records per entity kind.
//!
//! The outside structures are held behind opaque handles; uninterpreted view
//! functions name their contents, and each wrapper states over those names
//! what the outside crate's source shows.

use vstd::prelude::*;
use ic_stable_structures::memory_manager::{MemoryId, MemoryManager, VirtualMemory};
use ic_stable_structures::{Cell, StableBTreeMap, VectorMemory};

verus! {

/// Slot of the fish identifier counter.
pub const FISH_IDS_SLOT: u8 = 0;

/// Slot of the tank identifier counter.
pub const TANK_IDS_SLOT: u8 = 1;

/// Slot of the farm identifier counter.
pub const FARM_IDS_SLOT: u8 = 2;

/// Slot of the fish record map.
pub const FISH_RECORDS_SLOT: u8 = 4;

/// Slot of the tank record map.
pub const TANK_RECORDS_SLOT: u8 = 5;

/// Slot of the farm record map.
pub const FARM_RECORDS_SLOT: u8 = 6;

/// A handle on one flat growable byte region that outlives the structures
/// carved out of it.
#[verifier::external_body]
pub struct StableMemory {
    region: VectorMemory,
}

/// A persisted 64-bit counter living in one partition.
#[verifier::external_body]
pub struct StableCounter {
    cell: Cell<u64, VirtualMemory<VectorMemory>>,
}

/// A persisted ordered map from 64-bit identifiers to encoded records,
/// living in one partition.
#[verifier::external_body]
pub struct StableByteMap {
    map: StableBTreeMap<u64, Vec<u8>, VirtualMemory<VectorMemory>>,
}

/// The counter value persisted in a slot of a detached memory region.
pub uninterp spec fn mem_cell(m: StableMemory, slot: u8) -> u64;

/// The map entries persisted in a slot of a detached memory region.
pub uninterp spec fn mem_records(m: StableMemory, slot: u8) -> Map<u64, Seq<u8>>;

/// The value a live counter holds.
pub uninterp spec fn counter_value(c: StableCounter) -> u64;

/// The entries a live map holds.
pub uninterp spec fn map_entries(m: StableByteMap) -> Map<u64, Seq<u8>>;

/// The six persistent structures carved out of one memory region, each in its
/// own slot, together with the region they live in. Every field is private:
/// no code outside this module can extract the region from a live store or
/// assemble a store around foreign handles, so the six structures are the
/// only door to their region until `close_store` takes the whole store back.
pub struct StoreParts {
    fish_ids: StableCounter,
    tank_ids: StableCounter,
    farm_ids: StableCounter,
    fish_records: StableByteMap,
    tank_records: StableByteMap,
    farm_records: StableByteMap,
    mem: StableMemory,
}

impl StoreParts {
    /// The live counter minting fish identifiers.
    pub closed spec fn fish_ids_spec(self) -> StableCounter {
        self.fish_ids
    }

    /// The live counter minting tank identifiers.
    pub closed spec fn tank_ids_spec(self) -> StableCounter {
        self.tank_ids
    }

    /// The live counter minting farm identifiers.
    pub closed spec fn farm_ids_spec(self) -> StableCounter {
        self.farm_ids
    }

    /// The live map of encoded fish records.
    pub closed spec fn fish_records_spec(self) -> StableByteMap {
        self.fish_records
    }

    /// The live map of encoded tank records.
    pub closed spec fn tank_records_spec(self) -> StableByteMap {
        self.tank_records
    }

    /// The live map of encoded farm records.
    pub closed spec fn farm_records_spec(self) -> StableByteMap {
        self.farm_records
    }

    /// Everything but the fish counter is untouched.
    pub open spec fn only_fish_ids_differ(pre: StoreParts, post: StoreParts) -> bool {
        &&& post.tank_ids_spec() == pre.tank_ids_spec()
        &&& post.farm_ids_spec() == pre.farm_ids_spec()
        &&& post.fish_records_spec() == pre.fish_records_spec()
        &&& post.tank_records_spec() == pre.tank_records_spec()
        &&& post.farm_records_spec() == pre.farm_records_spec()
    }

    /// Everything but the tank counter is untouched.
    pub open spec fn only_tank_ids_differ(pre: StoreParts, post: StoreParts) -> bool {
        &&& post.fish_ids_spec() == pre.fish_ids_spec()
        &&& post.farm_ids_spec() == pre.farm_ids_spec()
        &&& post.fish_records_spec() == pre.fish_records_spec()
        &&& post.tank_records_spec() == pre.tank_records_spec()
        &&& post.farm_records_spec() == pre.farm_records_spec()
    }

    /// Everything but the farm counter is untouched.
    pub open spec fn only_farm_ids_differ(pre: StoreParts, post: StoreParts) -> bool {
        &&& post.fish_ids_spec() == pre.fish_ids_spec()
        &&& post.tank_ids_spec() == pre.tank_ids_spec()
        &&& post.fish_records_spec() == pre.fish_records_spec()
        &&& post.tank_records_spec() == pre.tank_records_spec()
        &&& post.farm_records_spec() == pre.farm_records_spec()
    }

    /// Everything but the fish record map is untouched.
    pub open spec fn only_fish_records_differ(pre: StoreParts, post: StoreParts) -> bool {
        &&& post.fish_ids_spec() == pre.fish_ids_spec()
        &&& post.tank_ids_spec() == pre.tank_ids_spec()
        &&& post.farm_ids_spec() == pre.farm_ids_spec()
        &&& post.tank_records_spec() == pre.tank_records_spec()
        &&& post.farm_records_spec() == pre.farm_records_spec()
    }

    /// Everything but the tank record map is untouched.
    pub open spec fn only_tank_records_differ(pre: StoreParts, post: StoreParts) -> bool {
        &&& post.fish_ids_spec() == pre.fish_ids_spec()
        &&& post.tank_ids_spec() == pre.tank_ids_spec()
        &&& post.farm_ids_spec() == pre.farm_ids_spec()
        &&& post.fish_records_spec() == pre.fish_records_spec()
        &&& post.farm_records_spec() == pre.farm_records_spec()
    }

    /// Everything but the farm record map is untouched.
    pub open spec fn only_farm_records_differ(pre: StoreParts, post: StoreParts) -> bool {
        &&& post.fish_ids_spec() == pre.fish_ids_spec()
        &&& post.tank_ids_spec() == pre.tank_ids_spec()
        &&& post.farm_ids_spec() == pre.farm_ids_spec()
        &&& post.fish_records_spec() == pre.fish_records_spec()
        &&& post.tank_records_spec() == pre.tank_records_spec()
    }

    /// Mints the next fish identifier through the fish counter.
    pub fn fish_allocate_next(&mut self) -> (id: u64)
        requires
            counter_value(self.fish_ids_spec()) < u64::MAX,
        ensures
            id == counter_value(old(self).fish_ids_spec()),
            counter_value(final(self).fish_ids_spec()) == id + 1,
            StoreParts::only_fish_ids_differ(*old(self), *final(self)),
    {
        self.fish_ids.allocate_next()
    }

    /// Mints the next tank identifier through the tank counter.
    pub fn tank_allocate_next(&mut self) -> (id: u64)
        requires
            counter_value(self.tank_ids_spec()) < u64::MAX,
        ensures
            id == counter_value(old(self).tank_ids_spec()),
            counter_value(final(self).tank_ids_spec()) == id + 1,
            StoreParts::only_tank_ids_differ(*old(self), *final(self)),
    {
        self.tank_ids.allocate_next()
    }

    /// Mints the next farm identifier through the farm counter.
    pub fn farm_allocate_next(&mut self) -> (id: u64)
        requires
            counter_value(self.farm_ids_spec()) < u64::MAX,
        ensures
            id == counter_value(old(self).farm_ids_spec()),
            counter_value(final(self).farm_ids_spec()) == id + 1,
            StoreParts::only_farm_ids_differ(*old(self), *final(self)),
    {
        self.farm_ids.allocate_next()
    }

    /// Inserts or overwrites a fish record.
    pub fn fish_records_insert(&mut self, key: u64, value: Vec<u8>)
        ensures
            map_entries(final(self).fish_records_spec()) == map_entries(
                old(self).fish_records_spec(),
            ).insert(key, value@),
            StoreParts::only_fish_records_differ(*old(self), *final(self)),
    {
        self.fish_records.insert(key, value);
    }

    /// Inserts or overwrites a tank record.
    pub fn tank_records_insert(&mut self, key: u64, value: Vec<u8>)
        ensures
            map_entries(final(self).tank_records_spec()) == map_entries(
                old(self).tank_records_spec(),
            ).insert(key, value@),
            StoreParts::only_tank_records_differ(*old(self), *final(self)),
    {
        self.tank_records.insert(key, value);
    }

    /// Inserts or overwrites a farm record.
    pub fn farm_records_insert(&mut self, key: u64, value: Vec<u8>)
        ensures
            map_entries(final(self).farm_records_spec()) == map_entries(
                old(self).farm_records_spec(),
            ).insert(key, value@),
            StoreParts::only_farm_records_differ(*old(self), *final(self)),
    {
        self.farm_records.insert(key, value);
    }

    /// Removes a fish record, returning what was stored under the key.
    pub fn fish_records_remove(&mut self, key: u64) -> (r: Option<Vec<u8>>)
        ensures
            map_entries(final(self).fish_records_spec()) == map_entries(
                old(self).fish_records_spec(),
            ).remove(key),
            match r {
                Some(v) => map_entries(old(self).fish_records_spec()).contains_key(key) && v@
                    == map_entries(old(self).fish_records_spec())[key],
                None => !map_entries(old(self).fish_records_spec()).contains_key(key),
            },
            StoreParts::only_fish_records_differ(*old(self), *final(self)),
    {
        self.fish_records.remove(key)
    }

    /// Removes a tank record, returning what was stored under the key.
    pub fn tank_records_remove(&mut self, key: u64) -> (r: Option<Vec<u8>>)
        ensures
            map_entries(final(self).tank_records_spec()) == map_entries(
                old(self).tank_records_spec(),
            ).remove(key),
            match r {
                Some(v) => map_entries(old(self).tank_records_spec()).contains_key(key) && v@
                    == map_entries(old(self).tank_records_spec())[key],
                None => !map_entries(old(self).tank_records_spec()).contains_key(key),
            },
            StoreParts::only_tank_records_differ(*old(self), *final(self)),
    {
        self.tank_records.remove(key)
    }

    /// Removes a farm record, returning what was stored under the key.
    pub fn farm_records_remove(&mut self, key: u64) -> (r: Option<Vec<u8>>)
        ensures
            map_entries(final(self).farm_records_spec()) == map_entries(
                old(self).farm_records_spec(),
            ).remove(key),
            match r {
                Some(v) => map_entries(old(self).farm_records_spec()).contains_key(key) && v@
                    == map_entries(old(self).farm_records_spec())[key],
                None => !map_entries(old(self).farm_records_spec()).contains_key(key),
            },
            StoreParts::only_farm_records_differ(*old(self), *final(self)),
    {
        self.farm_records.remove(key)
    }

    /// Reads the fish identifier counter.
    pub fn fish_ids_ref(&self) -> (c: &StableCounter)
        ensures
            *c == self.fish_ids_spec(),
    {
        &self.fish_ids
    }

    /// Reads the tank identifier counter.
    pub fn tank_ids_ref(&self) -> (c: &StableCounter)
        ensures
            *c == self.tank_ids_spec(),
    {
        &self.tank_ids
    }

    /// Reads the farm identifier counter.
    pub fn farm_ids_ref(&self) -> (c: &StableCounter)
        ensures
            *c == self.farm_ids_spec(),
    {
        &self.farm_ids
    }

    /// Reads the fish record map.
    pub fn fish_records_ref(&self) -> (m: &StableByteMap)
        ensures
            *m == self.fish_records_spec(),
    {
        &self.fish_records
    }

    /// Reads the tank record map.
    pub fn tank_records_ref(&self) -> (m: &StableByteMap)
        ensures
            *m == self.tank_records_spec(),
    {
        &self.tank_records
    }

    /// Reads the farm record map.
    pub fn farm_records_ref(&self) -> (m: &StableByteMap)
        ensures
            *m == self.farm_records_spec(),
    {
        &self.farm_records
    }
}

/// The slot holds no records at all.
pub open spec fn no_records(m: StableMemory, slot: u8) -> bool {
    mem_records(m, slot) == Map::<u64, Seq<u8>>::empty()
}

/// Relies on `VectorMemory::default`: a fresh in-process growable region is
/// empty, so every slot holds its counter's default 0 and an empty map.
#[verifier::external_body]
pub fn fresh_memory() -> (m: StableMemory)
    ensures
        mem_cell(m, FISH_IDS_SLOT) == 0,
        mem_cell(m, TANK_IDS_SLOT) == 0,
        mem_cell(m, FARM_IDS_SLOT) == 0,
        no_records(m, FISH_RECORDS_SLOT),
        no_records(m, TANK_RECORDS_SLOT),
        no_records(m, FARM_RECORDS_SLOT),
{
    StableMemory { region: VectorMemory::default() }
}

/// Relies on `MemoryManager::init` and `get`: distinct `MemoryId`s address
/// disjoint regions of one memory, and re-attaching finds previous content;
/// on `Cell::init`: it loads the stored value, or the default 0 on a fresh
/// region; and on `StableBTreeMap::init`: it loads the map stored in the
/// region, empty on a fresh one.
#[verifier::external_body]
pub fn open_store(m: StableMemory) -> (parts: StoreParts)
    ensures
        counter_value(parts.fish_ids_spec()) == mem_cell(m, FISH_IDS_SLOT),
        counter_value(parts.tank_ids_spec()) == mem_cell(m, TANK_IDS_SLOT),
        counter_value(parts.farm_ids_spec()) == mem_cell(m, FARM_IDS_SLOT),
        map_entries(parts.fish_records_spec()) == mem_records(m, FISH_RECORDS_SLOT),
        map_entries(parts.tank_records_spec()) == mem_records(m, TANK_RECORDS_SLOT),
        map_entries(parts.farm_records_spec()) == mem_records(m, FARM_RECORDS_SLOT),
{
    let mm = MemoryManager::init(m.region.clone());
    StoreParts {
        fish_ids: StableCounter { cell: Cell::init(mm.get(MemoryId::new(FISH_IDS_SLOT)), 0) },
        tank_ids: StableCounter { cell: Cell::init(mm.get(MemoryId::new(TANK_IDS_SLOT)), 0) },
        farm_ids: StableCounter { cell: Cell::init(mm.get(MemoryId::new(FARM_IDS_SLOT)), 0) },
        fish_records: StableByteMap { map: StableBTreeMap::init(mm.get(MemoryId::new(FISH_RECORDS_SLOT))) },
        tank_records: StableByteMap { map: StableBTreeMap::init(mm.get(MemoryId::new(TANK_RECORDS_SLOT))) },
        farm_records: StableByteMap { map: StableBTreeMap::init(mm.get(MemoryId::new(FARM_RECORDS_SLOT))) },
        mem: m,
    }
}

/// Relies on the durability of the partitioned region: every write made
/// through the counters and maps has reached it, so the handle given back
/// holds exactly their final content.
#[verifier::external_body]
pub fn close_store(parts: StoreParts) -> (m: StableMemory)
    ensures
        mem_cell(m, FISH_IDS_SLOT) == counter_value(parts.fish_ids_spec()),
        mem_cell(m, TANK_IDS_SLOT) == counter_value(parts.tank_ids_spec()),
        mem_cell(m, FARM_IDS_SLOT) == counter_value(parts.farm_ids_spec()),
        mem_records(m, FISH_RECORDS_SLOT) == map_entries(parts.fish_records_spec()),
        mem_records(m, TANK_RECORDS_SLOT) == map_entries(parts.tank_records_spec()),
        mem_records(m, FARM_RECORDS_SLOT) == map_entries(parts.farm_records_spec()),
{
    parts.mem
}

impl StableCounter {
    /// Relies on `Cell::get`: it returns the stored value without mutation.
    #[verifier::external_body]
    pub fn current(&self) -> (v: u64)
        ensures
            v == counter_value(*self),
    {
        *self.cell.get()
    }

    /// Relies on `Cell::set`: it persists the value; a `u64` occupies a
    /// fixed eight bytes, so the write cannot be refused.
    #[verifier::external_body]
    fn set(&mut self, v: u64)
        ensures
            counter_value(*final(self)) == v,
    {
        self.cell.set(v);
    }

    /// Mints the next identifier: returns the stored value and persists its
    /// successor, so successive calls return strictly increasing values.
    pub fn allocate_next(&mut self) -> (id: u64)
        requires
            counter_value(*self) < u64::MAX,
        ensures
            id == counter_value(*old(self)),
            counter_value(*final(self)) == id + 1,
    {
        let id = self.current();
        self.set(id + 1);
        id
    }
}

impl StableByteMap {
    /// Relies on `StableBTreeMap::get`: the value stored under the key.
    #[verifier::external_body]
    pub fn get(&self, key: u64) -> (r: Option<Vec<u8>>)
        ensures
            match r {
                Some(v) => map_entries(*self).contains_key(key) && v@ == map_entries(*self)[key],
                None => !map_entries(*self).contains_key(key),
            },
    {
        self.map.get(&key)
    }

    /// Relies on `StableBTreeMap::insert`: it inserts or overwrites the key.
    #[verifier::external_body]
    pub fn insert(&mut self, key: u64, value: Vec<u8>)
        ensures
            map_entries(*final(self)) == map_entries(*old(self)).insert(key, value@),
    {
        self.map.insert(key, value);
    }

    /// Relies on `StableBTreeMap::remove`: it removes the key and returns
    /// what was stored under it.
    #[verifier::external_body]
    pub fn remove(&mut self, key: u64) -> (r: Option<Vec<u8>>)
        ensures
            map_entries(*final(self)) == map_entries(*old(self)).remove(key),
            match r {
                Some(v) => map_entries(*old(self)).contains_key(key) && v@ == map_entries(
                    *old(self),
                )[key],
                None => !map_entries(*old(self)).contains_key(key),
            },
    {
        self.map.remove(&key)
    }

    /// Relies on `StableBTreeMap::iter`: a full scan in ascending key order.
    #[verifier::external_body]
    pub fn entries(&self) -> (r: Vec<(u64, Vec<u8>)>)
        ensures
            forall|i: int|
                0 <= i < r@.len() ==> map_entries(*self).contains_key(#[trigger] r@[i].0)
                    && r@[i].1@ == map_entries(*self)[r@[i].0],
            forall|i: int, j: int| 0 <= i < j < r@.len() ==> r@[i].0 < r@[j].0,
            forall|k: u64|
                #[trigger] map_entries(*self).contains_key(k) ==> exists|i: int|
                    0 <= i < r@.len() && #[trigger] r@[i].0 == k,
    {
        self.map.iter().map(|e| e.into_pair()).collect()
    }
}

} // verus!
