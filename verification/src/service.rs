//! The entity repositories: three durable counters and three ordered maps of
//! encoded records, composed into typed CRUD and relational operations.
//!
//! Every operation validates before it mutates, reports a missing identifier
//! or a malformed payload as `Error::NotFound`, and keeps the registry
//! invariant: each stored byte record is the exact encoding of the entity the
//! ghost index holds for that identifier, the entity carries its key as its
//! id, and no record exceeds the size ceiling.

use vstd::prelude::*;
use crate::codec::{
    decode_farm, decode_fish, decode_tank, enc_farm, enc_fish, enc_tank, encode_farm, encode_fish,
    encode_tank, MAX_RECORD_BYTES,
};
use crate::store::{
    close_store, counter_value, fresh_memory, map_entries, mem_cell, mem_records, open_store,
    StableMemory, StoreParts, FARM_IDS_SLOT, FARM_RECORDS_SLOT, FISH_IDS_SLOT,
    FISH_RECORDS_SLOT, TANK_IDS_SLOT, TANK_RECORDS_SLOT,
};
use crate::types::{
    farm_from_payload, farm_payload_ok, fish_from_payload, fish_payload_ok, tank_from_payload,
    tank_payload_ok, Error, Farm, FarmModel, FarmPayload, FarmPayloadModel, Fish, FishModel,
    FishPayload, FishPayloadModel, Tank, TankModel, TankPayload, TankPayloadModel,
};

verus! {

/// The byte records of a slot are exactly the encodings of the indexed
/// fish, each keyed by its own identifier and within the size ceiling.
pub open spec fn fish_records_ok(recs: Map<u64, Seq<u8>>, idx: Map<u64, FishModel>) -> bool {
    &&& idx.dom() == recs.dom()
    &&& forall|k: u64|
        #[trigger] idx.contains_key(k) ==> recs[k] == enc_fish(idx[k]) && idx[k].id == k
            && enc_fish(idx[k]).len() <= MAX_RECORD_BYTES
}

/// As `fish_records_ok`, for tanks.
pub open spec fn tank_records_ok(recs: Map<u64, Seq<u8>>, idx: Map<u64, TankModel>) -> bool {
    &&& idx.dom() == recs.dom()
    &&& forall|k: u64|
        #[trigger] idx.contains_key(k) ==> recs[k] == enc_tank(idx[k]) && idx[k].id == k
            && enc_tank(idx[k]).len() <= MAX_RECORD_BYTES
}

/// As `fish_records_ok`, for farms.
pub open spec fn farm_records_ok(recs: Map<u64, Seq<u8>>, idx: Map<u64, FarmModel>) -> bool {
    &&& idx.dom() == recs.dom()
    &&& forall|k: u64|
        #[trigger] idx.contains_key(k) ==> recs[k] == enc_farm(idx[k]) && idx[k].id == k
            && enc_farm(idx[k]).len() <= MAX_RECORD_BYTES
}

proof fn lemma_fish_ok_insert(recs: Map<u64, Seq<u8>>, idx: Map<u64, FishModel>, k: u64, m: FishModel)
    requires
        fish_records_ok(recs, idx),
        m.id == k,
        enc_fish(m).len() <= MAX_RECORD_BYTES,
    ensures
        fish_records_ok(recs.insert(k, enc_fish(m)), idx.insert(k, m)),
{
    assert(idx.insert(k, m).dom() =~= recs.insert(k, enc_fish(m)).dom());
}

proof fn lemma_fish_ok_remove(recs: Map<u64, Seq<u8>>, idx: Map<u64, FishModel>, k: u64)
    requires
        fish_records_ok(recs, idx),
    ensures
        fish_records_ok(recs.remove(k), idx.remove(k)),
{
    assert(idx.remove(k).dom() =~= recs.remove(k).dom());
}

proof fn lemma_tank_ok_insert(recs: Map<u64, Seq<u8>>, idx: Map<u64, TankModel>, k: u64, m: TankModel)
    requires
        tank_records_ok(recs, idx),
        m.id == k,
        enc_tank(m).len() <= MAX_RECORD_BYTES,
    ensures
        tank_records_ok(recs.insert(k, enc_tank(m)), idx.insert(k, m)),
{
    assert(idx.insert(k, m).dom() =~= recs.insert(k, enc_tank(m)).dom());
}

proof fn lemma_tank_ok_remove(recs: Map<u64, Seq<u8>>, idx: Map<u64, TankModel>, k: u64)
    requires
        tank_records_ok(recs, idx),
    ensures
        tank_records_ok(recs.remove(k), idx.remove(k)),
{
    assert(idx.remove(k).dom() =~= recs.remove(k).dom());
}

proof fn lemma_farm_ok_insert(recs: Map<u64, Seq<u8>>, idx: Map<u64, FarmModel>, k: u64, m: FarmModel)
    requires
        farm_records_ok(recs, idx),
        m.id == k,
        enc_farm(m).len() <= MAX_RECORD_BYTES,
    ensures
        farm_records_ok(recs.insert(k, enc_farm(m)), idx.insert(k, m)),
{
    assert(idx.insert(k, m).dom() =~= recs.insert(k, enc_farm(m)).dom());
}

proof fn lemma_farm_ok_remove(recs: Map<u64, Seq<u8>>, idx: Map<u64, FarmModel>, k: u64)
    requires
        farm_records_ok(recs, idx),
    ensures
        farm_records_ok(recs.remove(k), idx.remove(k)),
{
    assert(idx.remove(k).dom() =~= recs.remove(k).dom());
}


/// The encoded size of a freshly minted fish does not depend on its
/// identifier or its creation time.
proof fn lemma_fresh_fish_enc_len(id: u64, p: FishPayloadModel, now: u64)
    ensures
        enc_fish(fish_from_payload(id, p, now)).len() == 49 + vstd::utf8::encode_utf8(
            p.species,
        ).len() + vstd::utf8::encode_utf8(p.description).len(),
{
}

/// The whole registry: the six durable structures and the ghost indexes that
/// model their decoded content.
pub struct AppState {
    pub parts: StoreParts,
    pub fish_index: Ghost<Map<u64, FishModel>>,
    pub tank_index: Ghost<Map<u64, TankModel>>,
    pub farm_index: Ghost<Map<u64, FarmModel>>,
}

impl AppState {
    /// The fish the registry holds, by identifier.
    pub open spec fn fishes(self) -> Map<u64, FishModel> {
        self.fish_index@
    }

    /// The tanks the registry holds, by identifier.
    pub open spec fn tanks(self) -> Map<u64, TankModel> {
        self.tank_index@
    }

    /// The farms the registry holds, by identifier.
    pub open spec fn farms(self) -> Map<u64, FarmModel> {
        self.farm_index@
    }

    /// The identifier the next created fish will get.
    pub open spec fn next_fish_id(self) -> u64 {
        counter_value(self.parts.fish_ids_spec())
    }

    /// The identifier the next created tank will get.
    pub open spec fn next_tank_id(self) -> u64 {
        counter_value(self.parts.tank_ids_spec())
    }

    /// The identifier the next created farm will get.
    pub open spec fn next_farm_id(self) -> u64 {
        counter_value(self.parts.farm_ids_spec())
    }

    /// The registry invariant.
    pub open spec fn wf(self) -> bool {
        &&& fish_records_ok(map_entries(self.parts.fish_records_spec()), self.fishes())
        &&& tank_records_ok(map_entries(self.parts.tank_records_spec()), self.tanks())
        &&& farm_records_ok(map_entries(self.parts.farm_records_spec()), self.farms())
    }

    /// The fish store is untouched: same records, same counter.
    pub open spec fn fish_side_same(pre: AppState, post: AppState) -> bool {
        &&& post.fishes() == pre.fishes()
        &&& post.next_fish_id() == pre.next_fish_id()
    }

    /// The tank store is untouched.
    pub open spec fn tank_side_same(pre: AppState, post: AppState) -> bool {
        &&& post.tanks() == pre.tanks()
        &&& post.next_tank_id() == pre.next_tank_id()
    }

    /// The farm store is untouched.
    pub open spec fn farm_side_same(pre: AppState, post: AppState) -> bool {
        &&& post.farms() == pre.farms()
        &&& post.next_farm_id() == pre.next_farm_id()
    }

    /// Nothing in the registry changed.
    pub open spec fn same_state(pre: AppState, post: AppState) -> bool {
        &&& AppState::fish_side_same(pre, post)
        &&& AppState::tank_side_same(pre, post)
        &&& AppState::farm_side_same(pre, post)
    }

    /// Reads the identifier the next created fish will get.
    pub fn fish_counter_value(&self) -> (v: u64)
        ensures
            v == self.next_fish_id(),
    {
        self.parts.fish_ids_ref().current()
    }

    /// Reads the identifier the next created tank will get.
    pub fn tank_counter_value(&self) -> (v: u64)
        ensures
            v == self.next_tank_id(),
    {
        self.parts.tank_ids_ref().current()
    }

    /// Reads the identifier the next created farm will get.
    pub fn farm_counter_value(&self) -> (v: u64)
        ensures
            v == self.next_farm_id(),
    {
        self.parts.farm_ids_ref().current()
    }

    /// Opens a registry over a fresh, empty memory region.
    pub fn init() -> (s: AppState)
        ensures
            s.wf(),
            s.fishes() == Map::<u64, FishModel>::empty(),
            s.tanks() == Map::<u64, TankModel>::empty(),
            s.farms() == Map::<u64, FarmModel>::empty(),
            s.next_fish_id() == 0,
            s.next_tank_id() == 0,
            s.next_farm_id() == 0,
    {
        let m = fresh_memory();
        let parts = open_store(m);
        let s = AppState {
            parts,
            fish_index: Ghost(Map::empty()),
            tank_index: Ghost(Map::empty()),
            farm_index: Ghost(Map::empty()),
        };
        proof {
            assert(s.fishes().dom() =~= map_entries(s.parts.fish_records_spec()).dom());
            assert(s.tanks().dom() =~= map_entries(s.parts.tank_records_spec()).dom());
            assert(s.farms().dom() =~= map_entries(s.parts.farm_records_spec()).dom());
        }
        s
    }

    /// Re-attaches a registry to a memory region written by an earlier one:
    /// counters and records come back exactly as they were closed. Since every
    /// counter only ever advances, and comes back at its closed value, an
    /// identifier minted after a re-attachment lies strictly above every
    /// identifier issued before it: none is ever issued twice.
    pub fn reopen(m: StableMemory) -> (s: AppState)
        requires
            exists|idx: Map<u64, FishModel>| fish_records_ok(mem_records(m, FISH_RECORDS_SLOT), idx),
            exists|idx: Map<u64, TankModel>| tank_records_ok(mem_records(m, TANK_RECORDS_SLOT), idx),
            exists|idx: Map<u64, FarmModel>| farm_records_ok(mem_records(m, FARM_RECORDS_SLOT), idx),
        ensures
            s.wf(),
            fish_records_ok(mem_records(m, FISH_RECORDS_SLOT), s.fishes()),
            tank_records_ok(mem_records(m, TANK_RECORDS_SLOT), s.tanks()),
            farm_records_ok(mem_records(m, FARM_RECORDS_SLOT), s.farms()),
            s.next_fish_id() == mem_cell(m, FISH_IDS_SLOT),
            s.next_tank_id() == mem_cell(m, TANK_IDS_SLOT),
            s.next_farm_id() == mem_cell(m, FARM_IDS_SLOT),
    {
        let ghost gf = choose|idx: Map<u64, FishModel>|
            fish_records_ok(mem_records(m, FISH_RECORDS_SLOT), idx);
        let ghost gt = choose|idx: Map<u64, TankModel>|
            tank_records_ok(mem_records(m, TANK_RECORDS_SLOT), idx);
        let ghost ga = choose|idx: Map<u64, FarmModel>|
            farm_records_ok(mem_records(m, FARM_RECORDS_SLOT), idx);
        let parts = open_store(m);
        AppState {
            parts,
            fish_index: Ghost(gf),
            tank_index: Ghost(gt),
            farm_index: Ghost(ga),
        }
    }

    /// Detaches the registry from its memory region, handing back a region
    /// that holds exactly the closed state, ready for `reopen`.
    pub fn close(self) -> (m: StableMemory)
        requires
            self.wf(),
        ensures
            fish_records_ok(mem_records(m, FISH_RECORDS_SLOT), self.fishes()),
            tank_records_ok(mem_records(m, TANK_RECORDS_SLOT), self.tanks()),
            farm_records_ok(mem_records(m, FARM_RECORDS_SLOT), self.farms()),
            mem_cell(m, FISH_IDS_SLOT) == self.next_fish_id(),
            mem_cell(m, TANK_IDS_SLOT) == self.next_tank_id(),
            mem_cell(m, FARM_IDS_SLOT) == self.next_farm_id(),
    {
        close_store(self.parts)
    }

    /// Creates a fish from a validated payload under a freshly minted
    /// identifier. Fails, leaving the registry unchanged and the counter
    /// unmoved, when a text field is empty, a numeric field is zero, or the
    /// encoded record would exceed the size ceiling.
    pub fn create_fish(&mut self, payload: FishPayload, now: u64) -> (r: Result<Fish, Error>)
        requires
            old(self).wf(),
            fish_payload_ok(payload@) ==> old(self).next_fish_id() < u64::MAX,
        ensures
            final(self).wf(),
            !fish_payload_ok(payload@) ==> r is Err && AppState::same_state(
                *old(self),
                *final(self),
            ),
            fish_payload_ok(payload@) ==> ({
                let f = fish_from_payload(old(self).next_fish_id(), payload@, now);
                if enc_fish(f).len() > MAX_RECORD_BYTES {
                    r is Err && AppState::same_state(*old(self), *final(self))
                } else {
                    &&& r matches Ok(fish) && fish@ == f
                    &&& final(self).fishes() == old(self).fishes().insert(f.id, f)
                    &&& final(self).next_fish_id() == old(self).next_fish_id() + 1
                    &&& AppState::tank_side_same(*old(self), *final(self))
                    &&& AppState::farm_side_same(*old(self), *final(self))
                }
            }),
    {
        if payload.species.as_str().is_empty() || payload.description.as_str().is_empty()
            || payload.quantity == 0 || payload.age_in_months == 0 {
            return Err(
                Error::NotFound { msg: "Invalid Fish Payload. Should not be empty or zero".to_owned() },
            );
        }
        let id = self.parts.fish_ids_ref().current();
        let fish = Fish {
            id,
            species: payload.species,
            description: payload.description,
            quantity: payload.quantity,
            age_in_months: payload.age_in_months,
            created_at: now,
            updated_at: None,
        };
        let bytes = encode_fish(&fish);
        if bytes.len() > MAX_RECORD_BYTES {
            return Err(
                Error::NotFound { msg: "Encoded Fish exceeds the record size ceiling".to_owned() },
            );
        }
        let minted = self.parts.fish_allocate_next();
        proof {
            assert(minted == id);
            lemma_fish_ok_insert(
                map_entries(self.parts.fish_records_spec()),
                self.fish_index@,
                id,
                fish@,
            );
        }
        self.parts.fish_records_insert(minted, bytes);
        self.fish_index = Ghost(self.fish_index@.insert(id, fish@));
        Ok(fish)
    }

    /// Overwrites the mutable fields of an existing fish from a validated
    /// payload and stamps the update time. Fails, leaving the registry
    /// unchanged, on a malformed payload, a missing identifier, or an
    /// oversize record.
    pub fn update_fish(&mut self, fish_id: u64, payload: FishPayload, now: u64) -> (r: Result<
        Fish,
        Error,
    >)
        requires
            old(self).wf(),
        ensures
            final(self).wf(),
            !fish_payload_ok(payload@) ==> r is Err && AppState::same_state(
                *old(self),
                *final(self),
            ),
            fish_payload_ok(payload@) && !old(self).fishes().contains_key(fish_id) ==> r is Err
                && AppState::same_state(*old(self), *final(self)),
            fish_payload_ok(payload@) && old(self).fishes().contains_key(fish_id) ==> ({
                let f = FishModel {
                    id: fish_id,
                    species: payload@.species,
                    description: payload@.description,
                    quantity: payload@.quantity,
                    age_in_months: payload@.age_in_months,
                    created_at: old(self).fishes()[fish_id].created_at,
                    updated_at: Some(now),
                };
                if enc_fish(f).len() > MAX_RECORD_BYTES {
                    r is Err && AppState::same_state(*old(self), *final(self))
                } else {
                    &&& r matches Ok(fish) && fish@ == f
                    &&& final(self).fishes() == old(self).fishes().insert(fish_id, f)
                    &&& final(self).next_fish_id() == old(self).next_fish_id()
                    &&& AppState::tank_side_same(*old(self), *final(self))
                    &&& AppState::farm_side_same(*old(self), *final(self))
                }
            }),
    {
        if payload.species.as_str().is_empty() || payload.description.as_str().is_empty()
            || payload.quantity == 0 || payload.age_in_months == 0 {
            return Err(
                Error::NotFound { msg: "Invalid Fish Payload. Should not be empty or zero".to_owned() },
            );
        }
        match self.parts.fish_records_ref().get(fish_id) {
            Some(bytes) => {
                let stored = decode_fish(&bytes);
                proof {
                    assert(bytes@ == enc_fish(self.fish_index@[fish_id]));
                }
                let old_fish = stored.unwrap();
                let fish = Fish {
                    id: fish_id,
                    species: payload.species,
                    description: payload.description,
                    quantity: payload.quantity,
                    age_in_months: payload.age_in_months,
                    created_at: old_fish.created_at,
                    updated_at: Some(now),
                };
                let new_bytes = encode_fish(&fish);
                if new_bytes.len() > MAX_RECORD_BYTES {
                    return Err(
                        Error::NotFound {
                            msg: "Encoded Fish exceeds the record size ceiling".to_owned(),
                        },
                    );
                }
                proof {
                    lemma_fish_ok_insert(
                        map_entries(self.parts.fish_records_spec()),
                        self.fish_index@,
                        fish_id,
                        fish@,
                    );
                }
                self.parts.fish_records_insert(fish_id, new_bytes);
                self.fish_index = Ghost(self.fish_index@.insert(fish_id, fish@));
                Ok(fish)
            },
            None => Err(
                Error::NotFound { msg: "Fish with the given id was not found".to_owned() },
            ),
        }
    }

    /// Sets the age of an existing fish without validation and stamps the
    /// update time. Fails, leaving the registry unchanged, on a missing
    /// identifier or an oversize record.
    pub fn update_fish_age(&mut self, fish_id: u64, age_in_months: u64, now: u64) -> (r: Result<
        Fish,
        Error,
    >)
        requires
            old(self).wf(),
        ensures
            final(self).wf(),
            !old(self).fishes().contains_key(fish_id) ==> r is Err && AppState::same_state(
                *old(self),
                *final(self),
            ),
            old(self).fishes().contains_key(fish_id) ==> ({
                let f = FishModel {
                    age_in_months,
                    updated_at: Some(now),
                    ..old(self).fishes()[fish_id]
                };
                if enc_fish(f).len() > MAX_RECORD_BYTES {
                    r is Err && AppState::same_state(*old(self), *final(self))
                } else {
                    &&& r matches Ok(fish) && fish@ == f
                    &&& final(self).fishes() == old(self).fishes().insert(fish_id, f)
                    &&& final(self).next_fish_id() == old(self).next_fish_id()
                    &&& AppState::tank_side_same(*old(self), *final(self))
                    &&& AppState::farm_side_same(*old(self), *final(self))
                }
            }),
    {
        match self.parts.fish_records_ref().get(fish_id) {
            Some(bytes) => {
                let stored = decode_fish(&bytes);
                proof {
                    assert(bytes@ == enc_fish(self.fish_index@[fish_id]));
                }
                let mut fish = stored.unwrap();
                fish.age_in_months = age_in_months;
                fish.updated_at = Some(now);
                let new_bytes = encode_fish(&fish);
                if new_bytes.len() > MAX_RECORD_BYTES {
                    return Err(
                        Error::NotFound {
                            msg: "Encoded Fish exceeds the record size ceiling".to_owned(),
                        },
                    );
                }
                proof {
                    lemma_fish_ok_insert(
                        map_entries(self.parts.fish_records_spec()),
                        self.fish_index@,
                        fish_id,
                        fish@,
                    );
                }
                self.parts.fish_records_insert(fish_id, new_bytes);
                self.fish_index = Ghost(self.fish_index@.insert(fish_id, fish@));
                Ok(fish)
            },
            None => Err(
                Error::NotFound { msg: "Fish with the given id was not found".to_owned() },
            ),
        }
    }

    /// Looks a fish up by identifier.
    pub fn get_fish(&self, fish_id: u64) -> (r: Result<Fish, Error>)
        requires
            self.wf(),
        ensures
            match r {
                Ok(fish) => self.fishes().contains_key(fish_id) && fish@ == self.fishes()[fish_id],
                Err(_) => !self.fishes().contains_key(fish_id),
            },
    {
        match self.parts.fish_records_ref().get(fish_id) {
            Some(bytes) => {
                let stored = decode_fish(&bytes);
                proof {
                    assert(bytes@ == enc_fish(self.fish_index@[fish_id]));
                }
                Ok(stored.unwrap())
            },
            None => Err(
                Error::NotFound { msg: "Fish with the given id was not found".to_owned() },
            ),
        }
    }

    /// Lists every fish in ascending identifier order, whatever the order of
    /// insertions and updates.
    pub fn get_all_fish(&self) -> (r: Vec<Fish>)
        requires
            self.wf(),
        ensures
            forall|i: int|
                0 <= i < r@.len() ==> self.fishes().contains_key(#[trigger] r@[i]@.id)
                    && r@[i]@ == self.fishes()[r@[i]@.id],
            forall|i: int, j: int| 0 <= i < j < r@.len() ==> r@[i]@.id < r@[j]@.id,
            forall|k: u64|
                #[trigger] self.fishes().contains_key(k) ==> exists|i: int|
                    0 <= i < r@.len() && #[trigger] r@[i]@.id == k,
    {
        let entries = self.parts.fish_records_ref().entries();
        let mut out: Vec<Fish> = Vec::new();
        let mut i: usize = 0;
        while i < entries.len()
            invariant
                self.wf(),
                0 <= i <= entries@.len(),
                out@.len() == i,
                forall|j: int|
                    0 <= j < entries@.len() ==> self.fishes().contains_key(#[trigger] entries@[j].0)
                        && entries@[j].1@ == enc_fish(self.fishes()[entries@[j].0]),
                forall|j: int, l: int|
                    0 <= j < l < entries@.len() ==> entries@[j].0 < entries@[l].0,
                forall|j: int|
                    0 <= j < i ==> #[trigger] out@[j]@ == self.fishes()[entries@[j].0]
                        && out@[j]@.id == entries@[j].0,
            decreases entries@.len() - i,
        {
            let bytes = &entries[i].1;
            let stored = decode_fish(bytes);
            proof {
                assert(bytes@ == enc_fish(self.fishes()[entries@[i as int].0]));
            }
            out.push(stored.unwrap());
            i = i + 1;
        }
        proof {
            assert forall|k: u64| #[trigger] self.fishes().contains_key(k) implies exists|i: int|
                0 <= i < out@.len() && #[trigger] out@[i]@.id == k by {
                let j = choose|j: int| 0 <= j < entries@.len() && #[trigger] entries@[j].0 == k;
                assert(out@[j]@.id == k);
            }
        }
        out
    }

    /// Deletes a fish by identifier. The deletion does not cascade: a copy
    /// of the fish embedded in a tank's stock stays as it is.
    pub fn delete_fish(&mut self, fish_id: u64) -> (r: Result<(), Error>)
        requires
            old(self).wf(),
        ensures
            final(self).wf(),
            old(self).fishes().contains_key(fish_id) ==> r is Ok && final(self).fishes() == old(
                self,
            ).fishes().remove(fish_id) && final(self).next_fish_id() == old(self).next_fish_id()
                && AppState::tank_side_same(*old(self), *final(self)) && AppState::farm_side_same(
                *old(self),
                *final(self),
            ),
            !old(self).fishes().contains_key(fish_id) ==> r is Err && AppState::same_state(
                *old(self),
                *final(self),
            ),
    {
        proof {
            lemma_fish_ok_remove(map_entries(self.parts.fish_records_spec()), self.fish_index@, fish_id);
        }
        match self.parts.fish_records_remove(fish_id) {
            Some(_) => {
                self.fish_index = Ghost(self.fish_index@.remove(fish_id));
                Ok(())
            },
            None => {
                proof {
                    assert(self.fish_index@.remove(fish_id) =~= self.fish_index@);
                }
                self.fish_index = Ghost(self.fish_index@.remove(fish_id));
                Err(Error::NotFound { msg: "Fish with the given id was not found".to_owned() })
            },
        }
    }

    /// Creates every fish of the batch, or none: each payload is validated,
    /// and each record's size checked, before any identifier is minted or
    /// any record stored.
    #[verifier::rlimit(100)]
    pub fn batch_create_fish(&mut self, payloads: Vec<FishPayload>, now: u64) -> (r: Result<
        Vec<Fish>,
        Error,
    >)
        requires
            old(self).wf(),
            old(self).next_fish_id() + payloads@.len() <= u64::MAX,
        ensures
            final(self).wf(),
            r is Err ==> AppState::same_state(*old(self), *final(self)),
            r is Err ==> exists|i: int|
                0 <= i < payloads@.len() && !(fish_payload_ok(#[trigger] payloads@[i]@) && enc_fish(
                    fish_from_payload(0, payloads@[i]@, now),
                ).len() <= MAX_RECORD_BYTES),
            (exists|i: int|
                0 <= i < payloads@.len() && !(fish_payload_ok(#[trigger] payloads@[i]@) && enc_fish(
                    fish_from_payload(0, payloads@[i]@, now),
                ).len() <= MAX_RECORD_BYTES)) ==> r is Err,
            (forall|i: int|
                0 <= i < payloads@.len() ==> fish_payload_ok(#[trigger] payloads@[i]@) && enc_fish(
                    fish_from_payload(0, payloads@[i]@, now),
                ).len() <= MAX_RECORD_BYTES) ==> r is Ok,
            r matches Ok(v) ==> ({
                let n = payloads@.len() as int;
                let base = old(self).next_fish_id();
                &&& v@.len() == n
                &&& forall|i: int|
                    0 <= i < n ==> #[trigger] v@[i]@ == fish_from_payload(
                        (base + i) as u64,
                        payloads@[i]@,
                        now,
                    )
                &&& final(self).next_fish_id() == base + n
                &&& forall|k: u64|
                    #[trigger] final(self).fishes().contains_key(k) <==> (old(
                        self,
                    ).fishes().contains_key(k) || base <= k < base + n)
                &&& forall|i: int|
                    0 <= i < n ==> final(self).fishes()[(base + i) as u64] == fish_from_payload(
                        (base + i) as u64,
                        payloads@[i]@,
                        now,
                    )
                &&& forall|k: u64|
                    old(self).fishes().contains_key(k) && !(base <= k < base + n)
                        ==> final(self).fishes()[k] == old(self).fishes()[k]
                &&& AppState::tank_side_same(*old(self), *final(self))
                &&& AppState::farm_side_same(*old(self), *final(self))
            }),
    {
        let n = payloads.len();
        let mut i: usize = 0;
        while i < n
            invariant
                0 <= i <= n,
                n == payloads@.len(),
                *self == *old(self),
                old(self).wf(),
                forall|j: int|
                    0 <= j < i ==> fish_payload_ok(#[trigger] payloads@[j]@) && enc_fish(
                        fish_from_payload(0, payloads@[j]@, now),
                    ).len() <= MAX_RECORD_BYTES,
            decreases n - i,
        {
            let p = &payloads[i];
            if p.species.as_str().is_empty() || p.description.as_str().is_empty() || p.quantity
                == 0 || p.age_in_months == 0 {
                proof {
                    assert(!fish_payload_ok(payloads@[i as int]@));
                }
                return Err(
                    Error::NotFound {
                        msg: "Invalid Fish Payload. Should not be empty or zero".to_owned(),
                    },
                );
            }
            let sp_len = p.species.as_str().as_bytes().len();
            let de_len = p.description.as_str().as_bytes().len();
            if sp_len > MAX_RECORD_BYTES || de_len > MAX_RECORD_BYTES || 49 + sp_len + de_len
                > MAX_RECORD_BYTES {
                proof {
                    lemma_fresh_fish_enc_len(0, payloads@[i as int]@, now);
                    assert(enc_fish(fish_from_payload(0, payloads@[i as int]@, now)).len()
                        > MAX_RECORD_BYTES);
                }
                return Err(
                    Error::NotFound {
                        msg: "Encoded Fish exceeds the record size ceiling".to_owned(),
                    },
                );
            }
            proof {
                lemma_fresh_fish_enc_len(0, payloads@[i as int]@, now);
                assert(payloads@[i as int]@.species.len() > 0);
                assert(fish_payload_ok(payloads@[i as int]@));
                assert(enc_fish(fish_from_payload(0, payloads@[i as int]@, now)).len()
                    <= MAX_RECORD_BYTES);
            }
            i = i + 1;
        }
        let ghost pre = *self;
        let mut created: Vec<Fish> = Vec::new();
        let mut j: usize = 0;
        while j < n
            invariant
                0 <= j <= n,
                n == payloads@.len(),
                self.wf(),
                forall|l: int|
                    0 <= l < n ==> fish_payload_ok(#[trigger] payloads@[l]@) && enc_fish(
                        fish_from_payload(0, payloads@[l]@, now),
                    ).len() <= MAX_RECORD_BYTES,
                pre.next_fish_id() + n <= u64::MAX,
                self.next_fish_id() == pre.next_fish_id() + j,
                created@.len() == j,
                forall|l: int|
                    0 <= l < j ==> #[trigger] created@[l]@ == fish_from_payload(
                        (pre.next_fish_id() + l) as u64,
                        payloads@[l]@,
                        now,
                    ),
                forall|k: u64|
                    #[trigger] self.fishes().contains_key(k) <==> (pre.fishes().contains_key(k)
                        || pre.next_fish_id() <= k < pre.next_fish_id() + j),
                forall|l: int|
                    0 <= l < j ==> self.fishes()[(pre.next_fish_id() + l) as u64]
                        == fish_from_payload((pre.next_fish_id() + l) as u64, payloads@[l]@, now),
                forall|k: u64|
                    pre.fishes().contains_key(k) && !(pre.next_fish_id() <= k < pre.next_fish_id()
                        + j) ==> self.fishes()[k] == pre.fishes()[k],
                AppState::tank_side_same(pre, *self),
                AppState::farm_side_same(pre, *self),
            decreases n - j,
        {
            let p = &payloads[j];
            let id = self.parts.fish_allocate_next();
            let fish = Fish {
                id,
                species: p.species.as_str().to_owned(),
                description: p.description.as_str().to_owned(),
                quantity: p.quantity,
                age_in_months: p.age_in_months,
                created_at: now,
                updated_at: None,
            };
            proof {
                assert(fish@ =~= fish_from_payload(id, payloads@[j as int]@, now));
                lemma_fresh_fish_enc_len(id, payloads@[j as int]@, now);
                lemma_fresh_fish_enc_len(0, payloads@[j as int]@, now);
            }
            let bytes = encode_fish(&fish);
            proof {
                lemma_fish_ok_insert(
                    map_entries(self.parts.fish_records_spec()),
                    self.fish_index@,
                    id,
                    fish@,
                );
            }
            self.parts.fish_records_insert(id, bytes);
            self.fish_index = Ghost(self.fish_index@.insert(id, fish@));
            created.push(fish);
            j = j + 1;
        }
        Ok(created)
    }
}

/// Whether some embedded fish copy carries the identifier.
pub open spec fn find_fish(s: Seq<FishModel>, id: u64) -> int
    decreases s.len(),
{
    if s.len() == 0 {
        -1
    } else if s[0].id == id {
        0
    } else if find_fish(s.drop_first(), id) < 0 {
        -1
    } else {
        1 + find_fish(s.drop_first(), id)
    }
}

/// Whether some embedded tank copy carries the identifier.
pub open spec fn find_tank(s: Seq<TankModel>, id: u64) -> int
    decreases s.len(),
{
    if s.len() == 0 {
        -1
    } else if s[0].id == id {
        0
    } else if find_tank(s.drop_first(), id) < 0 {
        -1
    } else {
        1 + find_tank(s.drop_first(), id)
    }
}

proof fn lemma_find_fish_hit(s: Seq<FishModel>, id: u64, i: int)
    requires
        0 <= i < s.len(),
        s[i].id == id,
        forall|j: int| 0 <= j < i ==> s[j].id != id,
    ensures
        find_fish(s, id) == i,
    decreases i,
{
    if i > 0 {
        lemma_find_fish_hit(s.drop_first(), id, i - 1);
    }
}

proof fn lemma_find_fish_miss(s: Seq<FishModel>, id: u64)
    requires
        forall|j: int| 0 <= j < s.len() ==> s[j].id != id,
    ensures
        find_fish(s, id) == -1,
    decreases s.len(),
{
    if s.len() > 0 {
        lemma_find_fish_miss(s.drop_first(), id);
    }
}

proof fn lemma_find_tank_hit(s: Seq<TankModel>, id: u64, i: int)
    requires
        0 <= i < s.len(),
        s[i].id == id,
        forall|j: int| 0 <= j < i ==> s[j].id != id,
    ensures
        find_tank(s, id) == i,
    decreases i,
{
    if i > 0 {
        lemma_find_tank_hit(s.drop_first(), id, i - 1);
    }
}

proof fn lemma_find_tank_miss(s: Seq<TankModel>, id: u64)
    requires
        forall|j: int| 0 <= j < s.len() ==> s[j].id != id,
    ensures
        find_tank(s, id) == -1,
    decreases s.len(),
{
    if s.len() > 0 {
        lemma_find_tank_miss(s.drop_first(), id);
    }
}

/// Unsigned 64-bit addition, wrapping on overflow.
pub open spec fn add_wrap(a: u64, b: u64) -> u64 {
    ((a + b) % 0x1_0000_0000_0000_0000) as u64
}

/// The aggregate stocked quantity of a tank, as the unbounded sum.
pub open spec fn stock_total(s: Seq<FishModel>) -> int
    decreases s.len(),
{
    if s.len() == 0 {
        0
    } else {
        stock_total(s.take(s.len() - 1)) + s[s.len() - 1].quantity
    }
}

/// The aggregate stocked quantity as a 64-bit machine sum, wrapping on
/// overflow.
pub open spec fn stock_total_wrapped(s: Seq<FishModel>) -> u64
    decreases s.len(),
{
    if s.len() == 0 {
        0u64
    } else {
        add_wrap(stock_total_wrapped(s.take(s.len() - 1)), s[s.len() - 1].quantity)
    }
}

/// Where the unbounded sum fits in 64 bits, the machine sum equals it.
pub proof fn lemma_stock_total_exact(s: Seq<FishModel>)
    requires
        stock_total(s) <= u64::MAX,
    ensures
        stock_total_wrapped(s) == stock_total(s),
    decreases s.len(),
{
    if s.len() > 0 {
        let t = s.take(s.len() - 1);
        assert(stock_total(s) == stock_total(t) + s[s.len() - 1].quantity);
        lemma_stock_total_exact(t);
    }
}

impl AppState {
    /// Creates a tank from a validated payload, with an empty stock, under a
    /// freshly minted identifier.
    pub fn create_tank(&mut self, payload: TankPayload, now: u64) -> (r: Result<Tank, Error>)
        requires
            old(self).wf(),
            tank_payload_ok(payload@) ==> old(self).next_tank_id() < u64::MAX,
        ensures
            final(self).wf(),
            !tank_payload_ok(payload@) ==> r is Err && AppState::same_state(
                *old(self),
                *final(self),
            ),
            tank_payload_ok(payload@) ==> ({
                let t = tank_from_payload(old(self).next_tank_id(), payload@, now);
                if enc_tank(t).len() > MAX_RECORD_BYTES {
                    r is Err && AppState::same_state(*old(self), *final(self))
                } else {
                    &&& r matches Ok(tank) && tank@ == t
                    &&& final(self).tanks() == old(self).tanks().insert(t.id, t)
                    &&& final(self).next_tank_id() == old(self).next_tank_id() + 1
                    &&& AppState::fish_side_same(*old(self), *final(self))
                    &&& AppState::farm_side_same(*old(self), *final(self))
                }
            }),
    {
        if payload.tank_name.as_str().is_empty() || payload.capacity_liters == 0 {
            return Err(
                Error::NotFound { msg: "Invalid Tank Payload. Should not be empty or zero".to_owned() },
            );
        }
        let id = self.parts.tank_ids_ref().current();
        let tank = Tank {
            id,
            tank_name: payload.tank_name,
            capacity_liters: payload.capacity_liters,
            current_stock: Vec::new(),
            created_at: now,
            updated_at: None,
        };
        proof {
            assert(tank.current_stock.deep_view() =~= Seq::<FishModel>::empty());
            assert(tank@ =~= tank_from_payload(id, payload@, now));
        }
        let bytes = encode_tank(&tank);
        if bytes.len() > MAX_RECORD_BYTES {
            return Err(
                Error::NotFound { msg: "Encoded Tank exceeds the record size ceiling".to_owned() },
            );
        }
        let minted = self.parts.tank_allocate_next();
        proof {
            lemma_tank_ok_insert(
                map_entries(self.parts.tank_records_spec()),
                self.tank_index@,
                id,
                tank@,
            );
        }
        self.parts.tank_records_insert(minted, bytes);
        self.tank_index = Ghost(self.tank_index@.insert(id, tank@));
        Ok(tank)
    }

    /// Overwrites the name and capacity of an existing tank from a validated
    /// payload, keeping its stock, and stamps the update time.
    pub fn update_tank(&mut self, tank_id: u64, payload: TankPayload, now: u64) -> (r: Result<
        Tank,
        Error,
    >)
        requires
            old(self).wf(),
        ensures
            final(self).wf(),
            !tank_payload_ok(payload@) ==> r is Err && AppState::same_state(
                *old(self),
                *final(self),
            ),
            tank_payload_ok(payload@) && !old(self).tanks().contains_key(tank_id) ==> r is Err
                && AppState::same_state(*old(self), *final(self)),
            tank_payload_ok(payload@) && old(self).tanks().contains_key(tank_id) ==> ({
                let t = TankModel {
                    tank_name: payload@.tank_name,
                    capacity_liters: payload@.capacity_liters,
                    updated_at: Some(now),
                    ..old(self).tanks()[tank_id]
                };
                if enc_tank(t).len() > MAX_RECORD_BYTES {
                    r is Err && AppState::same_state(*old(self), *final(self))
                } else {
                    &&& r matches Ok(tank) && tank@ == t
                    &&& final(self).tanks() == old(self).tanks().insert(tank_id, t)
                    &&& final(self).next_tank_id() == old(self).next_tank_id()
                    &&& AppState::fish_side_same(*old(self), *final(self))
                    &&& AppState::farm_side_same(*old(self), *final(self))
                }
            }),
    {
        if payload.tank_name.as_str().is_empty() || payload.capacity_liters == 0 {
            return Err(
                Error::NotFound { msg: "Invalid Tank Payload. Should not be empty or zero".to_owned() },
            );
        }
        match self.parts.tank_records_ref().get(tank_id) {
            Some(bytes) => {
                let stored = decode_tank(&bytes);
                proof {
                    assert(bytes@ == enc_tank(self.tank_index@[tank_id]));
                }
                let mut tank = stored.unwrap();
                tank.tank_name = payload.tank_name;
                tank.capacity_liters = payload.capacity_liters;
                tank.updated_at = Some(now);
                let new_bytes = encode_tank(&tank);
                if new_bytes.len() > MAX_RECORD_BYTES {
                    return Err(
                        Error::NotFound {
                            msg: "Encoded Tank exceeds the record size ceiling".to_owned(),
                        },
                    );
                }
                proof {
                    lemma_tank_ok_insert(
                        map_entries(self.parts.tank_records_spec()),
                        self.tank_index@,
                        tank_id,
                        tank@,
                    );
                }
                self.parts.tank_records_insert(tank_id, new_bytes);
                self.tank_index = Ghost(self.tank_index@.insert(tank_id, tank@));
                Ok(tank)
            },
            None => Err(
                Error::NotFound { msg: "Tank with the given id was not found".to_owned() },
            ),
        }
    }

    /// Looks a tank up by identifier.
    pub fn get_tank(&self, tank_id: u64) -> (r: Result<Tank, Error>)
        requires
            self.wf(),
        ensures
            match r {
                Ok(tank) => self.tanks().contains_key(tank_id) && tank@ == self.tanks()[tank_id],
                Err(_) => !self.tanks().contains_key(tank_id),
            },
    {
        match self.parts.tank_records_ref().get(tank_id) {
            Some(bytes) => {
                let stored = decode_tank(&bytes);
                proof {
                    assert(bytes@ == enc_tank(self.tank_index@[tank_id]));
                }
                Ok(stored.unwrap())
            },
            None => Err(
                Error::NotFound { msg: "Tank with the given id was not found".to_owned() },
            ),
        }
    }

    /// Lists every tank in ascending identifier order.
    pub fn get_all_tanks(&self) -> (r: Vec<Tank>)
        requires
            self.wf(),
        ensures
            forall|i: int|
                0 <= i < r@.len() ==> self.tanks().contains_key(#[trigger] r@[i]@.id)
                    && r@[i]@ == self.tanks()[r@[i]@.id],
            forall|i: int, j: int| 0 <= i < j < r@.len() ==> r@[i]@.id < r@[j]@.id,
            forall|k: u64|
                #[trigger] self.tanks().contains_key(k) ==> exists|i: int|
                    0 <= i < r@.len() && #[trigger] r@[i]@.id == k,
    {
        let entries = self.parts.tank_records_ref().entries();
        let mut out: Vec<Tank> = Vec::new();
        let mut i: usize = 0;
        while i < entries.len()
            invariant
                self.wf(),
                0 <= i <= entries@.len(),
                out@.len() == i,
                forall|j: int|
                    0 <= j < entries@.len() ==> self.tanks().contains_key(#[trigger] entries@[j].0)
                        && entries@[j].1@ == enc_tank(self.tanks()[entries@[j].0]),
                forall|j: int, l: int|
                    0 <= j < l < entries@.len() ==> entries@[j].0 < entries@[l].0,
                forall|j: int|
                    0 <= j < i ==> #[trigger] out@[j]@ == self.tanks()[entries@[j].0]
                        && out@[j]@.id == entries@[j].0,
            decreases entries@.len() - i,
        {
            let bytes = &entries[i].1;
            let stored = decode_tank(bytes);
            proof {
                assert(bytes@ == enc_tank(self.tanks()[entries@[i as int].0]));
            }
            out.push(stored.unwrap());
            i = i + 1;
        }
        proof {
            assert forall|k: u64| #[trigger] self.tanks().contains_key(k) implies exists|i: int|
                0 <= i < out@.len() && #[trigger] out@[i]@.id == k by {
                let j = choose|j: int| 0 <= j < entries@.len() && #[trigger] entries@[j].0 == k;
                assert(out@[j]@.id == k);
            }
        }
        out
    }

    /// Deletes a tank by identifier.
    pub fn delete_tank(&mut self, tank_id: u64) -> (r: Result<(), Error>)
        requires
            old(self).wf(),
        ensures
            final(self).wf(),
            old(self).tanks().contains_key(tank_id) ==> r is Ok && final(self).tanks() == old(
                self,
            ).tanks().remove(tank_id) && final(self).next_tank_id() == old(self).next_tank_id()
                && AppState::fish_side_same(*old(self), *final(self)) && AppState::farm_side_same(
                *old(self),
                *final(self),
            ),
            !old(self).tanks().contains_key(tank_id) ==> r is Err && AppState::same_state(
                *old(self),
                *final(self),
            ),
    {
        proof {
            lemma_tank_ok_remove(map_entries(self.parts.tank_records_spec()), self.tank_index@, tank_id);
        }
        match self.parts.tank_records_remove(tank_id) {
            Some(_) => {
                self.tank_index = Ghost(self.tank_index@.remove(tank_id));
                Ok(())
            },
            None => {
                proof {
                    assert(self.tank_index@.remove(tank_id) =~= self.tank_index@);
                }
                self.tank_index = Ghost(self.tank_index@.remove(tank_id));
                Err(Error::NotFound { msg: "Tank with the given id was not found".to_owned() })
            },
        }
    }

    /// Embeds a value copy of a fish, as it stands now, at the end of a
    /// tank's stock; later edits of the fish record do not reach the copy.
    pub fn insert_fish_into_tank(&mut self, tank_id: u64, fish_id: u64, now: u64) -> (r: Result<
        Tank,
        Error,
    >)
        requires
            old(self).wf(),
        ensures
            final(self).wf(),
            !old(self).tanks().contains_key(tank_id) ==> r is Err && AppState::same_state(
                *old(self),
                *final(self),
            ),
            old(self).tanks().contains_key(tank_id) && !old(self).fishes().contains_key(fish_id)
                ==> r is Err && AppState::same_state(*old(self), *final(self)),
            old(self).tanks().contains_key(tank_id) && old(self).fishes().contains_key(fish_id)
                ==> ({
                let t = TankModel {
                    current_stock: old(self).tanks()[tank_id].current_stock.push(
                        old(self).fishes()[fish_id],
                    ),
                    updated_at: Some(now),
                    ..old(self).tanks()[tank_id]
                };
                if enc_tank(t).len() > MAX_RECORD_BYTES {
                    r is Err && AppState::same_state(*old(self), *final(self))
                } else {
                    &&& r matches Ok(tank) && tank@ == t
                    &&& final(self).tanks() == old(self).tanks().insert(tank_id, t)
                    &&& final(self).next_tank_id() == old(self).next_tank_id()
                    &&& AppState::fish_side_same(*old(self), *final(self))
                    &&& AppState::farm_side_same(*old(self), *final(self))
                }
            }),
    {
        let tank_bytes = match self.parts.tank_records_ref().get(tank_id) {
            Some(b) => b,
            None => {
                return Err(
                    Error::NotFound { msg: "Tank with the given id was not found".to_owned() },
                );
            },
        };
        let fish_bytes = match self.parts.fish_records_ref().get(fish_id) {
            Some(b) => b,
            None => {
                return Err(
                    Error::NotFound { msg: "Fish with the given id was not found".to_owned() },
                );
            },
        };
        let stored_tank = decode_tank(&tank_bytes);
        let stored_fish = decode_fish(&fish_bytes);
        proof {
            assert(tank_bytes@ == enc_tank(self.tank_index@[tank_id]));
            assert(fish_bytes@ == enc_fish(self.fish_index@[fish_id]));
        }
        let mut tank = stored_tank.unwrap();
        let fish = stored_fish.unwrap();
        let ghost old_stock = tank.current_stock.deep_view();
        tank.current_stock.push(fish);
        tank.updated_at = Some(now);
        proof {
            assert(tank.current_stock.deep_view() =~= old_stock.push(
                self.fish_index@[fish_id],
            ));
        }
        let new_bytes = encode_tank(&tank);
        if new_bytes.len() > MAX_RECORD_BYTES {
            return Err(
                Error::NotFound { msg: "Encoded Tank exceeds the record size ceiling".to_owned() },
            );
        }
        proof {
            lemma_tank_ok_insert(
                map_entries(self.parts.tank_records_spec()),
                self.tank_index@,
                tank_id,
                tank@,
            );
        }
        self.parts.tank_records_insert(tank_id, new_bytes);
        self.tank_index = Ghost(self.tank_index@.insert(tank_id, tank@));
        Ok(tank)
    }

    /// Removes the first embedded copy carrying the fish identifier from a
    /// tank's stock. When no such copy exists, the operation reports
    /// `NotFound` and leaves the registry unchanged.
    pub fn remove_fish_from_tank(&mut self, tank_id: u64, fish_id: u64, now: u64) -> (r: Result<
        Tank,
        Error,
    >)
        requires
            old(self).wf(),
        ensures
            final(self).wf(),
            !old(self).tanks().contains_key(tank_id) ==> r is Err && AppState::same_state(
                *old(self),
                *final(self),
            ),
            old(self).tanks().contains_key(tank_id) && !old(self).fishes().contains_key(fish_id)
                ==> r is Err && AppState::same_state(*old(self), *final(self)),
            old(self).tanks().contains_key(tank_id) && old(self).fishes().contains_key(fish_id)
                && find_fish(old(self).tanks()[tank_id].current_stock, fish_id) < 0 ==> r is Err
                && AppState::same_state(*old(self), *final(self)),
            old(self).tanks().contains_key(tank_id) && old(self).fishes().contains_key(fish_id)
                && find_fish(old(self).tanks()[tank_id].current_stock, fish_id) >= 0 ==> ({
                let t = TankModel {
                    current_stock: old(self).tanks()[tank_id].current_stock.remove(
                        find_fish(old(self).tanks()[tank_id].current_stock, fish_id),
                    ),
                    updated_at: Some(now),
                    ..old(self).tanks()[tank_id]
                };
                if enc_tank(t).len() > MAX_RECORD_BYTES {
                    r is Err && AppState::same_state(*old(self), *final(self))
                } else {
                    &&& r matches Ok(tank) && tank@ == t
                    &&& final(self).tanks() == old(self).tanks().insert(tank_id, t)
                    &&& final(self).next_tank_id() == old(self).next_tank_id()
                    &&& AppState::fish_side_same(*old(self), *final(self))
                    &&& AppState::farm_side_same(*old(self), *final(self))
                }
            }),
    {
        let tank_bytes = match self.parts.tank_records_ref().get(tank_id) {
            Some(b) => b,
            None => {
                return Err(
                    Error::NotFound { msg: "Tank with the given id was not found".to_owned() },
                );
            },
        };
        if self.parts.fish_records_ref().get(fish_id).is_none() {
            return Err(
                Error::NotFound { msg: "Fish with the given id was not found".to_owned() },
            );
        }
        let stored_tank = decode_tank(&tank_bytes);
        proof {
            assert(tank_bytes@ == enc_tank(self.tank_index@[tank_id]));
        }
        let mut tank = stored_tank.unwrap();
        let ghost old_stock = tank.current_stock.deep_view();
        let n = tank.current_stock.len();
        let mut i: usize = 0;
        let mut found: Option<usize> = None;
        while i < n
            invariant
                0 <= i <= n,
                n == tank.current_stock@.len(),
                old_stock == tank.current_stock.deep_view(),
                found is None ==> forall|j: int| 0 <= j < i ==> old_stock[j].id != fish_id,
                found matches Some(idx) ==> 0 <= idx < n && old_stock[idx as int].id == fish_id
                    && find_fish(old_stock, fish_id) == idx,
                found is Some ==> i == n,
            decreases n - i,
        {
            if tank.current_stock[i].id == fish_id {
                proof {
                    assert(old_stock[i as int].id == fish_id);
                    lemma_find_fish_hit(old_stock, fish_id, i as int);
                }
                found = Some(i);
                i = n;
            } else {
                proof {
                    assert(old_stock[i as int].id != fish_id);
                }
                i = i + 1;
            }
        }
        let idx = match found {
            Some(idx) => idx,
            None => {
                proof {
                    lemma_find_fish_miss(old_stock, fish_id);
                }
                return Err(
                    Error::NotFound { msg: "Fish is not stocked in the given tank".to_owned() },
                );
            },
        };
        tank.current_stock.remove(idx);
        tank.updated_at = Some(now);
        proof {
            assert(tank.current_stock.deep_view() =~= old_stock.remove(idx as int));
        }
        let new_bytes = encode_tank(&tank);
        if new_bytes.len() > MAX_RECORD_BYTES {
            return Err(
                Error::NotFound { msg: "Encoded Tank exceeds the record size ceiling".to_owned() },
            );
        }
        proof {
            lemma_tank_ok_insert(
                map_entries(self.parts.tank_records_spec()),
                self.tank_index@,
                tank_id,
                tank@,
            );
        }
        self.parts.tank_records_insert(tank_id, new_bytes);
        self.tank_index = Ghost(self.tank_index@.insert(tank_id, tank@));
        Ok(tank)
    }

    /// Reports the aggregate quantity stocked in a tank: the sum of the
    /// embedded copies' quantities as a wrapping 64-bit machine sum. The
    /// tank's capacity plays no part in the figure.
    pub fn check_tank_capacity(&self, tank_id: u64) -> (r: Result<u64, Error>)
        requires
            self.wf(),
        ensures
            match r {
                Ok(total) => self.tanks().contains_key(tank_id) && total == stock_total_wrapped(
                    self.tanks()[tank_id].current_stock,
                ) && (stock_total(self.tanks()[tank_id].current_stock) <= u64::MAX ==> total
                    == stock_total(self.tanks()[tank_id].current_stock)),
                Err(_) => !self.tanks().contains_key(tank_id),
            },
    {
        match self.parts.tank_records_ref().get(tank_id) {
            Some(bytes) => {
                let stored = decode_tank(&bytes);
                proof {
                    assert(bytes@ == enc_tank(self.tank_index@[tank_id]));
                }
                let tank = stored.unwrap();
                let ghost stock = tank.current_stock.deep_view();
                let n = tank.current_stock.len();
                let mut total: u64 = 0;
                let mut i: usize = 0;
                while i < n
                    invariant
                        0 <= i <= n,
                        n == tank.current_stock@.len(),
                        stock == tank.current_stock.deep_view(),
                        total == stock_total_wrapped(stock.take(i as int)),
                    decreases n - i,
                {
                    let q = tank.current_stock[i].quantity;
                    proof {
                        assert(stock.take(i + 1).take(i as int) =~= stock.take(i as int));
                        assert(stock.take(i + 1)[i as int] == stock[i as int]);
                        assert(stock[i as int].quantity == q);
                    }
                    total = total.wrapping_add(q);
                    i = i + 1;
                }
                proof {
                    assert(stock.take(n as int) =~= stock);
                    if stock_total(stock) <= u64::MAX {
                        lemma_stock_total_exact(stock);
                    }
                }
                Ok(total)
            },
            None => Err(
                Error::NotFound { msg: "Tank with the given id was not found".to_owned() },
            ),
        }
    }

    /// Creates a farm from a validated payload, with no tanks, under a
    /// freshly minted identifier.
    pub fn create_farm(&mut self, payload: FarmPayload, now: u64) -> (r: Result<Farm, Error>)
        requires
            old(self).wf(),
            farm_payload_ok(payload@) ==> old(self).next_farm_id() < u64::MAX,
        ensures
            final(self).wf(),
            !farm_payload_ok(payload@) ==> r is Err && AppState::same_state(
                *old(self),
                *final(self),
            ),
            farm_payload_ok(payload@) ==> ({
                let t = farm_from_payload(old(self).next_farm_id(), payload@, now);
                if enc_farm(t).len() > MAX_RECORD_BYTES {
                    r is Err && AppState::same_state(*old(self), *final(self))
                } else {
                    &&& r matches Ok(farm) && farm@ == t
                    &&& final(self).farms() == old(self).farms().insert(t.id, t)
                    &&& final(self).next_farm_id() == old(self).next_farm_id() + 1
                    &&& AppState::fish_side_same(*old(self), *final(self))
                    &&& AppState::tank_side_same(*old(self), *final(self))
                }
            }),
    {
        if payload.farm_name.as_str().is_empty() || payload.location.as_str().is_empty() {
            return Err(
                Error::NotFound { msg: "Invalid Farm Payload. Should not be empty or zero".to_owned() },
            );
        }
        let id = self.parts.farm_ids_ref().current();
        let farm = Farm {
            id,
            farm_name: payload.farm_name,
            location: payload.location,
            tanks: Vec::new(),
            created_at: now,
            updated_at: None,
        };
        proof {
            assert(farm.tanks.deep_view() =~= Seq::<TankModel>::empty());
            assert(farm@ =~= farm_from_payload(id, payload@, now));
        }
        let bytes = encode_farm(&farm);
        if bytes.len() > MAX_RECORD_BYTES {
            return Err(
                Error::NotFound { msg: "Encoded Farm exceeds the record size ceiling".to_owned() },
            );
        }
        let minted = self.parts.farm_allocate_next();
        proof {
            lemma_farm_ok_insert(
                map_entries(self.parts.farm_records_spec()),
                self.farm_index@,
                id,
                farm@,
            );
        }
        self.parts.farm_records_insert(minted, bytes);
        self.farm_index = Ghost(self.farm_index@.insert(id, farm@));
        Ok(farm)
    }

    /// Overwrites the name and location of an existing farm from a validated
    /// payload, keeping its tanks, and stamps the update time.
    pub fn update_farm(&mut self, farm_id: u64, payload: FarmPayload, now: u64) -> (r: Result<
        Farm,
        Error,
    >)
        requires
            old(self).wf(),
        ensures
            final(self).wf(),
            !farm_payload_ok(payload@) ==> r is Err && AppState::same_state(
                *old(self),
                *final(self),
            ),
            farm_payload_ok(payload@) && !old(self).farms().contains_key(farm_id) ==> r is Err
                && AppState::same_state(*old(self), *final(self)),
            farm_payload_ok(payload@) && old(self).farms().contains_key(farm_id) ==> ({
                let t = FarmModel {
                    farm_name: payload@.farm_name,
                    location: payload@.location,
                    updated_at: Some(now),
                    ..old(self).farms()[farm_id]
                };
                if enc_farm(t).len() > MAX_RECORD_BYTES {
                    r is Err && AppState::same_state(*old(self), *final(self))
                } else {
                    &&& r matches Ok(farm) && farm@ == t
                    &&& final(self).farms() == old(self).farms().insert(farm_id, t)
                    &&& final(self).next_farm_id() == old(self).next_farm_id()
                    &&& AppState::fish_side_same(*old(self), *final(self))
                    &&& AppState::tank_side_same(*old(self), *final(self))
                }
            }),
    {
        if payload.farm_name.as_str().is_empty() || payload.location.as_str().is_empty() {
            return Err(
                Error::NotFound { msg: "Invalid Farm Payload. Should not be empty or zero".to_owned() },
            );
        }
        match self.parts.farm_records_ref().get(farm_id) {
            Some(bytes) => {
                let stored = decode_farm(&bytes);
                proof {
                    assert(bytes@ == enc_farm(self.farm_index@[farm_id]));
                }
                let mut farm = stored.unwrap();
                farm.farm_name = payload.farm_name;
                farm.location = payload.location;
                farm.updated_at = Some(now);
                let new_bytes = encode_farm(&farm);
                if new_bytes.len() > MAX_RECORD_BYTES {
                    return Err(
                        Error::NotFound {
                            msg: "Encoded Farm exceeds the record size ceiling".to_owned(),
                        },
                    );
                }
                proof {
                    lemma_farm_ok_insert(
                        map_entries(self.parts.farm_records_spec()),
                        self.farm_index@,
                        farm_id,
                        farm@,
                    );
                }
                self.parts.farm_records_insert(farm_id, new_bytes);
                self.farm_index = Ghost(self.farm_index@.insert(farm_id, farm@));
                Ok(farm)
            },
            None => Err(
                Error::NotFound { msg: "Farm with the given id was not found".to_owned() },
            ),
        }
    }

    /// Looks a farm up by identifier.
    pub fn get_farm(&self, farm_id: u64) -> (r: Result<Farm, Error>)
        requires
            self.wf(),
        ensures
            match r {
                Ok(farm) => self.farms().contains_key(farm_id) && farm@ == self.farms()[farm_id],
                Err(_) => !self.farms().contains_key(farm_id),
            },
    {
        match self.parts.farm_records_ref().get(farm_id) {
            Some(bytes) => {
                let stored = decode_farm(&bytes);
                proof {
                    assert(bytes@ == enc_farm(self.farm_index@[farm_id]));
                }
                Ok(stored.unwrap())
            },
            None => Err(
                Error::NotFound { msg: "Farm with the given id was not found".to_owned() },
            ),
        }
    }

    /// Lists every farm in ascending identifier order.
    pub fn get_all_farms(&self) -> (r: Vec<Farm>)
        requires
            self.wf(),
        ensures
            forall|i: int|
                0 <= i < r@.len() ==> self.farms().contains_key(#[trigger] r@[i]@.id)
                    && r@[i]@ == self.farms()[r@[i]@.id],
            forall|i: int, j: int| 0 <= i < j < r@.len() ==> r@[i]@.id < r@[j]@.id,
            forall|k: u64|
                #[trigger] self.farms().contains_key(k) ==> exists|i: int|
                    0 <= i < r@.len() && #[trigger] r@[i]@.id == k,
    {
        let entries = self.parts.farm_records_ref().entries();
        let mut out: Vec<Farm> = Vec::new();
        let mut i: usize = 0;
        while i < entries.len()
            invariant
                self.wf(),
                0 <= i <= entries@.len(),
                out@.len() == i,
                forall|j: int|
                    0 <= j < entries@.len() ==> self.farms().contains_key(#[trigger] entries@[j].0)
                        && entries@[j].1@ == enc_farm(self.farms()[entries@[j].0]),
                forall|j: int, l: int|
                    0 <= j < l < entries@.len() ==> entries@[j].0 < entries@[l].0,
                forall|j: int|
                    0 <= j < i ==> #[trigger] out@[j]@ == self.farms()[entries@[j].0]
                        && out@[j]@.id == entries@[j].0,
            decreases entries@.len() - i,
        {
            let bytes = &entries[i].1;
            let stored = decode_farm(bytes);
            proof {
                assert(bytes@ == enc_farm(self.farms()[entries@[i as int].0]));
            }
            out.push(stored.unwrap());
            i = i + 1;
        }
        proof {
            assert forall|k: u64| #[trigger] self.farms().contains_key(k) implies exists|i: int|
                0 <= i < out@.len() && #[trigger] out@[i]@.id == k by {
                let j = choose|j: int| 0 <= j < entries@.len() && #[trigger] entries@[j].0 == k;
                assert(out@[j]@.id == k);
            }
        }
        out
    }

    /// Deletes a farm by identifier.
    pub fn delete_farm(&mut self, farm_id: u64) -> (r: Result<(), Error>)
        requires
            old(self).wf(),
        ensures
            final(self).wf(),
            old(self).farms().contains_key(farm_id) ==> r is Ok && final(self).farms() == old(
                self,
            ).farms().remove(farm_id) && final(self).next_farm_id() == old(self).next_farm_id()
                && AppState::fish_side_same(*old(self), *final(self)) && AppState::tank_side_same(
                *old(self),
                *final(self),
            ),
            !old(self).farms().contains_key(farm_id) ==> r is Err && AppState::same_state(
                *old(self),
                *final(self),
            ),
    {
        proof {
            lemma_farm_ok_remove(map_entries(self.parts.farm_records_spec()), self.farm_index@, farm_id);
        }
        match self.parts.farm_records_remove(farm_id) {
            Some(_) => {
                self.farm_index = Ghost(self.farm_index@.remove(farm_id));
                Ok(())
            },
            None => {
                proof {
                    assert(self.farm_index@.remove(farm_id) =~= self.farm_index@);
                }
                self.farm_index = Ghost(self.farm_index@.remove(farm_id));
                Err(Error::NotFound { msg: "Farm with the given id was not found".to_owned() })
            },
        }
    }

    /// Embeds a value copy of a tank, as it stands now, at the end of a
    /// farm's stock; later edits of the tank record do not reach the copy.
    pub fn insert_tank_into_farm(&mut self, farm_id: u64, tank_id: u64, now: u64) -> (r: Result<
        Farm,
        Error,
    >)
        requires
            old(self).wf(),
        ensures
            final(self).wf(),
            !old(self).farms().contains_key(farm_id) ==> r is Err && AppState::same_state(
                *old(self),
                *final(self),
            ),
            old(self).farms().contains_key(farm_id) && !old(self).tanks().contains_key(tank_id)
                ==> r is Err && AppState::same_state(*old(self), *final(self)),
            old(self).farms().contains_key(farm_id) && old(self).tanks().contains_key(tank_id)
                ==> ({
                let t = FarmModel {
                    tanks: old(self).farms()[farm_id].tanks.push(
                        old(self).tanks()[tank_id],
                    ),
                    updated_at: Some(now),
                    ..old(self).farms()[farm_id]
                };
                if enc_farm(t).len() > MAX_RECORD_BYTES {
                    r is Err && AppState::same_state(*old(self), *final(self))
                } else {
                    &&& r matches Ok(farm) && farm@ == t
                    &&& final(self).farms() == old(self).farms().insert(farm_id, t)
                    &&& final(self).next_farm_id() == old(self).next_farm_id()
                    &&& AppState::fish_side_same(*old(self), *final(self))
                    &&& AppState::tank_side_same(*old(self), *final(self))
                }
            }),
    {
        let farm_bytes = match self.parts.farm_records_ref().get(farm_id) {
            Some(b) => b,
            None => {
                return Err(
                    Error::NotFound { msg: "Farm with the given id was not found".to_owned() },
                );
            },
        };
        let tank_rec = match self.parts.tank_records_ref().get(tank_id) {
            Some(b) => b,
            None => {
                return Err(
                    Error::NotFound { msg: "Tank with the given id was not found".to_owned() },
                );
            },
        };
        let stored_farm = decode_farm(&farm_bytes);
        let stored_tank = decode_tank(&tank_rec);
        proof {
            assert(farm_bytes@ == enc_farm(self.farm_index@[farm_id]));
            assert(tank_rec@ == enc_tank(self.tank_index@[tank_id]));
        }
        let mut farm = stored_farm.unwrap();
        let tank = stored_tank.unwrap();
        let ghost old_tanks = farm.tanks.deep_view();
        farm.tanks.push(tank);
        farm.updated_at = Some(now);
        proof {
            assert(farm.tanks.deep_view() =~= old_tanks.push(
                self.tank_index@[tank_id],
            ));
        }
        let new_bytes = encode_farm(&farm);
        if new_bytes.len() > MAX_RECORD_BYTES {
            return Err(
                Error::NotFound { msg: "Encoded Farm exceeds the record size ceiling".to_owned() },
            );
        }
        proof {
            lemma_farm_ok_insert(
                map_entries(self.parts.farm_records_spec()),
                self.farm_index@,
                farm_id,
                farm@,
            );
        }
        self.parts.farm_records_insert(farm_id, new_bytes);
        self.farm_index = Ghost(self.farm_index@.insert(farm_id, farm@));
        Ok(farm)
    }

    /// Removes the first embedded copy carrying the tank identifier from a
    /// farm's stock. When no such copy exists, the operation reports
    /// `NotFound` and leaves the registry unchanged.
    pub fn remove_tank_from_farm(&mut self, farm_id: u64, tank_id: u64, now: u64) -> (r: Result<
        Farm,
        Error,
    >)
        requires
            old(self).wf(),
        ensures
            final(self).wf(),
            !old(self).farms().contains_key(farm_id) ==> r is Err && AppState::same_state(
                *old(self),
                *final(self),
            ),
            old(self).farms().contains_key(farm_id) && !old(self).tanks().contains_key(tank_id)
                ==> r is Err && AppState::same_state(*old(self), *final(self)),
            old(self).farms().contains_key(farm_id) && old(self).tanks().contains_key(tank_id)
                && find_tank(old(self).farms()[farm_id].tanks, tank_id) < 0 ==> r is Err
                && AppState::same_state(*old(self), *final(self)),
            old(self).farms().contains_key(farm_id) && old(self).tanks().contains_key(tank_id)
                && find_tank(old(self).farms()[farm_id].tanks, tank_id) >= 0 ==> ({
                let t = FarmModel {
                    tanks: old(self).farms()[farm_id].tanks.remove(
                        find_tank(old(self).farms()[farm_id].tanks, tank_id),
                    ),
                    updated_at: Some(now),
                    ..old(self).farms()[farm_id]
                };
                if enc_farm(t).len() > MAX_RECORD_BYTES {
                    r is Err && AppState::same_state(*old(self), *final(self))
                } else {
                    &&& r matches Ok(farm) && farm@ == t
                    &&& final(self).farms() == old(self).farms().insert(farm_id, t)
                    &&& final(self).next_farm_id() == old(self).next_farm_id()
                    &&& AppState::fish_side_same(*old(self), *final(self))
                    &&& AppState::tank_side_same(*old(self), *final(self))
                }
            }),
    {
        let farm_bytes = match self.parts.farm_records_ref().get(farm_id) {
            Some(b) => b,
            None => {
                return Err(
                    Error::NotFound { msg: "Farm with the given id was not found".to_owned() },
                );
            },
        };
        if self.parts.tank_records_ref().get(tank_id).is_none() {
            return Err(
                Error::NotFound { msg: "Tank with the given id was not found".to_owned() },
            );
        }
        let stored_farm = decode_farm(&farm_bytes);
        proof {
            assert(farm_bytes@ == enc_farm(self.farm_index@[farm_id]));
        }
        let mut farm = stored_farm.unwrap();
        let ghost old_tanks = farm.tanks.deep_view();
        let n = farm.tanks.len();
        let mut i: usize = 0;
        let mut found: Option<usize> = None;
        while i < n
            invariant
                0 <= i <= n,
                n == farm.tanks@.len(),
                old_tanks == farm.tanks.deep_view(),
                found is None ==> forall|j: int| 0 <= j < i ==> old_tanks[j].id != tank_id,
                found matches Some(idx) ==> 0 <= idx < n && old_tanks[idx as int].id == tank_id
                    && find_tank(old_tanks, tank_id) == idx,
                found is Some ==> i == n,
            decreases n - i,
        {
            if farm.tanks[i].id == tank_id {
                proof {
                    assert(old_tanks[i as int].id == tank_id);
                    lemma_find_tank_hit(old_tanks, tank_id, i as int);
                }
                found = Some(i);
                i = n;
            } else {
                proof {
                    assert(old_tanks[i as int].id != tank_id);
                }
                i = i + 1;
            }
        }
        let idx = match found {
            Some(idx) => idx,
            None => {
                proof {
                    lemma_find_tank_miss(old_tanks, tank_id);
                }
                return Err(
                    Error::NotFound { msg: "Tank is not present in the given farm".to_owned() },
                );
            },
        };
        farm.tanks.remove(idx);
        farm.updated_at = Some(now);
        proof {
            assert(farm.tanks.deep_view() =~= old_tanks.remove(idx as int));
        }
        let new_bytes = encode_farm(&farm);
        if new_bytes.len() > MAX_RECORD_BYTES {
            return Err(
                Error::NotFound { msg: "Encoded Farm exceeds the record size ceiling".to_owned() },
            );
        }
        proof {
            lemma_farm_ok_insert(
                map_entries(self.parts.farm_records_spec()),
                self.farm_index@,
                farm_id,
                farm@,
            );
        }
        self.parts.farm_records_insert(farm_id, new_bytes);
        self.farm_index = Ghost(self.farm_index@.insert(farm_id, farm@));
        Ok(farm)
    }

}

} // verus!
