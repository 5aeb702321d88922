//! Entity records kept by the registry, their validated payloads, and the
//! mathematical models that all contracts speak of.

use vstd::prelude::*;

verus! {

/// A fish record. Text fields are non-empty and numeric fields positive when
/// the record was created or updated through a validated payload; the age may
/// later be set freely by the age-update operation.
pub struct Fish {
    pub id: u64,
    pub species: String,
    pub description: String,
    pub quantity: u64,
    pub age_in_months: u64,
    pub created_at: u64,
    pub updated_at: Option<u64>,
}

/// A tank record. `current_stock` holds value copies of fish taken at the
/// moment of insertion; later edits of the fish record do not reach them.
pub struct Tank {
    pub id: u64,
    pub tank_name: String,
    pub capacity_liters: u64,
    pub current_stock: Vec<Fish>,
    pub created_at: u64,
    pub updated_at: Option<u64>,
}

/// A farm record. `tanks` holds value copies of tanks, as `current_stock`
/// does for fish.
pub struct Farm {
    pub id: u64,
    pub farm_name: String,
    pub location: String,
    pub tanks: Vec<Tank>,
    pub created_at: u64,
    pub updated_at: Option<u64>,
}

/// The mathematical value of a `Fish`.
#[verifier::ext_equal]
pub struct FishModel {
    pub id: u64,
    pub species: Seq<char>,
    pub description: Seq<char>,
    pub quantity: u64,
    pub age_in_months: u64,
    pub created_at: u64,
    pub updated_at: Option<u64>,
}

/// The mathematical value of a `Tank`.
#[verifier::ext_equal]
pub struct TankModel {
    pub id: u64,
    pub tank_name: Seq<char>,
    pub capacity_liters: u64,
    pub current_stock: Seq<FishModel>,
    pub created_at: u64,
    pub updated_at: Option<u64>,
}

/// The mathematical value of a `Farm`.
#[verifier::ext_equal]
pub struct FarmModel {
    pub id: u64,
    pub farm_name: Seq<char>,
    pub location: Seq<char>,
    pub tanks: Seq<TankModel>,
    pub created_at: u64,
    pub updated_at: Option<u64>,
}

impl View for Fish {
    type V = FishModel;

    open spec fn view(&self) -> FishModel {
        FishModel {
            id: self.id,
            species: self.species@,
            description: self.description@,
            quantity: self.quantity,
            age_in_months: self.age_in_months,
            created_at: self.created_at,
            updated_at: self.updated_at,
        }
    }
}

impl DeepView for Fish {
    type V = FishModel;

    open spec fn deep_view(&self) -> FishModel {
        self.view()
    }
}

impl View for Tank {
    type V = TankModel;

    open spec fn view(&self) -> TankModel {
        TankModel {
            id: self.id,
            tank_name: self.tank_name@,
            capacity_liters: self.capacity_liters,
            current_stock: self.current_stock.deep_view(),
            created_at: self.created_at,
            updated_at: self.updated_at,
        }
    }
}

impl DeepView for Tank {
    type V = TankModel;

    open spec fn deep_view(&self) -> TankModel {
        self.view()
    }
}

impl View for Farm {
    type V = FarmModel;

    open spec fn view(&self) -> FarmModel {
        FarmModel {
            id: self.id,
            farm_name: self.farm_name@,
            location: self.location@,
            tanks: self.tanks.deep_view(),
            created_at: self.created_at,
            updated_at: self.updated_at,
        }
    }
}

impl DeepView for Farm {
    type V = FarmModel;

    open spec fn deep_view(&self) -> FarmModel {
        self.view()
    }
}

/// Input for creating or updating a fish.
pub struct FishPayload {
    pub species: String,
    pub description: String,
    pub quantity: u64,
    pub age_in_months: u64,
}

/// Input for creating or updating a tank.
pub struct TankPayload {
    pub tank_name: String,
    pub capacity_liters: u64,
}

/// Input for creating or updating a farm.
pub struct FarmPayload {
    pub farm_name: String,
    pub location: String,
}

/// The mathematical value of a `FishPayload`.
#[verifier::ext_equal]
pub struct FishPayloadModel {
    pub species: Seq<char>,
    pub description: Seq<char>,
    pub quantity: u64,
    pub age_in_months: u64,
}

/// The mathematical value of a `TankPayload`.
#[verifier::ext_equal]
pub struct TankPayloadModel {
    pub tank_name: Seq<char>,
    pub capacity_liters: u64,
}

/// The mathematical value of a `FarmPayload`.
#[verifier::ext_equal]
pub struct FarmPayloadModel {
    pub farm_name: Seq<char>,
    pub location: Seq<char>,
}

impl View for FishPayload {
    type V = FishPayloadModel;

    open spec fn view(&self) -> FishPayloadModel {
        FishPayloadModel {
            species: self.species@,
            description: self.description@,
            quantity: self.quantity,
            age_in_months: self.age_in_months,
        }
    }
}

impl View for TankPayload {
    type V = TankPayloadModel;

    open spec fn view(&self) -> TankPayloadModel {
        TankPayloadModel { tank_name: self.tank_name@, capacity_liters: self.capacity_liters }
    }
}

impl View for FarmPayload {
    type V = FarmPayloadModel;

    open spec fn view(&self) -> FarmPayloadModel {
        FarmPayloadModel { farm_name: self.farm_name@, location: self.location@ }
    }
}

/// A fish payload passes validation when its text fields are non-empty and
/// its numeric fields strictly positive.
pub open spec fn fish_payload_ok(p: FishPayloadModel) -> bool {
    &&& p.species.len() > 0
    &&& p.description.len() > 0
    &&& p.quantity > 0
    &&& p.age_in_months > 0
}

/// A tank payload passes validation when its name is non-empty and its
/// capacity strictly positive.
pub open spec fn tank_payload_ok(p: TankPayloadModel) -> bool {
    &&& p.tank_name.len() > 0
    &&& p.capacity_liters > 0
}

/// A farm payload passes validation when both text fields are non-empty.
pub open spec fn farm_payload_ok(p: FarmPayloadModel) -> bool {
    &&& p.farm_name.len() > 0
    &&& p.location.len() > 0
}

/// The fish minted from a validated payload under a fresh identifier.
pub open spec fn fish_from_payload(id: u64, p: FishPayloadModel, now: u64) -> FishModel {
    FishModel {
        id,
        species: p.species,
        description: p.description,
        quantity: p.quantity,
        age_in_months: p.age_in_months,
        created_at: now,
        updated_at: None,
    }
}

/// The tank minted from a validated payload under a fresh identifier.
pub open spec fn tank_from_payload(id: u64, p: TankPayloadModel, now: u64) -> TankModel {
    TankModel {
        id,
        tank_name: p.tank_name,
        capacity_liters: p.capacity_liters,
        current_stock: Seq::empty(),
        created_at: now,
        updated_at: None,
    }
}

/// The farm minted from a validated payload under a fresh identifier.
pub open spec fn farm_from_payload(id: u64, p: FarmPayloadModel, now: u64) -> FarmModel {
    FarmModel {
        id,
        farm_name: p.farm_name,
        location: p.location,
        tanks: Seq::empty(),
        created_at: now,
        updated_at: None,
    }
}

/// The single recoverable error kind: a failed lookup by identifier or a
/// malformed payload, with a descriptive message.
#[derive(Debug)]
pub enum Error {
    NotFound { msg: String },
}

} // verus!
