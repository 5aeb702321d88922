use finfarm::codec::{decode_farm, decode_fish, decode_tank, encode_farm, encode_fish, encode_tank};
use finfarm::service::AppState;
use finfarm::types::{Farm, Fish, FishPayload, FarmPayload, Tank, TankPayload};

fn fish_payload(species: &str, description: &str, quantity: u64, age: u64) -> FishPayload {
    FishPayload {
        species: species.to_string(),
        description: description.to_string(),
        quantity,
        age_in_months: age,
    }
}

fn sample_fish() -> Fish {
    Fish {
        id: 7,
        species: "tilapia".to_string(),
        description: "pond fish".to_string(),
        quantity: 40,
        age_in_months: 6,
        created_at: 1111,
        updated_at: Some(2222),
    }
}

#[test]
fn round_trip_fish() {
    let f = sample_fish();
    let bytes = encode_fish(&f);
    let g = decode_fish(&bytes).unwrap();
    assert_eq!(g.id, f.id);
    assert_eq!(g.species, f.species);
    assert_eq!(g.description, f.description);
    assert_eq!(g.quantity, f.quantity);
    assert_eq!(g.age_in_months, f.age_in_months);
    assert_eq!(g.created_at, f.created_at);
    assert_eq!(g.updated_at, f.updated_at);
}

#[test]
fn round_trip_tank_and_farm() {
    let t = Tank {
        id: 3,
        tank_name: "north".to_string(),
        capacity_liters: 100,
        current_stock: vec![sample_fish()],
        created_at: 5,
        updated_at: None,
    };
    let bytes = encode_tank(&t);
    let u = decode_tank(&bytes).unwrap();
    assert_eq!(u.id, 3);
    assert_eq!(u.tank_name, "north");
    assert_eq!(u.current_stock.len(), 1);
    assert_eq!(u.current_stock[0].species, "tilapia");

    let farm = Farm {
        id: 9,
        farm_name: "delta".to_string(),
        location: "river".to_string(),
        tanks: vec![u],
        created_at: 8,
        updated_at: Some(10),
    };
    let fb = encode_farm(&farm);
    let g = decode_farm(&fb).unwrap();
    assert_eq!(g.farm_name, "delta");
    assert_eq!(g.tanks.len(), 1);
    assert_eq!(g.tanks[0].current_stock[0].quantity, 40);
}

#[test]
fn decode_rejects_garbage() {
    assert!(decode_fish(&vec![1, 2, 3]).is_none());
}

#[test]
fn monotonic_ids_across_restart() {
    let mut s = AppState::init();
    let a = s.create_fish(fish_payload("a", "x", 1, 1), 10).unwrap();
    let b = s.create_fish(fish_payload("b", "y", 1, 1), 11).unwrap();
    assert_eq!(a.id, 0);
    assert_eq!(b.id, 1);
    let mem = s.close();
    let mut s2 = AppState::reopen(mem);
    let c = s2.create_fish(fish_payload("c", "z", 1, 1), 12).unwrap();
    assert_eq!(c.id, 2);
    assert_eq!(s2.get_fish(0).unwrap().species, "a");
}

#[test]
fn rejected_payload_consumes_no_id() {
    let mut s = AppState::init();
    assert!(s.create_fish(fish_payload("", "x", 1, 1), 1).is_err());
    assert!(s.create_fish(fish_payload("a", "", 1, 1), 1).is_err());
    assert!(s.create_fish(fish_payload("a", "x", 0, 1), 1).is_err());
    assert!(s.create_fish(fish_payload("a", "x", 1, 0), 1).is_err());
    let f = s.create_fish(fish_payload("a", "x", 1, 1), 1).unwrap();
    assert_eq!(f.id, 0);
    assert_eq!(s.get_all_fish().len(), 1);
}

#[test]
fn update_missing_fish_is_not_found() {
    let mut s = AppState::init();
    assert!(s.update_fish(42, fish_payload("a", "x", 1, 1), 1).is_err());
    assert!(s.get_all_fish().is_empty());
}

#[test]
fn embedded_copy_is_isolated_from_updates() {
    let mut s = AppState::init();
    let fish = s.create_fish(fish_payload("carp", "old text", 5, 2), 1).unwrap();
    let tank = s
        .create_tank(TankPayload { tank_name: "t".to_string(), capacity_liters: 10 }, 2)
        .unwrap();
    s.insert_fish_into_tank(tank.id, fish.id, 3).unwrap();
    s.update_fish(fish.id, fish_payload("carp", "new text", 9, 2), 4).unwrap();
    let t = s.get_tank(tank.id).unwrap();
    assert_eq!(t.current_stock.len(), 1);
    assert_eq!(t.current_stock[0].description, "old text");
    assert_eq!(t.current_stock[0].quantity, 5);
}

#[test]
fn removing_unstocked_fish_is_not_found() {
    let mut s = AppState::init();
    let fish = s.create_fish(fish_payload("carp", "d", 5, 2), 1).unwrap();
    let tank = s
        .create_tank(TankPayload { tank_name: "t".to_string(), capacity_liters: 10 }, 2)
        .unwrap();
    assert!(s.remove_fish_from_tank(tank.id, fish.id, 3).is_err());
    assert_eq!(s.get_tank(tank.id).unwrap().current_stock.len(), 0);
}

#[test]
fn capacity_reports_aggregate_quantity() {
    let mut s = AppState::init();
    let f1 = s.create_fish(fish_payload("a", "d", 5, 1), 1).unwrap();
    let f2 = s.create_fish(fish_payload("b", "d", 7, 1), 1).unwrap();
    let tank = s
        .create_tank(TankPayload { tank_name: "t".to_string(), capacity_liters: 100 }, 2)
        .unwrap();
    s.insert_fish_into_tank(tank.id, f1.id, 3).unwrap();
    s.insert_fish_into_tank(tank.id, f2.id, 4).unwrap();
    assert_eq!(s.check_tank_capacity(tank.id).unwrap(), 12);
}

#[test]
fn listings_come_in_ascending_id_order() {
    let mut s = AppState::init();
    for name in ["a", "b", "c", "d"] {
        s.create_fish(fish_payload(name, "d", 1, 1), 1).unwrap();
    }
    s.update_fish(2, fish_payload("c2", "d", 1, 1), 9).unwrap();
    let all = s.get_all_fish();
    let ids: Vec<u64> = all.iter().map(|f| f.id).collect();
    assert_eq!(ids, vec![0, 1, 2, 3]);
    assert_eq!(all[2].species, "c2");
}

#[test]
fn delete_does_not_cascade() {
    let mut s = AppState::init();
    let fish = s.create_fish(fish_payload("carp", "d", 5, 2), 1).unwrap();
    let tank = s
        .create_tank(TankPayload { tank_name: "t".to_string(), capacity_liters: 10 }, 2)
        .unwrap();
    s.insert_fish_into_tank(tank.id, fish.id, 3).unwrap();
    s.delete_fish(fish.id).unwrap();
    assert!(s.get_fish(fish.id).is_err());
    assert_eq!(s.get_tank(tank.id).unwrap().current_stock.len(), 1);
}

#[test]
fn batch_create_is_all_or_nothing() {
    let mut s = AppState::init();
    let bad = vec![fish_payload("a", "d", 1, 1), fish_payload("", "d", 1, 1)];
    assert!(s.batch_create_fish(bad, 1).is_err());
    assert!(s.get_all_fish().is_empty());
    let good = vec![fish_payload("a", "d", 1, 1), fish_payload("b", "d", 2, 2)];
    let made = s.batch_create_fish(good, 2).unwrap();
    assert_eq!(made.len(), 2);
    assert_eq!(made[0].id, 0);
    assert_eq!(made[1].id, 1);
}

#[test]
fn farm_operations_mirror_tank_operations() {
    let mut s = AppState::init();
    let tank = s
        .create_tank(TankPayload { tank_name: "t".to_string(), capacity_liters: 10 }, 1)
        .unwrap();
    let farm = s
        .create_farm(
            FarmPayload { farm_name: "delta".to_string(), location: "river".to_string() },
            2,
        )
        .unwrap();
    assert!(s.insert_tank_into_farm(farm.id, tank.id, 3).is_ok());
    assert!(s.remove_tank_from_farm(farm.id, 99, 4).is_err());
    let f = s.remove_tank_from_farm(farm.id, tank.id, 5).unwrap();
    assert_eq!(f.tanks.len(), 0);
    assert!(s.delete_farm(farm.id).is_ok());
    assert!(s.get_farm(farm.id).is_err());
    assert!(s.get_all_farms().is_empty());
}
