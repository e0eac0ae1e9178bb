use minerva_server::ids::CommandIdAllocator;
use minerva_server::{CommandId, GroupId, UnitId};

#[test]
fn command_id_round_trips_through_u64() {
    let mut allocator = CommandIdAllocator::default();
    let id = allocator.next();
    let raw: u64 = id.into();
    assert_eq!(CommandId::from(raw), id);
}

#[test]
fn allocator_hands_out_distinct_ids() {
    let mut allocator = CommandIdAllocator::default();
    assert_ne!(allocator.next(), allocator.next());
}

#[test]
fn allocator_counts_from_zero() {
    let mut allocator = CommandIdAllocator::default();
    let ids: Vec<u64> = (0..4).map(|_| allocator.next().value()).collect();
    assert_eq!(ids, vec![0, 1, 2, 3]);
}

#[test]
fn command_ids_read_as_decimals() {
    for id in [0, 7, 10, 409, u64::MAX] {
        assert_eq!(CommandId::from(id).to_string(), format!("{id}"));
    }
}

#[test]
fn ids_round_trip_through_text() {
    let unit = UnitId::from("u1");
    assert_eq!(unit.as_str(), "u1");
    assert_eq!(unit.to_string(), "u1");
    assert_eq!(unit.clone(), UnitId::from("u1".to_string()));
    assert_eq!(String::from(unit), "u1");
    let group = GroupId::from("g1");
    assert_eq!(group.as_str(), "g1");
    assert_eq!(group.to_string(), "g1");
    assert_eq!(group.clone(), GroupId::from("g1".to_string()));
    assert_eq!(String::from(group), "g1");
    assert!(UnitId::from("a") < UnitId::from("b"));
}
