use minerva_server::events::GroupEvent;
use minerva_server::proto::{
    Group, GroupUpdate, Location, Position, Real, Side, SimulationInfo, SimulationStateUpdate, Unit,
    UnitState,
};
use minerva_server::{GroupId, StateCache, UnitId};
use tokio::sync::broadcast::error::TryRecvError;
use tokio::sync::broadcast::Receiver;

fn unit(id: &str, group_id: &str) -> Unit {
    Unit {
        id: id.to_string(),
        group_id: group_id.to_string(),
        category: 0,
        kind: String::new(),
        state: None,
    }
}

fn group(id: &str, side: Side) -> Group {
    Group {
        id: id.to_string(),
        side: side.code(),
        readiness: None,
        has_task: false,
        waypoints: Vec::new(),
        units: Vec::new(),
    }
}

fn position(x: f64, y: f64, z: f64) -> Position {
    Position {
        x: Real::from_bits(x.to_bits()),
        y: Real::from_bits(y.to_bits()),
        z: Real::from_bits(z.to_bits()),
    }
}

fn unit_at(id: &str, group_id: &str, x: f64) -> Unit {
    Unit {
        state: Some(UnitState {
            position: Some(position(x, 0.0, 0.0)),
            ..Default::default()
        }),
        ..unit(id, group_id)
    }
}

fn at_time(simulation_time: i64) -> SimulationStateUpdate {
    SimulationStateUpdate {
        simulation_time,
        ..Default::default()
    }
}

fn unit_ids(group: &Group) -> Vec<&str> {
    group.units.iter().map(|unit| unit.id.as_str()).collect()
}

/// What is left in a receiver, each event as its number and what it tells.
fn drain(receiver: &mut Receiver<GroupEvent>) -> Vec<(u64, String)> {
    let mut told = Vec::new();
    while let Ok(event) = receiver.try_recv() {
        let what = match event.response.event {
            Some(GroupUpdate::Upserted(group)) => format!("+{}:{}", group.id, unit_ids(&group).join(",")),
            Some(GroupUpdate::RemovedId(id)) => format!("-{id}"),
            None => String::new(),
        };
        told.push((event.sequence, what));
    }
    told
}

fn told(numbered: Vec<(u64, String)>) -> Vec<String> {
    numbered.into_iter().map(|(_, what)| what).collect()
}

#[test]
fn upsert_and_get_unit() {
    let mut cache = StateCache::new();
    cache.upsert_unit(unit("u1", "g1"));
    assert_eq!(
        cache.get_unit(&UnitId::from("u1")).map(|u| u.id),
        Some("u1".to_string())
    );
    assert_eq!(cache.get_unit(&UnitId::from("missing")), None);
}

#[test]
fn remove_unit_drops_it() {
    let mut cache = StateCache::new();
    cache.upsert_unit(unit("u1", "g1"));
    assert!(cache.remove_unit(&UnitId::from("u1")).is_some());
    assert_eq!(cache.get_unit(&UnitId::from("u1")), None);
    assert_eq!(cache.remove_unit(&UnitId::from("u1")), None);
}

#[test]
fn remove_unit_broadcasts_its_group_without_it() {
    let mut cache = StateCache::new();
    cache.upsert_group_with_units(group("g1", Side::Blufor), vec![unit("u1", "g1")]);
    // Subscribing after the setup upsert above: only the snapshot (unused
    // here) reflects it, so the receiver starts empty.
    let mut receiver = cache.subscribe_group_updates(None).2;

    cache.remove_unit(&UnitId::from("u1"));

    let event = receiver
        .try_recv()
        .expect("remove_unit must re-broadcast its group");
    match event.response.event {
        Some(GroupUpdate::Upserted(group)) => {
            assert_eq!(unit_ids(&group), Vec::<&str>::new());
        }
        other => panic!("expected an upsert with the unit gone, got {other:?}"),
    }
}

#[test]
fn unit_membership_moves_with_group_id() {
    let mut cache = StateCache::new();
    cache.upsert_unit(unit("u1", "g1"));
    assert_eq!(cache.list_units(None, Some(&GroupId::from("g1"))).len(), 1);
    assert_eq!(cache.list_units(None, Some(&GroupId::from("g2"))).len(), 0);

    // Re-upserting with a different group_id moves membership, since the
    // unit's group_id is the only place it's recorded.
    cache.upsert_unit(unit("u1", "g2"));
    assert_eq!(cache.list_units(None, Some(&GroupId::from("g1"))).len(), 0);
    assert_eq!(cache.list_units(None, Some(&GroupId::from("g2"))).len(), 1);
}

#[test]
fn list_units_filters_by_side_via_group() {
    let mut cache = StateCache::new();
    cache.upsert_group(group("g1", Side::Blufor));
    cache.upsert_group(group("g2", Side::Opfor));
    cache.upsert_unit(unit("u1", "g1"));
    cache.upsert_unit(unit("u2", "g2"));

    let blufor = cache.list_units(Some(Side::Blufor), None);
    assert_eq!(
        blufor.iter().map(|u| u.id.as_str()).collect::<Vec<_>>(),
        vec!["u1"]
    );

    assert_eq!(cache.list_units(None, None).len(), 2);
}

#[test]
fn list_units_excludes_orphaned_units_when_side_filtered() {
    let mut cache = StateCache::new();
    cache.upsert_unit(unit("u1", "no-such-group"));
    assert_eq!(cache.list_units(Some(Side::Blufor), None).len(), 0);
    assert_eq!(cache.list_units(None, None).len(), 1);
}

#[test]
fn state_list_groups_filters_by_side() {
    let mut cache = StateCache::new();
    cache.upsert_group(group("g1", Side::Blufor));
    cache.upsert_group(group("g2", Side::Opfor));

    let blufor = cache.list_groups(Some(Side::Blufor));
    assert_eq!(
        blufor.iter().map(|g| g.id.as_str()).collect::<Vec<_>>(),
        vec!["g1"]
    );
    assert_eq!(cache.list_groups(None).len(), 2);
}

#[test]
fn remove_group_drops_it() {
    let mut cache = StateCache::new();
    cache.upsert_group(group("g1", Side::Blufor));
    assert!(cache.remove_group(&GroupId::from("g1")).is_some());
    assert_eq!(cache.get_group(&GroupId::from("g1")), None);
}

#[test]
fn remove_group_drops_its_units() {
    let mut cache = StateCache::new();
    cache.upsert_group_with_units(group("g1", Side::Blufor), vec![unit("u1", "g1")]);
    let removed = cache.remove_group(&GroupId::from("g1")).expect("cached");
    assert_eq!(unit_ids(&removed), vec!["u1"]);
    assert_eq!(cache.get_unit(&UnitId::from("u1")), None);
    assert_eq!(cache.list_units(None, None).len(), 0);
}

#[test]
fn upsert_group_with_units_joins_units_in_reads() {
    let mut cache = StateCache::new();
    cache.upsert_group_with_units(
        group("g1", Side::Blufor),
        vec![unit("u1", "g1"), unit("u2", "g1")],
    );

    let group = cache.get_group(&GroupId::from("g1")).expect("cached");
    assert_eq!(unit_ids(&group), vec!["u1", "u2"]);

    let listed = cache.list_groups(None);
    assert_eq!(unit_ids(&listed[0]), vec!["u1", "u2"]);
}

#[test]
fn upsert_group_with_units_drops_members_not_listed() {
    let mut cache = StateCache::new();
    cache.upsert_group_with_units(
        group("g1", Side::Blufor),
        vec![unit("u1", "g1"), unit("u2", "g1")],
    );
    cache.upsert_group_with_units(group("g1", Side::Blufor), vec![unit("u1", "g1")]);

    let group = cache.get_group(&GroupId::from("g1")).expect("cached");
    assert_eq!(unit_ids(&group), vec!["u1"]);
    // The dropped member is gone entirely, not just detached.
    assert_eq!(cache.get_unit(&UnitId::from("u2")), None);
}

#[test]
fn upsert_group_with_units_moves_a_unit_from_another_group() {
    let mut cache = StateCache::new();
    cache.upsert_group_with_units(group("g1", Side::Blufor), vec![unit("u1", "g1")]);
    cache.upsert_group_with_units(group("g2", Side::Blufor), vec![unit("u1", "g2")]);

    let g1 = cache.get_group(&GroupId::from("g1")).expect("cached");
    let g2 = cache.get_group(&GroupId::from("g2")).expect("cached");
    assert_eq!(unit_ids(&g1), Vec::<&str>::new());
    assert_eq!(unit_ids(&g2), vec!["u1"]);
    assert_eq!(cache.get_unit(&UnitId::from("u1")).unwrap().group_id, "g2");
}

#[test]
fn upsert_group_with_units_forces_the_units_group_id() {
    let mut cache = StateCache::new();
    // A unit claiming a different group_id than the one it's embedded in is
    // corrected, not trusted.
    cache.upsert_group_with_units(group("g1", Side::Blufor), vec![unit("u1", "bogus")]);
    assert_eq!(cache.get_unit(&UnitId::from("u1")).unwrap().group_id, "g1");
}

#[test]
fn upsert_group_with_units_is_a_noop_on_unchanged_input() {
    let mut cache = StateCache::new();
    let (_, sequence_before, _) = cache.subscribe_group_updates(None);
    cache.upsert_group_with_units(group("g1", Side::Blufor), vec![unit("u1", "g1")]);
    let (_, sequence_after_first, _) = cache.subscribe_group_updates(None);
    assert!(sequence_after_first > sequence_before);

    cache.upsert_group_with_units(group("g1", Side::Blufor), vec![unit("u1", "g1")]);
    let (_, sequence_after_repeat, _) = cache.subscribe_group_updates(None);
    assert_eq!(sequence_after_repeat, sequence_after_first);
}

#[test]
fn side_change_still_emits_removal_then_upsert() {
    let mut cache = StateCache::new();
    let mut receiver = cache.subscribe_group_updates(None).2;
    cache.upsert_group(group("g1", Side::Blufor));
    cache.upsert_group(group("g1", Side::Opfor));

    let first = receiver.try_recv().expect("upsert").response.event;
    let second = receiver.try_recv().expect("removal").response.event;
    let third = receiver.try_recv().expect("upsert").response.event;
    assert!(matches!(first, Some(GroupUpdate::Upserted(_))));
    assert!(matches!(second, Some(GroupUpdate::RemovedId(_))));
    match third {
        Some(GroupUpdate::Upserted(group)) => {
            assert_eq!(Side::try_from(group.side), Ok(Side::Opfor))
        }
        other => panic!("expected an upsert, got {other:?}"),
    }
}

#[test]
fn a_default_cache_is_empty() {
    let cache = StateCache::default();
    assert_eq!(cache.list_units(None, None), Vec::new());
    assert_eq!(cache.list_groups(None), Vec::new());
    assert_eq!(cache.list_locations(None), Vec::new());
    assert_eq!(cache.simulation_info(), None);
    assert_eq!(cache.simulation_state(), None);
    assert_eq!(cache.sequence(), 0);
    assert_eq!(cache.group_count(), 0);
}

#[test]
fn an_orphan_joins_its_group_once_the_group_is_cached() {
    let mut cache = StateCache::new();
    let mut receiver = cache.subscribe_group_updates(None).2;
    cache.upsert_unit(unit("u1", "g1"));
    assert_eq!(told(drain(&mut receiver)), Vec::<String>::new());
    assert_eq!(cache.get_group(&GroupId::from("g1")), None);
    cache.upsert_group(group("g1", Side::Blufor));
    assert_eq!(drain(&mut receiver), vec![(1, "+g1:u1".to_string())]);
}

#[test]
fn moving_a_unit_tells_of_both_groups_the_new_one_first() {
    let mut cache = StateCache::new();
    cache.upsert_group(group("g1", Side::Blufor));
    cache.upsert_group(group("g2", Side::Blufor));
    cache.upsert_unit(unit("u1", "g2"));
    let mut receiver = cache.subscribe_group_updates(None).2;
    cache.upsert_unit(unit("u1", "g1"));
    assert_eq!(
        drain(&mut receiver),
        vec![(4, "+g1:u1".to_string()), (5, "+g2:".to_string())]
    );
}

#[test]
fn a_unit_in_place_is_told_of_only_when_it_changed() {
    let mut cache = StateCache::new();
    cache.upsert_group(group("g1", Side::Blufor));
    let mut receiver = cache.subscribe_group_updates(None).2;
    cache.upsert_unit(unit_at("u1", "g1", 1.0));
    cache.upsert_unit(unit_at("u1", "g1", 1.0));
    cache.upsert_unit(unit_at("u1", "g1", 2.0));
    assert_eq!(told(drain(&mut receiver)), vec!["+g1:u1", "+g1:u1"]);
}

#[test]
fn zeros_of_either_sign_are_no_change() {
    let mut cache = StateCache::new();
    cache.upsert_group(group("g1", Side::Blufor));
    cache.upsert_unit(unit_at("u1", "g1", 0.0));
    let mut receiver = cache.subscribe_group_updates(None).2;
    cache.upsert_unit(unit_at("u1", "g1", -0.0));
    assert_eq!(told(drain(&mut receiver)), Vec::<String>::new());
}

#[test]
fn a_nan_is_told_of_every_time() {
    let mut cache = StateCache::new();
    cache.upsert_group(group("g1", Side::Blufor));
    cache.upsert_unit(unit_at("u1", "g1", f64::NAN));
    let mut receiver = cache.subscribe_group_updates(None).2;
    cache.upsert_unit(unit_at("u1", "g1", f64::NAN));
    assert_eq!(told(drain(&mut receiver)), vec!["+g1:u1"]);
}

#[test]
fn numbers_compare_as_doubles_do() {
    for (a, b) in [
        (1.0, 1.0),
        (0.0, -0.0),
        (1.0, -1.0),
        (f64::NAN, f64::NAN),
        (f64::INFINITY, f64::INFINITY),
        (f64::INFINITY, f64::NEG_INFINITY),
        (f64::MIN_POSITIVE, 0.0),
        (-f64::NAN, 1.0),
    ] {
        let (p, q) = (Real::from_bits(a.to_bits()), Real::from_bits(b.to_bits()));
        assert_eq!(p == q, a == b, "{a} and {b}");
        assert_eq!(p.to_bits(), a.to_bits());
    }
    assert_eq!(Real::default().to_bits(), 0.0f64.to_bits());
}

#[test]
fn upsert_group_ignores_units_in_the_message() {
    let mut cache = StateCache::new();
    cache.upsert_unit(unit("u1", "g1"));
    let mut message = group("g1", Side::Blufor);
    message.units = vec![unit("u9", "g1")];
    cache.upsert_group(message);
    let read = cache.get_group(&GroupId::from("g1")).expect("cached");
    assert_eq!(unit_ids(&read), vec!["u1"]);
    assert_eq!(cache.get_unit(&UnitId::from("u9")), None);
}

#[test]
fn taking_units_from_several_groups_tells_of_each() {
    let mut cache = StateCache::new();
    cache.upsert_group_with_units(group("g3", Side::Blufor), vec![unit("c", "g3")]);
    cache.upsert_group_with_units(group("g2", Side::Opfor), vec![unit("b", "g2"), unit("bb", "g2")]);
    cache.upsert_group_with_units(group("g1", Side::Blufor), vec![unit("a", "g1")]);
    let mut receiver = cache.subscribe_group_updates(None).2;
    cache.upsert_group_with_units(
        group("g1", Side::Civilian),
        vec![unit("c", "x"), unit("b", "y"), unit("new", "z")],
    );
    assert_eq!(
        drain(&mut receiver),
        vec![
            (4, "-g1".to_string()),
            (5, "+g1:b,c,new".to_string()),
            (6, "+g2:bb".to_string()),
            (7, "+g3:".to_string()),
        ]
    );
    assert_eq!(cache.get_unit(&UnitId::from("a")), None);
}

#[test]
fn the_last_of_units_with_one_id_counts() {
    let mut cache = StateCache::new();
    cache.upsert_group_with_units(
        group("g1", Side::Blufor),
        vec![unit_at("u1", "g1", 1.0), unit_at("u1", "g1", 2.0)],
    );
    let read = cache.get_group(&GroupId::from("g1")).expect("cached");
    assert_eq!(read.units, vec![unit_at("u1", "g1", 2.0)]);
}

#[test]
fn a_group_upserted_without_units_is_left_with_none() {
    let mut cache = StateCache::new();
    cache.upsert_group_with_units(group("g1", Side::Blufor), vec![unit("u1", "g1")]);
    cache.upsert_group_with_units(group("g1", Side::Blufor), Vec::new());
    let read = cache.get_group(&GroupId::from("g1")).expect("cached");
    assert_eq!(unit_ids(&read), Vec::<&str>::new());
    cache.upsert_unit(unit("u2", "g1"));
    let read = cache.get_group(&GroupId::from("g1")).expect("cached");
    assert_eq!(unit_ids(&read), vec!["u2"]);
}

#[test]
fn removing_a_group_tells_once_and_spares_other_units() {
    let mut cache = StateCache::new();
    cache.upsert_group_with_units(group("g1", Side::Blufor), vec![unit("u1", ""), unit("u2", "")]);
    cache.upsert_group_with_units(group("g2", Side::Blufor), vec![unit("u3", "")]);
    let mut receiver = cache.subscribe_group_updates(None).2;
    assert!(cache.remove_group(&GroupId::from("g1")).is_some());
    assert_eq!(cache.remove_group(&GroupId::from("g1")), None);
    assert_eq!(cache.remove_group(&GroupId::from("missing")), None);
    assert_eq!(drain(&mut receiver), vec![(3, "-g1".to_string())]);
    let left = cache.list_units(None, None);
    assert_eq!(left, vec![unit("u3", "g2")]);
}

#[test]
fn clear_tells_of_every_group_and_of_the_simulation() {
    let mut cache = StateCache::new();
    cache.upsert_group_with_units(group("g2", Side::Blufor), vec![unit("u1", "")]);
    cache.upsert_group(group("g1", Side::Opfor));
    cache.set_simulation_state(at_time(7));
    cache.set_simulation_info(SimulationInfo {
        world_name: "Altis".to_string(),
        ..Default::default()
    });
    cache.set_locations(vec![Location {
        id: "l1".to_string(),
        owner: 1,
        ..Default::default()
    }]);
    let mut groups = cache.subscribe_group_updates(None).2;
    let (state, number, mut simulation) = cache.subscribe_simulation_updates();
    assert_eq!(state, Some(at_time(7)));
    assert_eq!(number, 3);

    cache.clear();

    assert_eq!(
        drain(&mut groups),
        vec![(4, "-g1".to_string()), (5, "-g2".to_string())]
    );
    let event = simulation.try_recv().expect("reset");
    assert_eq!(event.sequence, 6);
    assert_eq!(event.response.state, None);
    assert_eq!(cache.sequence(), 6);
    assert_eq!(cache.list_groups(None), Vec::new());
    assert_eq!(cache.list_units(None, None), Vec::new());
    assert_eq!(cache.list_locations(None), Vec::new());
    assert_eq!(cache.simulation_info(), None);
    assert_eq!(cache.simulation_state(), None);
}

#[test]
fn a_receiver_starts_after_the_snapshot() {
    let mut cache = StateCache::new();
    cache.upsert_group(group("g1", Side::Blufor));
    let (snapshot, number, mut receiver) = cache.subscribe_group_updates(Some(Side::Blufor));
    assert_eq!(snapshot, vec![group("g1", Side::Blufor)]);
    assert_eq!(number, 1);
    assert!(matches!(receiver.try_recv(), Err(TryRecvError::Empty)));
    cache.upsert_group(group("g2", Side::Opfor));
    assert_eq!(drain(&mut receiver), vec![(2, "+g2:".to_string())]);
}

#[test]
fn a_receiver_keeps_as_many_events_as_the_capacity_says() {
    let mut cache = StateCache::new();
    let (_, _, mut receiver) = cache.subscribe_simulation_updates();
    for time in 0..256 {
        cache.set_simulation_state(at_time(time));
    }
    assert_eq!(receiver.try_recv().expect("kept").sequence, 1);
    cache.set_simulation_state(at_time(256));
    cache.set_simulation_state(at_time(257));
    assert!(matches!(receiver.try_recv(), Err(TryRecvError::Lagged(1))));
    assert_eq!(receiver.try_recv().expect("kept").sequence, 3);
}

#[test]
fn lists_are_in_the_order_of_ids() {
    let mut cache = StateCache::new();
    for id in ["b", "a", "", "ab", "\u{e9}", "Z"] {
        cache.upsert_group(group(id, Side::Blufor));
        cache.upsert_unit(unit(id, "a"));
    }
    let groups = cache.list_groups(None);
    let ids: Vec<&str> = groups.iter().map(|g| g.id.as_str()).collect();
    assert_eq!(ids, vec!["", "Z", "a", "ab", "b", "\u{e9}"]);
    let units = cache.list_units(None, None);
    let ids: Vec<&str> = units.iter().map(|u| u.id.as_str()).collect();
    assert_eq!(ids, vec!["", "Z", "a", "ab", "b", "\u{e9}"]);
    assert_eq!(unit_ids(&groups[2]), ids);
    assert_eq!(cache.group_count(), 6);
}

#[test]
fn locations_are_filtered_in_the_order_in_which_they_were_set() {
    let mut cache = StateCache::new();
    let location = |id: &str, owner: i32| Location {
        id: id.to_string(),
        owner,
        ..Default::default()
    };
    cache.set_locations(vec![location("l3", 1), location("l2", 2), location("l1", 1), location("l0", 99)]);
    let ids = |side: Option<Side>| -> Vec<String> {
        cache.list_locations(side).into_iter().map(|l| l.id).collect()
    };
    assert_eq!(ids(Some(Side::Blufor)), vec!["l3", "l1"]);
    assert_eq!(ids(Some(Side::Civilian)), Vec::<String>::new());
    assert_eq!(ids(None), vec!["l3", "l2", "l1", "l0"]);
}

#[test]
fn a_group_on_no_known_side_passes_no_filter() {
    let mut cache = StateCache::new();
    let mut stray = group("g1", Side::Blufor);
    stray.side = 42;
    cache.upsert_group_with_units(stray, vec![unit("u1", "")]);
    for side in [
        Side::Unspecified,
        Side::Blufor,
        Side::Opfor,
        Side::Independent,
        Side::Civilian,
    ] {
        assert_eq!(cache.list_groups(Some(side)), Vec::new());
        assert_eq!(cache.list_units(Some(side), None), Vec::new());
    }
    assert_eq!(cache.list_groups(None).len(), 1);
}

#[test]
fn side_numbers_round_trip() {
    for (code, side) in [
        (0, Side::Unspecified),
        (1, Side::Blufor),
        (2, Side::Opfor),
        (3, Side::Independent),
        (4, Side::Civilian),
    ] {
        assert_eq!(side.code(), code);
        assert_eq!(Side::try_from(code), Ok(side));
    }
    assert!(Side::try_from(5).is_err());
    assert!(Side::try_from(-1).is_err());
}

#[test]
fn a_change_in_the_rest_of_a_units_state_is_told_and_kept() {
    let mut cache = StateCache::new();
    cache.upsert_group(group("g1", Side::Blufor));
    let with_rest = |rest: Vec<u8>| Unit {
        state: Some(UnitState {
            position: Some(position(1.0, 2.0, 3.0)),
            rest,
        }),
        ..unit("u1", "g1")
    };
    cache.upsert_unit(with_rest(vec![1, 2]));
    let mut receiver = cache.subscribe_group_updates(None).2;
    cache.upsert_unit(with_rest(vec![1, 2]));
    cache.upsert_unit(with_rest(vec![1, 3]));
    cache.upsert_unit(with_rest(vec![1]));
    assert_eq!(told(drain(&mut receiver)), vec!["+g1:u1", "+g1:u1"]);
    assert_eq!(cache.get_unit(&UnitId::from("u1")), Some(with_rest(vec![1])));
}

#[test]
fn messages_come_back_whole() {
    let mut cache = StateCache::new();
    let info = SimulationInfo {
        world_name: "Altis".to_string(),
        rest: vec![7],
    };
    let state = SimulationStateUpdate {
        simulation_time: 1,
        rest: vec![8, 9],
    };
    let location = Location {
        id: "l1".to_string(),
        owner: 1,
        rest: vec![10],
    };
    let mut updates = cache.subscribe_simulation_updates().2;
    cache.set_simulation_info(info.clone());
    cache.set_simulation_state(state.clone());
    cache.set_locations(vec![location.clone()]);
    assert_eq!(cache.simulation_info(), Some(info));
    assert_eq!(cache.simulation_state(), Some(state.clone()));
    assert_eq!(cache.list_locations(None), vec![location]);
    assert_eq!(updates.try_recv().expect("told").response.state, Some(state));
}

#[test]
fn no_unit_outlives_a_reset() {
    let mut cache = StateCache::new();
    cache.upsert_unit(unit("u1", "g1"));
    let mut receiver = cache.subscribe_group_updates(None).2;
    cache.clear();
    cache.upsert_group(group("g1", Side::Blufor));
    assert_eq!(
        cache.get_group(&GroupId::from("g1")),
        Some(group("g1", Side::Blufor))
    );
    assert_eq!(told(drain(&mut receiver)), vec!["+g1:"]);
}

#[test]
fn removing_an_unknown_group_spares_units_that_name_it() {
    let mut cache = StateCache::new();
    cache.upsert_unit(unit("u1", "g1"));
    assert_eq!(cache.remove_group(&GroupId::from("g1")), None);
    assert_eq!(cache.get_unit(&UnitId::from("u1")), Some(unit("u1", "g1")));
    assert_eq!(cache.sequence(), 0);
}
