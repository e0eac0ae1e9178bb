use std::collections::BTreeMap;
use std::sync::Arc;
use std::time::Duration;

use minerva_server::commands::{settle, Waited};
use minerva_server::events::GroupEvent;
use minerva_server::proto::{
    CommandRequest, CommandResult, Group, GroupUpdate, Location, MoveCommand, Position, Real,
    SendCommandRequest, Side, SimulationInfo, SimulationStateUpdate, SubscribeGroupUpdatesResponse,
    Unit, UnitState,
};
use minerva_server::server::{readiness, Lifecycle, NotReady};
use minerva_server::services::command::{accept, report, Acceptance};
use minerva_server::services::group::{
    get_group, list_groups, on_group_update, snapshot_responses, subscribe_group_updates,
};
use minerva_server::services::location::list_locations;
use minerva_server::services::simulation::{
    get_simulation_info, on_simulation_update, snapshot_response, subscribe_simulation_updates,
};
use minerva_server::services::unit::{get_unit, list_units};
use minerva_server::services::{parse_side, Received, Step};
use minerva_server::{
    Code, Command, CommandId, CommandOutcome, CommandSink, Dispatcher, StateCache, UnitId,
};
use tokio::sync::broadcast::error::TryRecvError;
use tokio::sync::broadcast::Receiver;

fn position(x: f64, y: f64, z: f64) -> Position {
    Position {
        x: Real::from_bits(x.to_bits()),
        y: Real::from_bits(y.to_bits()),
        z: Real::from_bits(z.to_bits()),
    }
}

fn a_unit(id: &str, group_id: &str, position: Position) -> Unit {
    Unit {
        id: id.to_string(),
        group_id: group_id.to_string(),
        category: 0,
        kind: "B_Soldier_F".to_string(),
        state: Some(UnitState {
            position: Some(position),
            ..Default::default()
        }),
    }
}

fn a_group(id: &str, side: Side) -> Group {
    Group {
        id: id.to_string(),
        side: side.code(),
        readiness: None,
        has_task: false,
        waypoints: Vec::new(),
        units: Vec::new(),
    }
}

fn a_move(group_id: &str) -> SendCommandRequest {
    SendCommandRequest {
        command: Some(CommandRequest::Move(MoveCommand {
            position: Some(position(1.0, 2.0, 3.0)),
            group_id: group_id.to_string(),
        })),
    }
}

fn next(receiver: &mut Receiver<GroupEvent>) -> Received<GroupEvent> {
    match receiver.try_recv() {
        Ok(event) => Received::Event(event),
        Err(TryRecvError::Lagged(_)) => Received::Lagged,
        Err(TryRecvError::Closed) => Received::Closed,
        Err(TryRecvError::Empty) => Received::Disconnected,
    }
}

struct NoopSink;
impl CommandSink for NoopSink {
    fn dispatch(&self, _id: CommandId, _command: &Command) {}
}

#[test]
fn aborts_a_lagged_subscriber() {
    let mut cache = StateCache::new();
    let (_, _, mut updates) = cache.subscribe_group_updates(None);
    // Every side flip re-broadcasts (a removal plus an upsert), so this
    // overflows the broadcast buffer regardless of its exact capacity,
    // without `updates` ever being read.
    for i in 0..300 {
        let side = if i % 2 == 0 { Side::Opfor } else { Side::Blufor };
        cache.upsert_group(a_group("g1", side));
    }

    let status = match on_group_update(0, None, next(&mut updates)) {
        Step::Abort(status) => status,
        other => panic!("expected an aborted response, got {other:?}"),
    };
    assert_eq!(status.code(), Code::Aborted);
    assert_eq!(status.message(), "subscriber lagged; resubscribe");
}

#[test]
fn upsert_unit_is_visible_via_get_and_list() {
    let mut cache = StateCache::new();
    let position = position(100.0, 200.0, 300.0);
    cache.upsert_unit(a_unit("u1", "g1", position));

    let got_unit = get_unit(&cache, "u1").expect("cached");
    assert_eq!(got_unit.state.and_then(|s| s.position), Some(position));

    let listed = list_units(&cache, None, Some("g1".to_string())).expect("listed");
    assert_eq!(listed.len(), 1);
    assert_eq!(listed[0].id, "u1");
}

#[test]
fn grpc_list_groups_filters_by_side() {
    let mut cache = StateCache::new();
    cache.upsert_group(a_group("g1", Side::Blufor));
    cache.upsert_group(a_group("g2", Side::Opfor));

    let blufor = list_groups(&cache, Some(Side::Blufor.code())).expect("listed");
    assert_eq!(
        blufor.iter().map(|g| g.id.as_str()).collect::<Vec<_>>(),
        vec!["g1"]
    );

    let all = list_groups(&cache, None).expect("listed");
    assert_eq!(all.len(), 2);
}

#[test]
fn subscribe_group_updates_yields_snapshot_then_update() {
    let mut cache = StateCache::new();
    cache.upsert_group(a_group("g1", Side::Blufor));

    let mut subscription = subscribe_group_updates(&cache, None).expect("subscribed");
    let opening = snapshot_responses(subscription.snapshot);
    assert_eq!(
        opening,
        vec![SubscribeGroupUpdatesResponse {
            event: Some(GroupUpdate::Upserted(a_group("g1", Side::Blufor)))
        }]
    );

    cache.upsert_group(a_group("g2", Side::Opfor));
    match on_group_update(
        subscription.snapshot_sequence,
        subscription.side,
        next(&mut subscription.updates),
    ) {
        Step::Send(response) => assert_eq!(
            response.event,
            Some(GroupUpdate::Upserted(a_group("g2", Side::Opfor)))
        ),
        other => panic!("expected an update, got {other:?}"),
    }
}

#[test]
fn list_locations_filters_by_owner_side() {
    let mut cache = StateCache::new();
    cache.set_locations(vec![
        Location {
            id: "l1".to_string(),
            owner: Side::Blufor.code(),
            ..Default::default()
        },
        Location {
            id: "l2".to_string(),
            owner: Side::Opfor.code(),
            ..Default::default()
        },
    ]);

    let blufor = list_locations(&cache, Some(Side::Blufor.code())).expect("listed");
    assert_eq!(
        blufor.iter().map(|l| l.id.as_str()).collect::<Vec<_>>(),
        vec!["l1"]
    );

    let all = list_locations(&cache, None).expect("listed");
    assert_eq!(all.len(), 2);
}

#[test]
fn get_simulation_info_and_subscribe_updates() {
    let mut cache = StateCache::new();
    cache.set_simulation_info(SimulationInfo {
        world_name: "Altis".to_string(),
        ..Default::default()
    });
    let info = get_simulation_info(&cache).expect("set");
    assert_eq!(info.world_name, "Altis");

    cache.set_simulation_state(SimulationStateUpdate {
        simulation_time: 1,
        ..Default::default()
    });
    let mut subscription = subscribe_simulation_updates(&cache);
    let snapshot = snapshot_response(subscription.snapshot).expect("a state");
    assert_eq!(snapshot.state.map(|s| s.simulation_time), Some(1));

    cache.set_simulation_state(SimulationStateUpdate {
        simulation_time: 2,
        ..Default::default()
    });
    let event = subscription.updates.try_recv().expect("an update");
    match on_simulation_update(subscription.snapshot_sequence, Received::Event(event)) {
        Step::Send(update) => assert_eq!(update.state.map(|s| s.simulation_time), Some(2)),
        other => panic!("expected an update, got {other:?}"),
    }
}

#[test]
fn send_command_acked_returns_success() {
    let mut cache = StateCache::new();
    cache.upsert_group(a_group("g1", Side::Blufor));
    let mut dispatcher = Dispatcher::new(Arc::new(NoopSink), Duration::from_secs(5));

    let dispatched = match accept(&cache, a_move("g1")) {
        Ok(Acceptance::Dispatch(command)) => command,
        other => panic!("expected a dispatch, got {other:?}"),
    };
    assert_eq!(dispatched.group_id().as_str(), "g1");
    let (id, mut receiver) = dispatcher.register();
    assert!(dispatcher.complete(id, CommandOutcome::Success));
    let outcome = settle(Waited::Acknowledged(receiver.try_recv().expect("acknowledged")));

    let response = report(outcome);
    assert_eq!(response.result, CommandResult::Success);
    assert_eq!(response.reason, "");
}

#[test]
fn send_command_without_ack_times_out() {
    let mut cache = StateCache::new();
    cache.upsert_group(a_group("g1", Side::Blufor));
    let mut dispatcher = Dispatcher::new(Arc::new(NoopSink), Duration::from_millis(100));
    assert!(matches!(
        accept(&cache, a_move("g1")),
        Ok(Acceptance::Dispatch(_))
    ));
    let (id, mut receiver) = dispatcher.register();
    assert!(receiver.try_recv().is_err());
    dispatcher.discard(id);

    let response = report(settle(Waited::Elapsed));
    assert_eq!(response.result, CommandResult::Failure);
    assert_eq!(response.reason, "timeout");
}

#[test]
fn send_command_unknown_group_fails_without_dispatch() {
    let cache = StateCache::new();
    match accept(&cache, a_move("no-such-group")) {
        Ok(Acceptance::Answer(response)) => {
            assert_eq!(response.result, CommandResult::Failure);
            assert_eq!(response.reason, "unknown group no-such-group");
        }
        other => panic!("unknown group must not be dispatched to the sink, got {other:?}"),
    }
}

#[test]
fn an_incomplete_command_is_refused_before_its_group_is_looked_up() {
    let cache = StateCache::new();
    let status = accept(&cache, SendCommandRequest { command: None }).expect_err("incomplete");
    assert_eq!(status.code(), Code::InvalidArgument);
    assert_eq!(status.message(), "command is required");
}

#[test]
fn unknown_sides_are_refused() {
    let cache = StateCache::new();
    assert_eq!(parse_side(None), Ok(None));
    assert_eq!(parse_side(Some(3)), Ok(Some(Side::Independent)));
    let refusals = [
        parse_side(Some(5)).expect_err("no side"),
        list_groups(&cache, Some(-1)).expect_err("no side"),
        list_units(&cache, Some(99), None).expect_err("no side"),
        list_locations(&cache, Some(i32::MAX)).expect_err("no side"),
    ];
    for status in refusals {
        assert_eq!(status.code(), Code::InvalidArgument);
        assert_eq!(status.message(), "invalid side");
    }
    assert!(subscribe_group_updates(&cache, Some(7)).is_err());
}

#[test]
fn what_is_not_cached_is_not_found() {
    let cache = StateCache::new();
    let status = get_group(&cache, "g1").expect_err("missing");
    assert_eq!(status.code(), Code::NotFound);
    assert_eq!(status.message(), "group g1 not found");
    let status = get_unit(&cache, "u1").expect_err("missing");
    assert_eq!(status.code(), Code::NotFound);
    assert_eq!(status.message(), "unit u1 not found");
    let status = get_simulation_info(&cache).expect_err("not set");
    assert_eq!(status.code(), Code::Unavailable);
    assert_eq!(status.message(), "simulation info not set");
}

#[test]
fn a_cached_group_is_found_with_its_units() {
    let mut cache = StateCache::new();
    let unit = a_unit("u1", "g1", position(1.0, 2.0, 3.0));
    cache.upsert_group_with_units(a_group("g1", Side::Blufor), vec![unit.clone()]);
    assert_eq!(get_group(&cache, "g1").expect("cached").units, vec![unit]);
}

#[test]
fn units_are_listed_by_side_and_group() {
    let mut cache = StateCache::new();
    cache.upsert_group_with_units(
        a_group("g1", Side::Blufor),
        vec![a_unit("u1", "", position(0.0, 0.0, 0.0))],
    );
    cache.upsert_group_with_units(
        a_group("g2", Side::Opfor),
        vec![a_unit("u2", "", position(0.0, 0.0, 0.0))],
    );
    let ids = |side: Option<i32>, group: Option<&str>| -> Vec<String> {
        list_units(&cache, side, group.map(str::to_string))
            .expect("listed")
            .into_iter()
            .map(|u| u.id)
            .collect()
    };
    assert_eq!(ids(None, None), vec!["u1", "u2"]);
    assert_eq!(ids(Some(2), None), vec!["u2"]);
    assert_eq!(ids(None, Some("g1")), vec!["u1"]);
    assert_eq!(ids(Some(2), Some("g1")), Vec::<String>::new());
}

#[test]
fn events_up_to_the_snapshot_are_not_forwarded() {
    let mut cache = StateCache::new();
    let (_, _, mut early) = cache.subscribe_group_updates(None);
    cache.upsert_group(a_group("g1", Side::Blufor));
    let snapshot_sequence = cache.sequence();
    cache.upsert_group(a_group("g2", Side::Blufor));
    assert!(matches!(
        on_group_update(snapshot_sequence, None, next(&mut early)),
        Step::Wait
    ));
    assert!(matches!(
        on_group_update(snapshot_sequence, None, next(&mut early)),
        Step::Send(_)
    ));
}

#[test]
fn upserts_are_filtered_by_side_and_removals_are_not() {
    let mut cache = StateCache::new();
    let (_, _, mut updates) = cache.subscribe_group_updates(None);
    cache.upsert_group(a_group("g1", Side::Blufor));
    cache.remove_group(&"g1".into());
    let filter = Some(Side::Opfor);
    assert!(matches!(on_group_update(0, filter, next(&mut updates)), Step::Wait));
    match on_group_update(0, filter, next(&mut updates)) {
        Step::Send(response) => {
            assert_eq!(response.event, Some(GroupUpdate::RemovedId("g1".to_string())))
        }
        other => panic!("expected a removal, got {other:?}"),
    }
    let blank = GroupEvent {
        sequence: 1,
        response: SubscribeGroupUpdatesResponse { event: None },
    };
    assert!(matches!(
        on_group_update(0, filter, Received::Event(blank)),
        Step::Send(_)
    ));
}

#[test]
fn a_subscriber_stops_when_there_is_no_more() {
    assert!(matches!(on_group_update(0, None, Received::Closed), Step::Stop));
    assert!(matches!(on_group_update(0, None, Received::Disconnected), Step::Stop));
    assert!(matches!(on_simulation_update(0, Received::Closed), Step::Stop));
    assert!(matches!(on_simulation_update(0, Received::Disconnected), Step::Stop));
}

#[test]
fn aborts_a_lagged_simulation_subscriber() {
    let mut cache = StateCache::new();
    let (_, _, mut updates) = cache.subscribe_simulation_updates();
    for simulation_time in 0..257 {
        cache.set_simulation_state(SimulationStateUpdate {
            simulation_time,
            ..Default::default()
        });
    }
    let received = match updates.try_recv() {
        Ok(event) => Received::Event(event),
        Err(TryRecvError::Lagged(_)) => Received::Lagged,
        Err(_) => Received::Disconnected,
    };
    let status = match on_simulation_update(0, received) {
        Step::Abort(status) => status,
        other => panic!("expected an aborted response, got {other:?}"),
    };
    assert_eq!(status.code(), Code::Aborted);
    assert_eq!(status.message(), "subscriber lagged; resubscribe");
}

#[test]
fn a_simulation_subscriber_ends_up_with_the_state() {
    let mut cache = StateCache::new();
    let (_, _, mut updates) = cache.subscribe_simulation_updates();
    for simulation_time in 0..256 {
        cache.set_simulation_state(SimulationStateUpdate {
            simulation_time,
            ..Default::default()
        });
    }
    let mut known = None;
    let mut sent = 0;
    while let Ok(event) = updates.try_recv() {
        // The first ten events are in the snapshot.
        match on_simulation_update(10, Received::Event(event)) {
            Step::Send(response) => {
                known = response.state;
                sent += 1;
            }
            Step::Wait => {}
            other => panic!("expected an update, got {other:?}"),
        }
    }
    assert_eq!(sent, 246);
    assert_eq!(known, cache.simulation_state());
    assert_eq!(snapshot_response(None), None);
}

#[test]
fn a_subscriber_to_a_side_ends_up_with_the_groups_of_that_side() {
    let mut cache = StateCache::new();
    cache.upsert_group(a_group("g0", Side::Opfor));
    cache.upsert_group(a_group("g1", Side::Blufor));
    let mut subscription = subscribe_group_updates(&cache, Some(Side::Blufor.code())).expect("known");
    let mut known: BTreeMap<String, Group> = BTreeMap::new();
    let redraw = |known: &mut BTreeMap<String, Group>, response: SubscribeGroupUpdatesResponse| {
        match response.event {
            Some(GroupUpdate::Upserted(group)) => {
                known.insert(group.id.clone(), group);
            }
            Some(GroupUpdate::RemovedId(id)) => {
                known.remove(&id);
            }
            None => {}
        }
    };
    for response in snapshot_responses(subscription.snapshot) {
        redraw(&mut known, response);
    }
    let here = position(1.0, 2.0, 3.0);
    cache.upsert_group_with_units(a_group("g2", Side::Blufor), vec![a_unit("u1", "", here)]);
    cache.upsert_group(a_group("g1", Side::Opfor));
    cache.upsert_group(a_group("g0", Side::Blufor));
    cache.upsert_group_with_units(a_group("g0", Side::Blufor), vec![a_unit("u1", "", here)]);
    cache.upsert_unit(a_unit("u2", "g2", here));
    cache.remove_unit(&UnitId::from("u1"));
    loop {
        match on_group_update(
            subscription.snapshot_sequence,
            subscription.side,
            next(&mut subscription.updates),
        ) {
            Step::Send(response) => redraw(&mut known, response),
            Step::Wait => {}
            _ => break,
        }
    }
    let known: Vec<Group> = known.into_values().collect();
    assert_eq!(known, cache.list_groups(Some(Side::Blufor)));
    assert_eq!(known.len(), 2);

    cache.clear();
    let mut left = known.len();
    while let Step::Send(_) = on_group_update(
        subscription.snapshot_sequence,
        subscription.side,
        next(&mut subscription.updates),
    ) {
        left = left.saturating_sub(1);
    }
    assert_eq!(left, 0);
}

#[test]
fn reports_carry_the_reason_of_a_failure() {
    let response = report(CommandOutcome::Failure("cancelled".to_string()));
    assert_eq!(response.result, CommandResult::Failure);
    assert_eq!(response.reason, "cancelled");
}

#[test]
fn a_server_is_stopped_once() {
    let mut life = Lifecycle::started("signal", 7);
    assert_eq!(life.stop(), (Some("signal"), Some(7)));
    assert_eq!(life.stop(), (None, None));
}

#[test]
fn a_server_is_ready_when_its_thread_says_so() {
    assert_eq!(readiness::<u16, String>(Some(Ok(80))), Ok(80));
    assert_eq!(
        readiness::<u16, String>(Some(Err("in use".to_string()))),
        Err(NotReady::Failed("in use".to_string()))
    );
    assert_eq!(readiness::<u16, String>(None), Err(NotReady::Exited));
}
