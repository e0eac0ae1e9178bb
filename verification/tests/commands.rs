use std::sync::Arc;
use std::time::Duration;

use minerva_server::commands::{settle, Waited};
use minerva_server::sending::{step, SendAction, SendEvent, Sending};
use minerva_server::proto::{
    CommandRequest, DefendZoneCommand, MoveCommand, PatrolCommand, Position, Real,
    SearchAndDestroyCommand, SendCommandRequest, SupportCommand,
};
use minerva_server::{
    Code, Command, CommandId, CommandOutcome, CommandSink, Dispatcher, GroupId, Status,
};
use tokio::sync::oneshot::error::TryRecvError;

fn oneof(command: CommandRequest) -> SendCommandRequest {
    SendCommandRequest {
        command: Some(command),
    }
}

fn expect_err(result: Result<Command, Status>) -> Status {
    match result {
        Ok(_) => panic!("expected an error"),
        Err(err) => err,
    }
}

fn position(x: f64, y: f64, z: f64) -> Position {
    Position {
        x: Real::from_bits(x.to_bits()),
        y: Real::from_bits(y.to_bits()),
        z: Real::from_bits(z.to_bits()),
    }
}

fn message(command: CommandRequest) -> String {
    let status = expect_err(Command::from_proto(oneof(command)));
    assert_eq!(status.code(), Code::InvalidArgument);
    status.message().to_string()
}

#[test]
fn from_proto_rejects_missing_command() {
    let err = expect_err(Command::from_proto(SendCommandRequest { command: None }));
    assert_eq!(err.code(), Code::InvalidArgument);
    assert_eq!(err.message(), "command is required");
}

#[test]
fn from_proto_rejects_empty_group_id() {
    let request = oneof(CommandRequest::Move(MoveCommand {
        position: Some(Position::default()),
        group_id: String::new(),
    }));
    assert_eq!(
        expect_err(Command::from_proto(request)).code(),
        Code::InvalidArgument
    );
}

#[test]
fn from_proto_rejects_empty_support_type() {
    let request = oneof(CommandRequest::Support(SupportCommand {
        supporter_group_id: "g1".to_string(),
        supported_group_id: "g2".to_string(),
        support_type: String::new(),
    }));
    assert_eq!(
        expect_err(Command::from_proto(request)).code(),
        Code::InvalidArgument
    );
}

#[test]
fn from_proto_rejects_move_without_position() {
    let request = oneof(CommandRequest::Move(MoveCommand {
        position: None,
        group_id: "g1".to_string(),
    }));
    assert_eq!(
        expect_err(Command::from_proto(request)).code(),
        Code::InvalidArgument
    );
}

#[test]
fn from_proto_rejects_patrol_without_waypoints() {
    let request = oneof(CommandRequest::Patrol(PatrolCommand {
        group_id: "g1".to_string(),
        waypoints: Vec::new(),
        repeat: false,
    }));
    assert_eq!(
        expect_err(Command::from_proto(request)).code(),
        Code::InvalidArgument
    );
}

#[test]
fn from_proto_accepts_valid_move() {
    let request = oneof(CommandRequest::Move(MoveCommand {
        position: Some(position(1.0, 2.0, 3.0)),
        group_id: "g1".to_string(),
    }));
    let command = match Command::from_proto(request) {
        Ok(command) => command,
        Err(err) => panic!("expected Ok, got {err:?}"),
    };
    assert_eq!(command.group_id(), &GroupId::from("g1"));
}

#[test]
fn support_group_id_is_the_supporter() {
    let command = Command::Support {
        supporter_group_id: GroupId::from("supporter"),
        supported_group_id: GroupId::from("supported"),
        support_type: "resupply".to_string(),
    };
    assert_eq!(command.group_id(), &GroupId::from("supporter"));
}

#[test]
fn from_proto_carries_every_field_over() {
    let parse = |command| Command::from_proto(oneof(command)).expect("valid");
    assert_eq!(
        parse(CommandRequest::Move(MoveCommand {
            position: Some(position(1.0, 2.0, 3.0)),
            group_id: "g1".to_string(),
        })),
        Command::Move {
            group_id: GroupId::from("g1"),
            position: position(1.0, 2.0, 3.0),
        }
    );
    assert_eq!(
        parse(CommandRequest::SearchAndDestroy(SearchAndDestroyCommand {
            position: Some(position(4.0, 5.0, 6.0)),
            group_id: "g1".to_string(),
        })),
        Command::SearchAndDestroy {
            group_id: GroupId::from("g1"),
            position: position(4.0, 5.0, 6.0),
        }
    );
    assert_eq!(
        parse(CommandRequest::DefendZone(DefendZoneCommand {
            group_id: "g1".to_string(),
            zone_id: "z1".to_string(),
            position: None,
        })),
        Command::DefendZone {
            group_id: GroupId::from("g1"),
            zone_id: "z1".to_string(),
            position: None,
        }
    );
    assert_eq!(
        parse(CommandRequest::Patrol(PatrolCommand {
            group_id: "g1".to_string(),
            waypoints: vec![position(1.0, 0.0, 0.0), position(2.0, 0.0, 0.0)],
            repeat: true,
        })),
        Command::Patrol {
            group_id: GroupId::from("g1"),
            waypoints: vec![position(1.0, 0.0, 0.0), position(2.0, 0.0, 0.0)],
            loop_: true,
        }
    );
    assert_eq!(
        parse(CommandRequest::Support(SupportCommand {
            supporter_group_id: "g1".to_string(),
            supported_group_id: "g2".to_string(),
            support_type: "resupply".to_string(),
        })),
        Command::Support {
            supporter_group_id: GroupId::from("g1"),
            supported_group_id: GroupId::from("g2"),
            support_type: "resupply".to_string(),
        }
    );
}

#[test]
fn from_proto_names_the_first_field_that_is_missing() {
    let text = |filled: bool, value: &str| {
        if filled {
            value.to_string()
        } else {
            String::new()
        }
    };
    assert_eq!(
        message(CommandRequest::Move(MoveCommand {
            position: None,
            group_id: String::new(),
        })),
        "group_id is required"
    );
    assert_eq!(
        message(CommandRequest::SearchAndDestroy(SearchAndDestroyCommand {
            position: None,
            group_id: "g1".to_string(),
        })),
        "position is required"
    );
    let defend = |zone, group| {
        message(CommandRequest::DefendZone(DefendZoneCommand {
            group_id: text(group, "g1"),
            zone_id: text(zone, "z1"),
            position: None,
        }))
    };
    assert_eq!(defend(false, false), "zone_id is required");
    assert_eq!(defend(true, false), "group_id is required");
    let patrol = |waypoints, group| {
        message(CommandRequest::Patrol(PatrolCommand {
            group_id: text(group, "g1"),
            waypoints,
            repeat: false,
        }))
    };
    assert_eq!(patrol(Vec::new(), false), "waypoints must not be empty");
    assert_eq!(patrol(vec![Position::default()], false), "group_id is required");
    let support = |supported, kind, supporter| {
        message(CommandRequest::Support(SupportCommand {
            supporter_group_id: text(supporter, "g1"),
            supported_group_id: text(supported, "g2"),
            support_type: text(kind, "resupply"),
        }))
    };
    assert_eq!(support(false, false, false), "supported_group_id is required");
    assert_eq!(support(true, false, false), "support_type is required");
    assert_eq!(support(true, true, false), "group_id is required");
}

#[test]
fn a_cloned_command_equals_it() {
    let command = Command::Patrol {
        group_id: GroupId::from("g1"),
        waypoints: vec![position(1.0, 2.0, 3.0)],
        loop_: true,
    };
    assert_eq!(command.clone(), command);
}

struct NoopSink;
impl CommandSink for NoopSink {
    fn dispatch(&self, _id: CommandId, _command: &Command) {}
}

fn dispatcher() -> Dispatcher<NoopSink> {
    Dispatcher::new(Arc::new(NoopSink), Duration::from_secs(5))
}

#[test]
fn complete_unknown_id_returns_false() {
    let mut dispatcher = Dispatcher::new(Arc::new(NoopSink), Duration::from_secs(5));
    assert!(!dispatcher.complete(CommandId::from(0), CommandOutcome::Success));
}

#[test]
fn send_resolves_on_complete() {
    let mut dispatcher = dispatcher();
    let (id, mut receiver) = dispatcher.register();
    assert!(matches!(receiver.try_recv(), Err(TryRecvError::Empty)));
    assert!(dispatcher.complete(id, CommandOutcome::Success));
    let outcome = receiver.try_recv().expect("acknowledged");
    assert_eq!(settle(Waited::Acknowledged(outcome)), CommandOutcome::Success);
}

#[test]
fn send_times_out_without_ack() {
    assert_eq!(
        settle(Waited::Elapsed),
        CommandOutcome::Failure("timeout".to_string())
    );
}

#[test]
fn cancel_all_fails_pending_commands() {
    let mut dispatcher = dispatcher();
    let (first, mut first_receiver) = dispatcher.register();
    let (_, mut second_receiver) = dispatcher.register();
    dispatcher.cancel_all();
    for receiver in [&mut first_receiver, &mut second_receiver] {
        assert_eq!(
            receiver.try_recv(),
            Ok(CommandOutcome::Failure("cancelled".to_string()))
        );
    }
    assert_eq!(dispatcher.pending_len(), 0);
    assert!(!dispatcher.complete(first, CommandOutcome::Success));
}

#[test]
fn send_removes_pending_entry_if_dropped_before_completion() {
    let mut dispatcher = dispatcher();
    let (id, mut receiver) = dispatcher.register();
    assert_eq!(dispatcher.pending_len(), 1);

    dispatcher.discard(id);
    assert_eq!(dispatcher.pending_len(), 0);
    assert!(matches!(receiver.try_recv(), Err(TryRecvError::Closed)));
    assert_eq!(
        settle(Waited::Dropped),
        CommandOutcome::Failure("cancelled".to_string())
    );
}

#[test]
fn complete_is_not_reusable_after_first_ack() {
    let mut dispatcher = dispatcher();
    let (id, mut receiver) = dispatcher.register();

    assert!(dispatcher.complete(id, CommandOutcome::Success));
    assert!(!dispatcher.complete(id, CommandOutcome::Success));

    assert_eq!(receiver.try_recv(), Ok(CommandOutcome::Success));
}

#[test]
fn completing_one_command_leaves_the_others_waiting() {
    let mut dispatcher = dispatcher();
    let (first, mut first_receiver) = dispatcher.register();
    let (second, mut second_receiver) = dispatcher.register();
    assert_ne!(first, second);
    let failed = CommandOutcome::Failure("no fuel".to_string());
    assert!(dispatcher.complete(second, failed.clone()));
    assert_eq!(second_receiver.try_recv(), Ok(failed));
    assert!(matches!(first_receiver.try_recv(), Err(TryRecvError::Empty)));
    assert!(dispatcher.complete(first, CommandOutcome::Success));
    assert_eq!(first_receiver.try_recv(), Ok(CommandOutcome::Success));
}

#[test]
fn completing_a_command_nobody_waits_for_is_still_known() {
    let mut dispatcher = dispatcher();
    let (id, receiver) = dispatcher.register();
    drop(receiver);
    assert!(dispatcher.complete(id, CommandOutcome::Success));
}

#[test]
fn a_dispatcher_keeps_its_sink_and_timeout() {
    let sink: Arc<dyn CommandSink> = Arc::new(NoopSink);
    let dispatcher = Dispatcher::new(sink.clone(), Duration::from_millis(20));
    assert!(Arc::ptr_eq(&dispatcher.sink(), &sink));
    assert_eq!(dispatcher.timeout(), Duration::from_millis(20));
    assert_eq!(dispatcher.pending_len(), 0);
}

#[test]
fn a_discarded_command_is_unknown() {
    let mut dispatcher = dispatcher();
    let (id, _receiver) = dispatcher.register();
    dispatcher.discard(id);
    assert!(!dispatcher.complete(id, CommandOutcome::Success));
    let (next, _) = dispatcher.register();
    assert_ne!(next, id);
}

/// Records what it is told of.
struct RecordingSink {
    told: std::sync::Mutex<Vec<(CommandId, Command)>>,
}
impl CommandSink for RecordingSink {
    fn dispatch(&self, id: CommandId, command: &Command) {
        self.told.lock().unwrap().push((id, command.clone()));
    }
}

#[test]
fn a_whole_send_tells_the_sink_once_under_the_registered_id() {
    let sink = Arc::new(RecordingSink {
        told: std::sync::Mutex::new(Vec::new()),
    });
    let mut dispatcher = Dispatcher::new(sink.clone(), Duration::from_secs(5));
    let command = Command::Move {
        group_id: GroupId::from("g1"),
        position: position(1.0, 2.0, 3.0),
    };

    let (state, action) = step(Sending::New, SendEvent::Called);
    assert!(matches!(action, SendAction::Register));
    let (registered, mut receiver) = dispatcher.register();
    let (state, action) = step(state, SendEvent::Registered(registered));
    let id = match action {
        SendAction::Dispatch(id) => id,
        other => panic!("expected a dispatch, got {other:?}"),
    };
    assert_eq!(id, registered);
    dispatcher.sink().dispatch(id, &command);
    assert!(dispatcher.complete(id, CommandOutcome::Success));
    let (state, action) = step(state, SendEvent::Dispatched);
    assert!(matches!(action, SendAction::Wait));
    let waited = Waited::Acknowledged(receiver.try_recv().expect("acknowledged"));
    let (state, action) = step(state, SendEvent::Ended(waited));
    assert!(matches!(action, SendAction::Return(CommandOutcome::Success)));
    let (state, action) = step(state, SendEvent::Dropped);
    match action {
        SendAction::Discard(id) => dispatcher.discard(id),
        other => panic!("expected a discard, got {other:?}"),
    }
    assert_eq!(state, Sending::Over);
    assert_eq!(dispatcher.pending_len(), 0);
    assert_eq!(*sink.told.lock().unwrap(), vec![(registered, command)]);
}

#[test]
fn a_send_that_is_given_up_discards_what_it_registered() {
    let id = CommandId::from(7);
    for state in [Sending::Dispatching(id), Sending::Waiting(id), Sending::Settled(id)] {
        let (next, action) = step(state, SendEvent::Dropped);
        assert_eq!(next, Sending::Over);
        assert!(matches!(action, SendAction::Discard(found) if found == id));
    }
    for state in [Sending::New, Sending::Registering, Sending::Over] {
        let (next, action) = step(state, SendEvent::Dropped);
        assert_eq!(next, Sending::Over);
        assert!(matches!(action, SendAction::Nothing));
    }
}

#[test]
fn events_out_of_place_change_nothing_about_a_send() {
    let id = CommandId::from(7);
    for event in [
        SendEvent::Called,
        SendEvent::Registered(CommandId::from(8)),
        SendEvent::Dispatched,
    ] {
        let (next, action) = step(Sending::Waiting(id), event);
        assert_eq!(next, Sending::Waiting(id));
        assert!(matches!(action, SendAction::Nothing));
    }
    let (next, action) = step(Sending::New, SendEvent::Ended(Waited::Elapsed));
    assert_eq!(next, Sending::New);
    assert!(matches!(action, SendAction::Nothing));
}

#[test]
fn discarding_one_command_leaves_the_others_waiting() {
    let mut dispatcher = dispatcher();
    let (first, _) = dispatcher.register();
    let (second, mut receiver) = dispatcher.register();
    dispatcher.discard(first);
    assert!(dispatcher.complete(second, CommandOutcome::Success));
    assert_eq!(receiver.try_recv(), Ok(CommandOutcome::Success));
}
