//! What requests are answered, and what subscribers are sent.

use tokio::sync::oneshot;
use vstd::prelude::*;

use crate::commands::{
    CommandOutcome, CommandOutcomeView, CommandView, DispatcherView, Waited,
};
use crate::events::{GroupEventView, SimulationEventView};
use crate::ids::CommandId;
use crate::model::{CacheView, Stored};
use crate::proto::{
    CommandRequest, CommandResult, GroupUpdateView, GroupView, LocationView, SendCommandRequest,
    Side, SimulationStateUpdateView, UnitView,
};
use crate::services::command::AcceptanceView;
use crate::services::{ReceivedView, StepView};
use crate::status::Code;

verus! {

/// Law: a request is accepted if and only if nothing that its kind of command needs is
/// missing, and yields a command of its own kind with every field carried over.
pub proof fn law_accepted_requests_are_carried_over(request: SendCommandRequest)
    ensures
        ({
            let answer = crate::commands::parsed(request);
            match request.command {
                None => answer is Err,
                Some(CommandRequest::Move(c)) => {
                    &&& answer is Ok <==> c.group_id@.len() > 0 && c.position is Some
                    &&& answer is Ok ==> answer->Ok_0 == (CommandView::Move {
                        group_id: c.group_id@,
                        position: c.position->0,
                    })
                },
                Some(CommandRequest::SearchAndDestroy(c)) => {
                    &&& answer is Ok <==> c.group_id@.len() > 0 && c.position is Some
                    &&& answer is Ok ==> answer->Ok_0 == (CommandView::SearchAndDestroy {
                        group_id: c.group_id@,
                        position: c.position->0,
                    })
                },
                Some(CommandRequest::DefendZone(c)) => {
                    &&& answer is Ok <==> c.group_id@.len() > 0 && c.zone_id@.len() > 0
                    &&& answer is Ok ==> answer->Ok_0 == (CommandView::DefendZone {
                        group_id: c.group_id@,
                        zone_id: c.zone_id@,
                        position: c.position,
                    })
                },
                Some(CommandRequest::Patrol(c)) => {
                    &&& answer is Ok <==> c.group_id@.len() > 0 && c.waypoints@.len() > 0
                    &&& answer is Ok ==> answer->Ok_0 == (CommandView::Patrol {
                        group_id: c.group_id@,
                        waypoints: c.waypoints@,
                        loop_: c.repeat,
                    })
                },
                Some(CommandRequest::Support(c)) => {
                    &&& answer is Ok <==> c.supporter_group_id@.len() > 0 && c.supported_group_id@.len() > 0
                        && c.support_type@.len() > 0
                    &&& answer is Ok ==> answer->Ok_0 == (CommandView::Support {
                        supporter_group_id: c.supporter_group_id@,
                        supported_group_id: c.supported_group_id@,
                        support_type: c.support_type@,
                    })
                },
            }
        }),
{
}

/// The field that a message calls missing is missing from the request.
pub open spec fn is_missing(request: SendCommandRequest, message: Seq<char>) -> bool {
    match request.command {
        None => message == "command is required"@,
        Some(CommandRequest::Move(c)) => {
            ||| message == "group_id is required"@ && c.group_id@.len() == 0
            ||| message == "position is required"@ && c.group_id@.len() > 0 && c.position is None
        },
        Some(CommandRequest::SearchAndDestroy(c)) => {
            ||| message == "group_id is required"@ && c.group_id@.len() == 0
            ||| message == "position is required"@ && c.group_id@.len() > 0 && c.position is None
        },
        Some(CommandRequest::DefendZone(c)) => {
            ||| message == "zone_id is required"@ && c.zone_id@.len() == 0
            ||| message == "group_id is required"@ && c.zone_id@.len() > 0 && c.group_id@.len() == 0
        },
        Some(CommandRequest::Patrol(c)) => {
            ||| message == "waypoints must not be empty"@ && c.waypoints@.len() == 0
            ||| message == "group_id is required"@ && c.waypoints@.len() > 0 && c.group_id@.len() == 0
        },
        Some(CommandRequest::Support(c)) => {
            ||| message == "supported_group_id is required"@ && c.supported_group_id@.len() == 0
            ||| message == "support_type is required"@ && c.supported_group_id@.len() > 0
                && c.support_type@.len() == 0
            ||| message == "group_id is required"@ && c.supported_group_id@.len() > 0 && c.support_type@.len() > 0
                && c.supporter_group_id@.len() == 0
        },
    }
}

/// Law: a refused request is answered that its argument is invalid, with a message
/// that names the first field that is missing.
pub proof fn law_refusals_name_what_is_missing(request: SendCommandRequest)
    ensures
        crate::commands::parsed(request) is Err ==> {
            let status = crate::commands::parsed(request)->Err_0;
            status.code == Code::InvalidArgument && is_missing(request, status.message)
        },
{
}

/// Law: a command is for the group that it names; a support command for the
/// supporter.
pub proof fn law_commands_are_for_the_group_they_name(command: CommandView)
    ensures
        match command {
            CommandView::Move { group_id, .. } => crate::commands::addressee(command) == group_id,
            CommandView::SearchAndDestroy { group_id, .. } => crate::commands::addressee(command) == group_id,
            CommandView::DefendZone { group_id, .. } => crate::commands::addressee(command) == group_id,
            CommandView::Patrol { group_id, .. } => crate::commands::addressee(command) == group_id,
            CommandView::Support { supporter_group_id, .. } => crate::commands::addressee(command)
                == supporter_group_id,
        },
{
}

/// Law: a request that is refused stays refused; a command for a cached group goes to
/// the engine, unchanged; any other is answered with a failure that names the group.
pub proof fn law_requests_go_to_the_engine_if_their_group_is_cached(
    groups: Set<Seq<char>>,
    request: SendCommandRequest,
)
    ensures
        ({
            let parsed = crate::commands::parsed(request);
            let accepted = crate::services::command::accepted(groups, request);
            match parsed {
                Err(status) => accepted is Err && accepted->Err_0 == status,
                Ok(command) => {
                    let id = crate::commands::addressee(command);
                    &&& accepted is Ok
                    &&& groups.contains(id) ==> accepted->Ok_0 == AcceptanceView::Dispatch(command)
                    &&& !groups.contains(id) ==> {
                        &&& accepted->Ok_0 is Answer
                        &&& accepted->Ok_0->Answer_0.result == CommandResult::Failure
                        &&& accepted->Ok_0->Answer_0.reason == "unknown group "@ + id
                    }
                },
            }
        }),
{
}

/// Law: a client is told success, without a reason, if and only if its command
/// succeeded; of a failure it is told the reason.
pub proof fn law_outcomes_are_reported(outcome: CommandOutcomeView)
    ensures
        ({
            let response = crate::services::command::reported(outcome);
            match outcome {
                CommandOutcomeView::Success => response.result == CommandResult::Success && response.reason.len()
                    == 0,
                CommandOutcomeView::Failure(reason) => response.result == CommandResult::Failure
                    && response.reason == reason,
            }
        }),
{
}

/// Law: a wait that brought an outcome comes to that outcome; one whose sender is gone
/// to the failure "cancelled"; one that took too long to the failure "timeout".
pub proof fn law_waits_come_to_what_ended_them(outcome: CommandOutcome)
    ensures
        crate::commands::settled(Waited::Acknowledged(outcome)) == outcome@,
        crate::commands::settled(Waited::Dropped) == CommandOutcomeView::Failure("cancelled"@),
        crate::commands::settled(Waited::Elapsed) == CommandOutcomeView::Failure("timeout"@),
        crate::commands::cancelled() == CommandOutcomeView::Failure("cancelled"@),
{
}

/// All commands but `id` wait as before.
pub open spec fn others_wait(a: DispatcherView, id: u64, b: DispatcherView) -> bool {
    forall|other: u64|
        other != id ==> (#[trigger] b.pending.contains_key(other) <==> a.pending.contains_key(other)) && (
        a.pending.contains_key(other) ==> b.pending[other] == a.pending[other])
}

/// Law: a registration gives the next id, goes on to the one after it (0 after the
/// largest), and makes just that command wait, at the receiver that it gives.
pub proof fn law_registration_makes_one_command_wait(
    a: DispatcherView,
    id: CommandId,
    receiver: oneshot::Receiver<CommandOutcome>,
    b: DispatcherView,
)
    requires
        crate::commands::registered(a, id, receiver, b),
    ensures
        id@ == a.next,
        b.next == if a.next == u64::MAX {
            0
        } else {
            a.next + 1
        },
        b.timeout == a.timeout,
        b.pending.contains_key(id@),
        crate::commands::sent_to(receiver) == crate::commands::sent_through(b.pending[id@]),
        others_wait(a, id@, b),
{
    assert forall|other: u64| other != id@ implies (#[trigger] b.pending.contains_key(other)
        <==> a.pending.contains_key(other)) && (a.pending.contains_key(other) ==> b.pending[other]
        == a.pending[other]) by {
        assert(b.pending.contains_key(other) == a.pending.insert(id@, b.pending[id@]).contains_key(other));
        assert(b.pending[other] == a.pending.insert(id@, b.pending[id@])[other]);
    }
}

/// Law: an acknowledgement finds a command if and only if it waits, sends it the
/// outcome, and ends the wait of that command alone.
pub proof fn law_acknowledgement_ends_one_wait(
    a: DispatcherView,
    id: CommandId,
    outcome: CommandOutcomeView,
    known: bool,
    b: DispatcherView,
)
    requires
        crate::commands::acknowledged(a, id, outcome, known, b),
    ensures
        known <==> a.pending.contains_key(id@),
        known ==> crate::commands::sent_through(a.pending[id@]) == Some(outcome),
        !b.pending.contains_key(id@),
        b.next == a.next,
        b.timeout == a.timeout,
        others_wait(a, id@, b),
{
}

/// Law: a cancellation sends every waiting command the failure "cancelled", and ends
/// all waits.
pub proof fn law_cancellation_ends_all_waits(a: DispatcherView, b: DispatcherView, id: u64)
    requires
        crate::commands::all_cancelled(a, b),
    ensures
        a.pending.contains_key(id) ==> crate::commands::sent_through(a.pending[id]) == Some(
            CommandOutcomeView::Failure("cancelled"@),
        ),
        !b.pending.contains_key(id),
        b.next == a.next,
        b.timeout == a.timeout,
{
}

/// Law: a discard ends the wait of one command alone.
pub proof fn law_discard_ends_one_wait(a: DispatcherView, id: CommandId)
    ensures
        !crate::commands::discarded(a, id).pending.contains_key(id@),
        crate::commands::discarded(a, id).next == a.next,
        crate::commands::discarded(a, id).timeout == a.timeout,
        others_wait(a, id@, crate::commands::discarded(a, id)),
{
}

/// Law: a request for a side is accepted if and only if its number stands for one of
/// the five sides, and then filters by that side; a request without a number filters
/// nothing.
pub proof fn law_every_side_can_be_asked_for(side: Side, code: i32)
    ensures
        ({
            let answer = crate::services::requested_side(Some(code));
            &&& crate::laws::messages::stands_for(code, side) ==> answer is Ok && answer->Ok_0 == Some(side)
            &&& answer is Ok <==> 0 <= code <= 4
            &&& answer is Err ==> answer->Err_0.code == Code::InvalidArgument && answer->Err_0.message
                == "invalid side"@
        }),
        crate::services::requested_side(Some(crate::proto::side_code(side))) is Ok,
        crate::services::requested_side(Some(crate::proto::side_code(side)))->Ok_0 == Some(side),
        crate::services::requested_side(None) is Ok,
        crate::services::requested_side(None)->Ok_0 is None,
{
    crate::laws::messages::law_sides_go_by_their_numbers(side, code);
    crate::laws::messages::law_sides_go_by_their_numbers(side, crate::proto::side_code(side));
}

/// Law: what is not there is refused by name.
pub proof fn law_refusals_say_what_is_not_there(id: Seq<char>)
    ensures
        crate::services::group::group_not_found(id).code == Code::NotFound,
        crate::services::group::group_not_found(id).message == "group "@ + id + " not found"@,
        crate::services::unit::unit_not_found(id).code == Code::NotFound,
        crate::services::unit::unit_not_found(id).message == "unit "@ + id + " not found"@,
        crate::services::simulation::info_not_set().code == Code::Unavailable,
        crate::services::simulation::info_not_set().message == "simulation info not set"@,
        crate::services::group::lagged().code == Code::Aborted,
        crate::services::group::lagged().message == "subscriber lagged; resubscribe"@,
{
}

/// Law: a subscriber is first sent one upsert for each group of the snapshot, with that
/// group, in its order.
pub proof fn law_snapshot_is_sent_group_by_group(snapshot: Seq<GroupView>)
    ensures
        crate::services::group::opening(snapshot).len() == snapshot.len(),
        forall|i: int|
            0 <= i < snapshot.len() ==> #[trigger] crate::services::group::opening(snapshot)[i] == Some(
                GroupUpdateView::Upserted(snapshot[i]),
            ),
{
}

/// Law: a group subscriber is sent an event, unchanged, if and only if the event is
/// later than the snapshot and is no upsert of a group on another side.
pub proof fn law_group_events_are_forwarded(
    snapshot_sequence: nat,
    side: Option<Side>,
    event: GroupEventView,
)
    ensures
        ({
            let step = crate::services::group::group_step(
                snapshot_sequence,
                side,
                ReceivedView::Event(event),
            );
            let elsewhere = match event.update {
                Some(GroupUpdateView::Upserted(group)) => side is Some && !crate::laws::messages::stands_for(
                    group.side,
                    side->0,
                ),
                _ => false,
            };
            if event.sequence > snapshot_sequence && !elsewhere {
                step == StepView::<Option<GroupUpdateView>>::Send(event.update)
            } else {
                step is Wait
            }
        }),
        crate::services::group::group_step(snapshot_sequence, side, ReceivedView::Closed) is Stop,
        crate::services::group::group_step(snapshot_sequence, side, ReceivedView::Disconnected) is Stop,
        ({
            let step = crate::services::group::group_step(snapshot_sequence, side, ReceivedView::Lagged);
            &&& step is Abort
            &&& step->Abort_0.code == Code::Aborted
            &&& step->Abort_0.message == "subscriber lagged; resubscribe"@
        }),
{
    if side is Some && event.update is Some && event.update->0 is Upserted {
        crate::laws::messages::law_sides_go_by_their_numbers(side->0, event.update->0->Upserted_0.side);
    }
}

/// Law: a simulation subscriber is sent an event's state, unchanged, if and only if the
/// event is later than the snapshot.
pub proof fn law_simulation_events_are_forwarded(snapshot_sequence: nat, event: SimulationEventView)
    ensures
        ({
            let step = crate::services::simulation::simulation_step(
                snapshot_sequence,
                ReceivedView::Event(event),
            );
            if event.sequence > snapshot_sequence {
                step == StepView::<Option<SimulationStateUpdateView>>::Send(event.state)
            } else {
                step is Wait
            }
        }),
        crate::services::simulation::simulation_step(snapshot_sequence, ReceivedView::Closed) is Stop,
        crate::services::simulation::simulation_step(snapshot_sequence, ReceivedView::Disconnected) is Stop,
        ({
            let step = crate::services::simulation::simulation_step(snapshot_sequence, ReceivedView::Lagged);
            &&& step is Abort
            &&& step->Abort_0.code == Code::Aborted
            &&& step->Abort_0.message == "subscriber lagged; resubscribe"@
        }),
{
}

/// Law: the groups asked for are those that are stored and on the side, each as it is
/// read, in the order of their ids.
pub proof fn law_groups_are_listed_by_side(s: Stored, side: Option<Side>, group: GroupView)
    requires
        crate::model::stored_wf(s),
    ensures
        ({
            let list = crate::model::listed_groups(s, side);
            &&& list.contains(group) <==> {
                &&& s.groups.contains_key(group.id)
                &&& crate::model::joined(s, group.id) == Some(group)
                &&& side is Some ==> crate::laws::messages::stands_for(s.groups[group.id].side, side->0)
            }
            &&& forall|i: int, j: int|
                0 <= i < j < list.len() ==> crate::text::precedes(
                    (#[trigger] list[i]).id,
                    (#[trigger] list[j]).id,
                )
        }),
{
    crate::laws::reading::law_groups_listed(s, side, group);
    if side is Some {
        crate::laws::messages::law_sides_go_by_their_numbers(side->0, group.side);
    }
}

/// Law: the units asked for are those that are stored, whole, in the group asked for,
/// and whose group is stored and on the side asked for, in the order of their ids.
pub proof fn law_units_are_listed_by_side_and_group(
    s: Stored,
    side: Option<Side>,
    group: Option<Seq<char>>,
    unit: UnitView,
)
    requires
        crate::model::stored_wf(s),
    ensures
        ({
            let list = crate::model::listed_units(s, side, group);
            &&& list.contains(unit) <==> {
                &&& s.units.contains_key(unit.id) && s.units[unit.id] == unit
                &&& group is Some ==> unit.group_id == group->0
                &&& side is Some ==> s.groups.contains_key(unit.group_id) && crate::laws::messages::stands_for(
                    s.groups[unit.group_id].side,
                    side->0,
                )
            }
            &&& forall|i: int, j: int|
                0 <= i < j < list.len() ==> crate::text::precedes(
                    (#[trigger] list[i]).id,
                    (#[trigger] list[j]).id,
                )
        }),
{
    crate::laws::reading::law_units_listed(s, side, group, unit);
    if side is Some {
        crate::laws::messages::law_sides_go_by_their_numbers(side->0, s.groups[unit.group_id].side);
    }
}

/// Law: the locations asked for are those on the side, as often and in the order in
/// which they were set: one more location adds itself at the end if it is on the side,
/// and nothing otherwise.
pub proof fn law_locations_are_listed_by_side(c: CacheView, side: Option<Side>, location: LocationView)
    ensures
        ({
            let d = CacheView { locations: c.locations.push(location), ..c };
            let on_side = side is Some ==> crate::laws::messages::stands_for(location.owner, side->0);
            crate::model::listed_locations(d, side) == if on_side {
                crate::model::listed_locations(c, side).push(location)
            } else {
                crate::model::listed_locations(c, side)
            }
        }),
        c.locations.len() == 0 ==> crate::model::listed_locations(c, side).len() == 0,
{
    reveal(Seq::filter);
    assert(c.locations.push(location).drop_last() =~= c.locations);
    if side is Some {
        crate::laws::messages::law_sides_go_by_their_numbers(side->0, location.owner);
    }
}

} // verus!
