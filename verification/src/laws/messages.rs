//! What messages hold, and when two of them are equal.

use vstd::prelude::*;

use crate::commands::{Command, CommandOutcome, CommandOutcomeView, CommandView};
use crate::events::{GroupEvent, SimulationEvent};
use crate::proto::{
    Group, GroupUpdate, GroupUpdateView, GroupView, Location, Position, Real, SendCommandResponse,
    Side, SimulationInfo, SimulationStateUpdate, SubscribeGroupUpdatesResponse,
    SubscribeSimulationUpdatesResponse, Unit, UnitState, UnitStateView, UnitView,
};
use crate::sending::{SendAction, SendActionView};
use crate::services::command::{Acceptance, AcceptanceView};
use crate::services::{Received, Step};
use crate::status::Status;

verus! {

/// The bits of a double without its sign.
pub open spec fn unsigned_bits(x: Real) -> int {
    x.bits as int % 0x8000_0000_0000_0000
}

/// The two are doubles that IEEE 754 calls equal: neither is a NaN, whose exponent
/// is all ones and whose fraction is not zero, and they have the same bits or are
/// both a zero.
pub open spec fn equal_doubles(x: Real, y: Real) -> bool {
    &&& unsigned_bits(x) <= 0x7ff0_0000_0000_0000
    &&& unsigned_bits(y) <= 0x7ff0_0000_0000_0000
    &&& x.bits == y.bits || (unsigned_bits(x) == 0 && unsigned_bits(y) == 0)
}

/// The coordinates of the two are equal as numbers.
pub open spec fn equal_points(p: Position, q: Position) -> bool {
    equal_doubles(p.x, q.x) && equal_doubles(p.y, q.y) && equal_doubles(p.z, q.z)
}

/// Both positions are missing, or both are there and equal.
pub open spec fn equal_places(p: Option<Position>, q: Option<Position>) -> bool {
    if p is Some && q is Some {
        equal_points(p->0, q->0)
    } else {
        p is None && q is None
    }
}

/// Both states are missing, or both are there and equal in every field.
pub open spec fn equal_states(a: Option<UnitStateView>, b: Option<UnitStateView>) -> bool {
    if a is Some && b is Some {
        equal_places(a->0.position, b->0.position) && a->0.rest == b->0.rest
    } else {
        a is None && b is None
    }
}

/// The two units have the same id, group, category, kind and rest, and positions
/// that are equal as numbers.
pub open spec fn equal_units(a: UnitView, b: UnitView) -> bool {
    a.id == b.id && a.group_id == b.group_id && a.category == b.category && a.kind == b.kind
        && equal_states(a.state, b.state)
}

/// The two groups have the same id, side, readiness and task flag, as many waypoints
/// and units, these equal place by place.
pub open spec fn equal_groups(a: GroupView, b: GroupView) -> bool {
    &&& a.id == b.id && a.side == b.side && a.readiness == b.readiness && a.has_task == b.has_task
    &&& a.waypoints.len() == b.waypoints.len()
    &&& forall|i: int| 0 <= i < a.waypoints.len() ==> equal_points(#[trigger] a.waypoints[i], b.waypoints[i])
    &&& a.units.len() == b.units.len()
    &&& forall|i: int| 0 <= i < a.units.len() ==> equal_units(#[trigger] a.units[i], b.units[i])
}

/// Law: numbers compare as IEEE 754 doubles do.
pub proof fn law_numbers_compare_as_doubles(x: Real, y: Real)
    ensures
        crate::proto::same_real(x, y) <==> equal_doubles(x, y),
        crate::proto::is_nan(x) <==> unsigned_bits(x) > 0x7ff0_0000_0000_0000,
{
}

/// Law: positions compare coordinate by coordinate.
pub proof fn law_positions_compare_by_coordinates(p: Position, q: Position)
    ensures
        crate::proto::same_position(p, q) <==> equal_points(p, q),
{
    law_numbers_compare_as_doubles(p.x, q.x);
    law_numbers_compare_as_doubles(p.y, q.y);
    law_numbers_compare_as_doubles(p.z, q.z);
}

/// Law: units compare field by field.
pub proof fn law_units_compare_by_fields(a: UnitView, b: UnitView)
    ensures
        crate::proto::same_unit(a, b) <==> equal_units(a, b),
{
    if a.state is Some && b.state is Some {
        if a.state->0.position is Some && b.state->0.position is Some {
            law_positions_compare_by_coordinates(a.state->0.position->0, b.state->0.position->0);
        }
    }
}

/// Law: groups compare field by field, so that two readings of a group count as the
/// same only if nothing about it changed.
pub proof fn law_groups_compare_by_fields(a: GroupView, b: GroupView)
    ensures
        crate::proto::same_group(a, b) <==> equal_groups(a, b),
{
    assert forall|i: int| 0 <= i < a.waypoints.len() && a.waypoints.len() == b.waypoints.len() implies (
    crate::proto::same_position(a.waypoints[i], b.waypoints[i]) <==> equal_points(
        #[trigger] a.waypoints[i],
        b.waypoints[i],
    )) by {
        law_positions_compare_by_coordinates(a.waypoints[i], b.waypoints[i]);
    }
    assert forall|i: int| 0 <= i < a.units.len() && a.units.len() == b.units.len() implies (
    crate::proto::same_unit(a.units[i], b.units[i]) <==> equal_units(#[trigger] a.units[i], b.units[i])) by {
        law_units_compare_by_fields(a.units[i], b.units[i]);
    }
}

/// The number by which a message holds a side.
pub open spec fn stands_for(code: i32, side: Side) -> bool {
    match side {
        Side::Unspecified => code == 0,
        Side::Blufor => code == 1,
        Side::Opfor => code == 2,
        Side::Independent => code == 3,
        Side::Civilian => code == 4,
    }
}

/// Law: the five sides go by the numbers from 0 to 4, and a filter lets through the
/// numbers of its side alone, or all if there is no filter.
pub proof fn law_sides_go_by_their_numbers(side: Side, code: i32)
    ensures
        crate::proto::is_side(code, side) <==> stands_for(code, side),
        stands_for(crate::proto::side_code(side), side),
        crate::proto::side_for(code) == Some(side) <==> stands_for(code, side),
        crate::proto::side_for(code) is Some <==> 0 <= code <= 4,
        crate::proto::side_matches(Some(side), code) <==> stands_for(code, side),
        crate::proto::side_matches(None, code),
{
}

/// Law: the view of a unit has every field of the unit.
pub proof fn law_unit_views_are_whole(unit: Unit, state: UnitState, list: Seq<Unit>)
    ensures
        unit@.id == unit.id@,
        unit@.group_id == unit.group_id@,
        unit@.category == unit.category,
        unit@.kind == unit.kind@,
        unit.state is None <==> unit@.state is None,
        unit.state is Some ==> unit@.state->0 == unit.state->0@,
        state@.position == state.position,
        state@.rest == state.rest@,
        crate::state::unit_view(Some(unit)) == Some(unit@),
        crate::state::unit_view(None) is None,
        crate::proto::units_view(list).len() == list.len(),
        forall|i: int| 0 <= i < list.len() ==> #[trigger] crate::proto::units_view(list)[i] == list[i]@,
{
}

/// Law: the view of a group has every field of the group.
pub proof fn law_group_views_are_whole(group: Group, list: Seq<Group>)
    ensures
        group@.id == group.id@,
        group@.side == group.side,
        group@.readiness == group.readiness,
        group@.has_task == group.has_task,
        group@.waypoints == group.waypoints@,
        group@.units.len() == group.units@.len(),
        forall|i: int| 0 <= i < group.units@.len() ==> #[trigger] group@.units[i] == group.units@[i]@,
        crate::state::group_view(Some(group)) == Some(group@),
        crate::state::group_view(None) is None,
        crate::proto::groups_view(list).len() == list.len(),
        forall|i: int| 0 <= i < list.len() ==> #[trigger] crate::proto::groups_view(list)[i] == list[i]@,
{
}

/// Law: the views of what is known of the simulation and its places have every
/// field.
pub proof fn law_simulation_views_are_whole(
    info: SimulationInfo,
    state: SimulationStateUpdate,
    location: Location,
    list: Seq<Location>,
)
    ensures
        info@.world_name == info.world_name@,
        info@.rest == info.rest@,
        crate::state::info_view(Some(info)) == Some(info@),
        crate::state::info_view(None) is None,
        state@.simulation_time == state.simulation_time,
        state@.rest == state.rest@,
        crate::proto::simulation_state_view(Some(state)) == Some(state@),
        crate::proto::simulation_state_view(None) is None,
        location@.id == location.id@,
        location@.owner == location.owner,
        location@.rest == location.rest@,
        crate::proto::locations_view(list).len() == list.len(),
        forall|i: int| 0 <= i < list.len() ==> #[trigger] crate::proto::locations_view(list)[i] == list[i]@,
{
}

/// Law: the views of events and messages to subscribers say all that these do.
pub proof fn law_event_views_are_whole(
    group: Group,
    id: String,
    update: GroupUpdate,
    event: GroupEvent,
    simulation: SimulationEvent,
)
    ensures
        GroupUpdate::Upserted(group)@ == GroupUpdateView::Upserted(group@),
        GroupUpdate::RemovedId(id)@ == GroupUpdateView::RemovedId(id@),
        (SubscribeGroupUpdatesResponse { event: Some(update) })@ == Some(update@),
        (SubscribeGroupUpdatesResponse { event: None })@ is None,
        event@.sequence == event.sequence,
        event@.update == event.response@,
        simulation@.sequence == simulation.sequence,
        simulation@.state == simulation.response@,
        simulation.response.state is None <==> simulation.response@ is None,
        simulation.response.state is Some ==> simulation.response@ == Some(simulation.response.state->0@),
{
}

/// Law: the views of commands, outcomes and answers have every field.
pub proof fn law_command_views_are_whole(
    command: Command,
    outcome: CommandOutcome,
    response: SendCommandResponse,
)
    ensures
        match command {
            Command::Move { group_id, position } => command@ == (CommandView::Move {
                group_id: group_id@,
                position,
            }),
            Command::SearchAndDestroy { group_id, position } => command@ == (CommandView::SearchAndDestroy {
                group_id: group_id@,
                position,
            }),
            Command::DefendZone { group_id, zone_id, position } => command@ == (CommandView::DefendZone {
                group_id: group_id@,
                zone_id: zone_id@,
                position,
            }),
            Command::Patrol { group_id, waypoints, loop_ } => command@ == (CommandView::Patrol {
                group_id: group_id@,
                waypoints: waypoints@,
                loop_,
            }),
            Command::Support { supporter_group_id, supported_group_id, support_type } => command@ == (
            CommandView::Support {
                supporter_group_id: supporter_group_id@,
                supported_group_id: supported_group_id@,
                support_type: support_type@,
            }),
        },
        match outcome {
            CommandOutcome::Success => outcome@ == CommandOutcomeView::Success,
            CommandOutcome::Failure(reason) => outcome@ == CommandOutcomeView::Failure(reason@),
        },
        response@.result == response.result,
        response@.reason == response.reason@,
{
}

/// Law: the views of answers, of what subscribers come upon and of what is done next
/// say all that these do.
pub proof fn law_answer_views_are_whole(
    command: Command,
    response: SendCommandResponse,
    status: Status,
    list: Seq<SubscribeGroupUpdatesResponse>,
    received: Received<GroupEvent>,
    step: Step<SubscribeGroupUpdatesResponse>,
    action: SendAction,
)
    ensures
        crate::commands::parse_view(Ok(command)) is Ok,
        crate::commands::parse_view(Ok(command))->Ok_0 == command@,
        crate::commands::parse_view(Err(status)) is Err,
        crate::commands::parse_view(Err(status))->Err_0 == status@,
        crate::services::command::acceptance_view(Ok(Acceptance::Dispatch(command))) is Ok,
        crate::services::command::acceptance_view(Ok(Acceptance::Dispatch(command)))->Ok_0
            == AcceptanceView::Dispatch(command@),
        crate::services::command::acceptance_view(Ok(Acceptance::Answer(response))) is Ok,
        crate::services::command::acceptance_view(Ok(Acceptance::Answer(response)))->Ok_0
            == AcceptanceView::Answer(response@),
        crate::services::command::acceptance_view(Err(status)) is Err,
        crate::services::command::acceptance_view(Err(status))->Err_0 == status@,
        crate::services::group::responses_view(list).len() == list.len(),
        forall|i: int|
            0 <= i < list.len() ==> #[trigger] crate::services::group::responses_view(list)[i] == list[i]@,
        match received {
            Received::Event(event) => received@ is Event && received@->Event_0 == event@,
            Received::Lagged => received@ is Lagged,
            Received::Closed => received@ is Closed,
            Received::Disconnected => received@ is Disconnected,
        },
        match step {
            Step::Send(message) => step@ is Send && step@->Send_0 == message@,
            Step::Wait => step@ is Wait,
            Step::Abort(why) => step@ is Abort && step@->Abort_0 == why@,
            Step::Stop => step@ is Stop,
        },
        match action {
            SendAction::Register => action@ is Register,
            SendAction::Dispatch(id) => action@ == SendActionView::Dispatch(id),
            SendAction::Wait => action@ is Wait,
            SendAction::Return(outcome) => action@ == SendActionView::Return(outcome@),
            SendAction::Discard(id) => action@ == SendActionView::Discard(id),
            SendAction::Nothing => action@ is Nothing,
        },
{
}

} // verus!
