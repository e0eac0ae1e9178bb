//! The simulation as clients read and follow it.

use tokio::sync::broadcast;
use vstd::prelude::*;

use crate::events::{SimulationEvent, SimulationEventView};
use crate::proto::{
    SimulationInfo, SimulationStateUpdate, SimulationStateUpdateView,
    SubscribeSimulationUpdatesResponse,
};
use crate::services::{Received, ReceivedView, Step, StepView};
use crate::state::StateCache;
use crate::status::{Code, Status, StatusView};

verus! {

/// The refusal of a request for the simulation info before the engine set it.
pub open spec fn info_not_set() -> StatusView {
    StatusView { code: Code::Unavailable, message: "simulation info not set"@ }
}

/// Answers a request for the simulation info.
pub fn get_simulation_info(state: &StateCache) -> (answer: Result<SimulationInfo, Status>)
    ensures
        match answer {
            Ok(info) => state@.simulation_info == Some(info@),
            Err(status) => state@.simulation_info is None && status@ == info_not_set(),
        },
{
    match state.simulation_info() {
        Some(info) => Ok(info),
        None => Err(Status::new(Code::Unavailable, "simulation info not set".to_owned())),
    }
}

/// A subscription as it starts: the state there is already, and where updates
/// come from.
pub struct SimulationSubscription {
    pub snapshot: Option<SimulationStateUpdate>,
    pub snapshot_sequence: u64,
    pub updates: broadcast::Receiver<SimulationEvent>,
}

/// Answers a request to follow the simulation state.
pub fn subscribe_simulation_updates(state: &StateCache) -> (subscription: SimulationSubscription)
    ensures
        crate::proto::simulation_state_view(subscription.snapshot) == state@.simulation_state,
        subscription.snapshot_sequence == state@.sequence,
        crate::events::simulation_before(subscription.updates) == state@.simulation_history,
{
    let (snapshot, snapshot_sequence, updates) = state.subscribe_simulation_updates();
    SimulationSubscription { snapshot, snapshot_sequence, updates }
}

/// The message that a subscriber is sent first, if there is a state.
pub fn snapshot_response(snapshot: Option<SimulationStateUpdate>) -> (response: Option<
    SubscribeSimulationUpdatesResponse,
>)
    ensures
        response == match snapshot {
            Some(state) => Some(SubscribeSimulationUpdatesResponse { state: Some(state) }),
            None => None,
        },
{
    match snapshot {
        Some(state) => Some(SubscribeSimulationUpdatesResponse { state: Some(state) }),
        None => None,
    }
}

/// What a subscriber with this snapshot does next.
pub open spec fn simulation_step(
    snapshot_sequence: nat,
    received: ReceivedView<SimulationEventView>,
) -> StepView<Option<SimulationStateUpdateView>> {
    match received {
        ReceivedView::Event(event) => if event.sequence > snapshot_sequence {
            StepView::Send(event.state)
        } else {
            StepView::Wait
        },
        ReceivedView::Lagged => StepView::Abort(crate::services::group::lagged()),
        ReceivedView::Closed => StepView::Stop,
        ReceivedView::Disconnected => StepView::Stop,
    }
}

/// Decides what a subscriber's task does next, as
/// [`crate::services::group::on_group_update`] does: an event that the snapshot
/// already reflects is passed over, and a subscriber that lagged is aborted rather
/// than left to go on without what it missed.
pub fn on_simulation_update(snapshot_sequence: u64, received: Received<SimulationEvent>) -> (step: Step<
    SubscribeSimulationUpdatesResponse,
>)
    ensures
        step@ == simulation_step(snapshot_sequence as nat, received@),
        match received {
            Received::Event(event) => event.sequence > snapshot_sequence ==> step == Step::Send(
                event.response,
            ),
            _ => true,
        },
{
    match received {
        Received::Event(event) => {
            if event.sequence <= snapshot_sequence {
                return Step::Wait;
            }
            Step::Send(event.response)
        },
        Received::Lagged => Step::Abort(
            Status::new(Code::Aborted, "subscriber lagged; resubscribe".to_owned()),
        ),
        Received::Closed => Step::Stop,
        Received::Disconnected => Step::Stop,
    }
}

} // verus!
