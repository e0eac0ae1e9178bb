//! Groups as clients read and follow them.

use tokio::sync::broadcast;
use vstd::prelude::*;

use crate::events::{GroupEvent, GroupEventView};
use crate::ids::GroupId;
use crate::proto::{
    passes_side, Group, GroupUpdate, GroupUpdateView, GroupView, Side,
    SubscribeGroupUpdatesResponse,
};
use crate::services::{parse_side, Received, ReceivedView, Step, StepView};
use crate::state::StateCache;
use crate::status::{Code, Status, StatusView};

verus! {

/// Bound on the outgoing channel for a single subscriber; bounded so a slow
/// client applies backpressure rather than letting updates queue forever.
pub const SUBSCRIBER_CHANNEL_CAPACITY: usize = 16;

/// Answers a request for the groups of a side, or for all.
pub fn list_groups(state: &StateCache, side: Option<i32>) -> (answer: Result<Vec<Group>, Status>)
    requires
        state.wf(),
    ensures
        match answer {
            Ok(groups) => crate::services::requested_side(side) is Ok && crate::proto::groups_view(groups@)
                == crate::model::listed_groups(
                state@.stored,
                crate::services::requested_side(side)->Ok_0,
            ),
            Err(status) => crate::services::requested_side(side) == Err::<Option<Side>, StatusView>(status@),
        },
{
    match parse_side(side) {
        Ok(side) => Ok(state.list_groups(side)),
        Err(status) => Err(status),
    }
}

/// The refusal of a request for a group that is not cached.
pub open spec fn group_not_found(id: Seq<char>) -> StatusView {
    StatusView { code: Code::NotFound, message: "group "@ + id + " not found"@ }
}

/// Answers a request for one group.
pub fn get_group(state: &StateCache, id: &str) -> (answer: Result<Group, Status>)
    requires
        state.wf(),
    ensures
        match answer {
            Ok(group) => crate::model::joined(state@.stored, id@) == Some(group@),
            Err(status) => crate::model::joined(state@.stored, id@) is None && status@ == group_not_found(id@),
        },
{
    match state.get_group(&GroupId::from(id)) {
        Some(group) => Ok(group),
        None => {
            let mut message = "group ".to_owned();
            message.append(id);
            message.append(" not found");
            Err(Status::new(Code::NotFound, message))
        },
    }
}

/// A subscription as it starts: what there is already, and where updates come
/// from.
pub struct GroupSubscription {
    pub snapshot: Vec<Group>,
    pub snapshot_sequence: u64,
    pub side: Option<Side>,
    pub updates: broadcast::Receiver<GroupEvent>,
}

/// Answers a request to follow the groups of a side, or all.
pub fn subscribe_group_updates(state: &StateCache, side: Option<i32>) -> (answer: Result<
    GroupSubscription,
    Status,
>)
    requires
        state.wf(),
    ensures
        match answer {
            Ok(subscription) => {
                &&& crate::services::requested_side(side) == Ok::<Option<Side>, StatusView>(subscription.side)
                &&& crate::proto::groups_view(subscription.snapshot@) == crate::model::listed_groups(
                    state@.stored,
                    subscription.side,
                )
                &&& subscription.snapshot_sequence == state@.sequence
                &&& crate::events::group_before(subscription.updates) == state@.group_history
            },
            Err(status) => crate::services::requested_side(side) == Err::<Option<Side>, StatusView>(status@),
        },
{
    let side = match parse_side(side) {
        Ok(side) => side,
        Err(status) => {
            return Err(status);
        },
    };
    let (snapshot, snapshot_sequence, updates) = state.subscribe_group_updates(side);
    Ok(GroupSubscription { snapshot, snapshot_sequence, side, updates })
}

/// The messages that a subscriber is sent first: one for each group of the
/// snapshot.
pub open spec fn opening(snapshot: Seq<GroupView>) -> Seq<Option<GroupUpdateView>> {
    snapshot.map_values(|g: GroupView| Some(GroupUpdateView::Upserted(g)))
}

/// The views of a list of messages.
pub open spec fn responses_view(responses: Seq<SubscribeGroupUpdatesResponse>) -> Seq<Option<GroupUpdateView>> {
    responses.map_values(|r: SubscribeGroupUpdatesResponse| r@)
}

/// The messages that a subscriber is sent first.
pub fn snapshot_responses(snapshot: Vec<Group>) -> (responses: Vec<SubscribeGroupUpdatesResponse>)
    ensures
        responses_view(responses@) == opening(crate::proto::groups_view(snapshot@)),
{
    let ghost all = opening(crate::proto::groups_view(snapshot@));
    let mut responses: Vec<SubscribeGroupUpdatesResponse> = Vec::new();
    let mut i: usize = 0;
    while i < snapshot.len()
        invariant
            i <= snapshot@.len(),
            all == opening(crate::proto::groups_view(snapshot@)),
            responses@.len() == i,
            forall|k: int| 0 <= k < i ==> (#[trigger] responses@[k])@ == all[k],
        decreases snapshot@.len() - i,
    {
        responses.push(
            SubscribeGroupUpdatesResponse { event: Some(GroupUpdate::Upserted(snapshot[i].clone())) },
        );
        i = i + 1;
    }
    assert(responses_view(responses@) =~= all);
    responses
}

/// Does an update concern a subscriber to `side`? A removal can't carry a side
/// (the group's already gone), so it always does: a subscriber that never had
/// this id has nothing to do.
pub open spec fn concerns(side: Option<Side>, update: Option<GroupUpdateView>) -> bool {
    match update {
        Some(GroupUpdateView::Upserted(group)) => crate::proto::side_matches(side, group.side),
        Some(GroupUpdateView::RemovedId(_)) => true,
        None => true,
    }
}

/// Why the stream of a slow subscriber ends.
pub open spec fn lagged() -> StatusView {
    StatusView { code: Code::Aborted, message: "subscriber lagged; resubscribe"@ }
}

/// What a subscriber with this snapshot does next.
pub open spec fn group_step(
    snapshot_sequence: nat,
    side: Option<Side>,
    received: ReceivedView<GroupEventView>,
) -> StepView<Option<GroupUpdateView>> {
    match received {
        ReceivedView::Event(event) => if event.sequence > snapshot_sequence && concerns(
            side,
            event.update,
        ) {
            StepView::Send(event.update)
        } else {
            StepView::Wait
        },
        ReceivedView::Lagged => StepView::Abort(lagged()),
        ReceivedView::Closed => StepView::Stop,
        ReceivedView::Disconnected => StepView::Stop,
    }
}

/// Decides what a subscriber's task does next.
///
/// An event at or below the snapshot's sequence number is already reflected in
/// the snapshot: forwarding it would show the client newer state, then older. A
/// slow subscriber can no longer be told what it missed (the buffer already
/// dropped it), so it's aborted rather than silently resynced: a client
/// recovers by resubscribing.
pub fn on_group_update(
    snapshot_sequence: u64,
    side: Option<Side>,
    received: Received<GroupEvent>,
) -> (step: Step<SubscribeGroupUpdatesResponse>)
    ensures
        step@ == group_step(snapshot_sequence as nat, side, received@),
{
    match received {
        Received::Event(event) => {
            if event.sequence <= snapshot_sequence {
                return Step::Wait;
            }
            let matches_side = match &event.response.event {
                Some(GroupUpdate::Upserted(group)) => passes_side(side, group.side),
                Some(GroupUpdate::RemovedId(_)) => true,
                None => true,
            };
            if matches_side {
                Step::Send(event.response)
            } else {
                Step::Wait
            }
        },
        Received::Lagged => Step::Abort(
            Status::new(Code::Aborted, "subscriber lagged; resubscribe".to_owned()),
        ),
        Received::Closed => Step::Stop,
        Received::Disconnected => Step::Stop,
    }
}

} // verus!
