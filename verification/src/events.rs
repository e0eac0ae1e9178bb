//! The events that the cache broadcasts, and the channels that carry them.

use tokio::sync::broadcast;
use vstd::prelude::*;

use crate::proto::{
    GroupUpdateView, SimulationStateUpdateView, SubscribeGroupUpdatesResponse,
    SubscribeSimulationUpdatesResponse,
};

verus! {

/// A broadcast group update, tagged with the cache's sequence number as of
/// the write that produced it. Never serialized: it is how a subscriber's
/// snapshot is told apart from the updates that came after it.
#[derive(Debug)]
pub struct GroupEvent {
    pub sequence: u64,
    pub response: SubscribeGroupUpdatesResponse,
}

#[verifier::ext_equal]
pub struct GroupEventView {
    pub sequence: nat,
    pub update: Option<GroupUpdateView>,
}

impl View for GroupEvent {
    type V = GroupEventView;

    open spec fn view(&self) -> GroupEventView {
        GroupEventView { sequence: self.sequence as nat, update: self.response@ }
    }
}

impl Clone for GroupEvent {
    fn clone(&self) -> (copy: Self)
        ensures
            copy@ == self@,
    {
        GroupEvent { sequence: self.sequence, response: self.response.clone() }
    }
}

/// A broadcast simulation update, tagged like a [`GroupEvent`].
#[derive(Debug)]
pub struct SimulationEvent {
    pub sequence: u64,
    pub response: SubscribeSimulationUpdatesResponse,
}

#[verifier::ext_equal]
pub struct SimulationEventView {
    pub sequence: nat,
    pub state: Option<SimulationStateUpdateView>,
}

impl View for SimulationEvent {
    type V = SimulationEventView;

    open spec fn view(&self) -> SimulationEventView {
        SimulationEventView { sequence: self.sequence as nat, state: self.response@ }
    }
}

impl Clone for SimulationEvent {
    fn clone(&self) -> (copy: Self)
        ensures
            copy@ == self@,
    {
        SimulationEvent { sequence: self.sequence, response: self.response.clone() }
    }
}

/// The type [`tokio::sync::broadcast::Sender`].
#[verifier::external_type_specification]
#[verifier::external_body]
#[verifier::reject_recursive_types(T)]
pub struct ExBroadcastSender<T>(broadcast::Sender<T>);

/// The type [`tokio::sync::broadcast::Receiver`].
#[verifier::external_type_specification]
#[verifier::external_body]
#[verifier::reject_recursive_types(T)]
pub struct ExBroadcastReceiver<T>(broadcast::Receiver<T>);

/// The least power of two that is not below `capacity`.
pub open spec fn power_of_two_for(capacity: nat) -> nat
    decreases capacity,
{
    if capacity <= 1 {
        1
    } else {
        2 * power_of_two_for(((capacity + 1) / 2) as nat)
    }
}

/// The events handed to the channel of `sender` so far, oldest first.
pub uninterp spec fn group_history(sender: broadcast::Sender<GroupEvent>) -> Seq<GroupEventView>;

/// How many events the channel of `sender` keeps for a receiver that is slow to
/// take them.
pub uninterp spec fn group_room(sender: broadcast::Sender<GroupEvent>) -> nat;

/// The events handed to the channel of `receiver` before the receiver was made.
pub uninterp spec fn group_before(receiver: broadcast::Receiver<GroupEvent>) -> Seq<GroupEventView>;

/// The events handed to the channel of `sender` so far, oldest first.
pub uninterp spec fn simulation_history(sender: broadcast::Sender<SimulationEvent>) -> Seq<
    SimulationEventView,
>;

/// How many events the channel of `sender` keeps for a receiver that is slow to
/// take them.
pub uninterp spec fn simulation_room(sender: broadcast::Sender<SimulationEvent>) -> nat;

/// The events handed to the channel of `receiver` before the receiver was made.
pub uninterp spec fn simulation_before(receiver: broadcast::Receiver<SimulationEvent>) -> Seq<
    SimulationEventView,
>;

/// Calls [`tokio::sync::broadcast::channel`]. Nothing has been handed to the new
/// channel, and its buffer is the capacity rounded up to a power of two. A
/// capacity of zero, or above half of `usize::MAX`, makes the call panic.
#[verifier::external_body]
pub(crate) fn group_channel(capacity: usize) -> (sender: broadcast::Sender<GroupEvent>)
    requires
        0 < capacity <= usize::MAX / 2,
    ensures
        group_history(sender) == Seq::<GroupEventView>::empty(),
        group_room(sender) == power_of_two_for(capacity as nat),
{
    broadcast::channel(capacity).0
}

/// Calls [`tokio::sync::broadcast::channel`], as [`group_channel`] does.
#[verifier::external_body]
pub(crate) fn simulation_channel(capacity: usize) -> (sender: broadcast::Sender<SimulationEvent>)
    requires
        0 < capacity <= usize::MAX / 2,
    ensures
        simulation_history(sender) == Seq::<SimulationEventView>::empty(),
        simulation_room(sender) == power_of_two_for(capacity as nat),
{
    broadcast::channel(capacity).0
}

/// Calls [`tokio::sync::broadcast::Sender::send`], which hands the event to the
/// channel behind all earlier ones. Every receiver of the channel yields it in
/// that place, unless more events than the channel keeps come before it is
/// taken; where there is no receiver the event is dropped. What the call
/// returns, the number of receivers, is not used.
#[verifier::external_body]
pub(crate) fn broadcast_group(sender: &mut broadcast::Sender<GroupEvent>, event: GroupEvent)
    ensures
        group_history(*final(sender)) == group_history(*old(sender)).push(event@),
        group_room(*final(sender)) == group_room(*old(sender)),
{
    let _ = sender.send(event);
}

/// Calls [`tokio::sync::broadcast::Sender::send`], as [`broadcast_group`] does.
#[verifier::external_body]
pub(crate) fn broadcast_simulation(
    sender: &mut broadcast::Sender<SimulationEvent>,
    event: SimulationEvent,
)
    ensures
        simulation_history(*final(sender)) == simulation_history(*old(sender)).push(event@),
        simulation_room(*final(sender)) == simulation_room(*old(sender)),
{
    let _ = sender.send(event);
}

/// Calls [`tokio::sync::broadcast::Sender::subscribe`]. The new receiver yields
/// the events that are handed to the channel after the call, none from before.
/// The call panics where the channel has a quarter of `usize::MAX` receivers,
/// more than memory can hold.
#[verifier::external_body]
pub(crate) fn subscribe_groups(sender: &broadcast::Sender<GroupEvent>) -> (receiver: broadcast::Receiver<
    GroupEvent,
>)
    ensures
        group_before(receiver) == group_history(*sender),
{
    sender.subscribe()
}

/// Calls [`tokio::sync::broadcast::Sender::subscribe`], as [`subscribe_groups`]
/// does.
#[verifier::external_body]
pub(crate) fn subscribe_simulation(
    sender: &broadcast::Sender<SimulationEvent>,
) -> (receiver: broadcast::Receiver<SimulationEvent>)
    ensures
        simulation_before(receiver) == simulation_history(*sender),
{
    sender.subscribe()
}

} // verus!
