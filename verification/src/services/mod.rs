//! What each request is answered, and what each subscriber is sent.

use vstd::prelude::*;

use crate::proto::Side;
use crate::status::{Code, Status, StatusView};

pub mod command;
pub mod group;
pub mod location;
pub mod simulation;
pub mod unit;

verus! {

/// The filter that an `optional Side` request field stands for.
pub open spec fn requested_side(side: Option<i32>) -> Result<Option<Side>, StatusView> {
    match side {
        None => Ok(None),
        Some(code) => match crate::proto::side_for(code) {
            Some(side) => Ok(Some(side)),
            None => Err(StatusView { code: Code::InvalidArgument, message: "invalid side"@ }),
        },
    }
}

/// Decodes an `optional Side` request field, rejecting out-of-range values.
pub fn parse_side(side: Option<i32>) -> (parsed: Result<Option<Side>, Status>)
    ensures
        match parsed {
            Ok(side_filter) => requested_side(side) == Ok::<Option<Side>, StatusView>(side_filter),
            Err(status) => requested_side(side) == Err::<Option<Side>, StatusView>(status@),
        },
{
    match side {
        None => Ok(None),
        Some(code) => match Side::try_from(code) {
            Ok(side) => Ok(Some(side)),
            Err(_) => Err(Status::invalid_argument("invalid side")),
        },
    }
}

/// What a subscriber's task comes upon: an event, or one of the ways in which
/// there will be no more.
pub enum Received<E> {
    /// The next event of the stream.
    Event(E),
    /// The subscriber was too slow, and events were dropped before it took them.
    Lagged,
    /// The cache is gone.
    Closed,
    /// The client is gone.
    Disconnected,
}

#[verifier::ext_equal]
pub enum ReceivedView<E> {
    Event(E),
    Lagged,
    Closed,
    Disconnected,
}

impl<E: View> View for Received<E> {
    type V = ReceivedView<E::V>;

    open spec fn view(&self) -> ReceivedView<E::V> {
        match self {
            Received::Event(event) => ReceivedView::Event(event@),
            Received::Lagged => ReceivedView::Lagged,
            Received::Closed => ReceivedView::Closed,
            Received::Disconnected => ReceivedView::Disconnected,
        }
    }
}

/// What a subscriber's task does next.
#[derive(Debug)]
pub enum Step<R> {
    /// Send the client a message, then wait for the next event.
    Send(R),
    /// Wait for the next event.
    Wait,
    /// Tell the client why its stream ends, and end it.
    Abort(Status),
    /// End the stream.
    Stop,
}

#[verifier::ext_equal]
pub enum StepView<R> {
    Send(R),
    Wait,
    Abort(StatusView),
    Stop,
}

impl<R: View> View for Step<R> {
    type V = StepView<R::V>;

    open spec fn view(&self) -> StepView<R::V> {
        match self {
            Step::Send(response) => StepView::Send(response@),
            Step::Wait => StepView::Wait,
            Step::Abort(status) => StepView::Abort(status@),
            Step::Stop => StepView::Stop,
        }
    }
}

} // verus!
