//! The course of one send: the command is registered, the sink is told of it once,
//! its outcome is waited for and returned, and the command is discarded.

use tokio::sync::oneshot;
use vstd::prelude::*;

use crate::commands::{
    settle, CommandOutcome, CommandOutcomeView, DispatcherView, Waited,
};
use crate::ids::CommandId;

verus! {

/// How far a send has come.
#[derive(Debug, Clone, Copy, PartialEq, Eq)]
pub enum Sending {
    /// It has not begun.
    New,
    /// Its command is being registered.
    Registering,
    /// The sink is being told of its command.
    Dispatching(CommandId),
    /// It waits for the outcome of its command.
    Waiting(CommandId),
    /// The outcome was returned.
    Settled(CommandId),
    /// It is over, and its command is discarded.
    Over,
}

/// What happens to a send.
#[derive(Debug)]
pub enum SendEvent {
    /// A client asks for it.
    Called,
    /// Its command was registered under an id.
    Registered(CommandId),
    /// The sink was told.
    Dispatched,
    /// The wait for the outcome ended.
    Ended(Waited),
    /// Nobody runs it any more: it has returned, was given up, or the sink
    /// panicked.
    Dropped,
}

/// What a send does next.
#[derive(Debug)]
pub enum SendAction {
    /// Register the command.
    Register,
    /// Tell the sink of the command under its id.
    Dispatch(CommandId),
    /// Wait for the outcome.
    Wait,
    /// Return the outcome.
    Return(CommandOutcome),
    /// Discard the command.
    Discard(CommandId),
    /// Nothing.
    Nothing,
}

#[verifier::ext_equal]
pub enum SendActionView {
    Register,
    Dispatch(CommandId),
    Wait,
    Return(CommandOutcomeView),
    Discard(CommandId),
    Nothing,
}

impl View for SendAction {
    type V = SendActionView;

    open spec fn view(&self) -> SendActionView {
        match self {
            SendAction::Register => SendActionView::Register,
            SendAction::Dispatch(id) => SendActionView::Dispatch(*id),
            SendAction::Wait => SendActionView::Wait,
            SendAction::Return(outcome) => SendActionView::Return(outcome@),
            SendAction::Discard(id) => SendActionView::Discard(*id),
            SendAction::Nothing => SendActionView::Nothing,
        }
    }
}

/// What an event makes of a send, and what the send does then. An event that is
/// out of place changes nothing.
pub open spec fn stepped(state: Sending, event: SendEvent) -> (Sending, SendActionView) {
    match (state, event) {
        (Sending::New, SendEvent::Called) => (Sending::Registering, SendActionView::Register),
        (Sending::Registering, SendEvent::Registered(id)) => (
            Sending::Dispatching(id),
            SendActionView::Dispatch(id),
        ),
        (Sending::Dispatching(id), SendEvent::Dispatched) => (Sending::Waiting(id), SendActionView::Wait),
        (Sending::Waiting(id), SendEvent::Ended(waited)) => (
            Sending::Settled(id),
            SendActionView::Return(crate::commands::settled(waited)),
        ),
        (Sending::Dispatching(id), SendEvent::Dropped) => (Sending::Over, SendActionView::Discard(id)),
        (Sending::Waiting(id), SendEvent::Dropped) => (Sending::Over, SendActionView::Discard(id)),
        (Sending::Settled(id), SendEvent::Dropped) => (Sending::Over, SendActionView::Discard(id)),
        (_, SendEvent::Dropped) => (Sending::Over, SendActionView::Nothing),
        _ => (state, SendActionView::Nothing),
    }
}

/// Decides what a send does next. The command is registered before the sink is
/// told, so that an acknowledgement finds it, however early it comes.
pub fn step(state: Sending, event: SendEvent) -> (next: (Sending, SendAction))
    ensures
        (next.0, next.1@) == stepped(state, event),
{
    match event {
        SendEvent::Called => match state {
            Sending::New => (Sending::Registering, SendAction::Register),
            _ => (state, SendAction::Nothing),
        },
        SendEvent::Registered(id) => match state {
            Sending::Registering => (Sending::Dispatching(id), SendAction::Dispatch(id)),
            _ => (state, SendAction::Nothing),
        },
        SendEvent::Dispatched => match state {
            Sending::Dispatching(id) => (Sending::Waiting(id), SendAction::Wait),
            _ => (state, SendAction::Nothing),
        },
        SendEvent::Ended(waited) => match state {
            Sending::Waiting(id) => (Sending::Settled(id), SendAction::Return(settle(waited))),
            _ => (state, SendAction::Nothing),
        },
        SendEvent::Dropped => match state {
            Sending::Dispatching(id) => (Sending::Over, SendAction::Discard(id)),
            Sending::Waiting(id) => (Sending::Over, SendAction::Discard(id)),
            Sending::Settled(id) => (Sending::Over, SendAction::Discard(id)),
            _ => (Sending::Over, SendAction::Nothing),
        },
    }
}

/// How far a send has come after `events`.
pub open spec fn state_after(events: Seq<SendEvent>) -> Sending
    decreases events.len(),
{
    if events.len() == 0 {
        Sending::New
    } else {
        stepped(state_after(events.drop_last()), events.last()).0
    }
}

/// What a send did at each of `events`.
pub open spec fn actions_of(events: Seq<SendEvent>) -> Seq<SendActionView>
    decreases events.len(),
{
    if events.len() == 0 {
        seq![]
    } else {
        actions_of(events.drop_last()).push(stepped(state_after(events.drop_last()), events.last()).1)
    }
}

/// The ids under which the sink is told of a command.
pub open spec fn dispatches(actions: Seq<SendActionView>) -> Seq<CommandId>
    decreases actions.len(),
{
    if actions.len() == 0 {
        seq![]
    } else {
        match actions.last() {
            SendActionView::Dispatch(id) => dispatches(actions.drop_last()).push(id),
            _ => dispatches(actions.drop_last()),
        }
    }
}

/// The ids under which a command is discarded.
pub open spec fn discards(actions: Seq<SendActionView>) -> Seq<CommandId>
    decreases actions.len(),
{
    if actions.len() == 0 {
        seq![]
    } else {
        match actions.last() {
            SendActionView::Discard(id) => discards(actions.drop_last()).push(id),
            _ => discards(actions.drop_last()),
        }
    }
}

/// The outcomes that are returned.
pub open spec fn returns_of(actions: Seq<SendActionView>) -> Seq<CommandOutcomeView>
    decreases actions.len(),
{
    if actions.len() == 0 {
        seq![]
    } else {
        match actions.last() {
            SendActionView::Return(outcome) => returns_of(actions.drop_last()).push(outcome),
            _ => returns_of(actions.drop_last()),
        }
    }
}

/// How often a command is registered.
pub open spec fn registrations(actions: Seq<SendActionView>) -> nat
    decreases actions.len(),
{
    if actions.len() == 0 {
        0
    } else {
        registrations(actions.drop_last()) + if actions.last() is Register {
            1nat
        } else {
            0nat
        }
    }
}

/// Law: whatever happens to a send, and in whatever order, its command is
/// registered once at most, and the sink is told of it once at most. Where the send
/// waits or has returned the sink was told exactly once, under the id that the
/// registration gave, and one outcome at most is returned. Once the send is over,
/// just what the sink was told of is discarded.
pub proof fn law_a_send_dispatches_once(events: Seq<SendEvent>)
    ensures
        ({
            let actions = actions_of(events);
            &&& actions.len() == events.len()
            &&& registrations(actions) <= 1
            &&& dispatches(actions).len() <= registrations(actions)
            &&& returns_of(actions).len() <= dispatches(actions).len()
            &&& match state_after(events) {
                Sending::New => registrations(actions) == 0 && discards(actions).len() == 0,
                Sending::Registering => registrations(actions) == 1 && dispatches(actions).len() == 0
                    && discards(actions).len() == 0,
                Sending::Dispatching(id) => dispatches(actions) == seq![id] && returns_of(actions).len() == 0
                    && discards(actions).len() == 0,
                Sending::Waiting(id) => dispatches(actions) == seq![id] && returns_of(actions).len() == 0
                    && discards(actions).len() == 0,
                Sending::Settled(id) => dispatches(actions) == seq![id] && returns_of(actions).len() == 1
                    && discards(actions).len() == 0,
                Sending::Over => discards(actions) == dispatches(actions),
            }
        }),
    decreases events.len(),
{
    if events.len() > 0 {
        let before = events.drop_last();
        law_a_send_dispatches_once(before);
        let actions = actions_of(events);
        assert(actions.drop_last() =~= actions_of(before));
        let none = Seq::<CommandId>::empty();
        if dispatches(actions_of(before)).len() == 0 {
            assert(dispatches(actions_of(before)) =~= none);
        }
        if discards(actions_of(before)).len() == 0 {
            assert(discards(actions_of(before)) =~= none);
        }
        if let Sending::Dispatching(id) = state_after(events) {
            assert(dispatches(actions) =~= seq![id]);
        }
        if state_after(events) is Over {
            assert(discards(actions) =~= dispatches(actions));
        }
    }
}

/// Law: a send goes in order. The sink is told after the registration, under the id
/// that this gave; the send waits after the sink was told; it returns what the end of
/// the wait comes to, after that; and it discards what the sink was told of, last.
pub proof fn law_a_send_goes_in_order(events: Seq<SendEvent>, event: SendEvent)
    ensures
        ({
            let actions = actions_of(events);
            match stepped(state_after(events), event).1 {
                SendActionView::Register => registrations(actions) == 0,
                SendActionView::Dispatch(id) => {
                    &&& event matches SendEvent::Registered(given) && given == id
                    &&& registrations(actions) == 1
                    &&& dispatches(actions).len() == 0
                },
                SendActionView::Wait => dispatches(actions).len() == 1 && returns_of(actions).len() == 0,
                SendActionView::Return(outcome) => {
                    &&& event matches SendEvent::Ended(waited) && outcome == crate::commands::settled(waited)
                    &&& dispatches(actions).len() == 1
                    &&& returns_of(actions).len() == 0
                    &&& discards(actions).len() == 0
                },
                SendActionView::Discard(id) => dispatches(actions) == seq![id] && discards(actions).len() == 0,
                SendActionView::Nothing => true,
            }
        }),
{
    law_a_send_dispatches_once(events);
}

/// What happens to a send that is awaited to its end.
pub open spec fn whole_send(id: CommandId, waited: Waited) -> Seq<SendEvent> {
    seq![
        SendEvent::Called,
        SendEvent::Registered(id),
        SendEvent::Dispatched,
        SendEvent::Ended(waited),
        SendEvent::Dropped,
    ]
}

/// Law: a send that is awaited to its end registers its command, tells the sink of
/// it exactly once under the id that it was given, waits, returns, and discards the
/// command. It returns the outcome with which the command is acknowledged, if that
/// ends the wait; that it was cancelled, if a cancellation does; or that the time was
/// up. Afterwards the command is not pending.
pub proof fn law_of_a_whole_send(
    a: DispatcherView,
    id: CommandId,
    receiver: oneshot::Receiver<CommandOutcome>,
    b: DispatcherView,
    c: DispatcherView,
    outcome: CommandOutcomeView,
    known: bool,
    d: DispatcherView,
    waited: Waited,
)
    requires
        crate::commands::registered(a, id, receiver, b),
        crate::commands::still_waits(b, id, c),
        crate::commands::ends_wait(receiver, waited),
    ensures
        ({
            let result = crate::commands::settled(waited);
            let actions = actions_of(whole_send(id, waited));
            &&& actions == seq![
                SendActionView::Register,
                SendActionView::Dispatch(id),
                SendActionView::Wait,
                SendActionView::Return(result),
                SendActionView::Discard(id),
            ]
            &&& dispatches(actions) == seq![id]
            &&& state_after(whole_send(id, waited)) == Sending::Over
            &&& crate::commands::acknowledged(c, id, outcome, known, d) && !(waited is Elapsed) ==> known
                && result == outcome
            &&& crate::commands::all_cancelled(c, d) && !(waited is Elapsed) ==> result
                == crate::commands::cancelled()
            &&& waited is Elapsed ==> result == CommandOutcomeView::Failure("timeout"@)
            &&& !crate::commands::discarded(c, id).pending.contains_key(id@)
            &&& !crate::commands::discarded(d, id).pending.contains_key(id@)
        }),
{
    let e5 = whole_send(id, waited);
    let e4 = e5.drop_last();
    let e3 = e4.drop_last();
    let e2 = e3.drop_last();
    let e1 = e2.drop_last();
    assert(e1.drop_last() =~= Seq::empty());
    assert(state_after(e1.drop_last()) == Sending::New);
    assert(state_after(e1) == Sending::Registering);
    assert(state_after(e2) == Sending::Dispatching(id));
    assert(state_after(e3) == Sending::Waiting(id));
    assert(state_after(e4) == Sending::Settled(id));
    reveal_with_fuel(actions_of, 6);
    let actions = actions_of(e5);
    assert(actions =~= seq![
        SendActionView::Register,
        SendActionView::Dispatch(id),
        SendActionView::Wait,
        SendActionView::Return(crate::commands::settled(waited)),
        SendActionView::Discard(id),
    ]);
    law_a_send_dispatches_once(e4);
    assert(actions.drop_last() =~= actions_of(e4));
    crate::commands::law_send_comes_to_what_ended_its_wait(
        a,
        id,
        receiver,
        b,
        c,
        outcome,
        known,
        d,
        waited,
    );
}

/// Law: each event has its one place in a send. Elsewhere it changes nothing and
/// nothing is done, but that a send which is dropped is over.
pub proof fn law_events_out_of_place_change_nothing(state: Sending, event: SendEvent)
    ensures
        ({
            let next = stepped(state, event).0;
            let action = stepped(state, event).1;
            let in_place = match event {
                SendEvent::Called => state is New,
                SendEvent::Registered(_) => state is Registering,
                SendEvent::Dispatched => state is Dispatching,
                SendEvent::Ended(_) => state is Waiting,
                SendEvent::Dropped => true,
            };
            &&& !in_place ==> next == state && action is Nothing
            &&& event is Dropped ==> next is Over && (action is Nothing || action is Discard)
        }),
{
}

} // verus!
