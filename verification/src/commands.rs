//! Commands, and their way to the engine and back.

use std::collections::HashMap;
use std::sync::Arc;
use std::time::Duration;

use tokio::sync::oneshot;
use vstd::prelude::*;

use crate::ids::{CommandId, CommandIdAllocator, GroupId};
use crate::proto::{CommandRequest, Position, SendCommandRequest};
use crate::status::{Code, Status, StatusView};

verus! {

/// Domain form of [`SendCommandRequest`], validated at the service boundary so
/// the rest of the crate never has to handle a missing command or a missing
/// required field.
#[allow(inconsistent_fields)]
#[derive(Debug, PartialEq)]
pub enum Command {
    Move { group_id: GroupId, position: Position },
    SearchAndDestroy { group_id: GroupId, position: Position },
    DefendZone { group_id: GroupId, zone_id: String, position: Option<Position> },
    Patrol { group_id: GroupId, waypoints: Vec<Position>, loop_: bool },
    Support { supporter_group_id: GroupId, supported_group_id: GroupId, support_type: String },
}

#[allow(inconsistent_fields)]
#[verifier::ext_equal]
pub enum CommandView {
    Move { group_id: Seq<char>, position: Position },
    SearchAndDestroy { group_id: Seq<char>, position: Position },
    DefendZone { group_id: Seq<char>, zone_id: Seq<char>, position: Option<Position> },
    Patrol { group_id: Seq<char>, waypoints: Seq<Position>, loop_: bool },
    Support {
        supporter_group_id: Seq<char>,
        supported_group_id: Seq<char>,
        support_type: Seq<char>,
    },
}

impl View for Command {
    type V = CommandView;

    open spec fn view(&self) -> CommandView {
        match self {
            Command::Move { group_id, position } => CommandView::Move {
                group_id: group_id@,
                position: *position,
            },
            Command::SearchAndDestroy { group_id, position } => CommandView::SearchAndDestroy {
                group_id: group_id@,
                position: *position,
            },
            Command::DefendZone { group_id, zone_id, position } => CommandView::DefendZone {
                group_id: group_id@,
                zone_id: zone_id@,
                position: *position,
            },
            Command::Patrol { group_id, waypoints, loop_ } => CommandView::Patrol {
                group_id: group_id@,
                waypoints: waypoints@,
                loop_: *loop_,
            },
            Command::Support { supporter_group_id, supported_group_id, support_type } => {
                CommandView::Support {
                    supporter_group_id: supporter_group_id@,
                    supported_group_id: supported_group_id@,
                    support_type: support_type@,
                }
            },
        }
    }
}

impl Clone for Command {
    fn clone(&self) -> (copy: Self)
        ensures
            copy@ == self@,
    {
        match self {
            Command::Move { group_id, position } => Command::Move {
                group_id: group_id.clone(),
                position: *position,
            },
            Command::SearchAndDestroy { group_id, position } => Command::SearchAndDestroy {
                group_id: group_id.clone(),
                position: *position,
            },
            Command::DefendZone { group_id, zone_id, position } => Command::DefendZone {
                group_id: group_id.clone(),
                zone_id: zone_id.clone(),
                position: *position,
            },
            Command::Patrol { group_id, waypoints, loop_ } => {
                let waypoints_copy = waypoints.clone();
                assert(waypoints_copy@ =~= waypoints@);
                Command::Patrol { group_id: group_id.clone(), waypoints: waypoints_copy, loop_: *loop_ }
            },
            Command::Support { supporter_group_id, supported_group_id, support_type } => {
                Command::Support {
                    supporter_group_id: supporter_group_id.clone(),
                    supported_group_id: supported_group_id.clone(),
                    support_type: support_type.clone(),
                }
            },
        }
    }
}

/// The group that a command is for.
pub open spec fn addressee(command: CommandView) -> Seq<char> {
    match command {
        CommandView::Move { group_id, .. } => group_id,
        CommandView::SearchAndDestroy { group_id, .. } => group_id,
        CommandView::DefendZone { group_id, .. } => group_id,
        CommandView::Patrol { group_id, .. } => group_id,
        CommandView::Support { supporter_group_id, .. } => supporter_group_id,
    }
}

/// A refusal of what a client wrote.
pub open spec fn invalid(message: Seq<char>) -> StatusView {
    StatusView { code: Code::InvalidArgument, message }
}

/// The command, unless its group is not named.
pub open spec fn for_named_group(command: CommandView) -> Result<CommandView, StatusView> {
    if addressee(command).len() == 0 {
        Err(invalid("group_id is required"@))
    } else {
        Ok(command)
    }
}

/// What a request asks for, or what is missing from it.
pub open spec fn parsed(request: SendCommandRequest) -> Result<CommandView, StatusView> {
    match request.command {
        None => Err(invalid("command is required"@)),
        Some(CommandRequest::Move(c)) => if c.group_id@.len() == 0 {
            Err(invalid("group_id is required"@))
        } else if c.position is None {
            Err(invalid("position is required"@))
        } else {
            Ok(CommandView::Move { group_id: c.group_id@, position: c.position->0 })
        },
        Some(CommandRequest::SearchAndDestroy(c)) => if c.group_id@.len() == 0 {
            Err(invalid("group_id is required"@))
        } else if c.position is None {
            Err(invalid("position is required"@))
        } else {
            Ok(CommandView::SearchAndDestroy { group_id: c.group_id@, position: c.position->0 })
        },
        Some(CommandRequest::DefendZone(c)) => if c.zone_id@.len() == 0 {
            Err(invalid("zone_id is required"@))
        } else {
            for_named_group(
                CommandView::DefendZone {
                    group_id: c.group_id@,
                    zone_id: c.zone_id@,
                    position: c.position,
                },
            )
        },
        Some(CommandRequest::Patrol(c)) => if c.waypoints@.len() == 0 {
            Err(invalid("waypoints must not be empty"@))
        } else {
            for_named_group(
                CommandView::Patrol {
                    group_id: c.group_id@,
                    waypoints: c.waypoints@,
                    loop_: c.repeat,
                },
            )
        },
        Some(CommandRequest::Support(c)) => if c.supported_group_id@.len() == 0 {
            Err(invalid("supported_group_id is required"@))
        } else if c.support_type@.len() == 0 {
            Err(invalid("support_type is required"@))
        } else {
            for_named_group(
                CommandView::Support {
                    supporter_group_id: c.supporter_group_id@,
                    supported_group_id: c.supported_group_id@,
                    support_type: c.support_type@,
                },
            )
        },
    }
}

/// The view of the answer to a request.
pub open spec fn parse_view(answer: Result<Command, Status>) -> Result<CommandView, StatusView> {
    match answer {
        Ok(command) => Ok(command@),
        Err(status) => Err(status@),
    }
}

/// Is there nothing in the text?
fn is_blank(text: &String) -> (blank: bool)
    ensures
        blank == (text@.len() == 0),
{
    text.as_str().unicode_len() == 0
}

fn require_position(position: Option<Position>) -> (required: Result<Position, Status>)
    ensures
        match required {
            Ok(found) => position == Some(found),
            Err(status) => position is None && status@ == invalid("position is required"@),
        },
{
    match position {
        Some(position) => Ok(position),
        None => Err(Status::invalid_argument("position is required")),
    }
}

fn require_group_id(group_id: String) -> (required: Result<GroupId, Status>)
    ensures
        match required {
            Ok(id) => group_id@.len() > 0 && id@ == group_id@,
            Err(status) => group_id@.len() == 0 && status@ == invalid("group_id is required"@),
        },
{
    if is_blank(&group_id) {
        return Err(Status::invalid_argument("group_id is required"));
    }
    Ok(GroupId::from(group_id))
}

impl Command {
    /// The group that must be dispatched to (and looked up in the cache before
    /// dispatching; for [`Command::Support`] this is the supporting group, since
    /// it is the one that receives the order).
    pub fn group_id(&self) -> (id: &GroupId)
        ensures
            id@ == addressee(self@),
    {
        match self {
            Command::Move { group_id, .. } => group_id,
            Command::SearchAndDestroy { group_id, .. } => group_id,
            Command::DefendZone { group_id, .. } => group_id,
            Command::Patrol { group_id, .. } => group_id,
            Command::Support { supporter_group_id, .. } => supporter_group_id,
        }
    }

    pub fn from_proto(request: SendCommandRequest) -> (answer: Result<Command, Status>)
        ensures
            parse_view(answer) == parsed(request),
    {
        let command = match request.command {
            Some(command) => command,
            None => {
                return Err(Status::invalid_argument("command is required"));
            },
        };
        match command {
            CommandRequest::Move(c) => {
                let group_id = match require_group_id(c.group_id) {
                    Ok(group_id) => group_id,
                    Err(status) => {
                        return Err(status);
                    },
                };
                match require_position(c.position) {
                    Ok(position) => Ok(Command::Move { group_id, position }),
                    Err(status) => Err(status),
                }
            },
            CommandRequest::SearchAndDestroy(c) => {
                let group_id = match require_group_id(c.group_id) {
                    Ok(group_id) => group_id,
                    Err(status) => {
                        return Err(status);
                    },
                };
                match require_position(c.position) {
                    Ok(position) => Ok(Command::SearchAndDestroy { group_id, position }),
                    Err(status) => Err(status),
                }
            },
            CommandRequest::DefendZone(c) => {
                if is_blank(&c.zone_id) {
                    return Err(Status::invalid_argument("zone_id is required"));
                }
                match require_group_id(c.group_id) {
                    Ok(group_id) => Ok(
                        Command::DefendZone { group_id, zone_id: c.zone_id, position: c.position },
                    ),
                    Err(status) => Err(status),
                }
            },
            CommandRequest::Patrol(c) => {
                if c.waypoints.len() == 0 {
                    return Err(Status::invalid_argument("waypoints must not be empty"));
                }
                match require_group_id(c.group_id) {
                    Ok(group_id) => Ok(
                        Command::Patrol { group_id, waypoints: c.waypoints, loop_: c.repeat },
                    ),
                    Err(status) => Err(status),
                }
            },
            CommandRequest::Support(c) => {
                if is_blank(&c.supported_group_id) {
                    return Err(Status::invalid_argument("supported_group_id is required"));
                }
                if is_blank(&c.support_type) {
                    return Err(Status::invalid_argument("support_type is required"));
                }
                match require_group_id(c.supporter_group_id) {
                    Ok(supporter_group_id) => Ok(
                        Command::Support {
                            supporter_group_id,
                            supported_group_id: GroupId::from(c.supported_group_id),
                            support_type: c.support_type,
                        },
                    ),
                    Err(status) => Err(status),
                }
            },
        }
    }
}

/// Outcome of a dispatched command, reported back through
/// [`Dispatcher::complete`] once the engine acknowledges it (or through a
/// timeout or cancellation if it never does).
#[derive(Debug, PartialEq, Eq)]
pub enum CommandOutcome {
    Success,
    Failure(String),
}

#[verifier::ext_equal]
pub enum CommandOutcomeView {
    Success,
    Failure(Seq<char>),
}

impl View for CommandOutcome {
    type V = CommandOutcomeView;

    open spec fn view(&self) -> CommandOutcomeView {
        match self {
            CommandOutcome::Success => CommandOutcomeView::Success,
            CommandOutcome::Failure(reason) => CommandOutcomeView::Failure(reason@),
        }
    }
}

impl Clone for CommandOutcome {
    fn clone(&self) -> (copy: Self)
        ensures
            copy@ == self@,
    {
        match self {
            CommandOutcome::Success => CommandOutcome::Success,
            CommandOutcome::Failure(reason) => CommandOutcome::Failure(reason.clone()),
        }
    }
}

/// Implemented by engines (e.g. the Arma 3 plugin) to actually carry out a
/// dispatched command. Expected to return promptly; the real work happens
/// asynchronously, acknowledged later via [`Dispatcher::complete`].
pub trait CommandSink: Send + Sync {
    fn dispatch(&self, id: CommandId, command: &Command);
}

/// The type [`tokio::sync::oneshot::Sender`].
#[verifier::external_type_specification]
#[verifier::external_body]
#[verifier::reject_recursive_types(T)]
pub struct ExOneshotSender<T>(oneshot::Sender<T>);

/// The type [`tokio::sync::oneshot::Receiver`].
#[verifier::external_type_specification]
#[verifier::external_body]
#[verifier::reject_recursive_types(T)]
pub struct ExOneshotReceiver<T>(oneshot::Receiver<T>);

/// The type [`tokio::sync::oneshot::error::RecvError`], which a receiver yields
/// when its sender was dropped. It is declared because the receiver's own impls
/// name it.
#[verifier::external_type_specification]
#[verifier::external_body]
pub struct ExOneshotRecvError(oneshot::error::RecvError);

/// The outcome that is sent through `sender`: one at most, since sending uses the
/// sender up.
pub uninterp spec fn sent_through(sender: oneshot::Sender<CommandOutcome>) -> Option<CommandOutcomeView>;

/// The outcome that is sent to `receiver`. The receiver yields it to whoever
/// waits, unless it was closed or dropped by then.
pub uninterp spec fn sent_to(receiver: oneshot::Receiver<CommandOutcome>) -> Option<CommandOutcomeView>;

/// Calls [`tokio::sync::oneshot::channel`]. What is sent through the sender, and
/// nothing else, is sent to the receiver.
#[verifier::external_body]
pub(crate) fn outcome_channel() -> (ends: (
    oneshot::Sender<CommandOutcome>,
    oneshot::Receiver<CommandOutcome>,
))
    ensures
        sent_to(ends.1) == sent_through(ends.0),
{
    oneshot::channel()
}

/// Calls [`tokio::sync::oneshot::Sender::send`], which sends the outcome through
/// the sender. Where the receiver was closed or dropped by then, and nobody waits,
/// the outcome comes back too.
#[verifier::external_body]
pub(crate) fn send_outcome(sender: oneshot::Sender<CommandOutcome>, outcome: CommandOutcome) -> (sent: Result<
    (),
    CommandOutcome,
>)
    ensures
        match sent {
            Ok(()) => sent_through(sender) == Some(outcome@),
            Err(returned) => returned@ == outcome@ && sent_through(sender) == Some(outcome@),
        },
{
    sender.send(outcome)
}

/// Tracks commands sent to the engine until they are acknowledged. Owns the
/// single [`CommandSink`] commands are dispatched through.
pub struct Dispatcher<S: CommandSink + ?Sized> {
    sink: Arc<S>,
    timeout: Duration,
    ids: CommandIdAllocator,
    pending: HashMap<u64, oneshot::Sender<CommandOutcome>>,
}

/// The commands that wait for their acknowledgement, each with the sender that
/// ends its wait; the id of the next command; and how long a command waits.
#[verifier::ext_equal]
pub struct DispatcherView {
    pub next: u64,
    pub timeout: Duration,
    pub pending: Map<u64, oneshot::Sender<CommandOutcome>>,
}

impl<S: CommandSink + ?Sized> View for Dispatcher<S> {
    type V = DispatcherView;

    closed spec fn view(&self) -> DispatcherView {
        DispatcherView { next: self.ids@, timeout: self.timeout, pending: self.pending@ }
    }
}

/// A command was given the id `id` and waits at `receiver`.
pub open spec fn registered(
    before: DispatcherView,
    id: CommandId,
    receiver: oneshot::Receiver<CommandOutcome>,
    after: DispatcherView,
) -> bool {
    &&& id@ == crate::ids::nth_id(before.next, 0)
    &&& after.next == crate::ids::nth_id(before.next, 1)
    &&& after.timeout == before.timeout
    &&& after.pending.contains_key(id@)
    &&& after.pending == before.pending.insert(id@, after.pending[id@])
    &&& sent_to(receiver) == sent_through(after.pending[id@])
}

/// The command `id` was acknowledged with `outcome`, unless it did not wait.
pub open spec fn acknowledged(
    before: DispatcherView,
    id: CommandId,
    outcome: CommandOutcomeView,
    known: bool,
    after: DispatcherView,
) -> bool {
    &&& known == before.pending.contains_key(id@)
    &&& after == (DispatcherView { pending: before.pending.remove(id@), ..before })
    &&& known ==> sent_through(before.pending[id@]) == Some(outcome)
}

/// The outcome of a command whose wait ended for want of an acknowledgement.
pub open spec fn cancelled() -> CommandOutcomeView {
    CommandOutcomeView::Failure("cancelled"@)
}

/// Every waiting command was failed.
pub open spec fn all_cancelled(before: DispatcherView, after: DispatcherView) -> bool {
    &&& after == (DispatcherView { pending: Map::empty(), ..before })
    &&& forall|id: u64| #[trigger]
        before.pending.contains_key(id) ==> sent_through(before.pending[id]) == Some(cancelled())
}

/// The command `id` was forgotten.
pub open spec fn discarded(before: DispatcherView, id: CommandId) -> DispatcherView {
    DispatcherView { pending: before.pending.remove(id@), ..before }
}

impl<S: CommandSink + ?Sized> Dispatcher<S> {
    /// The sink that commands are dispatched through.
    pub closed spec fn engine(&self) -> Arc<S> {
        self.sink
    }

    pub fn new(sink: Arc<S>, timeout: Duration) -> (dispatcher: Self)
        ensures
            dispatcher@ == (DispatcherView { next: 0, timeout, pending: Map::empty() }),
            dispatcher.engine() == sink,
    {
        Dispatcher { sink, timeout, ids: CommandIdAllocator::default(), pending: HashMap::new() }
    }

    /// The sink that commands are dispatched through.
    pub fn sink(&self) -> (sink: Arc<S>)
        ensures
            sink == self.engine(),
    {
        self.sink.clone()
    }

    /// How long a command waits to be acknowledged.
    pub fn timeout(&self) -> (timeout: Duration)
        ensures
            timeout == self@.timeout,
    {
        self.timeout
    }

    /// How many commands wait to be acknowledged.
    pub fn pending_len(&self) -> (len: usize)
        ensures
            len == self@.pending.dom().len(),
    {
        broadcast use vstd::std_specs::hash::group_hash_axioms;

        self.pending.len()
    }

    /// Gives a command its id and the receiver at which it waits for its
    /// outcome. A command is registered before the sink is told of it, so that
    /// an acknowledgement finds it.
    pub fn register(&mut self) -> (ticket: (CommandId, oneshot::Receiver<CommandOutcome>))
        ensures
            registered(old(self)@, ticket.0, ticket.1, final(self)@),
            final(self).engine() == old(self).engine(),
    {
        broadcast use vstd::std_specs::hash::group_hash_axioms;

        let ghost before = self@;
        let id = self.ids.next();
        let (sender, receiver) = outcome_channel();
        let ghost tx = sender;
        self.pending.insert(id.value(), sender);
        assert(self@.pending == before.pending.insert(id@, tx));
        (id, receiver)
    }

    /// Acknowledges a previously dispatched command. Returns `false` if `id` is
    /// not (or no longer) pending, e.g. it already timed out.
    pub fn complete(&mut self, id: CommandId, outcome: CommandOutcome) -> (known: bool)
        ensures
            acknowledged(old(self)@, id, outcome@, known, final(self)@),
            final(self).engine() == old(self).engine(),
    {
        broadcast use vstd::std_specs::hash::group_hash_axioms;

        let ghost before = self@;
        match self.pending.remove(&id.value()) {
            Some(sender) => {
                let _ = send_outcome(sender, outcome);
                true
            },
            None => {
                assert(before.pending.remove(id@) =~= before.pending);
                false
            },
        }
    }

    /// Forgets a command whose wait is over, for whatever reason.
    pub fn discard(&mut self, id: CommandId)
        ensures
            final(self)@ == discarded(old(self)@, id),
            final(self).engine() == old(self).engine(),
    {
        broadcast use vstd::std_specs::hash::group_hash_axioms;

        let ghost before = self@;
        self.pending.remove(&id.value());
        assert(self@.pending =~= before.pending.remove(id@));
    }

    /// The ids of the waiting commands, in no particular order.
    fn pending_ids(&self) -> (ids: Vec<u64>)
        ensures
            ids@.to_set() == self@.pending.dom(),
            ids@.no_duplicates(),
    {
        broadcast use vstd::std_specs::hash::group_hash_axioms;

        let keys = self.pending.keys();
        let ghost all = vstd::std_specs::iter::IteratorSpec::remaining(&keys).unref();
        let mut ids: Vec<u64> = Vec::new();
        for id in iter: keys
            invariant
                iter.seq().unref() == all,
                ids@ == all.take(iter.index()),
        {
            ids.push(*id);
            assert(ids@ =~= all.take(iter.index() + 1));
        }
        assert(ids@ =~= all);
        ids
    }

    /// Fails every pending command, e.g. on a simulation reset.
    pub fn cancel_all(&mut self)
        ensures
            all_cancelled(old(self)@, final(self)@),
            final(self).engine() == old(self).engine(),
    {
        broadcast use vstd::std_specs::hash::group_hash_axioms;

        let ghost before = self@;
        let ids = self.pending_ids();
        let mut i: usize = 0;
        assert(self@.pending =~= before.pending.remove_keys(ids@.take(0).to_set()));
        while i < ids.len()
            invariant
                i <= ids@.len(),
                ids@.to_set() == before.pending.dom(),
                ids@.no_duplicates(),
                self.engine() == old(self).engine(),
                self@ == (DispatcherView {
                    pending: before.pending.remove_keys(ids@.take(i as int).to_set()),
                    ..before
                }),
                forall|k: int|
                    0 <= k < i ==> sent_through(before.pending[#[trigger] ids@[k]]) == Some(cancelled()),
            decreases ids@.len() - i,
        {
            let ghost gone = ids@.take(i as int);
            proof {
                assert(ids@.contains(ids@[i as int]));
                assert(before.pending.contains_key(ids@[i as int]));
                assert(!gone.to_set().contains(ids@[i as int]));
                assert(ids@.take(i + 1) =~= gone.push(ids@[i as int]));
                gone.lemma_push_to_set_commute(ids@[i as int]);
                assert(before.pending.remove_keys(gone.to_set()).remove(ids@[i as int])
                    =~= before.pending.remove_keys(ids@.take(i + 1).to_set()));
            }
            let _ = self.complete(
                CommandId::from(ids[i]),
                CommandOutcome::Failure("cancelled".to_owned()),
            );
            i = i + 1;
        }
        proof {
            assert(ids@.take(i as int) =~= ids@);
            assert(self@.pending =~= Map::empty());
        }
    }
}

/// How the wait for a command's outcome ended.
#[derive(Debug, PartialEq, Eq)]
pub enum Waited {
    /// The engine acknowledged the command, or it was cancelled.
    Acknowledged(CommandOutcome),
    /// The sender was dropped before an outcome was sent through it.
    Dropped,
    /// The time was up.
    Elapsed,
}

/// What a command whose wait ended like this came to.
pub open spec fn settled(waited: Waited) -> CommandOutcomeView {
    match waited {
        Waited::Acknowledged(outcome) => outcome@,
        Waited::Dropped => cancelled(),
        Waited::Elapsed => CommandOutcomeView::Failure("timeout"@),
    }
}

/// What a command whose wait ended like this came to.
pub fn settle(waited: Waited) -> (outcome: CommandOutcome)
    ensures
        outcome@ == settled(waited),
{
    match waited {
        Waited::Acknowledged(outcome) => outcome,
        Waited::Dropped => CommandOutcome::Failure("cancelled".to_owned()),
        Waited::Elapsed => CommandOutcome::Failure("timeout".to_owned()),
    }
}

/// The command says all that the engine needs to know.
pub open spec fn is_complete(command: CommandView) -> bool {
    &&& addressee(command).len() > 0
    &&& match command {
        CommandView::DefendZone { zone_id, .. } => zone_id.len() > 0,
        CommandView::Patrol { waypoints, .. } => waypoints.len() > 0,
        CommandView::Support { supported_group_id, support_type, .. } => supported_group_id.len() > 0
            && support_type.len() > 0,
        _ => true,
    }
}

/// Law: a request that is accepted yields a command that is complete.
pub proof fn law_accepted_commands_are_complete(request: SendCommandRequest)
    ensures
        parsed(request) is Ok ==> is_complete(parsed(request)->Ok_0),
{
}

/// The command `id` still waits, at the same place.
pub open spec fn still_waits(before: DispatcherView, id: CommandId, after: DispatcherView) -> bool {
    &&& before.pending.contains_key(id@)
    &&& after.pending.contains_key(id@)
    &&& after.pending[id@] == before.pending[id@]
}

/// Law: the outcome with which a waiting command is acknowledged is sent to the
/// receiver at which it waits, whatever happened to other commands meanwhile.
pub proof fn law_acknowledgement_is_delivered(
    a: DispatcherView,
    id: CommandId,
    receiver: oneshot::Receiver<CommandOutcome>,
    b: DispatcherView,
    c: DispatcherView,
    outcome: CommandOutcomeView,
    known: bool,
    d: DispatcherView,
)
    requires
        registered(a, id, receiver, b),
        still_waits(b, id, c),
        acknowledged(c, id, outcome, known, d),
    ensures
        known,
        sent_to(receiver) == Some(outcome),
        !d.pending.contains_key(id@),
{
}

/// Law: a command is acknowledged once; any further acknowledgement is refused
/// and changes nothing.
pub proof fn law_acknowledged_once(
    a: DispatcherView,
    id: CommandId,
    first: CommandOutcomeView,
    known: bool,
    b: DispatcherView,
    second: CommandOutcomeView,
    known_again: bool,
    c: DispatcherView,
)
    requires
        acknowledged(a, id, first, known, b),
        acknowledged(b, id, second, known_again, c),
    ensures
        !known_again,
        c == b,
{
    assert(c.pending =~= b.pending);
}

/// Law: an acknowledgement of one command leaves every other one waiting.
pub proof fn law_others_wait_through_an_acknowledgement(
    a: DispatcherView,
    id: CommandId,
    outcome: CommandOutcomeView,
    known: bool,
    b: DispatcherView,
    other: CommandId,
)
    requires
        acknowledged(a, id, outcome, known, b),
        a.pending.contains_key(other@),
        other@ != id@,
    ensures
        still_waits(a, other, b),
{
}

/// Law: a new command leaves every one with another id waiting.
pub proof fn law_others_wait_through_a_registration(
    a: DispatcherView,
    id: CommandId,
    receiver: oneshot::Receiver<CommandOutcome>,
    b: DispatcherView,
    other: CommandId,
)
    requires
        registered(a, id, receiver, b),
        a.pending.contains_key(other@),
        other@ != id@,
    ensures
        still_waits(a, other, b),
{
    assert(b.pending[other@] == a.pending[other@]);
}

/// Law: when one command is discarded, every other one waits on.
pub proof fn law_others_wait_through_a_discard(a: DispatcherView, id: CommandId, other: CommandId)
    requires
        a.pending.contains_key(other@),
        other@ != id@,
    ensures
        still_waits(a, other, discarded(a, id)),
{
}

/// Law: when all commands are cancelled, a waiting one is sent that it was
/// cancelled, and no acknowledgement finds it any more.
pub proof fn law_cancellation_is_delivered(
    a: DispatcherView,
    id: CommandId,
    receiver: oneshot::Receiver<CommandOutcome>,
    b: DispatcherView,
    c: DispatcherView,
    d: DispatcherView,
    outcome: CommandOutcomeView,
    known: bool,
    e: DispatcherView,
)
    requires
        registered(a, id, receiver, b),
        still_waits(b, id, c),
        all_cancelled(c, d),
        acknowledged(d, id, outcome, known, e),
    ensures
        sent_to(receiver) == Some(cancelled()),
        !known,
        e == d,
{
    assert(e.pending =~= d.pending);
}

/// The wait at `receiver` ended like this: with what was sent to it, with nothing
/// where nothing was sent, or because the time was up.
pub open spec fn ends_wait(receiver: oneshot::Receiver<CommandOutcome>, waited: Waited) -> bool {
    match waited {
        Waited::Acknowledged(outcome) => sent_to(receiver) == Some(outcome@),
        Waited::Dropped => sent_to(receiver) is None,
        Waited::Elapsed => true,
    }
}

/// Law: what a whole send comes to. A command is registered, and still waits when
/// something ends its wait. If it is acknowledged, the send comes to that outcome;
/// if all commands are cancelled, to the failure "cancelled"; if the time is up
/// before either reaches it, to the failure "timeout". Once the command is
/// discarded it is pending no more, however its wait ended.
pub proof fn law_send_comes_to_what_ended_its_wait(
    a: DispatcherView,
    id: CommandId,
    receiver: oneshot::Receiver<CommandOutcome>,
    b: DispatcherView,
    c: DispatcherView,
    outcome: CommandOutcomeView,
    known: bool,
    d: DispatcherView,
    waited: Waited,
)
    requires
        registered(a, id, receiver, b),
        still_waits(b, id, c),
        ends_wait(receiver, waited),
    ensures
        acknowledged(c, id, outcome, known, d) && !(waited is Elapsed) ==> known && settled(waited) == outcome,
        all_cancelled(c, d) && !(waited is Elapsed) ==> settled(waited) == cancelled(),
        waited is Elapsed ==> settled(waited) == CommandOutcomeView::Failure("timeout"@),
        waited is Dropped ==> settled(waited) == cancelled(),
        !discarded(c, id).pending.contains_key(id@),
        !discarded(d, id).pending.contains_key(id@),
{
}

/// Law: a command that was discarded is not found by an acknowledgement.
pub proof fn law_discarded_command_is_unknown(
    a: DispatcherView,
    id: CommandId,
    outcome: CommandOutcomeView,
    known: bool,
    b: DispatcherView,
)
    requires
        acknowledged(discarded(a, id), id, outcome, known, b),
    ensures
        !known,
        b == discarded(a, id),
{
    assert(b.pending =~= discarded(a, id).pending);
}

/// Law: only a registration uses an id up.
pub proof fn law_ids_are_used_by_registrations_only(
    a: DispatcherView,
    id: CommandId,
    outcome: CommandOutcomeView,
    known: bool,
    b: DispatcherView,
)
    ensures
        acknowledged(a, id, outcome, known, b) ==> b.next == a.next,
        all_cancelled(a, b) ==> b.next == a.next,
        discarded(a, id).next == a.next,
{
}

/// Law: a command gets an id that none of the `n` commands before it had, as long
/// as these are fewer than there are ids.
pub proof fn law_commands_get_fresh_ids(
    a: DispatcherView,
    first: CommandId,
    first_receiver: oneshot::Receiver<CommandOutcome>,
    b: DispatcherView,
    n: nat,
    c: DispatcherView,
    second: CommandId,
    second_receiver: oneshot::Receiver<CommandOutcome>,
    d: DispatcherView,
)
    requires
        registered(a, first, first_receiver, b),
        c.next == crate::ids::nth_id(b.next, n),
        registered(c, second, second_receiver, d),
        n + 1 < 0x1_0000_0000_0000_0000,
    ensures
        first@ != second@,
{
    crate::ids::law_ids_are_distinct(a.next, 0, n + 1);
    assert(crate::ids::nth_id(crate::ids::nth_id(a.next, 1), n) == crate::ids::nth_id(a.next, n + 1));
}

} // verus!
