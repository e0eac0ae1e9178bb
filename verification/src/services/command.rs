//! Commands as clients send them.

use vstd::prelude::*;

use crate::commands::{Command, CommandOutcome, CommandOutcomeView, CommandView};
use crate::proto::{
    CommandResult, SendCommandRequest, SendCommandResponse, SendCommandResponseView,
};
use crate::state::StateCache;
use crate::status::{Status, StatusView};

verus! {

/// What becomes of a request.
#[derive(Debug)]
pub enum Acceptance {
    /// The command goes to the engine.
    Dispatch(Command),
    /// The client is answered at once.
    Answer(SendCommandResponse),
}

#[verifier::ext_equal]
pub enum AcceptanceView {
    Dispatch(CommandView),
    Answer(SendCommandResponseView),
}

impl View for Acceptance {
    type V = AcceptanceView;

    open spec fn view(&self) -> AcceptanceView {
        match self {
            Acceptance::Dispatch(command) => AcceptanceView::Dispatch(command@),
            Acceptance::Answer(response) => AcceptanceView::Answer(response@),
        }
    }
}

/// The answer to a command for a group that is not cached.
pub open spec fn unknown_group(id: Seq<char>) -> SendCommandResponseView {
    SendCommandResponseView { result: CommandResult::Failure, reason: "unknown group "@ + id }
}

/// What becomes of a request when `groups` are cached.
pub open spec fn accepted(groups: Set<Seq<char>>, request: SendCommandRequest) -> Result<
    AcceptanceView,
    StatusView,
> {
    match crate::commands::parsed(request) {
        Err(status) => Err(status),
        Ok(command) => {
            let id = crate::commands::addressee(command);
            if groups.contains(id) {
                Ok(AcceptanceView::Dispatch(command))
            } else {
                Ok(AcceptanceView::Answer(unknown_group(id)))
            }
        },
    }
}

/// The view of what became of a request.
pub open spec fn acceptance_view(acceptance: Result<Acceptance, Status>) -> Result<AcceptanceView, StatusView> {
    match acceptance {
        Ok(acceptance) => Ok(acceptance@),
        Err(status) => Err(status@),
    }
}

/// Decides whether a command goes to the engine. Fails fast on an unknown group
/// rather than dispatching a command the engine has no group to act on.
pub fn accept(state: &StateCache, request: SendCommandRequest) -> (acceptance: Result<Acceptance, Status>)
    requires
        state.wf(),
    ensures
        acceptance_view(acceptance) == accepted(state@.stored.groups.dom(), request),
{
    let command = match Command::from_proto(request) {
        Ok(command) => command,
        Err(status) => {
            return Err(status);
        },
    };
    if state.get_group(command.group_id()).is_none() {
        let mut reason = "unknown group ".to_owned();
        reason.append(command.group_id().as_str());
        return Ok(Acceptance::Answer(SendCommandResponse { result: CommandResult::Failure, reason }));
    }
    Ok(Acceptance::Dispatch(command))
}

/// What a client is told of the outcome of its command.
pub open spec fn reported(outcome: CommandOutcomeView) -> SendCommandResponseView {
    match outcome {
        CommandOutcomeView::Success => SendCommandResponseView {
            result: CommandResult::Success,
            reason: seq![],
        },
        CommandOutcomeView::Failure(reason) => SendCommandResponseView {
            result: CommandResult::Failure,
            reason,
        },
    }
}

/// What a client is told of the outcome of its command.
pub fn report(outcome: CommandOutcome) -> (response: SendCommandResponse)
    ensures
        response@ == reported(outcome@),
{
    match outcome {
        CommandOutcome::Success => SendCommandResponse {
            result: CommandResult::Success,
            reason: String::new(),
        },
        CommandOutcome::Failure(reason) => SendCommandResponse {
            result: CommandResult::Failure,
            reason,
        },
    }
}

/// Law: a command reaches the engine only for a group that is cached, and only
/// if the request said all that it must.
pub proof fn law_only_commands_for_known_groups_are_dispatched(
    groups: Set<Seq<char>>,
    request: SendCommandRequest,
    command: CommandView,
)
    requires
        accepted(groups, request) == Ok::<AcceptanceView, StatusView>(AcceptanceView::Dispatch(command)),
    ensures
        crate::commands::parsed(request) == Ok::<CommandView, StatusView>(command),
        groups.contains(crate::commands::addressee(command)),
        crate::commands::addressee(command).len() > 0,
{
}

} // verus!
