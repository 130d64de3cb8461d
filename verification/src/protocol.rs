//! The worker side of the pull protocol, as a state machine.
//!
//! A worker slot moves through: request sent when idle; an assignment in
//! hand; executing it; idle again — and it terminates for good when the
//! supervisor answers a request with the end-of-work marker or the channel
//! closes. The step function here is the single place that fixes those
//! transitions; a loop that drives a real worker thread feeds it one event
//! per channel interaction.

use vstd::prelude::*;

verus! {

/// Where one worker slot stands in the pull protocol.
#[derive(Clone, Copy, Debug, PartialEq, Eq, Structural)]
pub enum WorkerState {
    /// Between items, nothing requested yet.
    Idle,
    /// A need-work request is on the shared channel, awaiting the answer.
    RequestSent,
    /// An element is in hand, not yet started.
    Assigned,
    /// The user function is running on the element in hand.
    Executing,
    /// The end-of-work marker arrived, or the channel closed: the slot is
    /// done and never leaves this state.
    Terminated,
}

/// One observable event in a worker's loop.
#[derive(Clone, Copy, Debug, PartialEq, Eq, Structural)]
pub enum WorkerEvent {
    /// The worker put its id on the shared need-work channel.
    SendRequest,
    /// The supervisor answered with the next element.
    ReceiveAssignment,
    /// The supervisor answered with the end-of-work marker.
    ReceiveEndMarker,
    /// The worker's private channel closed.
    ChannelClosed,
    /// The worker started applying the user function.
    BeginExecute,
    /// The user function returned for the element in hand.
    FinishExecute,
}

/// The transition table of the worker loop: request when idle, await the
/// answer, execute what was assigned, come back for more; the end marker or
/// a closed channel terminates the slot. An event that does not belong to
/// the current state leaves it unchanged.
pub open spec fn spec_worker_step(s: WorkerState, e: WorkerEvent) -> WorkerState {
    match (s, e) {
        (WorkerState::Idle, WorkerEvent::SendRequest) => WorkerState::RequestSent,
        (WorkerState::RequestSent, WorkerEvent::ReceiveAssignment) => WorkerState::Assigned,
        (WorkerState::RequestSent, WorkerEvent::ReceiveEndMarker) => WorkerState::Terminated,
        (WorkerState::Assigned, WorkerEvent::BeginExecute) => WorkerState::Executing,
        (WorkerState::Executing, WorkerEvent::FinishExecute) => WorkerState::Idle,
        (_, WorkerEvent::ChannelClosed) => WorkerState::Terminated,
        (_, _) => s,
    }
}

/// Advance one worker slot by one event.
pub fn worker_step(s: WorkerState, e: WorkerEvent) -> (r: WorkerState)
    ensures
        r == spec_worker_step(s, e),
{
    match (s, e) {
        (WorkerState::Idle, WorkerEvent::SendRequest) => WorkerState::RequestSent,
        (WorkerState::RequestSent, WorkerEvent::ReceiveAssignment) => WorkerState::Assigned,
        (WorkerState::RequestSent, WorkerEvent::ReceiveEndMarker) => WorkerState::Terminated,
        (WorkerState::Assigned, WorkerEvent::BeginExecute) => WorkerState::Executing,
        (WorkerState::Executing, WorkerEvent::FinishExecute) => WorkerState::Idle,
        (_, WorkerEvent::ChannelClosed) => WorkerState::Terminated,
        (_, _) => s,
    }
}

/// A terminated worker slot stays terminated, whatever else happens.
pub proof fn lemma_terminated_is_absorbing(e: WorkerEvent)
    ensures
        spec_worker_step(WorkerState::Terminated, e) == WorkerState::Terminated,
{
}

} // verus!
