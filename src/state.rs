use vstd::prelude::*;

use crate::error::ErrorKind;

verus! {

/// Where an operation stands in its life.
#[derive(Clone, Copy, Debug, PartialEq, Eq, Structural)]
pub enum OperationState {
    Queued,
    Running,
    Paused,
    Cancelling,
    Completed,
    Failed(ErrorKind),
    Cancelled,
}

/// What can happen to an operation.
#[derive(Clone, Copy, Debug, PartialEq, Eq, Structural)]
pub enum Event {
    /// A worker took the operation up.
    Start,
    Pause,
    Resume,
    /// The user asked to cancel.
    Cancel,
    /// The worker saw the cancel request and stopped.
    CancelAcknowledged,
    /// The worker finished the work (a worker that has seen a cancel request
    /// acknowledges it instead).
    Finish,
    /// The worker stopped on an error that ends the whole operation.
    Fail(ErrorKind),
}

/// An operation in this state is over and stays so.
pub open spec fn is_terminal(s: OperationState) -> bool {
    match s {
        OperationState::Completed | OperationState::Failed(_) | OperationState::Cancelled => true,
        _ => false,
    }
}

/// The state that `event` leads to from `s`, or `None` where the event is not
/// allowed there.
pub open spec fn next_state(s: OperationState, event: Event) -> Option<OperationState> {
    match (s, event) {
        (OperationState::Queued, Event::Start) => Some(OperationState::Running),
        (OperationState::Queued, Event::Cancel) => Some(OperationState::Cancelled),
        (OperationState::Running, Event::Pause) => Some(OperationState::Paused),
        (OperationState::Running, Event::Cancel) => Some(OperationState::Cancelling),
        (OperationState::Running, Event::Finish) => Some(OperationState::Completed),
        (OperationState::Running, Event::Fail(k)) => Some(OperationState::Failed(k)),
        (OperationState::Paused, Event::Resume) => Some(OperationState::Running),
        (OperationState::Paused, Event::Cancel) => Some(OperationState::Cancelling),
        (OperationState::Cancelling, Event::CancelAcknowledged) => Some(OperationState::Cancelled),
        (OperationState::Cancelling, Event::Fail(_)) => Some(OperationState::Cancelled),
        _ => None,
    }
}

/// How far an operation has come: it never goes back.
pub open spec fn stage(s: OperationState) -> nat {
    match s {
        OperationState::Queued => 0,
        OperationState::Running | OperationState::Paused => 1,
        OperationState::Cancelling => 2,
        _ => 3,
    }
}

/// The state that `event` leads to from `s`, or `None` where it is not allowed.
pub fn transition(s: OperationState, event: Event) -> (r: Option<OperationState>)
    ensures
        r == next_state(s, event),
{
    match (s, event) {
        (OperationState::Queued, Event::Start) => Some(OperationState::Running),
        (OperationState::Queued, Event::Cancel) => Some(OperationState::Cancelled),
        (OperationState::Running, Event::Pause) => Some(OperationState::Paused),
        (OperationState::Running, Event::Cancel) => Some(OperationState::Cancelling),
        (OperationState::Running, Event::Finish) => Some(OperationState::Completed),
        (OperationState::Running, Event::Fail(k)) => Some(OperationState::Failed(k)),
        (OperationState::Paused, Event::Resume) => Some(OperationState::Running),
        (OperationState::Paused, Event::Cancel) => Some(OperationState::Cancelling),
        (OperationState::Cancelling, Event::CancelAcknowledged) => Some(OperationState::Cancelled),
        (OperationState::Cancelling, Event::Fail(_)) => Some(OperationState::Cancelled),
        _ => None,
    }
}

/// Tells whether an operation in state `s` is over.
pub fn terminal(s: OperationState) -> (r: bool)
    ensures
        r == is_terminal(s),
{
    match s {
        OperationState::Completed | OperationState::Failed(_) | OperationState::Cancelled => true,
        _ => false,
    }
}

/// Transitions only move forward: no event takes an operation back to an
/// earlier stage, and a finished operation (completed, failed or cancelled)
/// takes no event at all.
pub proof fn lemma_transitions_monotonic(s: OperationState, event: Event)
    ensures
        next_state(s, event) matches Some(t) ==> stage(s) <= stage(t),
        is_terminal(s) ==> next_state(s, event) is None,
{
}

/// Paused is reached only from Running, and leaves only to Running or Cancelling.
pub proof fn lemma_paused_edges(s: OperationState, event: Event)
    ensures
        next_state(s, event) == Some(OperationState::Paused) ==> s == OperationState::Running,
        s == OperationState::Paused && next_state(s, event) is Some ==> next_state(s, event)
            == Some(OperationState::Running) || next_state(s, event) == Some(
            OperationState::Cancelling,
        ),
{
}

/// Cancelling a queued operation ends it at once; a cancel that a worker
/// acknowledges, or a failure seen while cancelling, ends as Cancelled and
/// never as Failed.
pub proof fn lemma_cancel_outcomes(k: ErrorKind)
    ensures
        next_state(OperationState::Queued, Event::Cancel) == Some(OperationState::Cancelled),
        next_state(OperationState::Cancelling, Event::CancelAcknowledged) == Some(
            OperationState::Cancelled,
        ),
        next_state(OperationState::Cancelling, Event::Fail(k)) == Some(OperationState::Cancelled),
{
}

/// Once cancelling, an operation can only end as Cancelled: it never turns
/// Completed or Failed.
pub proof fn lemma_cancelling_ends_cancelled(event: Event)
    ensures
        next_state(OperationState::Cancelling, event) matches Some(t) ==> t
            == OperationState::Cancelled,
{
}

} // verus!
