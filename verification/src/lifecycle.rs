//! The lease discipline of one store operation.
//!
//! A store operation leases a pooled connection, executes one backend call,
//! and ends committed or failed; when no connection is free within policy it
//! ends exhausted. The handler loop around the pool performs one action at a
//! time and feeds the outcome back as an event; this module decides every
//! transition, so a driver cannot reach a response the discipline forbids.

use crate::store::StoreError;
use vstd::prelude::*;

verus! {

/// Where one store operation stands. `Committed` is terminal with success;
/// `Failed` and `PoolExhausted` are terminal with error.
#[derive(Clone, Copy, PartialEq, Eq, Structural, Debug)]
pub enum StoreOpState {
    Idle,
    Acquiring,
    Acquired,
    Executing,
    Committed,
    Failed,
    PoolExhausted,
}

/// What the driver reports back: the operation was requested, the pool
/// granted a connection or had none free, the backend call was dispatched,
/// and the call returned or failed.
#[derive(Clone, Copy, PartialEq, Eq, Structural, Debug)]
pub enum StoreOpEvent {
    OpRequested,
    ConnectionGranted,
    NoConnectionFree,
    CallDispatched,
    BackendOk,
    BackendFailed,
}

/// Every transition of one store operation. An event that its state does not
/// expect moves the machine nowhere.
pub open spec fn spec_step(state: StoreOpState, event: StoreOpEvent) -> StoreOpState {
    match (state, event) {
        (StoreOpState::Idle, StoreOpEvent::OpRequested) => StoreOpState::Acquiring,
        (StoreOpState::Acquiring, StoreOpEvent::ConnectionGranted) => StoreOpState::Acquired,
        (StoreOpState::Acquiring, StoreOpEvent::NoConnectionFree) => StoreOpState::PoolExhausted,
        (StoreOpState::Acquired, StoreOpEvent::CallDispatched) => StoreOpState::Executing,
        (StoreOpState::Executing, StoreOpEvent::BackendOk) => StoreOpState::Committed,
        (StoreOpState::Executing, StoreOpEvent::BackendFailed) => StoreOpState::Failed,
        (s, _) => s,
    }
}

/// A state no event leaves.
pub open spec fn is_terminal(state: StoreOpState) -> bool {
    state == StoreOpState::Committed || state == StoreOpState::Failed || state
        == StoreOpState::PoolExhausted
}

/// The status code a terminal state is signalled as: success, or a
/// server-side failure — pool exhaustion and backend failure are never
/// reported as success.
pub open spec fn spec_http_status(state: StoreOpState) -> u16
    recommends
        is_terminal(state),
{
    if state == StoreOpState::Committed {
        200
    } else {
        500
    }
}

/// Advance one store operation by one observed event.
pub fn step(state: StoreOpState, event: StoreOpEvent) -> (next: StoreOpState)
    ensures
        next == spec_step(state, event),
{
    match (state, event) {
        (StoreOpState::Idle, StoreOpEvent::OpRequested) => StoreOpState::Acquiring,
        (StoreOpState::Acquiring, StoreOpEvent::ConnectionGranted) => StoreOpState::Acquired,
        (StoreOpState::Acquiring, StoreOpEvent::NoConnectionFree) => StoreOpState::PoolExhausted,
        (StoreOpState::Acquired, StoreOpEvent::CallDispatched) => StoreOpState::Executing,
        (StoreOpState::Executing, StoreOpEvent::BackendOk) => StoreOpState::Committed,
        (StoreOpState::Executing, StoreOpEvent::BackendFailed) => StoreOpState::Failed,
        (s, _) => s,
    }
}

/// Whether the operation has finished, one way or the other.
pub fn is_finished(state: StoreOpState) -> (finished: bool)
    ensures
        finished == is_terminal(state),
{
    match state {
        StoreOpState::Committed | StoreOpState::Failed | StoreOpState::PoolExhausted => true,
        _ => false,
    }
}

/// The status code of a finished operation.
pub fn http_status(state: StoreOpState) -> (code: u16)
    requires
        is_terminal(state),
    ensures
        code == spec_http_status(state),
{
    match state {
        StoreOpState::Committed => 200,
        _ => 500,
    }
}

/// The status a bookmark handler signals for a store outcome: success is
/// reported as success, and every failure — pool exhaustion or backend — as
/// a server-side error, never as a silent success.
pub fn store_outcome_status<T>(outcome: &Result<T, StoreError>) -> (code: u16)
    ensures
        outcome is Ok <==> code == 200,
        outcome is Err <==> code == 500,
{
    match outcome {
        Ok(_) => 200,
        Err(_) => 500,
    }
}

/// A terminal state absorbs every further event: a finished operation
/// cannot be revived by a late pool or backend report.
pub proof fn lemma_terminal_absorbs(state: StoreOpState, event: StoreOpEvent)
    requires
        is_terminal(state),
    ensures
        spec_step(state, event) == state,
{
}

/// An exhausted pool ends the operation in a terminal error state whose
/// status is a server-side failure, and the process carries on.
pub proof fn lemma_exhausted_pool_is_server_error()
    ensures
        spec_step(StoreOpState::Acquiring, StoreOpEvent::NoConnectionFree)
            == StoreOpState::PoolExhausted,
        is_terminal(StoreOpState::PoolExhausted),
        spec_http_status(StoreOpState::PoolExhausted) == 500,
{
}

/// The one successful run: request, grant, dispatch, success — and its
/// status is success.
pub proof fn lemma_committed_run_is_ok()
    ensures
        spec_step(
            spec_step(
                spec_step(
                    spec_step(StoreOpState::Idle, StoreOpEvent::OpRequested),
                    StoreOpEvent::ConnectionGranted,
                ),
                StoreOpEvent::CallDispatched,
            ),
            StoreOpEvent::BackendOk,
        ) == StoreOpState::Committed,
        spec_http_status(StoreOpState::Committed) == 200,
{
}

} // verus!
