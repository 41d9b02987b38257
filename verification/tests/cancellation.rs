//! Cancellation of a child.

use agentharbor::{CancelReply, CancelRequest, Cancellation, EntityId, OrchestratorError};

fn begin() -> Cancellation {
    Cancellation::Asking { session: EntityId { value: 3 }, grace_ms: 100 }
}

#[test]
fn a_child_that_stops_in_time_is_not_killed() {
    let session = EntityId { value: 3 };
    let state = begin();
    assert_eq!(state.request(), Some(CancelRequest::AskToStop { session }));
    let state = state.advance(CancelReply::Done);
    assert_eq!(state.request(), Some(CancelRequest::CheckEnd { session }));
    let state = state.advance(CancelReply::Running { elapsed_ms: 99 });
    assert_eq!(state.request(), Some(CancelRequest::CheckEnd { session }));
    let state = state.advance(CancelReply::Ended);
    assert_eq!(state.request(), None);
    assert!(matches!(state, Cancellation::Finished(Ok(()))));
}

#[test]
fn a_child_that_runs_on_is_killed_at_the_deadline() {
    let session = EntityId { value: 3 };
    let state = begin().advance(CancelReply::Done);
    let state = state.advance(CancelReply::Running { elapsed_ms: 100 });
    assert_eq!(state.request(), Some(CancelRequest::Kill { session }));
    assert!(matches!(state.advance(CancelReply::Done), Cancellation::Finished(Ok(()))));
}

#[test]
fn a_child_that_cannot_be_asked_is_waited_for() {
    let state = begin().advance(CancelReply::Failed(OrchestratorError::invalid_input("x")));
    assert!(matches!(state.request(), Some(CancelRequest::CheckEnd { .. })));
}

#[test]
fn failures_to_look_or_to_kill_are_reported() {
    let failure = || CancelReply::Failed(OrchestratorError::invalid_input("x"));
    let state = begin().advance(CancelReply::Done).advance(failure());
    assert!(matches!(state, Cancellation::Finished(Err(_))));
    let state = begin().advance(CancelReply::Done);
    let state = state.advance(CancelReply::Running { elapsed_ms: 500 }).advance(failure());
    match state {
        Cancellation::Finished(Err(error)) => assert_eq!(error.message(), "invalid input: x"),
        other => panic!("{other:?}"),
    }
}
