//! Approval of operations.

use agentharbor::approval::enforce_decision;
use agentharbor::{require_approval, ApprovalDecision, ApprovalGate, Operation, OrchestratorError, Risk};

enum Gate {
    Allows,
    Denies,
    Fails,
}

impl ApprovalGate for Gate {
    fn authorize(&self, operation: &Operation) -> Result<ApprovalDecision, OrchestratorError> {
        match self {
            Gate::Allows => Ok(ApprovalDecision::AllowOnce),
            Gate::Denies => Ok(ApprovalDecision::Deny),
            Gate::Fails => Err(OrchestratorError::ApprovalRequired(operation.kind.clone())),
        }
    }
}

fn operation() -> Operation {
    Operation {
        kind: "git.worktree".to_owned(),
        summary: "remove the worktree".to_owned(),
        risk: Risk::High,
    }
}

#[test]
fn an_allowed_operation_passes() {
    assert!(require_approval(&Gate::Allows, &operation()).is_ok());
    let gate: &dyn ApprovalGate = &Gate::Allows;
    assert!(require_approval(gate, &operation()).is_ok());
}

#[test]
fn a_denied_operation_is_refused_by_its_summary() {
    let error = require_approval(&Gate::Denies, &operation()).unwrap_err();
    assert_eq!(error.message(), "access denied: remove the worktree");
    let gate: &dyn ApprovalGate = &Gate::Denies;
    assert!(require_approval(gate, &operation()).is_err());
}

#[test]
fn the_failure_to_decide_is_passed_on() {
    let error = require_approval(&Gate::Fails, &operation()).unwrap_err();
    assert_eq!(error.message(), "approval is required for git.worktree");
}

#[test]
fn decisions_come_to_their_outcomes() {
    assert!(enforce_decision(Ok(ApprovalDecision::AllowOnce), &operation()).is_ok());
    assert!(matches!(
        enforce_decision(Ok(ApprovalDecision::Deny), &operation()),
        Err(OrchestratorError::AccessDenied(summary)) if summary == "remove the worktree"
    ));
    assert!(matches!(
        enforce_decision(Err(OrchestratorError::invalid_input("x")), &operation()),
        Err(OrchestratorError::InvalidInput(message)) if message == "x"
    ));
}
