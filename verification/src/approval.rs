//! Approval of privileged operations.

use vstd::prelude::*;

use crate::error::OrchestratorError;

verus! {

#[derive(Clone, Copy, Debug, PartialEq, Eq, Structural)]
pub enum Risk {
    Low,
    Medium,
    High,
}

/// An operation that has to be approved before it is carried out.
#[derive(Clone, Debug, PartialEq, Eq)]
pub struct Operation {
    pub kind: String,
    pub summary: String,
    pub risk: Risk,
}

#[derive(Clone, Copy, Debug, PartialEq, Eq, Structural)]
pub enum ApprovalDecision {
    AllowOnce,
    Deny,
}

/// Decides on operations.
pub trait ApprovalGate: Send + Sync {
    fn authorize(&self, operation: &Operation) -> (r: Result<ApprovalDecision, OrchestratorError>);
}

/// `outcome` is what the decision on the operation comes to: leave to go on, a denial that names
/// the operation, or the failure to decide on it.
pub open spec fn follows_decision(
    decision: Result<ApprovalDecision, OrchestratorError>,
    operation: Operation,
    outcome: Result<(), OrchestratorError>,
) -> bool {
    match decision {
        Ok(ApprovalDecision::AllowOnce) => outcome is Ok,
        Ok(ApprovalDecision::Deny) => outcome matches Err(e) && e.is_access_denied(
            operation.summary@,
        ),
        Err(failure) => outcome == Err::<(), OrchestratorError>(failure),
    }
}

/// What a decision on the operation comes to.
pub fn enforce_decision(
    decision: Result<ApprovalDecision, OrchestratorError>,
    operation: &Operation,
) -> (outcome: Result<(), OrchestratorError>)
    ensures
        follows_decision(decision, *operation, outcome),
        outcome is Ok <==> decision is Ok && decision->Ok_0 is AllowOnce,
        decision is Ok && decision->Ok_0 is Deny ==> outcome->Err_0 is AccessDenied
            && outcome->Err_0->AccessDenied_0@ == operation.summary@,
        decision is Err ==> outcome->Err_0 == decision->Err_0,
{
    match decision {
        Ok(ApprovalDecision::AllowOnce) => Ok(()),
        Ok(ApprovalDecision::Deny) => Err(
            OrchestratorError::AccessDenied(operation.summary.clone()),
        ),
        Err(failure) => Err(failure),
    }
}

/// Asks for a decision on the operation, and lets it pass only if it is allowed.
pub fn require_approval<G: ApprovalGate + ?Sized>(gate: &G, operation: &Operation) -> (outcome:
    Result<(), OrchestratorError>)
    ensures
        exists|decision: Result<ApprovalDecision, OrchestratorError>|
            #![trigger follows_decision(decision, *operation, outcome)]
            call_ensures(G::authorize, (gate, operation), decision)
                && follows_decision(decision, *operation, outcome),
{
    let decision = gate.authorize(operation);
    enforce_decision(decision, operation)
}

/// Nothing passes but what was allowed: a denied operation is always refused, and so is one that
/// could not be decided on.
pub proof fn only_an_allowance_passes(
    decision: Result<ApprovalDecision, OrchestratorError>,
    operation: Operation,
    outcome: Result<(), OrchestratorError>,
)
    requires
        follows_decision(decision, operation, outcome),
    ensures
        outcome is Ok <==> decision matches Ok(ApprovalDecision::AllowOnce),
{
}

/// An allowance passes, a denial is refused with the whole summary of the operation, and a failure
/// to decide is passed on as it is.
pub proof fn decisions_come_to_these_outcomes(
    operation: Operation,
    failure: OrchestratorError,
    outcome: Result<(), OrchestratorError>,
)
    ensures
        follows_decision(Ok(ApprovalDecision::AllowOnce), operation, outcome) <==> outcome is Ok,
        follows_decision(Ok(ApprovalDecision::Deny), operation, outcome) <==> (outcome is Err
            && outcome->Err_0 is AccessDenied && outcome->Err_0->AccessDenied_0@
            == operation.summary@),
        follows_decision(Err(failure), operation, outcome) <==> outcome == Err::<
            (),
            OrchestratorError,
        >(failure),
{
}

} // verus!
