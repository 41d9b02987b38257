//! Stable orchestration-domain identifiers and state values.

use vstd::prelude::*;

use crate::ids::EntityId;

verus! {

/// Declares [`std::path::PathBuf`], carried through without being looked into.
#[verifier::external_type_specification]
#[verifier::external_body]
pub struct ExPathBuf(std::path::PathBuf);

/// `clone` of [`std::path::PathBuf`] gives a duplicate of the path.
pub assume_specification[ <std::path::PathBuf as Clone>::clone ](
    path: &std::path::PathBuf,
) -> (duplicate: std::path::PathBuf)
    ensures
        duplicate == *path,
;

/// Declares [`serde_json::Value`]; what the library reads of one is named in
/// [`crate::protocol`].
#[verifier::external_type_specification]
#[verifier::external_body]
pub struct ExJsonValue(serde_json::Value);

/// `clone` of [`serde_json::Value`] gives a duplicate of the value.
pub assume_specification[ <serde_json::Value as Clone>::clone ](
    value: &serde_json::Value,
) -> (duplicate: serde_json::Value)
    ensures
        duplicate == *value,
;

/// Where a requirement stands on its way from draft to completion.
#[derive(Clone, Copy, Debug, PartialEq, Eq, Structural)]
pub enum RequirementState {
    Draft,
    Clarifying,
    Ready,
    Planning,
    Executing,
    Integrating,
    Verifying,
    Completed,
    Failed,
    Paused,
}

impl RequirementState {
    /// The stored name of the state.
    pub open spec fn name(self) -> Seq<char> {
        match self {
            RequirementState::Draft => "draft"@,
            RequirementState::Clarifying => "clarifying"@,
            RequirementState::Ready => "ready"@,
            RequirementState::Planning => "planning"@,
            RequirementState::Executing => "executing"@,
            RequirementState::Integrating => "integrating"@,
            RequirementState::Verifying => "verifying"@,
            RequirementState::Completed => "completed"@,
            RequirementState::Failed => "failed"@,
            RequirementState::Paused => "paused"@,
        }
    }

    /// The states that follow this one when work goes on as planned, or resumes after a pause.
    pub open spec fn onward(self) -> Set<RequirementState> {
        match self {
            RequirementState::Draft => set![RequirementState::Clarifying],
            RequirementState::Clarifying => set![RequirementState::Ready],
            RequirementState::Ready => set![RequirementState::Planning],
            RequirementState::Planning => set![RequirementState::Executing],
            RequirementState::Executing => set![RequirementState::Integrating],
            RequirementState::Integrating => set![RequirementState::Verifying],
            RequirementState::Verifying => set![RequirementState::Completed],
            RequirementState::Completed => set![],
            RequirementState::Failed => set![],
            RequirementState::Paused => set![
                RequirementState::Clarifying,
                RequirementState::Planning,
                RequirementState::Executing,
            ],
        }
    }

    /// The requirement may go from this state to `next`: onward, or to failure or a pause,
    /// which stand open to every state.
    pub open spec fn may_become(self, next: RequirementState) -> bool {
        ||| next == RequirementState::Failed
        ||| next == RequirementState::Paused
        ||| self.onward().contains(next)
    }

    /// The stored name of the state.
    pub fn as_str(&self) -> (r: &'static str)
        ensures
            r@ == self.name(),
    {
        match self {
            RequirementState::Draft => "draft",
            RequirementState::Clarifying => "clarifying",
            RequirementState::Ready => "ready",
            RequirementState::Planning => "planning",
            RequirementState::Executing => "executing",
            RequirementState::Integrating => "integrating",
            RequirementState::Verifying => "verifying",
            RequirementState::Completed => "completed",
            RequirementState::Failed => "failed",
            RequirementState::Paused => "paused",
        }
    }

    /// Tells whether a requirement may go from this state to `next`.
    pub fn permits(&self, next: &Self) -> (r: bool)
        ensures
            r == self.may_become(*next),
    {
        match (self, next) {
            (_, RequirementState::Failed) => true,
            (_, RequirementState::Paused) => true,
            (RequirementState::Draft, RequirementState::Clarifying) => true,
            (RequirementState::Clarifying, RequirementState::Ready) => true,
            (RequirementState::Ready, RequirementState::Planning) => true,
            (RequirementState::Planning, RequirementState::Executing) => true,
            (RequirementState::Executing, RequirementState::Integrating) => true,
            (RequirementState::Integrating, RequirementState::Verifying) => true,
            (RequirementState::Verifying, RequirementState::Completed) => true,
            (RequirementState::Paused, RequirementState::Clarifying) => true,
            (RequirementState::Paused, RequirementState::Planning) => true,
            (RequirementState::Paused, RequirementState::Executing) => true,
            _ => false,
        }
    }
}

/// Where an attempt to run an agent stands.
#[derive(Clone, Copy, Debug, PartialEq, Eq, Structural)]
pub enum AttemptStatus {
    Starting,
    Running,
    Completed,
    Failed,
    Interrupted,
}

impl AttemptStatus {
    /// The stored name of the status.
    pub open spec fn name(self) -> Seq<char> {
        match self {
            AttemptStatus::Starting => "starting"@,
            AttemptStatus::Running => "running"@,
            AttemptStatus::Completed => "completed"@,
            AttemptStatus::Failed => "failed"@,
            AttemptStatus::Interrupted => "interrupted"@,
        }
    }

    /// The stored name of the status.
    pub fn as_str(&self) -> (r: &'static str)
        ensures
            r@ == self.name(),
    {
        match self {
            AttemptStatus::Starting => "starting",
            AttemptStatus::Running => "running",
            AttemptStatus::Completed => "completed",
            AttemptStatus::Failed => "failed",
            AttemptStatus::Interrupted => "interrupted",
        }
    }
}

#[derive(Clone, Debug)]
pub struct Project {
    pub id: EntityId,
    pub name: String,
}

#[derive(Clone, Debug)]
pub struct Requirement {
    pub id: EntityId,
    pub project_id: EntityId,
    pub title: String,
    pub state: RequirementState,
    pub confirmed_at: Option<String>,
}

#[derive(Clone, Debug)]
pub struct Clarification {
    pub id: EntityId,
    pub requirement_id: EntityId,
    pub question: String,
    pub answer: Option<String>,
}

#[derive(Clone, Debug)]
pub struct Task {
    pub id: EntityId,
    pub requirement_id: EntityId,
    pub title: String,
    pub specification_version_id: EntityId,
    pub specification_hash: String,
    pub specification_change_impact: Option<String>,
}

#[derive(Clone, Debug)]
pub struct AgentRole {
    pub id: EntityId,
    pub project_id: EntityId,
    pub name: String,
    pub instructions: String,
}

/// Logical execution identity. Process restarts do not replace this record.
#[derive(Clone, Debug)]
pub struct AgentRun {
    pub id: EntityId,
    pub agent_role_id: EntityId,
    pub task_id: EntityId,
    pub workspace_id: EntityId,
}

/// A concrete OS process belonging to a logical [`AgentRun`].
#[derive(Clone, Debug)]
pub struct AgentRunAttempt {
    pub id: EntityId,
    pub agent_run_id: EntityId,
    pub attempt_number: i64,
    pub pid: Option<u32>,
    pub status: AttemptStatus,
}

#[derive(Clone, Debug)]
pub struct Workspace {
    pub id: EntityId,
    pub project_id: EntityId,
    pub repository_path: std::path::PathBuf,
    pub worktree_path: std::path::PathBuf,
}

#[derive(Clone, Debug)]
pub struct Message {
    pub id: EntityId,
    pub agent_run_id: EntityId,
    pub direction: String,
    pub body: String,
}

#[derive(Clone, Debug)]
pub struct Artifact {
    pub id: EntityId,
    pub task_id: EntityId,
    pub workspace_id: EntityId,
    pub path: std::path::PathBuf,
    pub kind: String,
}

#[derive(Clone, Debug)]
pub struct Approval {
    pub id: EntityId,
    pub agent_run_id: EntityId,
    pub operation: String,
    pub decision: String,
}

#[derive(Clone, Debug)]
pub struct Checkpoint {
    pub id: EntityId,
    pub agent_run_id: EntityId,
    pub attempt_id: EntityId,
    pub sequence: i64,
    pub context: String,
}

#[derive(Clone, Debug)]
pub struct Event {
    pub sequence: i64,
    pub entity_type: String,
    pub entity_id: EntityId,
    pub event_type: String,
    pub payload: serde_json::Value,
    pub occurred_at: String,
}

/// `history` lists the states that a requirement went through, each change permitted.
pub open spec fn permitted_history(history: Seq<RequirementState>) -> bool {
    forall|i: int, j: int|
        0 <= i && j == i + 1 && j < history.len() ==> (#[trigger] history[i]).may_become(
            #[trigger] history[j],
        )
}

/// Work may fail or be paused in every state, and a requirement never becomes a draft again.
pub proof fn failure_and_pause_are_always_open(state: RequirementState)
    ensures
        state.may_become(RequirementState::Failed),
        state.may_become(RequirementState::Paused),
        !state.may_become(RequirementState::Draft),
{
}

/// Completion only follows verification of integrated work that was executed: whatever the
/// pauses on the way, a history from draft to completed ends in executing, integrating,
/// verifying, completed.
pub proof fn completion_follows_verification(history: Seq<RequirementState>)
    requires
        permitted_history(history),
        history.len() > 0,
        history.first() == RequirementState::Draft,
        history.last() == RequirementState::Completed,
    ensures
        history.len() >= 5,
        history[history.len() - 2] == RequirementState::Verifying,
        history[history.len() - 3] == RequirementState::Integrating,
        history[history.len() - 4] == RequirementState::Executing,
{
    let n = history.len() as int;
    assert(n >= 2);
    assert(history[n - 2].may_become(history[n - 1]));
    assert(n >= 3);
    assert(history[n - 3].may_become(history[n - 2]));
    assert(n >= 4);
    assert(history[n - 4].may_become(history[n - 3]));
    assert(n >= 5);
}

/// A completed or failed requirement takes no further step but to fail or to pause.
pub proof fn finished_states_have_no_onward_step(
    state: RequirementState,
    next: RequirementState,
)
    requires
        state == RequirementState::Completed || state == RequirementState::Failed,
        state.may_become(next),
    ensures
        next == RequirementState::Failed || next == RequirementState::Paused,
{
}

/// Different requirement states have different stored names.
pub proof fn state_names_are_distinct(a: RequirementState, b: RequirementState)
    requires
        a.name() == b.name(),
    ensures
        a == b,
{
    reveal_strlit("draft");
    reveal_strlit("clarifying");
    reveal_strlit("ready");
    reveal_strlit("planning");
    reveal_strlit("executing");
    reveal_strlit("integrating");
    reveal_strlit("verifying");
    reveal_strlit("completed");
    reveal_strlit("failed");
    reveal_strlit("paused");
    assert("draft"@[0] == 'd' && "draft"@[1] == 'r');
    assert("clarifying"@[0] == 'c' && "clarifying"@[1] == 'l');
    assert("ready"@[0] == 'r' && "ready"@[1] == 'e');
    assert("planning"@[0] == 'p' && "planning"@[1] == 'l');
    assert("executing"@[0] == 'e' && "executing"@[1] == 'x');
    assert("integrating"@[0] == 'i' && "integrating"@[1] == 'n');
    assert("verifying"@[0] == 'v' && "verifying"@[1] == 'e');
    assert("completed"@[0] == 'c' && "completed"@[1] == 'o');
    assert("failed"@[0] == 'f' && "failed"@[1] == 'a');
    assert("paused"@[0] == 'p' && "paused"@[1] == 'a');
}

/// Different attempt statuses have different stored names.
pub proof fn attempt_names_are_distinct(a: AttemptStatus, b: AttemptStatus)
    requires
        a.name() == b.name(),
    ensures
        a == b,
{
    reveal_strlit("starting");
    reveal_strlit("running");
    reveal_strlit("completed");
    reveal_strlit("failed");
    reveal_strlit("interrupted");
    assert("starting"@[0] == 's');
    assert("running"@[0] == 'r');
    assert("completed"@[0] == 'c');
    assert("failed"@[0] == 'f');
    assert("interrupted"@[0] == 'i');
}

/// A draft is clarified, made ready, planned, executed, integrated, verified and completed, in
/// this order and with nothing left out; a pause ends in clarifying, planning or executing; and no
/// other state comes behind one but failure and a pause.
pub proof fn states_follow_in_order(state: RequirementState, next: RequirementState)
    requires
        next != RequirementState::Failed && next != RequirementState::Paused,
    ensures
        state.may_become(next) <==> match next {
            RequirementState::Draft => false,
            RequirementState::Clarifying => state is Draft || state is Paused,
            RequirementState::Ready => state is Clarifying,
            RequirementState::Planning => state is Ready || state is Paused,
            RequirementState::Executing => state is Planning || state is Paused,
            RequirementState::Integrating => state is Executing,
            RequirementState::Verifying => state is Integrating,
            RequirementState::Completed => state is Verifying,
            _ => true,
        },
{
}

} // verus!
