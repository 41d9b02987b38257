//! Orchestration core for isolated agent workspaces.

pub mod approval;
pub mod artifacts;
pub mod budget;
pub mod cancellation;
pub mod checkpoints;
pub mod context;
pub mod domain;
pub mod environment;
pub mod error;
pub mod files;
pub mod filesystem;
pub mod ids;
pub mod persistence;
pub mod process;
pub mod protocol;
pub mod rebuild;
pub mod recovery;
pub mod requirements;
pub mod runs;
pub mod text;
pub mod worktree;

pub use approval::{require_approval, ApprovalDecision, ApprovalGate, Operation, Risk};
pub use artifacts::{ContextReply, ContextRequest, PutArtifact, ReadArtifact};
pub use budget::{BudgetAssessment, ContextBudgeter, ModelBudget};
pub use cancellation::{CancelReply, CancelRequest, Cancellation};
pub use checkpoints::TakeCheckpoint;
pub use context::{
    ArtifactRef, CheckpointData, ContextCheckpoint, ContextRepository, ContextScope, CoreContext,
    RebuiltContext, WorkingContext,
};
pub use domain::{
    AgentRole, AgentRun, AgentRunAttempt, Approval, Artifact, AttemptStatus, Checkpoint,
    Clarification, Event, Message, Project, Requirement, RequirementState, Task, Workspace,
};
pub use environment::Variable;
pub use error::OrchestratorError;
pub use files::{FileStep, StorePath};
pub use filesystem::{CanonicalPath, WorkspaceFs};
pub use ids::{EntityId, SessionId};
pub use persistence::JsonStateStore;
pub use process::{ExecutionEnvironment, LaunchPlan, ProcessSpec, ProcessSupervisor, PtySize};
pub use protocol::{dispatch, Envelope, ProtocolError, Response, PROTOCOL_VERSION};
pub use rebuild::{Rebuild, RebuildInput};
pub use recovery::{
    RecoveredPayload, RecoveryCandidate, RecoveryReply, RecoveryRequest, RecoveryRun,
    RecoveryRuntime, StartupRecovery, StartupRecoveryReport,
};
pub use requirements::{
    analyze_repository, AnalysisQuestion, DocumentWrite, QuestionPriority, RepositoryAnalysis,
    RequirementSpecification,
};
pub use worktree::{GitCommand, GitTurns, GitWorktreeService, WorktreeRequest};
