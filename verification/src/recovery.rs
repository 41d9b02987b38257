//! Startup recovery separates durable reconciliation from platform-specific process work.

use vstd::prelude::*;

use crate::domain::AgentRunAttempt;
use crate::error::OrchestratorError;
use crate::ids::EntityId;

verus! {

/// A logical run whose attempt was interrupted, with what it takes to resume it.
#[derive(Clone, Debug)]
pub struct RecoveryCandidate {
    pub agent_run_id: EntityId,
    pub interrupted_attempt_id: EntityId,
    pub workspace_id: EntityId,
    pub worktree_path: std::path::PathBuf,
    pub checkpoint_context: Option<String>,
}

/// Implemented by the host because PID lookup, worktree mounting, context construction,
/// and adapter process launch differ between Windows and WSL.
pub trait RecoveryRuntime {
    fn is_process_alive(&self, pid: u32) -> (r: bool);

    fn remount_worktree(&self, path: &std::path::PathBuf) -> (r: Result<(), OrchestratorError>);

    fn rebuild_context(&self, candidate: &RecoveryCandidate) -> (r: Result<(), OrchestratorError>);

    fn launch(&self, candidate: &RecoveryCandidate) -> (r: Result<u32, OrchestratorError>);
}

/// What a startup recovery did: how many attempts were interrupted, and the attempts that resume
/// their runs.
#[derive(Debug, Default)]
pub struct StartupRecoveryReport {
    pub interrupted: usize,
    pub resumed: Vec<AgentRunAttempt>,
}

/// What the event of a recovered run tells.
#[derive(Clone, Copy, Debug, PartialEq, Eq, Structural)]
pub struct RecoveredPayload {
    pub from_attempt_id: EntityId,
    pub to_attempt_id: EntityId,
    pub workspace_id: EntityId,
    pub checkpoint_restored: bool,
}

/// What a recovery asks for next, of the store or of the runtime.
pub enum RecoveryRequest<'a> {
    /// Mark the running attempts whose process is gone as interrupted, and list their runs.
    Reconcile,
    /// Make the worktree available again.
    RemountWorktree { path: &'a std::path::PathBuf },
    /// Restore the context of the run from its checkpoint.
    RebuildContext { candidate: &'a RecoveryCandidate },
    /// Launch a process for the run.
    Launch { candidate: &'a RecoveryCandidate },
    /// Record a new attempt of the run, with this process.
    StartAttempt { agent_run_id: EntityId, pid: u32 },
    /// Record an event.
    RecordEvent {
        entity_type: &'static str,
        entity_id: EntityId,
        event_type: &'static str,
        payload: RecoveredPayload,
    },
}

/// A request by what it asks for.
pub enum RecoveryAsk {
    Reconcile,
    RemountWorktree(std::path::PathBuf),
    RebuildContext(RecoveryCandidate),
    Launch(RecoveryCandidate),
    StartAttempt(EntityId, u32),
    RecordEvent(Seq<char>, EntityId, Seq<char>, RecoveredPayload),
}

impl<'a> View for RecoveryRequest<'a> {
    type V = RecoveryAsk;

    open spec fn view(&self) -> RecoveryAsk {
        match *self {
            RecoveryRequest::Reconcile => RecoveryAsk::Reconcile,
            RecoveryRequest::RemountWorktree { path } => RecoveryAsk::RemountWorktree(*path),
            RecoveryRequest::RebuildContext { candidate } => RecoveryAsk::RebuildContext(
                *candidate,
            ),
            RecoveryRequest::Launch { candidate } => RecoveryAsk::Launch(*candidate),
            RecoveryRequest::StartAttempt { agent_run_id, pid } => RecoveryAsk::StartAttempt(
                agent_run_id,
                pid,
            ),
            RecoveryRequest::RecordEvent { entity_type, entity_id, event_type, payload } =>
                RecoveryAsk::RecordEvent(entity_type@, entity_id, event_type@, payload),
        }
    }
}

/// The answer to a request.
#[derive(Debug)]
pub enum RecoveryReply {
    Candidates(Vec<RecoveryCandidate>),
    Done,
    Launched(u32),
    Started(AgentRunAttempt),
    Failed(OrchestratorError),
}

impl RecoveryAsk {
    /// `reply` is of the kind that answers this; a failure answers everything.
    pub open spec fn is_answered_by(self, reply: RecoveryReply) -> bool {
        reply is Failed || match self {
            RecoveryAsk::Reconcile => reply is Candidates,
            RecoveryAsk::RemountWorktree(_) => reply is Done,
            RecoveryAsk::RebuildContext(_) => reply is Done,
            RecoveryAsk::Launch(_) => reply is Launched,
            RecoveryAsk::StartAttempt(_, _) => reply is Started,
            RecoveryAsk::RecordEvent(_, _, _, _) => reply is Done,
        }
    }
}

/// The reply that tells the end of an operation.
fn reply_of(end: Result<(), OrchestratorError>) -> (r: RecoveryReply)
    ensures
        r == match end {
            Ok(_) => RecoveryReply::Done,
            Err(e) => RecoveryReply::Failed(e),
        },
{
    match end {
        Ok(()) => RecoveryReply::Done,
        Err(e) => RecoveryReply::Failed(e),
    }
}

/// `reply` passes on what the runtime came back with to the request, made with just what was
/// asked for.
pub open spec fn comes_from<R: RecoveryRuntime>(
    runtime: &R,
    ask: RecoveryAsk,
    reply: RecoveryReply,
) -> bool {
    match ask {
        RecoveryAsk::RemountWorktree(path) => exists|end: Result<(), OrchestratorError>| #[trigger]
            call_ensures(R::remount_worktree, (runtime, &path), end) && reply == match end {
                Ok(_) => RecoveryReply::Done,
                Err(e) => RecoveryReply::Failed(e),
            },
        RecoveryAsk::RebuildContext(candidate) => exists|end: Result<(), OrchestratorError>|
         #[trigger]
            call_ensures(R::rebuild_context, (runtime, &candidate), end) && reply == match end {
                Ok(_) => RecoveryReply::Done,
                Err(e) => RecoveryReply::Failed(e),
            },
        RecoveryAsk::Launch(candidate) => exists|end: Result<u32, OrchestratorError>| #[trigger]
            call_ensures(R::launch, (runtime, &candidate), end) && reply == match end {
                Ok(pid) => RecoveryReply::Launched(pid),
                Err(e) => RecoveryReply::Failed(e),
            },
        _ => false,
    }
}

impl<'a> RecoveryRequest<'a> {
    /// Puts the request to the runtime, if it is one for the runtime; the others are the store's.
    pub fn perform<R: RecoveryRuntime>(&self, runtime: &R) -> (r: Option<RecoveryReply>)
        ensures
            r is None <==> self@ is Reconcile || self@ is StartAttempt || self@ is RecordEvent,
            r matches Some(reply) ==> comes_from(runtime, self@, reply)
                && self@.is_answered_by(reply),
    {
        match self {
            RecoveryRequest::RemountWorktree { path } => {
                let end = runtime.remount_worktree(*path);
                Some(reply_of(end))
            },
            RecoveryRequest::RebuildContext { candidate } => {
                let end = runtime.rebuild_context(*candidate);
                Some(reply_of(end))
            },
            RecoveryRequest::Launch { candidate } => {
                let end = runtime.launch(*candidate);
                Some(
                    match end {
                        Ok(pid) => RecoveryReply::Launched(pid),
                        Err(e) => RecoveryReply::Failed(e),
                    },
                )
            },
            _ => None,
        }
    }
}

/// How far a recovery has come: the candidates, the place of the one at hand, and the attempts
/// that resumed those before it.
#[derive(Debug)]
pub struct RecoveryProgress {
    pub candidates: Vec<RecoveryCandidate>,
    pub position: usize,
    pub resumed: Vec<AgentRunAttempt>,
}

impl RecoveryProgress {
    /// There is a candidate at hand, and each before it was resumed.
    pub open spec fn is_sound(self) -> bool {
        self.position < self.candidates@.len() && self.resumed@.len() == self.position
    }

    /// The candidate at hand.
    pub open spec fn candidate(self) -> RecoveryCandidate {
        self.candidates@[self.position as int]
    }
}

/// A startup recovery: stale attempts are reconciled first; then, for one candidate after the
/// other, the worktree and the context are restored before a process is launched, the new
/// attempt is recorded, and so is the event.
#[derive(Debug)]
pub enum RecoveryRun {
    Reconciling,
    Remounting { progress: RecoveryProgress },
    Rebuilding { progress: RecoveryProgress },
    Launching { progress: RecoveryProgress },
    Starting { progress: RecoveryProgress, pid: u32 },
    Recording { progress: RecoveryProgress, attempt: AgentRunAttempt },
    Finished(Result<StartupRecoveryReport, OrchestratorError>),
}

/// What the event of the recovered candidate tells.
pub open spec fn recovered_payload(
    candidate: RecoveryCandidate,
    attempt: AgentRunAttempt,
) -> RecoveredPayload {
    RecoveredPayload {
        from_attempt_id: candidate.interrupted_attempt_id,
        to_attempt_id: attempt.id,
        workspace_id: candidate.workspace_id,
        checkpoint_restored: candidate.checkpoint_context is Some,
    }
}

impl RecoveryRun {
    /// The recovery is in a state that it can get into.
    pub open spec fn is_sound(self) -> bool {
        match self {
            RecoveryRun::Reconciling => true,
            RecoveryRun::Remounting { progress } => progress.is_sound(),
            RecoveryRun::Rebuilding { progress } => progress.is_sound(),
            RecoveryRun::Launching { progress } => progress.is_sound(),
            RecoveryRun::Starting { progress, pid } => progress.is_sound(),
            RecoveryRun::Recording { progress, attempt } => progress.is_sound(),
            RecoveryRun::Finished(_) => true,
        }
    }

    /// What the recovery asks for.
    pub open spec fn asks(self) -> Option<RecoveryAsk> {
        match self {
            RecoveryRun::Reconciling => Some(RecoveryAsk::Reconcile),
            RecoveryRun::Remounting { progress } => Some(
                RecoveryAsk::RemountWorktree(progress.candidate().worktree_path),
            ),
            RecoveryRun::Rebuilding { progress } => Some(
                RecoveryAsk::RebuildContext(progress.candidate()),
            ),
            RecoveryRun::Launching { progress } => Some(RecoveryAsk::Launch(progress.candidate())),
            RecoveryRun::Starting { progress, pid } => Some(
                RecoveryAsk::StartAttempt(progress.candidate().agent_run_id, pid),
            ),
            RecoveryRun::Recording { progress, attempt } => Some(
                RecoveryAsk::RecordEvent(
                    "agent_run"@,
                    progress.candidate().agent_run_id,
                    "agent_run.recovered"@,
                    recovered_payload(progress.candidate(), attempt),
                ),
            ),
            RecoveryRun::Finished(_) => None,
        }
    }

    /// The recovery has resumed the first `position` candidates: it goes on to the next, or, past
    /// the last, ends with its report.
    pub open spec fn has_resumed(
        self,
        candidates: Vec<RecoveryCandidate>,
        position: int,
        resumed: Seq<AgentRunAttempt>,
    ) -> bool {
        if position < candidates@.len() {
            &&& self matches RecoveryRun::Remounting { progress }
            &&& progress.candidates == candidates
            &&& progress.position == position
            &&& progress.resumed@ == resumed
        } else {
            &&& self matches RecoveryRun::Finished(Ok(report))
            &&& report.interrupted == candidates@.len()
            &&& report.resumed@ == resumed
        }
    }

    /// `next` is where `reply` takes the recovery; a failure ends it.
    pub open spec fn leads_to(self, reply: RecoveryReply, next: RecoveryRun) -> bool {
        match (self, reply) {
            (_, RecoveryReply::Failed(e)) => next == RecoveryRun::Finished(Err(e)),
            (RecoveryRun::Reconciling, RecoveryReply::Candidates(candidates)) => next.has_resumed(
                candidates,
                0,
                seq![],
            ),
            (RecoveryRun::Remounting { progress }, RecoveryReply::Done) => next == (
            RecoveryRun::Rebuilding { progress }),
            (RecoveryRun::Rebuilding { progress }, RecoveryReply::Done) => next == (
            RecoveryRun::Launching { progress }),
            (RecoveryRun::Launching { progress }, RecoveryReply::Launched(pid)) => next == (
            RecoveryRun::Starting { progress, pid }),
            (RecoveryRun::Starting { progress, pid }, RecoveryReply::Started(attempt)) => next == (
            RecoveryRun::Recording { progress, attempt }),
            (RecoveryRun::Recording { progress, attempt }, RecoveryReply::Done) => next.has_resumed(
                progress.candidates,
                progress.position + 1,
                progress.resumed@.push(attempt),
            ),
            _ => next == self,
        }
    }

    /// Goes on with the candidate at `position`, or, past the last, ends with the report.
    fn resume_from(
        candidates: Vec<RecoveryCandidate>,
        position: usize,
        resumed: Vec<AgentRunAttempt>,
    ) -> (r: RecoveryRun)
        requires
            resumed@.len() == position,
        ensures
            r.is_sound(),
            r.has_resumed(candidates, position as int, resumed@),
    {
        if position < candidates.len() {
            RecoveryRun::Remounting { progress: RecoveryProgress { candidates, position, resumed } }
        } else {
            RecoveryRun::Finished(
                Ok(StartupRecoveryReport { interrupted: candidates.len(), resumed }),
            )
        }
    }

    /// What the recovery asks for; nothing, once it is finished.
    pub fn request(&self) -> (r: Option<RecoveryRequest<'_>>)
        requires
            self.is_sound(),
        ensures
            match r {
                Some(request) => self.asks() == Some(request@),
                None => self.asks() is None,
            },
    {
        match self {
            RecoveryRun::Reconciling => Some(RecoveryRequest::Reconcile),
            RecoveryRun::Remounting { progress } => Some(
                RecoveryRequest::RemountWorktree {
                    path: &progress.candidates[progress.position].worktree_path,
                },
            ),
            RecoveryRun::Rebuilding { progress } => Some(
                RecoveryRequest::RebuildContext {
                    candidate: &progress.candidates[progress.position],
                },
            ),
            RecoveryRun::Launching { progress } => Some(
                RecoveryRequest::Launch { candidate: &progress.candidates[progress.position] },
            ),
            RecoveryRun::Starting { progress, pid } => Some(
                RecoveryRequest::StartAttempt {
                    agent_run_id: progress.candidates[progress.position].agent_run_id,
                    pid: *pid,
                },
            ),
            RecoveryRun::Recording { progress, attempt } => {
                let candidate = &progress.candidates[progress.position];
                Some(
                    RecoveryRequest::RecordEvent {
                        entity_type: "agent_run",
                        entity_id: candidate.agent_run_id,
                        event_type: "agent_run.recovered",
                        payload: RecoveredPayload {
                            from_attempt_id: candidate.interrupted_attempt_id,
                            to_attempt_id: attempt.id,
                            workspace_id: candidate.workspace_id,
                            checkpoint_restored: candidate.checkpoint_context.is_some(),
                        },
                    },
                )
            },
            RecoveryRun::Finished(_) => None,
        }
    }

    /// Moves the recovery on by the answer to what it asked for.
    pub fn advance(self, reply: RecoveryReply) -> (r: RecoveryRun)
        requires
            self.is_sound(),
            self.asks() matches Some(ask) && ask.is_answered_by(reply),
        ensures
            r.is_sound(),
            self.leads_to(reply, r),
    {
        match (self, reply) {
            (_, RecoveryReply::Failed(e)) => RecoveryRun::Finished(Err(e)),
            (RecoveryRun::Reconciling, RecoveryReply::Candidates(candidates)) => {
                RecoveryRun::resume_from(candidates, 0, Vec::new())
            },
            (RecoveryRun::Remounting { progress }, RecoveryReply::Done) => {
                RecoveryRun::Rebuilding { progress }
            },
            (RecoveryRun::Rebuilding { progress }, RecoveryReply::Done) => {
                RecoveryRun::Launching { progress }
            },
            (RecoveryRun::Launching { progress }, RecoveryReply::Launched(pid)) => {
                RecoveryRun::Starting { progress, pid }
            },
            (RecoveryRun::Starting { progress, pid: _ }, RecoveryReply::Started(attempt)) => {
                RecoveryRun::Recording { progress, attempt }
            },
            (RecoveryRun::Recording { progress, attempt }, RecoveryReply::Done) => {
                assert(progress.position < progress.candidates.len());
                let mut resumed = progress.resumed;
                resumed.push(attempt);
                RecoveryRun::resume_from(progress.candidates, progress.position + 1, resumed)
            },
            (unfinished, _) => unfinished,
        }
    }
}

/// Recovers the interrupted runs of a store.
pub struct StartupRecovery<'a, S> {
    pub store: &'a S,
}

impl<'a, S> StartupRecovery<'a, S> {
    /// The recovery of this store's runs.
    pub fn new(store: &'a S) -> (r: Self)
        ensures
            r.store == store,
    {
        StartupRecovery { store }
    }

    /// Begins the recovery. It reconciles stale attempts first, then restores the worktree and
    /// checkpoint context before launching a fresh attempt under the same logical run.
    pub fn run(&self) -> (r: RecoveryRun)
        ensures
            r is Reconciling,
            r.is_sound(),
    {
        RecoveryRun::Reconciling
    }
}

/// The states follow one another by the replies, each of which answers what its state asks for,
/// and none of which is a failure.
pub open spec fn is_undisturbed(states: Seq<RecoveryRun>, replies: Seq<RecoveryReply>) -> bool {
    &&& states.len() == replies.len() + 1
    &&& forall|k: int|
        0 <= k < replies.len() ==> is_undisturbed_step(
            states[k],
            #[trigger] replies[k],
            states[k + 1],
        )
}

/// `reply` answers what `state` asks for, is no failure, and takes it to `next`.
pub open spec fn is_undisturbed_step(
    state: RecoveryRun,
    reply: RecoveryReply,
    next: RecoveryRun,
) -> bool {
    &&& state.asks() is Some
    &&& state.asks()->0.is_answered_by(reply)
    &&& !(reply is Failed)
    &&& state.leads_to(reply, next)
}

/// The process that was launched for the candidate at place `i`.
pub open spec fn pid_of(replies: Seq<RecoveryReply>, i: int) -> u32 {
    replies[3 + 5 * i]->Launched_0
}

/// The attempt that was recorded for the candidate at place `i`.
pub open spec fn attempt_of(replies: Seq<RecoveryReply>, i: int) -> AgentRunAttempt {
    replies[4 + 5 * i]->Started_0
}

/// The attempts that were recorded for the first `count` candidates.
pub open spec fn attempts(replies: Seq<RecoveryReply>, count: int) -> Seq<AgentRunAttempt> {
    Seq::new(count as nat, |i: int| attempt_of(replies, i))
}

/// What an undisturbed recovery of these candidates asks for after `k` answers: first to
/// reconcile; then, of each candidate in order, to remount its worktree, to rebuild its context,
/// to launch it, to start an attempt of its run with the process launched, and to record the
/// event; and then nothing.
pub open spec fn ask_at(
    candidates: Seq<RecoveryCandidate>,
    replies: Seq<RecoveryReply>,
    k: int,
) -> Option<RecoveryAsk> {
    if k == 0 {
        Some(RecoveryAsk::Reconcile)
    } else {
        let i = (k - 1) / 5;
        let candidate = candidates[i];
        if i >= candidates.len() {
            None
        } else if (k - 1) % 5 == 0 {
            Some(RecoveryAsk::RemountWorktree(candidate.worktree_path))
        } else if (k - 1) % 5 == 1 {
            Some(RecoveryAsk::RebuildContext(candidate))
        } else if (k - 1) % 5 == 2 {
            Some(RecoveryAsk::Launch(candidate))
        } else if (k - 1) % 5 == 3 {
            Some(RecoveryAsk::StartAttempt(candidate.agent_run_id, pid_of(replies, i)))
        } else {
            Some(
                RecoveryAsk::RecordEvent(
                    "agent_run"@,
                    candidate.agent_run_id,
                    "agent_run.recovered"@,
                    recovered_payload(candidate, attempt_of(replies, i)),
                ),
            )
        }
    }
}

/// The progress after the first `i` candidates.
spec fn has_come_to(
    progress: RecoveryProgress,
    candidates: Vec<RecoveryCandidate>,
    replies: Seq<RecoveryReply>,
    i: int,
) -> bool {
    &&& progress.candidates == candidates
    &&& progress.position == i
    &&& progress.resumed@ == attempts(replies, i)
}

/// The state after `k` answers, from the first on.
spec fn is_state_at(
    state: RecoveryRun,
    candidates: Vec<RecoveryCandidate>,
    replies: Seq<RecoveryReply>,
    k: int,
) -> bool {
    let i = (k - 1) / 5;
    if i >= candidates@.len() {
        &&& (k - 1) % 5 == 0 && i == candidates@.len()
        &&& state matches RecoveryRun::Finished(Ok(report))
        &&& report.interrupted == candidates@.len()
        &&& report.resumed@ == attempts(replies, i)
    } else if (k - 1) % 5 == 0 {
        state matches RecoveryRun::Remounting { progress } && has_come_to(
            progress,
            candidates,
            replies,
            i,
        )
    } else if (k - 1) % 5 == 1 {
        state matches RecoveryRun::Rebuilding { progress } && has_come_to(
            progress,
            candidates,
            replies,
            i,
        )
    } else if (k - 1) % 5 == 2 {
        state matches RecoveryRun::Launching { progress } && has_come_to(
            progress,
            candidates,
            replies,
            i,
        )
    } else if (k - 1) % 5 == 3 {
        &&& state matches RecoveryRun::Starting { progress, pid }
        &&& has_come_to(progress, candidates, replies, i)
        &&& pid == pid_of(replies, i)
    } else {
        &&& state matches RecoveryRun::Recording { progress, attempt }
        &&& has_come_to(progress, candidates, replies, i)
        &&& attempt == attempt_of(replies, i)
    }
}

proof fn lemma_state_at(
    states: Seq<RecoveryRun>,
    replies: Seq<RecoveryReply>,
    candidates: Vec<RecoveryCandidate>,
    k: int,
)
    requires
        is_undisturbed(states, replies),
        states.first() is Reconciling,
        replies.len() > 0,
        replies.first() == RecoveryReply::Candidates(candidates),
        1 <= k < states.len(),
    ensures
        is_state_at(states[k], candidates, replies, k),
    decreases k,
{
    assert(is_undisturbed_step(states[k - 1], replies[k - 1], states[k]));
    if k == 1 {
        assert(attempts(replies, 0) =~= seq![]);
    } else {
        lemma_state_at(states, replies, candidates, k - 1);
        let i = (k - 2) / 5;
        if (k - 2) % 5 == 2 {
            assert(k - 1 == 3 + 5 * i);
        } else if (k - 2) % 5 == 3 {
            assert(k - 1 == 4 + 5 * i);
        } else if (k - 2) % 5 == 4 {
            assert((k - 1) / 5 == i + 1 && (k - 1) % 5 == 0);
            assert(attempts(replies, i + 1) =~= attempts(replies, i).push(attempt_of(replies, i)));
        }
    }
}

/// An undisturbed recovery asks for one thing after the other as [`ask_at`] says: it restores
/// the worktree and the context of a candidate before it launches it, each new attempt belongs to
/// the candidate's own run, and no candidate is begun before the one before it is through.
pub proof fn recovery_takes_each_candidate_in_order(
    states: Seq<RecoveryRun>,
    replies: Seq<RecoveryReply>,
    candidates: Vec<RecoveryCandidate>,
    k: int,
)
    requires
        is_undisturbed(states, replies),
        states.first() is Reconciling,
        replies.len() > 0,
        replies.first() == RecoveryReply::Candidates(candidates),
        0 <= k < states.len(),
    ensures
        states[k].asks() == ask_at(candidates@, replies, k),
{
    if k > 0 {
        lemma_state_at(states, replies, candidates, k);
    }
}

/// An undisturbed recovery that ends reports as many interrupted attempts as there were
/// candidates, and has resumed every one of them, in their order.
pub proof fn recovery_resumes_every_candidate(
    states: Seq<RecoveryRun>,
    replies: Seq<RecoveryReply>,
    candidates: Vec<RecoveryCandidate>,
    result: Result<StartupRecoveryReport, OrchestratorError>,
)
    requires
        is_undisturbed(states, replies),
        states.first() is Reconciling,
        replies.len() > 0,
        replies.first() == RecoveryReply::Candidates(candidates),
        states.last() == RecoveryRun::Finished(result),
    ensures
        result matches Ok(report) && report.interrupted == candidates@.len() && report.resumed@
            == attempts(replies, candidates@.len() as int),
        replies.len() == 5 * candidates@.len() + 1,
{
    lemma_state_at(states, replies, candidates, states.len() - 1);
}

/// The states follow one another by the replies, each of which answers what its state asks for.
pub open spec fn is_recovery_run(states: Seq<RecoveryRun>, replies: Seq<RecoveryReply>) -> bool {
    &&& states.len() == replies.len() + 1
    &&& forall|k: int|
        0 <= k < replies.len() ==> is_recovery_step(
            states[k],
            #[trigger] replies[k],
            states[k + 1],
        )
}

/// `reply` answers what `state` asks for, and takes it to `next`.
pub open spec fn is_recovery_step(
    state: RecoveryRun,
    reply: RecoveryReply,
    next: RecoveryRun,
) -> bool {
    &&& state.asks() is Some
    &&& state.asks()->0.is_answered_by(reply)
    &&& state.leads_to(reply, next)
}

/// A failure ends a recovery with that failure: it is the last reply that the recovery hears, so
/// that nothing is launched or recorded after it, and only an undisturbed recovery reports.
pub proof fn recovery_stops_at_the_first_failure(
    states: Seq<RecoveryRun>,
    replies: Seq<RecoveryReply>,
    k: int,
)
    requires
        is_recovery_run(states, replies),
        0 <= k < replies.len(),
        replies[k] is Failed,
    ensures
        k == replies.len() - 1,
        states.last() == RecoveryRun::Finished(Err(replies[k]->Failed_0)),
{
    assert(is_recovery_step(states[k], replies[k], states[k + 1]));
    if k < replies.len() - 1 {
        assert(is_recovery_step(states[k + 1], replies[k + 1], states[k + 2]));
    }
}

/// How many answers a recovery can still take, once it knows its candidates.
pub open spec fn recovery_rank(state: RecoveryRun) -> int {
    match state {
        RecoveryRun::Reconciling => 0,
        RecoveryRun::Remounting { progress } => 5 * (progress.candidates@.len()
            - progress.position),
        RecoveryRun::Rebuilding { progress } => 5 * (progress.candidates@.len()
            - progress.position) - 1,
        RecoveryRun::Launching { progress } => 5 * (progress.candidates@.len() - progress.position)
            - 2,
        RecoveryRun::Starting { progress, pid } => 5 * (progress.candidates@.len()
            - progress.position) - 3,
        RecoveryRun::Recording { progress, attempt } => 5 * (progress.candidates@.len()
            - progress.position) - 4,
        RecoveryRun::Finished(_) => 0,
    }
}

/// A recovery ends: after the first, each answer brings it nearer, whatever it is.
pub proof fn recovery_comes_to_an_end(
    state: RecoveryRun,
    reply: RecoveryReply,
    next: RecoveryRun,
)
    requires
        state.is_sound(),
        !(state is Reconciling),
        state.asks() matches Some(ask) && ask.is_answered_by(reply),
        state.leads_to(reply, next),
    ensures
        0 <= recovery_rank(next) < recovery_rank(state),
        !(next is Reconciling),
{
}

/// The event of a recovered run tells the attempt that was interrupted, the one that resumes it,
/// the workspace, and whether there was a checkpoint to restore, be it empty or not.
pub proof fn recovered_runs_are_told_of(candidate: RecoveryCandidate, attempt: AgentRunAttempt)
    ensures
        ({
            let told = recovered_payload(candidate, attempt);
            &&& told.from_attempt_id == candidate.interrupted_attempt_id
            &&& told.to_attempt_id == attempt.id
            &&& told.workspace_id == candidate.workspace_id
            &&& told.checkpoint_restored <==> candidate.checkpoint_context is Some
        }),
{
}

/// The recovery stands before the candidate at `place`, with these attempts behind it, or, past
/// the last candidate, is finished with its report.
pub open spec fn stands_before(
    state: RecoveryRun,
    candidates: Vec<RecoveryCandidate>,
    place: int,
    resumed: Seq<AgentRunAttempt>,
) -> bool {
    if place < candidates@.len() {
        &&& state matches RecoveryRun::Remounting { progress }
        &&& progress.candidates == candidates
        &&& progress.position == place
        &&& progress.resumed@ == resumed
    } else {
        &&& state matches RecoveryRun::Finished(Ok(report))
        &&& report.interrupted == candidates@.len()
        &&& report.resumed@ == resumed
    }
}

/// A recovery goes on by the answers: from reconciling to the first candidate; with each candidate
/// from its worktree to its context, its launch, its new attempt with the process that was
/// launched, and its event; and then to the next candidate, with the attempt added behind the
/// others. A failure ends it with that failure.
pub proof fn a_recovery_goes_on_by_the_answers(
    state: RecoveryRun,
    reply: RecoveryReply,
    next: RecoveryRun,
)
    requires
        state.leads_to(reply, next),
    ensures
        match (state, reply) {
            (_, RecoveryReply::Failed(e)) => next == RecoveryRun::Finished(Err(e)),
            (RecoveryRun::Reconciling, RecoveryReply::Candidates(candidates)) => stands_before(
                next,
                candidates,
                0,
                Seq::<AgentRunAttempt>::empty(),
            ),
            (RecoveryRun::Remounting { progress }, RecoveryReply::Done) => next == (
            RecoveryRun::Rebuilding { progress }),
            (RecoveryRun::Rebuilding { progress }, RecoveryReply::Done) => next == (
            RecoveryRun::Launching { progress }),
            (RecoveryRun::Launching { progress }, RecoveryReply::Launched(pid)) => next == (
            RecoveryRun::Starting { progress, pid }),
            (RecoveryRun::Starting { progress, pid }, RecoveryReply::Started(attempt)) => next == (
            RecoveryRun::Recording { progress, attempt }),
            (RecoveryRun::Recording { progress, attempt }, RecoveryReply::Done) => stands_before(
                next,
                progress.candidates,
                progress.position + 1,
                progress.resumed@.push(attempt),
            ),
            _ => true,
        },
{
}

/// A recovery asks for what concerns the candidate that it stands at, and no other: its worktree,
/// its context, its launch, an attempt of its own run with the process that was launched, and the
/// event of its own run.
pub proof fn a_recovery_asks_for_its_candidate(
    progress: RecoveryProgress,
    pid: u32,
    attempt: AgentRunAttempt,
)
    ensures
        ({
            let candidate = progress.candidates@[progress.position as int];
            &&& RecoveryRun::Reconciling.asks() == Some(RecoveryAsk::Reconcile)
            &&& (RecoveryRun::Remounting { progress }).asks() == Some(
                RecoveryAsk::RemountWorktree(candidate.worktree_path),
            )
            &&& (RecoveryRun::Rebuilding { progress }).asks() == Some(
                RecoveryAsk::RebuildContext(candidate),
            )
            &&& (RecoveryRun::Launching { progress }).asks() == Some(RecoveryAsk::Launch(candidate))
            &&& (RecoveryRun::Starting { progress, pid }).asks() == Some(
                RecoveryAsk::StartAttempt(candidate.agent_run_id, pid),
            )
            &&& (RecoveryRun::Recording { progress, attempt }).asks() == Some(
                RecoveryAsk::RecordEvent(
                    "agent_run"@,
                    candidate.agent_run_id,
                    "agent_run.recovered"@,
                    RecoveredPayload {
                        from_attempt_id: candidate.interrupted_attempt_id,
                        to_attempt_id: attempt.id,
                        workspace_id: candidate.workspace_id,
                        checkpoint_restored: candidate.checkpoint_context is Some,
                    },
                ),
            )
        }),
        forall|result: Result<StartupRecoveryReport, OrchestratorError>|
            (#[trigger] RecoveryRun::Finished(result).asks()) is None,
{
}

/// A recovery is sound exactly where there is a candidate at hand and every one before it was
/// resumed; and a request asks for what it holds, with a failure or its own kind of answer.
pub proof fn recovery_requests_ask_for_what_they_hold(
    progress: RecoveryProgress,
    path: std::path::PathBuf,
    candidate: RecoveryCandidate,
    id: EntityId,
    pid: u32,
    payload: RecoveredPayload,
    reply: RecoveryReply,
)
    ensures
        progress.is_sound() <==> progress.position < progress.candidates@.len()
            && progress.resumed@.len() == progress.position,
        RecoveryRequest::Reconcile@ == RecoveryAsk::Reconcile,
        (RecoveryRequest::RemountWorktree { path: &path })@ == RecoveryAsk::RemountWorktree(path),
        (RecoveryRequest::RebuildContext { candidate: &candidate })@ == RecoveryAsk::RebuildContext(
            candidate,
        ),
        (RecoveryRequest::Launch { candidate: &candidate })@ == RecoveryAsk::Launch(candidate),
        (RecoveryRequest::StartAttempt { agent_run_id: id, pid })@ == RecoveryAsk::StartAttempt(
            id,
            pid,
        ),
        (RecoveryRequest::RecordEvent {
            entity_type: "agent_run",
            entity_id: id,
            event_type: "agent_run.recovered",
            payload,
        })@ == RecoveryAsk::RecordEvent("agent_run"@, id, "agent_run.recovered"@, payload),
        RecoveryAsk::Reconcile.is_answered_by(reply) <==> reply is Candidates || reply is Failed,
        RecoveryAsk::RemountWorktree(path).is_answered_by(reply) <==> reply is Done
            || reply is Failed,
        RecoveryAsk::RebuildContext(candidate).is_answered_by(reply) <==> reply is Done
            || reply is Failed,
        RecoveryAsk::Launch(candidate).is_answered_by(reply) <==> reply is Launched
            || reply is Failed,
        RecoveryAsk::StartAttempt(id, pid).is_answered_by(reply) <==> reply is Started
            || reply is Failed,
        RecoveryAsk::RecordEvent("agent_run"@, id, "agent_run.recovered"@, payload).is_answered_by(
            reply,
        ) <==> reply is Done || reply is Failed,
{
}

} // verus!
