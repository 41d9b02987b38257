//! Rebuilding an agent's context from what its scope keeps.

use vstd::prelude::*;

use crate::artifacts::{Ask, ContextReply, ContextRequest, PutArtifact, ReadArtifact};
use crate::context::{
    ArtifactRef, ContextCheckpoint, ContextRepository, ContextScope, CoreContext, RebuiltContext,
};
use crate::error::OrchestratorError;
use crate::ids::EntityId;

verus! {

/// What a rebuild is for: the scope, the specification and workspace state that have to match,
/// the latest diff, and the artifacts that the context is to hold.
#[derive(Clone, Debug, PartialEq, Eq)]
pub struct RebuildInput {
    pub scope: ContextScope,
    pub specification_version_id: EntityId,
    pub specification_hash: String,
    pub head: String,
    pub diff: Vec<u8>,
    pub artifacts: Vec<ArtifactRef>,
}

impl RebuildInput {
    /// The core context is of the specification that the rebuild is for.
    pub open spec fn accepts_core(self, core: CoreContext) -> bool {
        core.specification_version_id == self.specification_version_id
            && core.specification_hash@ == self.specification_hash@
    }

    /// The checkpoint is of the specification that the rebuild is for.
    pub open spec fn accepts_specification_of(self, checkpoint: ContextCheckpoint) -> bool {
        checkpoint.specification_version_id == self.specification_version_id
            && checkpoint.specification_hash@ == self.specification_hash@
    }

    /// The checkpoint was taken at the workspace's head.
    pub open spec fn accepts_head_of(self, checkpoint: ContextCheckpoint) -> bool {
        checkpoint.data.workspace_head@ == self.head@
    }
}

/// Rebuilding a context: the core, the working context, the latest checkpoint and every
/// artifact are read and checked in this order, and the diff is stored as an artifact.
#[derive(Debug)]
pub enum Rebuild {
    ReadingCore { input: RebuildInput },
    ReadingWorking { input: RebuildInput, core: CoreContext },
    FindingCheckpoints { input: RebuildInput, core: CoreContext, current_task: String },
    ListingCheckpoints { input: RebuildInput, core: CoreContext, current_task: String },
    ReadingCheckpoint {
        input: RebuildInput,
        core: CoreContext,
        current_task: String,
        name: Vec<u8>,
    },
    VerifyingArtifact {
        input: RebuildInput,
        core: CoreContext,
        current_task: String,
        checkpoint: Option<ContextCheckpoint>,
        index: usize,
        read: ReadArtifact,
    },
    StoringDiff {
        core: CoreContext,
        current_task: String,
        checkpoint: Option<ContextCheckpoint>,
        artifacts: Vec<ArtifactRef>,
        put: PutArtifact,
    },
    Finished(Result<RebuiltContext, OrchestratorError>),
}

impl Rebuild {
    /// The rebuild has come so far that the first `index` artifacts are verified: it goes on to
    /// the next artifact, or, past the last, to the diff.
    pub open spec fn has_verified(
        self,
        input: RebuildInput,
        core: CoreContext,
        current_task: String,
        checkpoint: Option<ContextCheckpoint>,
        index: int,
    ) -> bool {
        if index < input.artifacts@.len() {
            let hash = input.artifacts@[index].hash@;
            if crate::artifacts::is_artifact_hash(hash) {
                &&& self matches Rebuild::VerifyingArtifact {
                    input: i,
                    core: c,
                    current_task: t,
                    checkpoint: p,
                    index: n,
                    read,
                }
                &&& i == input && c == core && t == current_task && p == checkpoint && n == index
                &&& read.begins(hash)
            } else {
                self matches Rebuild::Finished(Err(e)) && e.is_invalid_input(
                    "invalid artifact hash"@,
                )
            }
        } else {
            &&& self matches Rebuild::StoringDiff {
                core: c,
                current_task: t,
                checkpoint: p,
                artifacts,
                put,
            }
            &&& c == core && t == current_task && p == checkpoint && artifacts == input.artifacts
            &&& put.begins("git_diff"@, "latest Git diff"@, input.diff@, None)
        }
    }

    /// What the operation asks for.
    pub open spec fn asks(self) -> Option<Ask> {
        match self {
            Rebuild::ReadingCore { input } => Some(
                Ask::ReadCore(crate::context::core_location(input.scope)),
            ),
            Rebuild::ReadingWorking { input, core } => Some(
                Ask::ReadWorking(crate::context::working_location(input.scope)),
            ),
            Rebuild::FindingCheckpoints { input, core, current_task } => Some(
                Ask::Exists(crate::context::checkpoints_directory(input.scope)),
            ),
            Rebuild::ListingCheckpoints { input, core, current_task } => Some(
                Ask::ListDirectory(crate::context::checkpoints_directory(input.scope)),
            ),
            Rebuild::ReadingCheckpoint { input, core, current_task, name } => Some(
                Ask::ReadCheckpoint(crate::context::checkpoints_directory(input.scope), name@),
            ),
            Rebuild::VerifyingArtifact {
                input,
                core,
                current_task,
                checkpoint,
                index,
                read,
            } => read.asks(),
            Rebuild::StoringDiff { core, current_task, checkpoint, artifacts, put } => put.asks(),
            Rebuild::Finished(_) => None,
        }
    }

    /// The rebuild is in a state that it can get into.
    pub open spec fn is_sound(self) -> bool {
        self matches Rebuild::VerifyingArtifact {
            input,
            core,
            current_task,
            checkpoint,
            index,
            read,
        } ==> index < input.artifacts@.len()
    }

    /// `next` is where `reply` takes the operation.
    pub open spec fn leads_to(self, reply: ContextReply, next: Rebuild) -> bool {
        match (self, reply) {
            (_, ContextReply::Failed(e)) => next == Rebuild::Finished(Err(e)),
            (Rebuild::ReadingCore { input }, ContextReply::Core(core)) => if input.accepts_core(
                core,
            ) {
                next == (Rebuild::ReadingWorking { input, core })
            } else {
                next matches Rebuild::Finished(Err(e)) && e.is_invalid_input(
                    "active specification mismatch"@,
                )
            },
            (Rebuild::ReadingWorking { input, core }, ContextReply::Working(working)) => next == (
            Rebuild::FindingCheckpoints { input, core, current_task: working.current_task }),
            (
                Rebuild::FindingCheckpoints { input, core, current_task },
                ContextReply::Exists(exists),
            ) => if exists {
                next == (Rebuild::ListingCheckpoints { input, core, current_task })
            } else {
                next.has_verified(input, core, current_task, None, 0)
            },
            (
                Rebuild::ListingCheckpoints { input, core, current_task },
                ContextReply::Entries(listing),
            ) => if listing@.len() == 0 {
                next.has_verified(input, core, current_task, None, 0)
            } else {
                &&& next matches Rebuild::ReadingCheckpoint {
                    input: i,
                    core: c,
                    current_task: t,
                    name,
                }
                &&& i == input && c == core && t == current_task
                &&& crate::checkpoints::is_latest(crate::checkpoints::names_of(listing@), name@)
            },
            (
                Rebuild::ReadingCheckpoint { input, core, current_task, name },
                ContextReply::Checkpoint(checkpoint),
            ) => if !input.accepts_specification_of(checkpoint) {
                next matches Rebuild::Finished(Err(e)) && e.is_invalid_input(
                    "checkpoint specification mismatch"@,
                )
            } else if !input.accepts_head_of(checkpoint) {
                next matches Rebuild::Finished(Err(e)) && e.is_invalid_input(
                    "workspace HEAD mismatch"@,
                )
            } else {
                next.has_verified(input, core, current_task, Some(checkpoint), 0)
            },
            (
                Rebuild::VerifyingArtifact { input, core, current_task, checkpoint, index, read },
                ContextReply::Bytes(bytes),
            ) => if crate::artifacts::content_hash(bytes@) == read->hash@ {
                next.has_verified(input, core, current_task, checkpoint, index + 1)
            } else {
                next matches Rebuild::Finished(Err(e)) && e.is_invalid_input(
                    "artifact hash mismatch"@,
                )
            },
            (Rebuild::StoringDiff { core, current_task, checkpoint, artifacts, put }, _) => match put.after(
                reply,
            ) {
                PutArtifact::Finished(Ok(git_diff)) => next == Rebuild::Finished(
                    Ok(RebuiltContext { core, checkpoint, current_task, artifacts, git_diff }),
                ),
                PutArtifact::Finished(Err(e)) => next == Rebuild::Finished(Err(e)),
                put => next == (Rebuild::StoringDiff {
                    core,
                    current_task,
                    checkpoint,
                    artifacts,
                    put,
                }),
            },
            _ => next == self,
        }
    }

    /// Goes on with the artifact at `index`, or, past the last, with the diff.
    fn verify_from(
        input: RebuildInput,
        core: CoreContext,
        current_task: String,
        checkpoint: Option<ContextCheckpoint>,
        index: usize,
    ) -> (r: Rebuild)
        ensures
            r.has_verified(input, core, current_task, checkpoint, index as int),
    {
        if index < input.artifacts.len() {
            match ReadArtifact::begin(&input.artifacts[index]) {
                ReadArtifact::Finished(Err(e)) => Rebuild::Finished(Err(e)),
                read => Rebuild::VerifyingArtifact {
                    input,
                    core,
                    current_task,
                    checkpoint,
                    index,
                    read,
                },
            }
        } else {
            let put = PutArtifact::begin(
                "git_diff".to_owned(),
                "latest Git diff".to_owned(),
                input.diff,
                None,
            );
            Rebuild::StoringDiff {
                core,
                current_task,
                checkpoint,
                artifacts: input.artifacts,
                put,
            }
        }
    }

    /// What the operation asks for; nothing, once it is finished.
    pub fn request(&self) -> (r: Option<ContextRequest<'_>>)
        ensures
            match r {
                Some(request) => self.asks() == Some(request@),
                None => self.asks() is None,
            },
    {
        match self {
            Rebuild::ReadingCore { input } => Some(
                ContextRequest::ReadCore {
                    path: crate::context::scope_path(&input.scope).join("core.json"),
                },
            ),
            Rebuild::ReadingWorking { input, core: _ } => Some(
                ContextRequest::ReadWorking {
                    path: crate::context::scope_path(&input.scope).join("working.json"),
                },
            ),
            Rebuild::FindingCheckpoints { input, core: _, current_task: _ } => Some(
                ContextRequest::Exists {
                    path: crate::context::scope_path(&input.scope).join("checkpoints"),
                },
            ),
            Rebuild::ListingCheckpoints { input, core: _, current_task: _ } => Some(
                ContextRequest::ListDirectory {
                    path: crate::context::scope_path(&input.scope).join("checkpoints"),
                },
            ),
            Rebuild::ReadingCheckpoint { input, core: _, current_task: _, name } => Some(
                ContextRequest::ReadCheckpoint {
                    directory: crate::context::scope_path(&input.scope).join("checkpoints"),
                    name,
                },
            ),
            Rebuild::VerifyingArtifact {
                input: _,
                core: _,
                current_task: _,
                checkpoint: _,
                index: _,
                read,
            } => read.request(),
            Rebuild::StoringDiff {
                core: _,
                current_task: _,
                checkpoint: _,
                artifacts: _,
                put,
            } => put.request(),
            Rebuild::Finished(_) => None,
        }
    }

    /// Moves the operation on by the answer to what it asked for.
    pub fn advance(self, reply: ContextReply) -> (r: Rebuild)
        requires
            self.is_sound(),
            self.asks() matches Some(ask) && ask.is_answered_by(reply),
        ensures
            r.is_sound(),
            self.leads_to(reply, r),
    {
        match (self, reply) {
            (Rebuild::StoringDiff { core, current_task, checkpoint, artifacts, put }, reply) => {
                match put.advance(reply) {
                    PutArtifact::Finished(Ok(git_diff)) => Rebuild::Finished(
                        Ok(RebuiltContext { core, checkpoint, current_task, artifacts, git_diff }),
                    ),
                    PutArtifact::Finished(Err(e)) => Rebuild::Finished(Err(e)),
                    put => Rebuild::StoringDiff { core, current_task, checkpoint, artifacts, put },
                }
            },
            (
                Rebuild::VerifyingArtifact { input, core, current_task, checkpoint, index, read },
                reply,
            ) => {
                assert(index < input.artifacts.len());
                match read.advance(reply) {
                    ReadArtifact::Finished(Ok(_)) => Rebuild::verify_from(
                        input,
                        core,
                        current_task,
                        checkpoint,
                        index + 1,
                    ),
                    ReadArtifact::Finished(Err(e)) => Rebuild::Finished(Err(e)),
                    read => Rebuild::VerifyingArtifact {
                        input,
                        core,
                        current_task,
                        checkpoint,
                        index,
                        read,
                    },
                }
            },
            (_, ContextReply::Failed(e)) => Rebuild::Finished(Err(e)),
            (Rebuild::ReadingCore { input }, ContextReply::Core(core)) => {
                if core.specification_version_id == input.specification_version_id
                    && core.specification_hash == input.specification_hash {
                    Rebuild::ReadingWorking { input, core }
                } else {
                    Rebuild::Finished(
                        Err(OrchestratorError::invalid_input("active specification mismatch")),
                    )
                }
            },
            (Rebuild::ReadingWorking { input, core }, ContextReply::Working(working)) => {
                Rebuild::FindingCheckpoints { input, core, current_task: working.current_task }
            },
            (
                Rebuild::FindingCheckpoints { input, core, current_task },
                ContextReply::Exists(exists),
            ) => {
                if exists {
                    Rebuild::ListingCheckpoints { input, core, current_task }
                } else {
                    Rebuild::verify_from(input, core, current_task, None, 0)
                }
            },
            (
                Rebuild::ListingCheckpoints { input, core, current_task },
                ContextReply::Entries(listing),
            ) => {
                match crate::checkpoints::latest_entry(&listing) {
                    None => Rebuild::verify_from(input, core, current_task, None, 0),
                    Some(i) => {
                        let mut listing = listing;
                        let name = listing.swap_remove(i);
                        Rebuild::ReadingCheckpoint { input, core, current_task, name }
                    },
                }
            },
            (
                Rebuild::ReadingCheckpoint { input, core, current_task, name: _ },
                ContextReply::Checkpoint(checkpoint),
            ) => {
                if checkpoint.specification_version_id != input.specification_version_id
                    || checkpoint.specification_hash != input.specification_hash {
                    Rebuild::Finished(
                        Err(OrchestratorError::invalid_input("checkpoint specification mismatch")),
                    )
                } else if checkpoint.data.workspace_head != input.head {
                    Rebuild::Finished(
                        Err(OrchestratorError::invalid_input("workspace HEAD mismatch")),
                    )
                } else {
                    Rebuild::verify_from(input, core, current_task, Some(checkpoint), 0)
                }
            },
            (unfinished, _) => unfinished,
        }
    }
}

impl ContextRepository {
    /// Begins to rebuild the scope's context.
    pub fn rebuild(
        &self,
        scope: &ContextScope,
        specification_version_id: EntityId,
        specification_hash: String,
        head: String,
        diff: Vec<u8>,
        artifacts: Vec<ArtifactRef>,
    ) -> (r: Rebuild)
        ensures
            r == (Rebuild::ReadingCore {
                input: RebuildInput {
                    scope: *scope,
                    specification_version_id,
                    specification_hash,
                    head,
                    diff,
                    artifacts,
                },
            }),
            r.is_sound(),
    {
        Rebuild::ReadingCore {
            input: RebuildInput {
                scope: *scope,
                specification_version_id,
                specification_hash,
                head,
                diff,
                artifacts,
            },
        }
    }
}

/// The rebuild stands at the artifact at `index`, or is refused for the form of its hash, or, past
/// the last artifact, stands at the diff, which goes into the store as it is.
pub open spec fn stands_at(
    state: Rebuild,
    input: RebuildInput,
    core: CoreContext,
    task: String,
    latest: Option<ContextCheckpoint>,
    place: int,
) -> bool {
    if place < input.artifacts@.len() {
        let hash = input.artifacts@[place].hash@;
        if hash.len() == 71 && hash.take(7) == "sha256:"@ && forall|i: int|
            7 <= i < 71 ==> ('0' <= #[trigger] hash[i] <= '9' || 'a' <= hash[i] <= 'f' || 'A'
                <= hash[i] <= 'F') {
            &&& state is VerifyingArtifact
            &&& state->VerifyingArtifact_input == input
            &&& state->VerifyingArtifact_core == core
            &&& state->VerifyingArtifact_current_task == task
            &&& state->VerifyingArtifact_checkpoint == latest
            &&& state->VerifyingArtifact_index == place
            &&& state->VerifyingArtifact_read matches ReadArtifact::Reading { path, hash: h }
            &&& path@ == seq!["artifacts"@, "sha256"@, hash.skip(7)]
            &&& h@ == hash
        } else {
            state matches Rebuild::Finished(Err(e)) && e is InvalidInput && e->InvalidInput_0@
                == "invalid artifact hash"@
        }
    } else {
        let hex = crate::text::lower_hex(crate::artifacts::sha256_digest(input.diff@)@);
        &&& state is StoringDiff
        &&& state->StoringDiff_core == core
        &&& state->StoringDiff_current_task == task
        &&& state->StoringDiff_checkpoint == latest
        &&& state->StoringDiff_artifacts == input.artifacts
        &&& state->StoringDiff_put matches PutArtifact::Checking { path, bytes, reference }
        &&& path@ == seq!["artifacts"@, "sha256"@, hex]
        &&& bytes@ == input.diff@
        &&& reference.hash@ == "sha256:"@ + hex
        &&& reference.kind@ == "git_diff"@
        &&& reference.summary@ == "latest Git diff"@
        &&& reference.line_range is None
        &&& reference.byte_len == input.diff@.len()
    }
}

proof fn lemma_stands_at(
    state: Rebuild,
    input: RebuildInput,
    core: CoreContext,
    task: String,
    latest: Option<ContextCheckpoint>,
    place: int,
)
    requires
        state.has_verified(input, core, task, latest, place),
        0 <= place,
    ensures
        stands_at(state, input, core, task, latest, place),
{
    if place < input.artifacts@.len() {
        crate::artifacts::accepted_hashes_have_this_form(input.artifacts@[place].hash@);
    } else {
        crate::artifacts::a_content_is_kept_under_its_digest(input.diff@);
    }
}

/// A rebuild goes on by the answers. The core context and the latest checkpoint have to carry the
/// very specification that was asked for, by its version and the whole of its hash, and the
/// checkpoint the very head; the latest checkpoint is the one whose name stands last; each artifact
/// has to have the very hash that it is asked for by; and the context is made of what was read.
/// Each refusal names the first of these that does not hold, and a failure ends the rebuild with
/// that failure.
pub proof fn a_rebuild_goes_on_by_the_answers(state: Rebuild, reply: ContextReply, next: Rebuild)
    requires
        state.leads_to(reply, next),
    ensures
        match (state, reply) {
            (_, ContextReply::Failed(e)) => next == Rebuild::Finished(Err(e)),
            (Rebuild::ReadingCore { input }, ContextReply::Core(core)) => {
                if core.specification_version_id == input.specification_version_id
                    && core.specification_hash@ == input.specification_hash@ {
                    next == (Rebuild::ReadingWorking { input, core })
                } else {
                    next matches Rebuild::Finished(Err(e)) && e is InvalidInput
                        && e->InvalidInput_0@ == "active specification mismatch"@
                }
            },
            (Rebuild::ReadingWorking { input, core }, ContextReply::Working(working)) => next == (
            Rebuild::FindingCheckpoints { input, core, current_task: working.current_task }),
            (
                Rebuild::FindingCheckpoints { input, core, current_task },
                ContextReply::Exists(there),
            ) => if there {
                next == (Rebuild::ListingCheckpoints { input, core, current_task })
            } else {
                stands_at(next, input, core, current_task, None, 0)
            },
            (
                Rebuild::ListingCheckpoints { input, core, current_task },
                ContextReply::Entries(listing),
            ) => if listing@.len() == 0 {
                stands_at(next, input, core, current_task, None, 0)
            } else {
                &&& next is ReadingCheckpoint
                &&& next->ReadingCheckpoint_input == input
                &&& next->ReadingCheckpoint_core == core
                &&& next->ReadingCheckpoint_current_task == current_task
                &&& exists|i: int|
                    0 <= i < listing@.len() && (#[trigger] listing@[i])@ == next->name@
                &&& forall|i: int|
                    0 <= i < listing@.len() ==> (#[trigger] listing@[i])@ == next->name@
                        || crate::checkpoints::before(listing@[i]@, next->name@)
            },
            (
                Rebuild::ReadingCheckpoint { input, core, current_task, name },
                ContextReply::Checkpoint(checkpoint),
            ) => if checkpoint.specification_version_id != input.specification_version_id
                || checkpoint.specification_hash@ != input.specification_hash@ {
                next matches Rebuild::Finished(Err(e)) && e is InvalidInput && e->InvalidInput_0@
                    == "checkpoint specification mismatch"@
            } else if checkpoint.data.workspace_head@ != input.head@ {
                next matches Rebuild::Finished(Err(e)) && e is InvalidInput && e->InvalidInput_0@
                    == "workspace HEAD mismatch"@
            } else {
                stands_at(next, input, core, current_task, Some(checkpoint), 0)
            },
            (
                Rebuild::VerifyingArtifact {
                    input,
                    core,
                    current_task,
                    checkpoint,
                    index,
                    read: ReadArtifact::Reading { path, hash },
                },
                ContextReply::Bytes(bytes),
            ) => if "sha256:"@ + crate::text::lower_hex(
                crate::artifacts::sha256_digest(bytes@)@,
            ) == hash@ {
                stands_at(next, input, core, current_task, checkpoint, index + 1)
            } else {
                next matches Rebuild::Finished(Err(e)) && e is InvalidInput && e->InvalidInput_0@
                    == "artifact hash mismatch"@
            },
            (
                Rebuild::StoringDiff {
                    core,
                    current_task,
                    checkpoint,
                    artifacts,
                    put: PutArtifact::Checking { path, bytes, reference },
                },
                ContextReply::Exists(there),
            ) => if there {
                next == Rebuild::Finished(
                    Ok(
                        RebuiltContext {
                            core,
                            checkpoint,
                            current_task,
                            artifacts,
                            git_diff: reference,
                        },
                    ),
                )
            } else {
                next == (Rebuild::StoringDiff {
                    core,
                    current_task,
                    checkpoint,
                    artifacts,
                    put: PutArtifact::Writing { path, bytes, reference },
                })
            },
            (
                Rebuild::StoringDiff {
                    core,
                    current_task,
                    checkpoint,
                    artifacts,
                    put: PutArtifact::Writing { path, bytes, reference },
                },
                ContextReply::Done,
            ) => next == Rebuild::Finished(
                Ok(
                    RebuiltContext {
                        core,
                        checkpoint,
                        current_task,
                        artifacts,
                        git_diff: reference,
                    },
                ),
            ),
            _ => true,
        },
{
    match (state, reply) {
        (
            Rebuild::FindingCheckpoints { input, core, current_task },
            ContextReply::Exists(there),
        ) => {
            if !there {
                lemma_stands_at(next, input, core, current_task, None, 0);
            }
        },
        (
            Rebuild::ListingCheckpoints { input, core, current_task },
            ContextReply::Entries(listing),
        ) => {
            if listing@.len() == 0 {
                lemma_stands_at(next, input, core, current_task, None, 0);
            } else {
                let names = crate::checkpoints::names_of(listing@);
                crate::checkpoints::the_latest_name_is_behind_all_others(names, next->name@);
                let i = choose|i: int| 0 <= i < names.len() && names[i] == next->name@;
                assert(listing@[i]@ == names[i]);
                assert forall|j: int| 0 <= j < listing@.len() implies (#[trigger] listing@[j])@
                    == next->name@ || crate::checkpoints::before(listing@[j]@, next->name@) by {
                    assert(names[j] == listing@[j]@);
                }
            }
        },
        (
            Rebuild::ReadingCheckpoint { input, core, current_task, name },
            ContextReply::Checkpoint(checkpoint),
        ) => {
            if input.accepts_specification_of(checkpoint) && input.accepts_head_of(checkpoint) {
                lemma_stands_at(next, input, core, current_task, Some(checkpoint), 0);
            }
        },
        (
            Rebuild::VerifyingArtifact { input, core, current_task, checkpoint, index, read },
            ContextReply::Bytes(bytes),
        ) => {
            crate::artifacts::a_content_is_kept_under_its_digest(bytes@);
            if crate::artifacts::content_hash(bytes@) == read->hash@ {
                lemma_stands_at(next, input, core, current_task, checkpoint, index + 1);
            }
        },
        _ => {},
    }
}

/// A rebuild asks for its scope's core context, working context and checkpoints, and for the
/// artifact or the diff that it stands at.
pub proof fn a_rebuild_asks_for_its_places(
    input: RebuildInput,
    core: CoreContext,
    task: String,
    name: Vec<u8>,
)
    ensures
        ({
            let directory = crate::context::scope_directory(input.scope);
            &&& (Rebuild::ReadingCore { input }).asks() == Some(
                Ask::ReadCore(directory.push("core.json"@)),
            )
            &&& (Rebuild::ReadingWorking { input, core }).asks() == Some(
                Ask::ReadWorking(directory.push("working.json"@)),
            )
            &&& (Rebuild::FindingCheckpoints { input, core, current_task: task }).asks() == Some(
                Ask::Exists(directory.push("checkpoints"@)),
            )
            &&& (Rebuild::ListingCheckpoints { input, core, current_task: task }).asks() == Some(
                Ask::ListDirectory(directory.push("checkpoints"@)),
            )
            &&& (Rebuild::ReadingCheckpoint { input, core, current_task: task, name }).asks()
                == Some(Ask::ReadCheckpoint(directory.push("checkpoints"@), name@))
        }),
        forall|state: Rebuild|
            state is VerifyingArtifact ==> (#[trigger] state.asks())
                == state->VerifyingArtifact_read.asks(),
        forall|state: Rebuild|
            state is StoringDiff ==> (#[trigger] state.asks()) == state->StoringDiff_put.asks(),
        forall|state: Rebuild| state is Finished ==> (#[trigger] state.asks()) is None,
{
}

} // verus!
