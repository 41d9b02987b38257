//! What whole runs of the context operations come to, on a disk that works.

use vstd::prelude::*;

use crate::artifacts::{Ask, ContextReply, PutArtifact, ReadArtifact};
use crate::checkpoints::TakeCheckpoint;
use crate::context::{
    ArtifactRef, CheckpointData, ContextCheckpoint, ContextScope, CoreContext, RebuiltContext,
    WorkingContext,
};
use crate::error::OrchestratorError;
use crate::files::FileStep;
use crate::ids::EntityId;
use crate::rebuild::{Rebuild, RebuildInput};

verus! {

/// What a scope's directory and the artifacts hold. Only what is missing cannot be read.
pub struct ScopeFiles {
    pub scope: ContextScope,
    pub core: Option<CoreContext>,
    pub working: Option<WorkingContext>,
    /// The checkpoints by their file names, if their directory exists.
    pub checkpoints: Option<Map<Seq<u8>, ContextCheckpoint>>,
    pub artifacts: Map<Seq<Seq<char>>, Seq<u8>>,
}

/// The listing holds each of the names once, and nothing else.
pub open spec fn lists(listing: Seq<Vec<u8>>, names: Set<Seq<u8>>) -> bool {
    &&& crate::checkpoints::names_of(listing).no_duplicates()
    &&& crate::checkpoints::names_of(listing).to_set() == names
}

impl ScopeFiles {
    /// The names in the directory of the checkpoints.
    pub open spec fn names(self) -> Set<Seq<u8>> {
        match self.checkpoints {
            Some(checkpoints) => checkpoints.dom(),
            None => Set::empty(),
        }
    }

    /// `reply` is what the disk answers to `ask`.
    pub open spec fn answers(self, ask: Ask, reply: ContextReply) -> bool {
        match ask {
            Ask::ReadCore(path) => {
                &&& path == crate::context::core_location(self.scope)
                &&& match self.core {
                    Some(core) => reply == ContextReply::Core(core),
                    None => reply is Failed,
                }
            },
            Ask::ReadWorking(path) => {
                &&& path == crate::context::working_location(self.scope)
                &&& match self.working {
                    Some(working) => reply == ContextReply::Working(working),
                    None => reply is Failed,
                }
            },
            Ask::ReadCheckpoint(directory, name) => {
                &&& directory == crate::context::checkpoints_directory(self.scope)
                &&& if self.names().contains(name) {
                    reply == ContextReply::Checkpoint(self.checkpoints->0[name])
                } else {
                    reply is Failed
                }
            },
            Ask::Exists(path) => if path == crate::context::checkpoints_directory(self.scope) {
                reply == ContextReply::Exists(self.checkpoints is Some)
            } else {
                reply == ContextReply::Exists(self.artifacts.contains_key(path))
            },
            Ask::ListDirectory(path) => {
                &&& path == crate::context::checkpoints_directory(self.scope)
                &&& reply matches ContextReply::Entries(listing)
                &&& lists(listing@, self.names())
            },
            Ask::ReadFile(path) => if self.artifacts.contains_key(path) {
                reply matches ContextReply::Bytes(bytes) && bytes@ == self.artifacts[path]
            } else {
                reply is Failed
            },
            Ask::CreateDirectory(_) => reply is Done,
            Ask::WriteFile(_, _) => reply is Done,
            Ask::WriteCheckpoint(_, _) => reply is Done,
        }
    }

    /// `checkpoint` is the one whose name stands last, or none where there is none.
    pub open spec fn is_latest_checkpoint(self, checkpoint: Option<ContextCheckpoint>) -> bool {
        match checkpoint {
            None => self.names() == Set::<Seq<u8>>::empty(),
            Some(c) => exists|name: Seq<u8>| #[trigger]
                self.is_latest_name(name) && self.checkpoints->0[name] == c,
        }
    }

    /// `name` stands last among the names of the checkpoints.
    pub open spec fn is_latest_name(self, name: Seq<u8>) -> bool {
        &&& self.names().contains(name)
        &&& forall|other: Seq<u8>| #[trigger]
            self.names().contains(other) ==> !crate::checkpoints::before(name, other)
    }

    /// The artifact is there, and has its hash.
    pub open spec fn holds(self, artifact: ArtifactRef) -> bool {
        let location = crate::artifacts::artifact_location(artifact.hash@);
        &&& crate::artifacts::is_artifact_hash(artifact.hash@)
        &&& self.artifacts.contains_key(location)
        &&& crate::artifacts::content_hash(self.artifacts[location]) == artifact.hash@
    }

    pub open spec fn accepts_core(self, input: RebuildInput) -> bool {
        self.core matches Some(core) && input.accepts_core(core)
    }

    /// The latest checkpoint, if there is one, is of the specification and at the head that the
    /// rebuild is for.
    pub open spec fn accepts_checkpoint(self, input: RebuildInput) -> bool {
        forall|checkpoint: ContextCheckpoint| #[trigger]
            self.is_latest_checkpoint(Some(checkpoint)) ==> input.accepts_specification_of(
                checkpoint,
            ) && input.accepts_head_of(checkpoint)
    }

    /// The first `count` artifacts of the input are there.
    pub open spec fn holds_first(self, input: RebuildInput, count: int) -> bool {
        forall|i: int| 0 <= i < count ==> self.holds(#[trigger] input.artifacts@[i])
    }

    /// The context can be rebuilt: core and working context are there, the specification and the
    /// head match, and every artifact has its hash.
    pub open spec fn can_rebuild(self, input: RebuildInput) -> bool {
        &&& self.accepts_core(input)
        &&& self.working is Some
        &&& self.accepts_checkpoint(input)
        &&& self.holds_first(input, input.artifacts@.len() as int)
    }

    /// The context is what a rebuild gives.
    pub open spec fn is_rebuilt(self, input: RebuildInput, context: RebuiltContext) -> bool {
        &&& self.core == Some(context.core)
        &&& self.working matches Some(working) && context.current_task == working.current_task
        &&& self.is_latest_checkpoint(context.checkpoint)
        &&& context.artifacts == input.artifacts
        &&& crate::artifacts::refers_to(
            context.git_diff,
            "git_diff"@,
            "latest Git diff"@,
            input.diff@,
            None,
        )
    }

    /// A rebuild fails with `error`, for the first reason that it meets: a core context that is
    /// missing or of another specification, a missing working context, a checkpoint of another
    /// specification or head, or an artifact that is not there or does not have its hash.
    pub open spec fn fails_with(self, input: RebuildInput, error: OrchestratorError) -> bool {
        if self.core is None {
            true
        } else if !self.accepts_core(input) {
            error.is_invalid_input("active specification mismatch"@)
        } else if self.working is None {
            true
        } else if !self.accepts_checkpoint(input) {
            exists|checkpoint: ContextCheckpoint| #[trigger]
                self.is_latest_checkpoint(Some(checkpoint)) && if input.accepts_specification_of(
                    checkpoint,
                ) {
                    error.is_invalid_input("workspace HEAD mismatch"@)
                } else {
                    error.is_invalid_input("checkpoint specification mismatch"@)
                }
        } else {
            exists|i: int|
                0 <= i < input.artifacts@.len() && self.holds_first(input, i) && {
                    let hash = (#[trigger] input.artifacts@[i]).hash@;
                    let location = crate::artifacts::artifact_location(hash);
                    if !crate::artifacts::is_artifact_hash(hash) {
                        error.is_invalid_input("invalid artifact hash"@)
                    } else {
                        self.artifacts.contains_key(location) ==> crate::artifacts::content_hash(
                            self.artifacts[location],
                        ) != hash && error.is_invalid_input("artifact hash mismatch"@)
                    }
                }
        }
    }
}

/// `reply` is the disk's answer to what `state` asks for, and takes it to `next`.
pub open spec fn is_rebuild_step(
    files: ScopeFiles,
    state: Rebuild,
    reply: ContextReply,
    next: Rebuild,
) -> bool {
    &&& state.asks() is Some
    &&& files.answers(state.asks()->0, reply)
    &&& state.leads_to(reply, next)
}

/// The states follow one another by the replies, which are the disk's answers to what each state
/// asks for.
pub open spec fn is_rebuild_run(
    files: ScopeFiles,
    states: Seq<Rebuild>,
    replies: Seq<ContextReply>,
) -> bool {
    &&& states.len() == replies.len() + 1
    &&& forall|k: int|
        0 <= k < replies.len() ==> is_rebuild_step(
            files,
            states[k],
            #[trigger] replies[k],
            states[k + 1],
        )
}

/// The diff is being stored: its reference stands fixed.
spec fn is_storing_diff(put: PutArtifact, input: RebuildInput) -> bool {
    match put {
        PutArtifact::Checking { path, bytes, reference } => crate::artifacts::refers_to(
            reference,
            "git_diff"@,
            "latest Git diff"@,
            input.diff@,
            None,
        ),
        PutArtifact::Writing { path, bytes, reference } => crate::artifacts::refers_to(
            reference,
            "git_diff"@,
            "latest Git diff"@,
            input.diff@,
            None,
        ),
        PutArtifact::Finished(_) => false,
    }
}

spec fn accepts_given(
    files: ScopeFiles,
    input: RebuildInput,
    checkpoint: Option<ContextCheckpoint>,
) -> bool {
    &&& files.is_latest_checkpoint(checkpoint)
    &&& checkpoint matches Some(c) ==> input.accepts_specification_of(c) && input.accepts_head_of(c)
}

/// What is known of the files when a rebuild is in this state.
spec fn is_known(files: ScopeFiles, input: RebuildInput, state: Rebuild) -> bool {
    match state {
        Rebuild::ReadingCore { input: i } => i == input,
        Rebuild::ReadingWorking { input: i, core } => {
            &&& i == input
            &&& files.core == Some(core) && input.accepts_core(core)
        },
        Rebuild::FindingCheckpoints { input: i, core, current_task } => {
            &&& i == input
            &&& files.core == Some(core) && input.accepts_core(core)
            &&& files.working matches Some(w) && w.current_task == current_task
        },
        Rebuild::ListingCheckpoints { input: i, core, current_task } => {
            &&& i == input
            &&& files.core == Some(core) && input.accepts_core(core)
            &&& files.working matches Some(w) && w.current_task == current_task
            &&& files.checkpoints is Some
        },
        Rebuild::ReadingCheckpoint { input: i, core, current_task, name } => {
            &&& i == input
            &&& files.core == Some(core) && input.accepts_core(core)
            &&& files.working matches Some(w) && w.current_task == current_task
            &&& files.checkpoints is Some
            &&& files.is_latest_name(name@)
        },
        Rebuild::VerifyingArtifact { input: i, core, current_task, checkpoint, index, read } => {
            &&& i == input
            &&& files.core == Some(core) && input.accepts_core(core)
            &&& files.working matches Some(w) && w.current_task == current_task
            &&& accepts_given(files, input, checkpoint)
            &&& index < input.artifacts@.len()
            &&& files.holds_first(input, index as int)
            &&& read.begins(input.artifacts@[index as int].hash@)
            &&& crate::artifacts::is_artifact_hash(input.artifacts@[index as int].hash@)
        },
        Rebuild::StoringDiff { core, current_task, checkpoint, artifacts, put } => {
            &&& files.core == Some(core) && input.accepts_core(core)
            &&& files.working matches Some(w) && w.current_task == current_task
            &&& accepts_given(files, input, checkpoint)
            &&& artifacts == input.artifacts
            &&& files.holds_first(input, input.artifacts@.len() as int)
            &&& is_storing_diff(put, input)
        },
        Rebuild::Finished(Ok(context)) => files.can_rebuild(input) && files.is_rebuilt(
            input,
            context,
        ),
        Rebuild::Finished(Err(e)) => !files.can_rebuild(input) && files.fails_with(input, e),
    }
}

proof fn lemma_one_latest_checkpoint(files: ScopeFiles, a: ContextCheckpoint, b: ContextCheckpoint)
    requires
        files.is_latest_checkpoint(Some(a)),
        files.is_latest_checkpoint(Some(b)),
    ensures
        a == b,
{
    let m = choose|name: Seq<u8>| #[trigger]
        files.is_latest_name(name) && files.checkpoints->0[name] == a;
    let n = choose|name: Seq<u8>| #[trigger]
        files.is_latest_name(name) && files.checkpoints->0[name] == b;
    assert(files.names().contains(m) && files.names().contains(n));
    crate::checkpoints::names_are_totally_ordered(m, n);
}

proof fn lemma_accepted(
    files: ScopeFiles,
    input: RebuildInput,
    checkpoint: Option<ContextCheckpoint>,
)
    requires
        accepts_given(files, input, checkpoint),
    ensures
        files.accepts_checkpoint(input),
{
    assert forall|c: ContextCheckpoint| #[trigger]
        files.is_latest_checkpoint(Some(c)) implies input.accepts_specification_of(c)
        && input.accepts_head_of(c) by {
        match checkpoint {
            Some(other) => {
                lemma_one_latest_checkpoint(files, c, other);
            },
            None => {
                let name = choose|name: Seq<u8>| #[trigger]
                    files.is_latest_name(name) && files.checkpoints->0[name] == c;
                assert(files.names().contains(name));
            },
        }
    }
}

proof fn lemma_has_verified(
    files: ScopeFiles,
    input: RebuildInput,
    core: CoreContext,
    current_task: String,
    checkpoint: Option<ContextCheckpoint>,
    index: int,
    next: Rebuild,
)
    requires
        next.has_verified(input, core, current_task, checkpoint, index),
        files.core == Some(core) && input.accepts_core(core),
        files.working matches Some(w) && w.current_task == current_task,
        accepts_given(files, input, checkpoint),
        0 <= index <= input.artifacts@.len(),
        files.holds_first(input, index),
    ensures
        is_known(files, input, next),
{
    lemma_accepted(files, input, checkpoint);
    if index < input.artifacts@.len() {
        let hash = input.artifacts@[index].hash@;
        if !crate::artifacts::is_artifact_hash(hash) {
            assert(!files.holds(input.artifacts@[index]));
        }
    }
}

proof fn lemma_latest_of_listing(files: ScopeFiles, listing: Seq<Vec<u8>>, name: Seq<u8>)
    requires
        lists(listing, files.names()),
        crate::checkpoints::is_latest(crate::checkpoints::names_of(listing), name),
    ensures
        files.is_latest_name(name),
{
    let names = crate::checkpoints::names_of(listing);
    assert(names.to_set().contains(name));
    assert forall|other: Seq<u8>| #[trigger]
        files.names().contains(other) implies !crate::checkpoints::before(name, other) by {
        assert(names.to_set().contains(other));
        let i = choose|i: int| 0 <= i < names.len() && names[i] == other;
        assert(!crate::checkpoints::before(name, names[i]));
    }
}

proof fn lemma_rebuild_step(
    files: ScopeFiles,
    input: RebuildInput,
    state: Rebuild,
    reply: ContextReply,
    next: Rebuild,
)
    requires
        is_known(files, input, state),
        files.scope == input.scope,
        is_rebuild_step(files, state, reply, next),
    ensures
        is_known(files, input, next),
{
    match state {
        Rebuild::ReadingCore { input: i } => {},
        Rebuild::ReadingWorking { input: i, core } => {},
        Rebuild::FindingCheckpoints { input: i, core, current_task } => {
            if files.checkpoints is None {
                assert(files.is_latest_checkpoint(None));
                lemma_has_verified(files, input, core, current_task, None, 0, next);
            }
        },
        Rebuild::ListingCheckpoints { input: i, core, current_task } => {
            if let ContextReply::Entries(listing) = reply {
                if listing@.len() == 0 {
                    let names = crate::checkpoints::names_of(listing@);
                    assert(names.to_set() =~= Set::<Seq<u8>>::empty());
                    assert(files.is_latest_checkpoint(None));
                    lemma_has_verified(files, input, core, current_task, None, 0, next);
                } else if let Rebuild::ReadingCheckpoint {
                    input: j,
                    core: c,
                    current_task: t,
                    name,
                } = next {
                    lemma_latest_of_listing(files, listing@, name@);
                }
            }
        },
        Rebuild::ReadingCheckpoint { input: i, core, current_task, name } => {
            let checkpoint = files.checkpoints->0[name@];
            assert(files.is_latest_checkpoint(Some(checkpoint)));
            if input.accepts_specification_of(checkpoint) && input.accepts_head_of(checkpoint) {
                lemma_has_verified(files, input, core, current_task, Some(checkpoint), 0, next);
            }
        },
        Rebuild::VerifyingArtifact { input: i, core, current_task, checkpoint, index, read } => {
            lemma_accepted(files, input, checkpoint);
            let artifact = input.artifacts@[index as int];
            let location = crate::artifacts::artifact_location(artifact.hash@);
            if files.holds(artifact) {
                assert(files.holds_first(input, index + 1));
                lemma_has_verified(
                    files,
                    input,
                    core,
                    current_task,
                    checkpoint,
                    index + 1,
                    next,
                );
            }
        },
        Rebuild::StoringDiff { core, current_task, checkpoint, artifacts, put } => {
            lemma_accepted(files, input, checkpoint);
        },
        Rebuild::Finished(_) => {},
    }
}

/// A rebuild that ends succeeds exactly where core and working context are there, specification
/// and head match, and every artifact has its hash. It then gives back the core context
/// verbatim, the current task, the latest checkpoint, the artifacts that were asked for, and a
/// reference to the diff; and else it fails for the first reason that it meets.
pub proof fn rebuild_outcome(
    files: ScopeFiles,
    input: RebuildInput,
    states: Seq<Rebuild>,
    replies: Seq<ContextReply>,
    result: Result<RebuiltContext, OrchestratorError>,
)
    requires
        files.scope == input.scope,
        is_rebuild_run(files, states, replies),
        states.first() == (Rebuild::ReadingCore { input }),
        states.last() == Rebuild::Finished(result),
    ensures
        result is Ok <==> files.can_rebuild(input),
        result matches Ok(context) ==> files.is_rebuilt(input, context),
        result matches Err(e) ==> files.fails_with(input, e),
        result matches Ok(context) ==> {
            &&& files.core == Some(context.core)
            &&& context.core.specification_version_id == input.specification_version_id
            &&& context.core.specification_hash@ == input.specification_hash@
            &&& files.working is Some && context.current_task == files.working->0.current_task
            &&& context.artifacts == input.artifacts
            &&& context.git_diff.hash@ == "sha256:"@ + crate::text::lower_hex(
                crate::artifacts::sha256_digest(input.diff@)@,
            )
            &&& context.git_diff.kind@ == "git_diff"@
            &&& context.git_diff.summary@ == "latest Git diff"@
            &&& context.git_diff.line_range is None
            &&& context.git_diff.byte_len == input.diff@.len()
        },
        result matches Ok(context) ==> {
            &&& context.checkpoint is None ==> forall|name: Seq<u8>|
                !(#[trigger] files.names().contains(name))
            &&& context.checkpoint matches Some(latest) ==> {
                &&& latest.specification_version_id == input.specification_version_id
                &&& latest.specification_hash@ == input.specification_hash@
                &&& latest.data.workspace_head@ == input.head@
                &&& exists|name: Seq<u8>|
                    {
                        &&& #[trigger] files.names().contains(name)
                        &&& files.checkpoints->0[name] == latest
                        &&& forall|other: Seq<u8>| #[trigger]
                            files.names().contains(other) ==> other == name
                                || crate::checkpoints::before(other, name)
                    }
            }
        },
        result is Ok ==> forall|i: int|
            0 <= i < input.artifacts@.len() ==> {
                let hash = (#[trigger] input.artifacts@[i]).hash@;
                let location = seq!["artifacts"@, "sha256"@, hash.skip(7)];
                &&& files.artifacts.contains_key(location)
                &&& "sha256:"@ + crate::text::lower_hex(
                    crate::artifacts::sha256_digest(files.artifacts[location])@,
                ) == hash
            },
{
    lemma_rebuild_run(files, input, states, replies);
    if let Ok(context) = result {
        if let Some(latest) = context.checkpoint {
            assert(files.is_latest_checkpoint(Some(latest)));
            let name = choose|name: Seq<u8>| #[trigger]
                files.is_latest_name(name) && files.checkpoints->0[name] == latest;
            assert(files.names().contains(name));
            assert forall|other: Seq<u8>| #[trigger]
                files.names().contains(other) implies other == name || crate::checkpoints::before(
                other,
                name,
            ) by {
                assert(!crate::checkpoints::before(name, other));
                crate::checkpoints::names_are_totally_ordered(other, name);
            }
        }
        assert forall|i: int| 0 <= i < input.artifacts@.len() implies {
            let hash = (#[trigger] input.artifacts@[i]).hash@;
            let location = seq!["artifacts"@, "sha256"@, hash.skip(7)];
            &&& files.artifacts.contains_key(location)
            &&& "sha256:"@ + crate::text::lower_hex(
                crate::artifacts::sha256_digest(files.artifacts[location])@,
            ) == hash
        } by {
            let hash = input.artifacts@[i].hash@;
            assert(files.holds(input.artifacts@[i]));
            crate::artifacts::accepted_hashes_have_this_form(hash);
            crate::artifacts::a_content_is_kept_under_its_digest(
                files.artifacts[crate::artifacts::artifact_location(hash)],
            );
        }
    }
}

proof fn lemma_rebuild_run(
    files: ScopeFiles,
    input: RebuildInput,
    states: Seq<Rebuild>,
    replies: Seq<ContextReply>,
)
    requires
        files.scope == input.scope,
        is_rebuild_run(files, states, replies),
        states.first() == (Rebuild::ReadingCore { input }),
    ensures
        is_known(files, input, states.last()),
    decreases replies.len(),
{
    if replies.len() > 0 {
        let n = replies.len() - 1;
        let earlier = states.drop_last();
        let heard = replies.drop_last();
        assert forall|k: int| 0 <= k < heard.len() implies is_rebuild_step(
            files,
            earlier[k],
            #[trigger] heard[k],
            earlier[k + 1],
        ) by {
            assert(is_rebuild_step(files, states[k], replies[k], states[k + 1]));
        }
        lemma_rebuild_run(files, input, earlier, heard);
        assert(is_rebuild_step(files, states[n], replies[n], states[n + 1]));
        assert(earlier.last() == states[n]);
        lemma_rebuild_step(files, input, states[n], replies[n], states[n + 1]);
    }
}

/// How many answers a rebuild can still take.
pub open spec fn rebuild_rank(state: Rebuild) -> int {
    match state {
        Rebuild::ReadingCore { input } => 8int + input.artifacts@.len(),
        Rebuild::ReadingWorking { input, core } => 7int + input.artifacts@.len(),
        Rebuild::FindingCheckpoints { input, core, current_task } => 6int + input.artifacts@.len(),
        Rebuild::ListingCheckpoints { input, core, current_task } => 5int + input.artifacts@.len(),
        Rebuild::ReadingCheckpoint { input, core, current_task, name } => 4int
            + input.artifacts@.len(),
        Rebuild::VerifyingArtifact { input, core, current_task, checkpoint, index, read } =>
            input.artifacts@.len() - index + 3,
        Rebuild::StoringDiff { core, current_task, checkpoint, artifacts, put } => if put is Checking {
            2
        } else {
            1
        },
        Rebuild::Finished(_) => 0,
    }
}

/// A rebuild ends: each answer brings it nearer, whatever the disk answers.
pub proof fn rebuild_comes_to_an_end(state: Rebuild, reply: ContextReply, next: Rebuild)
    requires
        state.is_sound(),
        state.asks() matches Some(ask) && ask.is_answered_by(reply),
        state.leads_to(reply, next),
    ensures
        0 <= rebuild_rank(next) < rebuild_rank(state),
{
}

/// `reply` is the disk's answer to what `state` asks for, and takes it to `next`.
pub open spec fn is_checkpoint_step(
    files: ScopeFiles,
    state: TakeCheckpoint,
    reply: ContextReply,
    next: TakeCheckpoint,
) -> bool {
    &&& state.asks() is Some
    &&& files.answers(state.asks()->0, reply)
    &&& reply matches ContextReply::Entries(names) ==> names@.len() < u64::MAX
    &&& state.leads_to(reply, next)
}

/// The states follow one another by the replies, which are the disk's answers to what each state
/// asks for.
pub open spec fn is_checkpoint_run(
    files: ScopeFiles,
    states: Seq<TakeCheckpoint>,
    replies: Seq<ContextReply>,
) -> bool {
    &&& states.len() == replies.len() + 1
    &&& forall|k: int|
        0 <= k < replies.len() ==> is_checkpoint_step(
            files,
            states[k],
            #[trigger] replies[k],
            states[k + 1],
        )
}

/// `reference` refers to the raw history that a checkpoint was taken with.
pub open spec fn is_history(reference: ArtifactRef, raw: Seq<u8>) -> bool {
    crate::artifacts::refers_to(
        reference,
        "raw_chat_history"@,
        "uncompressed pre-checkpoint history"@,
        raw,
        None,
    )
}

/// The checkpoint is the one that is taken of these files.
pub open spec fn is_taken(
    files: ScopeFiles,
    data: CheckpointData,
    raw: Seq<u8>,
    checkpoint: ContextCheckpoint,
) -> bool {
    &&& files.core matches Some(core)
    &&& checkpoint.specification_version_id == core.specification_version_id
    &&& checkpoint.specification_hash == core.specification_hash
    &&& checkpoint.scope == files.scope
    &&& checkpoint.data == data
    &&& checkpoint.sequence == files.names().len() + 1
    &&& is_history(checkpoint.raw_history, raw)
}

/// What is known when the taking of a checkpoint is in this state.
spec fn is_checkpoint_known(
    files: ScopeFiles,
    data: CheckpointData,
    raw: Vec<u8>,
    state: TakeCheckpoint,
) -> bool {
    match state {
        TakeCheckpoint::ReadingCore { scope, data: d, raw: r } => {
            scope == files.scope && d == data && r == raw
        },
        TakeCheckpoint::StoringHistory { scope, data: d, core, put } => {
            &&& scope == files.scope && d == data && files.core == Some(core)
            &&& match put {
                PutArtifact::Checking { path, bytes, reference } => is_history(reference, raw@),
                PutArtifact::Writing { path, bytes, reference } => is_history(reference, raw@),
                PutArtifact::Finished(_) => false,
            }
        },
        TakeCheckpoint::CreatingDirectory { scope, data: d, core, history } => {
            scope == files.scope && d == data && files.core == Some(core) && is_history(
                history,
                raw@,
            )
        },
        TakeCheckpoint::Counting { scope, data: d, core, history } => {
            scope == files.scope && d == data && files.core == Some(core) && is_history(
                history,
                raw@,
            )
        },
        TakeCheckpoint::Writing { checkpoint } => is_taken(files, data, raw@, checkpoint),
        TakeCheckpoint::Finished(Ok(checkpoint)) => is_taken(files, data, raw@, checkpoint),
        TakeCheckpoint::Finished(Err(_)) => files.core is None,
    }
}

proof fn lemma_checkpoint_step(
    files: ScopeFiles,
    data: CheckpointData,
    raw: Vec<u8>,
    state: TakeCheckpoint,
    reply: ContextReply,
    next: TakeCheckpoint,
)
    requires
        is_checkpoint_known(files, data, raw, state),
        is_checkpoint_step(files, state, reply, next),
    ensures
        is_checkpoint_known(files, data, raw, next),
{
    if state is Counting {
        if let ContextReply::Entries(listing) = reply {
            crate::checkpoints::names_of(listing@).unique_seq_to_set();
        }
    }
}

proof fn lemma_checkpoint_run(
    files: ScopeFiles,
    data: CheckpointData,
    raw: Vec<u8>,
    states: Seq<TakeCheckpoint>,
    replies: Seq<ContextReply>,
)
    requires
        is_checkpoint_run(files, states, replies),
        states.first() == (TakeCheckpoint::ReadingCore { scope: files.scope, data, raw }),
    ensures
        is_checkpoint_known(files, data, raw, states.last()),
    decreases replies.len(),
{
    if replies.len() > 0 {
        let n = replies.len() - 1;
        let earlier = states.drop_last();
        let heard = replies.drop_last();
        assert forall|k: int| 0 <= k < heard.len() implies is_checkpoint_step(
            files,
            earlier[k],
            #[trigger] heard[k],
            earlier[k + 1],
        ) by {
            assert(is_checkpoint_step(files, states[k], replies[k], states[k + 1]));
        }
        lemma_checkpoint_run(files, data, raw, earlier, heard);
        assert(is_checkpoint_step(files, states[n], replies[n], states[n + 1]));
        assert(earlier.last() == states[n]);
        lemma_checkpoint_step(files, data, raw, states[n], replies[n], states[n + 1]);
    }
}

/// Taking a checkpoint succeeds exactly where the scope has a core context. The checkpoint then
/// carries the version and hash of that context's specification, the data as given, a reference
/// to the raw history, and the number after the count of what was there.
pub proof fn checkpoint_outcome(
    files: ScopeFiles,
    data: CheckpointData,
    raw: Vec<u8>,
    states: Seq<TakeCheckpoint>,
    replies: Seq<ContextReply>,
    result: Result<ContextCheckpoint, OrchestratorError>,
)
    requires
        is_checkpoint_run(files, states, replies),
        states.first() == (TakeCheckpoint::ReadingCore { scope: files.scope, data, raw }),
        states.last() == TakeCheckpoint::Finished(result),
    ensures
        result is Ok <==> files.core is Some,
        result matches Ok(checkpoint) ==> is_taken(files, data, raw@, checkpoint),
        result matches Ok(checkpoint) ==> {
            &&& files.core is Some
            &&& checkpoint.specification_version_id == files.core->0.specification_version_id
            &&& checkpoint.specification_hash == files.core->0.specification_hash
            &&& checkpoint.scope == files.scope
            &&& checkpoint.data == data
            &&& checkpoint.sequence == files.names().len() + 1
            &&& checkpoint.raw_history.hash@ == "sha256:"@ + crate::text::lower_hex(
                crate::artifacts::sha256_digest(raw@)@,
            )
            &&& checkpoint.raw_history.kind@ == "raw_chat_history"@
            &&& checkpoint.raw_history.summary@ == "uncompressed pre-checkpoint history"@
            &&& checkpoint.raw_history.line_range is None
            &&& checkpoint.raw_history.byte_len == raw@.len()
        },
{
    lemma_checkpoint_run(files, data, raw, states, replies);
}

/// How many answers the taking of a checkpoint can still take.
pub open spec fn checkpoint_rank(state: TakeCheckpoint) -> int {
    match state {
        TakeCheckpoint::ReadingCore { scope, data, raw } => 6,
        TakeCheckpoint::StoringHistory { scope, data, core, put } => if put is Checking {
            5
        } else {
            4
        },
        TakeCheckpoint::CreatingDirectory { scope, data, core, history } => 3,
        TakeCheckpoint::Counting { scope, data, core, history } => 2,
        TakeCheckpoint::Writing { checkpoint } => 1,
        TakeCheckpoint::Finished(_) => 0,
    }
}

/// The taking of a checkpoint ends: each answer brings it nearer, whatever the disk answers.
pub proof fn checkpoint_comes_to_an_end(
    state: TakeCheckpoint,
    reply: ContextReply,
    next: TakeCheckpoint,
)
    requires
        state.asks() matches Some(ask) && ask.is_answered_by(reply),
        state.leads_to(reply, next),
    ensures
        0 <= checkpoint_rank(next) < checkpoint_rank(state),
{
}

/// The files after a checkpoint was taken: its history is stored, and it stands under the name
/// of its number.
pub open spec fn with_checkpoint(
    files: ScopeFiles,
    raw: Seq<u8>,
    checkpoint: ContextCheckpoint,
) -> ScopeFiles {
    let there = match files.checkpoints {
        Some(checkpoints) => checkpoints,
        None => Map::empty(),
    };
    ScopeFiles {
        checkpoints: Some(
            there.insert(
                crate::checkpoints::checkpoint_name_bytes(checkpoint.sequence),
                checkpoint,
            ),
        ),
        artifacts: crate::artifacts::stored(files.artifacts, raw),
        ..files
    }
}

/// What carrying a request out makes of the files.
pub open spec fn carried_out(files: ScopeFiles, ask: Ask) -> ScopeFiles {
    match ask {
        Ask::CreateDirectory(path) => if path == crate::context::checkpoints_directory(files.scope)
            && files.checkpoints is None {
            ScopeFiles { checkpoints: Some(Map::empty()), ..files }
        } else {
            files
        },
        Ask::WriteFile(path, bytes) => ScopeFiles {
            artifacts: files.artifacts.insert(path, bytes),
            ..files
        },
        Ask::WriteCheckpoint(path, checkpoint) => match files.checkpoints {
            Some(checkpoints) if path.drop_last() == crate::context::checkpoints_directory(
                files.scope,
            ) => ScopeFiles {
                checkpoints: Some(
                    checkpoints.insert(vstd::utf8::encode_utf8(path.last()), checkpoint),
                ),
                ..files
            },
            _ => files,
        },
        _ => files,
    }
}

/// What the first `count` requests of a run make of the files.
pub open spec fn after_requests(
    files: ScopeFiles,
    states: Seq<TakeCheckpoint>,
    count: int,
) -> ScopeFiles
    decreases count,
{
    if count <= 0 {
        files
    } else {
        let before = after_requests(files, states, count - 1);
        match states[count - 1].asks() {
            Some(ask) => carried_out(before, ask),
            None => before,
        }
    }
}

/// The checkpoints that are there, none where there is no directory of them.
spec fn checkpoints_there(files: ScopeFiles) -> Map<Seq<u8>, ContextCheckpoint> {
    match files.checkpoints {
        Some(checkpoints) => checkpoints,
        None => Map::empty(),
    }
}

/// What the files are when the taking of a checkpoint is in this state.
spec fn are_files_in(
    files: ScopeFiles,
    raw: Seq<u8>,
    state: TakeCheckpoint,
    now: ScopeFiles,
) -> bool {
    let stored = ScopeFiles {
        artifacts: crate::artifacts::stored(files.artifacts, raw),
        ..files
    };
    let location = crate::artifacts::artifact_location(crate::artifacts::content_hash(raw));
    match state {
        TakeCheckpoint::ReadingCore { scope, data, raw: r } => now == files && r@ == raw,
        TakeCheckpoint::StoringHistory { scope, data, core, put } => {
            &&& now == files
            &&& match put {
                PutArtifact::Checking { path, bytes, reference } => path@ == location && bytes@
                    == raw,
                PutArtifact::Writing { path, bytes, reference } => path@ == location && bytes@
                    == raw && !files.artifacts.contains_key(location),
                PutArtifact::Finished(_) => false,
            }
        },
        TakeCheckpoint::CreatingDirectory { scope, data, core, history } => now == stored && scope
            == files.scope,
        TakeCheckpoint::Counting { scope, data, core, history } => now == (ScopeFiles {
            checkpoints: Some(checkpoints_there(files)),
            ..stored
        }) && scope == files.scope,
        TakeCheckpoint::Writing { checkpoint } => now == (ScopeFiles {
            checkpoints: Some(checkpoints_there(files)),
            ..stored
        }) && checkpoint.scope == files.scope,
        TakeCheckpoint::Finished(Ok(checkpoint)) => now == with_checkpoint(files, raw, checkpoint),
        TakeCheckpoint::Finished(Err(_)) => now == files,
    }
}

proof fn lemma_files_in(
    files: ScopeFiles,
    data: CheckpointData,
    raw: Vec<u8>,
    states: Seq<TakeCheckpoint>,
    replies: Seq<ContextReply>,
    k: int,
)
    requires
        is_checkpoint_run(files, states, replies),
        states.first() == (TakeCheckpoint::ReadingCore { scope: files.scope, data, raw }),
        0 <= k < states.len(),
    ensures
        are_files_in(files, raw@, states[k], after_requests(files, states, k)),
        is_checkpoint_known(files, data, raw, states[k]),
    decreases k,
{
    if k > 0 {
        lemma_files_in(files, data, raw, states, replies, k - 1);
        let state = states[k - 1];
        let reply = replies[k - 1];
        assert(is_checkpoint_step(files, state, reply, states[k]));
        lemma_checkpoint_step(files, data, raw, state, reply, states[k]);
        let before = after_requests(files, states, k - 1);
        let location = crate::artifacts::artifact_location(crate::artifacts::content_hash(raw@));
        let directory = crate::context::checkpoints_directory(files.scope);
        assert(location.len() == 3 && directory.len() == 4);
        match state {
            TakeCheckpoint::Writing { checkpoint } => {
                let path = crate::context::checkpoint_location(files.scope, checkpoint.sequence);
                assert(path.drop_last() =~= directory);
                assert(path.last() == crate::context::checkpoint_name(checkpoint.sequence));
            },
            _ => {},
        }
    }
}

/// The taking of a checkpoint makes of the files what [`with_checkpoint`] says, if it succeeds,
/// and else leaves them as they were.
pub proof fn checkpoint_changes_the_files(
    files: ScopeFiles,
    data: CheckpointData,
    raw: Vec<u8>,
    states: Seq<TakeCheckpoint>,
    replies: Seq<ContextReply>,
    result: Result<ContextCheckpoint, OrchestratorError>,
)
    requires
        is_checkpoint_run(files, states, replies),
        states.first() == (TakeCheckpoint::ReadingCore { scope: files.scope, data, raw }),
        states.last() == TakeCheckpoint::Finished(result),
    ensures
        after_requests(files, states, replies.len() as int) == match result {
            Ok(checkpoint) => with_checkpoint(files, raw@, checkpoint),
            Err(_) => files,
        },
{
    lemma_files_in(files, data, raw, states, replies, replies.len() as int);
}

/// Each answer that a run hears is also the one that the files give at that time, with all
/// requests before it carried out.
pub proof fn checkpoint_answers_are_up_to_date(
    files: ScopeFiles,
    data: CheckpointData,
    raw: Vec<u8>,
    states: Seq<TakeCheckpoint>,
    replies: Seq<ContextReply>,
    k: int,
)
    requires
        is_checkpoint_run(files, states, replies),
        states.first() == (TakeCheckpoint::ReadingCore { scope: files.scope, data, raw }),
        0 <= k < replies.len(),
    ensures
        states[k].asks() matches Some(ask) && after_requests(files, states, k).answers(
            ask,
            replies[k],
        ),
{
    lemma_files_in(files, data, raw, states, replies, k);
    assert(is_checkpoint_step(files, states[k], replies[k], states[k + 1]));
    let now = after_requests(files, states, k);
    if files.checkpoints is None {
        assert(Map::<Seq<u8>, ContextCheckpoint>::empty().dom() =~= Set::<Seq<u8>>::empty());
    }
}

/// A checkpoint is found again: where the directory is numbered as checkpoints number it, the
/// one that was taken is the latest. A rebuild for the specification of the core context, with
/// artifacts that are there, then succeeds at the head that the checkpoint was taken at, and is
/// refused at any other.
pub proof fn rebuild_follows_the_checkpoint_taken(
    files: ScopeFiles,
    listing: Seq<Vec<u8>>,
    data: CheckpointData,
    raw: Seq<u8>,
    checkpoint: ContextCheckpoint,
    input: RebuildInput,
)
    requires
        lists(listing, files.names()),
        crate::checkpoints::is_numbered(crate::checkpoints::names_of(listing)),
        is_taken(files, data, raw, checkpoint),
        files.accepts_core(input),
        files.working is Some,
        with_checkpoint(files, raw, checkpoint).holds_first(input, input.artifacts@.len() as int),
    ensures
        with_checkpoint(files, raw, checkpoint).is_latest_checkpoint(Some(checkpoint)),
        with_checkpoint(files, raw, checkpoint).can_rebuild(input) <==> input.head@
            == data.workspace_head@,
        input.head@ != data.workspace_head@ ==> forall|e: OrchestratorError| #[trigger]
            with_checkpoint(files, raw, checkpoint).fails_with(input, e) ==> e.is_invalid_input(
                "workspace HEAD mismatch"@,
            ),
{
    let after = with_checkpoint(files, raw, checkpoint);
    let names = crate::checkpoints::names_of(listing);
    let name = crate::checkpoints::checkpoint_name_bytes(checkpoint.sequence);
    names.unique_seq_to_set();
    crate::checkpoints::the_checkpoint_taken_is_the_latest(names, checkpoint.sequence);
    assert(after.is_latest_name(name)) by {
        let all = names.push(name);
        assert forall|other: Seq<u8>| #[trigger]
            after.names().contains(other) implies !crate::checkpoints::before(name, other) by {
            if other == name {
                assert(all[names.len() as int] == name);
                assert(!crate::checkpoints::before(name, all[names.len() as int]));
            } else {
                assert(names.to_set().contains(other));
                let i = choose|i: int| 0 <= i < names.len() && names[i] == other;
                assert(!crate::checkpoints::before(name, all[i]));
            }
        }
    }
    assert(after.checkpoints->0[name] == checkpoint);
    assert(after.is_latest_checkpoint(Some(checkpoint)));
    assert forall|c: ContextCheckpoint| #[trigger]
        after.is_latest_checkpoint(Some(c)) implies c == checkpoint by {
        lemma_one_latest_checkpoint(after, c, checkpoint);
    }
}

/// Raw history survives: the reference in the checkpoint that was taken leads to the file of the
/// history, and where that content had no file before, to the very bytes.
pub proof fn raw_history_survives(
    files: ScopeFiles,
    data: CheckpointData,
    raw: Seq<u8>,
    checkpoint: ContextCheckpoint,
    read: ReadArtifact,
    found: Vec<u8>,
    next: ReadArtifact,
)
    requires
        is_taken(files, data, raw, checkpoint),
        read.begins(checkpoint.raw_history.hash@),
        read.leads_to(ContextReply::Bytes(found), next),
        with_checkpoint(files, raw, checkpoint).answers(
            read.asks()->0,
            ContextReply::Bytes(found),
        ),
    ensures
        !files.artifacts.contains_key(
            crate::artifacts::artifact_location(crate::artifacts::content_hash(raw)),
        ) ==> found@ == raw && next == ReadArtifact::Finished(Ok(found)),
        crate::artifacts::is_intact(files.artifacts) ==> next == ReadArtifact::Finished(Ok(found)),
{
    crate::artifacts::content_hash_is_an_artifact_hash(raw);
    crate::artifacts::what_was_put_is_read_back(
        checkpoint.raw_history,
        "raw_chat_history"@,
        "uncompressed pre-checkpoint history"@,
        raw,
        None,
        files.artifacts,
        read,
        found,
        next,
    );
}

/// Where the request goes.
pub open spec fn place_of(ask: Ask) -> Seq<Seq<char>> {
    match ask {
        Ask::ReadCore(path) => path,
        Ask::ReadWorking(path) => path,
        Ask::ReadCheckpoint(directory, _) => directory,
        Ask::Exists(path) => path,
        Ask::CreateDirectory(path) => path,
        Ask::ListDirectory(path) => path,
        Ask::ReadFile(path) => path,
        Ask::WriteFile(path, _) => path,
        Ask::WriteCheckpoint(path, _) => path,
    }
}

/// What is asked for, if anything, is within the scope's directory or among the artifacts.
pub open spec fn keeps_within(ask: Option<Ask>, scope: ContextScope) -> bool {
    ask matches Some(a) ==> crate::context::is_within(
        place_of(a),
        crate::context::scope_directory(scope),
    ) || crate::context::is_within(place_of(a), seq!["artifacts"@])
}

/// The rebuild is of this scope.
pub open spec fn is_rebuild_of(state: Rebuild, scope: ContextScope) -> bool {
    match state {
        Rebuild::ReadingCore { input } => input.scope == scope,
        Rebuild::ReadingWorking { input, core } => input.scope == scope,
        Rebuild::FindingCheckpoints { input, core, current_task } => input.scope == scope,
        Rebuild::ListingCheckpoints { input, core, current_task } => input.scope == scope,
        Rebuild::ReadingCheckpoint { input, core, current_task, name } => input.scope == scope,
        Rebuild::VerifyingArtifact { input, core, current_task, checkpoint, index, read } =>
            input.scope == scope && keeps_within(read.asks(), scope),
        Rebuild::StoringDiff { core, current_task, checkpoint, artifacts, put } => keeps_within(
            put.asks(),
            scope,
        ),
        Rebuild::Finished(_) => true,
    }
}

/// The checkpoint is taken of this scope.
pub open spec fn is_checkpoint_of(state: TakeCheckpoint, scope: ContextScope) -> bool {
    match state {
        TakeCheckpoint::ReadingCore { scope: s, data, raw } => s == scope,
        TakeCheckpoint::StoringHistory { scope: s, data, core, put } => s == scope && keeps_within(
            put.asks(),
            scope,
        ),
        TakeCheckpoint::CreatingDirectory { scope: s, data, core, history } => s == scope,
        TakeCheckpoint::Counting { scope: s, data, core, history } => s == scope,
        TakeCheckpoint::Writing { checkpoint } => checkpoint.scope == scope,
        TakeCheckpoint::Finished(_) => true,
    }
}

proof fn lemma_scope_places(scope: ContextScope, sequence: u64)
    ensures
        crate::context::is_within(
            crate::context::core_location(scope),
            crate::context::scope_directory(scope),
        ),
        crate::context::is_within(
            crate::context::working_location(scope),
            crate::context::scope_directory(scope),
        ),
        crate::context::is_within(
            crate::context::checkpoints_directory(scope),
            crate::context::scope_directory(scope),
        ),
        crate::context::is_within(
            crate::context::checkpoint_location(scope, sequence),
            crate::context::scope_directory(scope),
        ),
{
    let directory = crate::context::scope_directory(scope);
    assert(crate::context::core_location(scope).take(3) =~= directory);
    assert(crate::context::working_location(scope).take(3) =~= directory);
    assert(crate::context::checkpoints_directory(scope).take(3) =~= directory);
    assert(crate::context::checkpoint_location(scope, sequence).take(3) =~= directory);
}

proof fn lemma_artifact_place(hash: Seq<char>)
    ensures
        crate::context::is_within(
            crate::artifacts::artifact_location(hash),
            seq!["artifacts"@],
        ),
{
    assert(crate::artifacts::artifact_location(hash).take(1) =~= seq!["artifacts"@]);
}

/// A rebuild keeps to its scope: whatever the disk answers, it asks for nothing but what is in
/// the scope's directory and among the artifacts.
pub proof fn rebuild_keeps_to_its_scope(
    scope: ContextScope,
    state: Rebuild,
    reply: ContextReply,
    next: Rebuild,
)
    requires
        is_rebuild_of(state, scope),
        state.leads_to(reply, next),
    ensures
        keeps_within(state.asks(), scope),
        is_rebuild_of(next, scope),
        keeps_within(next.asks(), scope),
{
    lemma_scope_places(scope, 0);
    assert forall|hash: Seq<char>|
        crate::context::is_within(
            #[trigger] crate::artifacts::artifact_location(hash),
            seq!["artifacts"@],
        ) by {
        lemma_artifact_place(hash);
    }
}

/// The taking of a checkpoint keeps to its scope: whatever the disk answers, it asks for nothing
/// but what is in the scope's directory and among the artifacts.
pub proof fn checkpoint_keeps_to_its_scope(
    scope: ContextScope,
    state: TakeCheckpoint,
    reply: ContextReply,
    next: TakeCheckpoint,
)
    requires
        is_checkpoint_of(state, scope),
        state.leads_to(reply, next),
    ensures
        keeps_within(state.asks(), scope),
        is_checkpoint_of(next, scope),
        keeps_within(next.asks(), scope),
{
    lemma_scope_places(scope, 0);
    if let TakeCheckpoint::Writing { checkpoint } = state {
        lemma_scope_places(scope, checkpoint.sequence);
    }
    if let TakeCheckpoint::Writing { checkpoint } = next {
        lemma_scope_places(scope, checkpoint.sequence);
    }
    assert forall|hash: Seq<char>|
        crate::context::is_within(
            #[trigger] crate::artifacts::artifact_location(hash),
            seq!["artifacts"@],
        ) by {
        lemma_artifact_place(hash);
    }
}

/// The states follow one another by replies that answer what each state asks for, whatever they
/// say.
pub open spec fn is_answered_rebuild(states: Seq<Rebuild>, replies: Seq<ContextReply>) -> bool {
    &&& states.len() == replies.len() + 1
    &&& forall|k: int|
        0 <= k < replies.len() ==> is_answered_rebuild_step(
            states[k],
            #[trigger] replies[k],
            states[k + 1],
        )
}

/// `reply` answers what `state` asks for, and takes it to `next`.
pub open spec fn is_answered_rebuild_step(
    state: Rebuild,
    reply: ContextReply,
    next: Rebuild,
) -> bool {
    &&& state.asks() is Some
    &&& state.asks()->0.is_answered_by(reply)
    &&& state.leads_to(reply, next)
}

/// The states follow one another by replies that answer what each state asks for, whatever they
/// say.
pub open spec fn is_answered_checkpoint(
    states: Seq<TakeCheckpoint>,
    replies: Seq<ContextReply>,
) -> bool {
    &&& states.len() == replies.len() + 1
    &&& forall|k: int|
        0 <= k < replies.len() ==> is_answered_checkpoint_step(
            states[k],
            #[trigger] replies[k],
            states[k + 1],
        )
}

/// `reply` answers what `state` asks for, and takes it to `next`.
pub open spec fn is_answered_checkpoint_step(
    state: TakeCheckpoint,
    reply: ContextReply,
    next: TakeCheckpoint,
) -> bool {
    &&& state.asks() is Some
    &&& state.asks()->0.is_answered_by(reply)
    &&& state.leads_to(reply, next)
}

/// The request changes a file.
pub open spec fn is_write(ask: Ask) -> bool {
    ask is WriteFile || ask is WriteCheckpoint
}

/// The storing is of these bytes.
spec fn is_storing(put: PutArtifact, stored: Seq<u8>) -> bool {
    match put {
        PutArtifact::Checking { path, bytes, reference } => path@
            == crate::artifacts::artifact_location(crate::artifacts::content_hash(stored)) && bytes@
            == stored,
        PutArtifact::Writing { path, bytes, reference } => path@
            == crate::artifacts::artifact_location(crate::artifacts::content_hash(stored)) && bytes@
            == stored,
        PutArtifact::Finished(_) => true,
    }
}

/// The rebuild is with this input.
spec fn is_rebuild_with(state: Rebuild, input: RebuildInput) -> bool {
    match state {
        Rebuild::ReadingCore { input: i } => i == input,
        Rebuild::ReadingWorking { input: i, core } => i == input,
        Rebuild::FindingCheckpoints { input: i, core, current_task } => i == input,
        Rebuild::ListingCheckpoints { input: i, core, current_task } => i == input,
        Rebuild::ReadingCheckpoint { input: i, core, current_task, name } => i == input,
        Rebuild::VerifyingArtifact { input: i, core, current_task, checkpoint, index, read } => i
            == input,
        Rebuild::StoringDiff { core, current_task, checkpoint, artifacts, put } => is_storing(
            put,
            input.diff@,
        ),
        Rebuild::Finished(_) => true,
    }
}

proof fn lemma_rebuild_with(
    input: RebuildInput,
    states: Seq<Rebuild>,
    replies: Seq<ContextReply>,
    k: int,
)
    requires
        is_answered_rebuild(states, replies),
        states.first() == (Rebuild::ReadingCore { input }),
        0 <= k < states.len(),
    ensures
        is_rebuild_with(states[k], input),
    decreases k,
{
    if k > 0 {
        lemma_rebuild_with(input, states, replies, k - 1);
        assert(is_answered_rebuild_step(states[k - 1], replies[k - 1], states[k]));
    }
}

/// A rebuild changes no file but the one that it stores the diff in, whatever the disk answers:
/// the contexts, the checkpoints and the other artifacts are only read.
pub proof fn rebuild_writes_nothing_but_the_diff(
    input: RebuildInput,
    states: Seq<Rebuild>,
    replies: Seq<ContextReply>,
    k: int,
)
    requires
        is_answered_rebuild(states, replies),
        states.first() == (Rebuild::ReadingCore { input }),
        0 <= k < states.len(),
    ensures
        states[k].asks() matches Some(ask) && is_write(ask) ==> states[k].asks() == Some(
            Ask::WriteFile(
                crate::artifacts::artifact_location(
                    crate::artifacts::content_hash(input.diff@),
                ),
                input.diff@,
            ),
        ),
{
    lemma_rebuild_with(input, states, replies, k);
}

/// The checkpoint is taken of this scope, with this data and history.
spec fn is_checkpoint_with(
    state: TakeCheckpoint,
    scope: ContextScope,
    data: CheckpointData,
    raw: Seq<u8>,
) -> bool {
    match state {
        TakeCheckpoint::ReadingCore { scope: s, data: d, raw: r } => s == scope && d == data && r@
            == raw,
        TakeCheckpoint::StoringHistory { scope: s, data: d, core, put } => s == scope && d == data
            && is_storing(put, raw),
        TakeCheckpoint::CreatingDirectory { scope: s, data: d, core, history } => s == scope && d
            == data,
        TakeCheckpoint::Counting { scope: s, data: d, core, history } => s == scope && d == data,
        TakeCheckpoint::Writing { checkpoint } => checkpoint.scope == scope && checkpoint.data
            == data,
        TakeCheckpoint::Finished(_) => true,
    }
}

proof fn lemma_checkpoint_with(
    scope: ContextScope,
    data: CheckpointData,
    raw: Vec<u8>,
    states: Seq<TakeCheckpoint>,
    replies: Seq<ContextReply>,
    k: int,
)
    requires
        is_answered_checkpoint(states, replies),
        states.first() == (TakeCheckpoint::ReadingCore { scope, data, raw }),
        0 <= k < states.len(),
    ensures
        is_checkpoint_with(states[k], scope, data, raw@),
    decreases k,
{
    if k > 0 {
        lemma_checkpoint_with(scope, data, raw, states, replies, k - 1);
        assert(is_answered_checkpoint_step(states[k - 1], replies[k - 1], states[k]));
    }
}

/// The taking of a checkpoint changes no file but that of the raw history, which gets the
/// history as it is, and that of the checkpoint, whatever the disk answers. Neither is the
/// scope's core or working context, which are so retained verbatim.
pub proof fn checkpoint_keeps_the_contexts(
    scope: ContextScope,
    data: CheckpointData,
    raw: Vec<u8>,
    states: Seq<TakeCheckpoint>,
    replies: Seq<ContextReply>,
    k: int,
)
    requires
        is_answered_checkpoint(states, replies),
        states.first() == (TakeCheckpoint::ReadingCore { scope, data, raw }),
        0 <= k < states.len(),
    ensures
        states[k].asks() matches Some(ask) && is_write(ask) ==> {
            let ask = states[k].asks()->0;
            &&& ask matches Ask::WriteFile(path, bytes) ==> path
                == crate::artifacts::artifact_location(crate::artifacts::content_hash(raw@))
                && bytes == raw@
            &&& ask matches Ask::WriteCheckpoint(path, checkpoint) ==> path
                == crate::context::checkpoint_location(scope, checkpoint.sequence)
                && checkpoint.scope == scope && checkpoint.data == data
            &&& place_of(ask) != crate::context::core_location(scope)
            &&& place_of(ask) != crate::context::working_location(scope)
        },
{
    lemma_checkpoint_with(scope, data, raw, states, replies, k);
    if let Some(ask) = states[k].asks() {
        assert(crate::context::core_location(scope).len() == 4);
        assert(crate::context::working_location(scope).len() == 4);
        assert(is_write(ask) ==> place_of(ask).len() != 4);
    }
}

/// Contexts are read where they are saved: once a scope's core and working context are saved,
/// one after the other, their files hold what was saved, and these are the files that the taking
/// of a checkpoint and a rebuild of the scope read them from.
pub proof fn contexts_are_read_where_they_are_saved(
    scope: ContextScope,
    core_steps: Seq<FileStep>,
    core_mark: EntityId,
    core_json: Seq<u8>,
    working_steps: Seq<FileStep>,
    working_mark: EntityId,
    working_json: Seq<u8>,
    files: Map<Seq<Seq<char>>, Seq<u8>>,
)
    requires
        crate::context::writes_at(
            core_steps,
            crate::context::core_location(scope),
            core_mark,
            core_json,
        ),
        crate::context::writes_at(
            working_steps,
            crate::context::working_location(scope),
            working_mark,
            working_json,
        ),
    ensures
        ({
            let core = crate::context::core_location(scope);
            let working = crate::context::working_location(scope);
            let after = crate::files::performed(
                working_steps,
                crate::files::performed(core_steps, files),
            );
            &&& after.contains_key(core) && after[core] == core_json
            &&& after.contains_key(working) && after[working] == working_json
        }),
        forall|input: RebuildInput|
            input.scope == scope ==> (#[trigger] (Rebuild::ReadingCore { input }).asks()) == Some(
                Ask::ReadCore(crate::context::core_location(scope)),
            ),
        forall|input: RebuildInput, core: CoreContext|
            input.scope == scope ==> (#[trigger] (Rebuild::ReadingWorking {
                input,
                core,
            }).asks()) == Some(Ask::ReadWorking(crate::context::working_location(scope))),
        forall|data: CheckpointData, raw: Vec<u8>|
            (#[trigger] (TakeCheckpoint::ReadingCore { scope, data, raw }).asks()) == Some(
                Ask::ReadCore(crate::context::core_location(scope)),
            ),
{
    let core = crate::context::core_location(scope);
    let working = crate::context::working_location(scope);
    reveal_strlit("core.json");
    reveal_strlit("working.json");
    assert("core.json"@[0] == 'c' && "working.json"@[0] == 'w');
    assert(core.last() == "core.json"@ && working.last() == "working.json"@);
    let between = crate::files::performed(core_steps, files);
    crate::context::saving_is_atomic(core_steps, core, core_mark, core_json, files, 3, core);
    crate::context::saving_is_atomic(
        working_steps,
        working,
        working_mark,
        working_json,
        between,
        3,
        core,
    );
    crate::context::saving_is_atomic(
        working_steps,
        working,
        working_mark,
        working_json,
        between,
        3,
        working,
    );
    assert(core_steps.take(3) =~= core_steps);
    assert(working_steps.take(3) =~= working_steps);
}

/// The checkpoints are taken one after the other, each of the files that the one before it left.
pub open spec fn are_taken(
    files: Seq<ScopeFiles>,
    data: Seq<CheckpointData>,
    raws: Seq<Seq<u8>>,
    taken: Seq<ContextCheckpoint>,
) -> bool {
    &&& files.len() == taken.len() + 1
    &&& data.len() == taken.len()
    &&& raws.len() == taken.len()
    &&& forall|i: int|
        0 <= i < taken.len() ==> is_next_taken(
            files[i],
            data[i],
            raws[i],
            #[trigger] taken[i],
            files[i + 1],
        )
}

/// The checkpoint is taken of `files` and leaves `after`.
pub open spec fn is_next_taken(
    files: ScopeFiles,
    data: CheckpointData,
    raw: Seq<u8>,
    checkpoint: ContextCheckpoint,
    after: ScopeFiles,
) -> bool {
    is_taken(files, data, raw, checkpoint) && after == with_checkpoint(files, raw, checkpoint)
}

/// The names with those of the first `count` checkpoints behind them.
spec fn names_after(
    names: Seq<Seq<u8>>,
    taken: Seq<ContextCheckpoint>,
    count: int,
) -> Seq<Seq<u8>>
    decreases count,
{
    if count <= 0 {
        names
    } else {
        names_after(names, taken, count - 1).push(
            crate::checkpoints::checkpoint_name_bytes(taken[count - 1].sequence),
        )
    }
}

/// What the files hold after the first `count` checkpoints.
spec fn is_kept_after(
    files: Seq<ScopeFiles>,
    raws: Seq<Seq<u8>>,
    taken: Seq<ContextCheckpoint>,
    names: Seq<Seq<u8>>,
    count: int,
) -> bool {
    let now = files[count];
    let all = names_after(names, taken, count);
    &&& all.no_duplicates()
    &&& all.to_set() == now.names()
    &&& all.len() == names.len() + count
    &&& crate::checkpoints::is_numbered(all)
    &&& count > 0 ==> now.is_latest_checkpoint(Some(taken[count - 1]))
    &&& forall|i: int|
        0 <= i < count ==> {
            let name = crate::checkpoints::checkpoint_name_bytes(#[trigger] taken[i].sequence);
            &&& taken[i].sequence == names.len() + 1 + i
            &&& now.names().contains(name)
            &&& now.checkpoints->0[name] == taken[i]
        }
    &&& forall|name: Seq<u8>| #[trigger]
        files[0].names().contains(name) ==> now.names().contains(name) && now.checkpoints->0[name]
            == files[0].checkpoints->0[name]
    &&& forall|i: int|
        0 <= i < count ==> now.artifacts.contains_key(
            crate::artifacts::artifact_location(
                crate::artifacts::content_hash(#[trigger] raws[i]),
            ),
        )
    &&& files[0].artifacts.submap_of(now.artifacts)
    &&& crate::artifacts::is_intact(files[0].artifacts) ==> crate::artifacts::is_intact(
        now.artifacts,
    )
}

proof fn lemma_kept_after(
    files: Seq<ScopeFiles>,
    data: Seq<CheckpointData>,
    raws: Seq<Seq<u8>>,
    taken: Seq<ContextCheckpoint>,
    names: Seq<Seq<u8>>,
    count: int,
)
    requires
        are_taken(files, data, raws, taken),
        names.no_duplicates(),
        names.to_set() == files.first().names(),
        crate::checkpoints::is_numbered(names),
        0 <= count <= taken.len(),
    ensures
        is_kept_after(files, raws, taken, names, count),
    decreases count,
{
    if count > 0 {
        let last = count - 1;
        lemma_kept_after(files, data, raws, taken, names, last);
        assert(is_next_taken(files[last], data[last], raws[last], taken[last], files[count]));
        let before = names_after(names, taken, last);
        let all = names_after(names, taken, count);
        let new = crate::checkpoints::checkpoint_name_bytes(taken[last].sequence);
        let then = files[last];
        let now = files[count];
        before.unique_seq_to_set();
        crate::checkpoints::the_checkpoint_taken_is_the_latest(before, taken[last].sequence);
        assert(now.names() =~= then.names().insert(new));
        assert(all.to_set() =~= now.names()) by {
            assert forall|name: Seq<u8>| #[trigger]
                all.to_set().contains(name) == now.names().contains(name) by {
                if before.to_set().contains(name) {
                    let i = choose|i: int| 0 <= i < before.len() && before[i] == name;
                    assert(all[i] == name);
                }
                if all.contains(name) {
                    let i = choose|i: int| 0 <= i < all.len() && all[i] == name;
                    if i < before.len() {
                        assert(before[i] == name);
                        assert(before.to_set().contains(name));
                    }
                }
                assert(all[before.len() as int] == new);
            }
        }
        assert(!then.names().contains(new)) by {
            if then.names().contains(new) {
                assert(before.to_set().contains(new));
            }
        }
        assert(now.is_latest_name(new)) by {
            assert forall|other: Seq<u8>| #[trigger] now.names().contains(other) implies
                !crate::checkpoints::before(new, other) by {
                assert(all.to_set().contains(other));
                let i = choose|i: int| 0 <= i < all.len() && all[i] == other;
                assert(!crate::checkpoints::before(new, all[i]));
            }
        }
        assert(now.checkpoints->0[new] == taken[last]);
        assert forall|i: int| 0 <= i < count implies ({
            let name = crate::checkpoints::checkpoint_name_bytes(#[trigger] taken[i].sequence);
            &&& taken[i].sequence == names.len() + 1 + i
            &&& now.names().contains(name)
            &&& now.checkpoints->0[name] == taken[i]
        }) by {
            if i < last {
                let name = crate::checkpoints::checkpoint_name_bytes(taken[i].sequence);
                assert(then.names().contains(name));
                assert(name != new);
            }
        }
        assert forall|i: int| 0 <= i < count implies now.artifacts.contains_key(
            crate::artifacts::artifact_location(
                crate::artifacts::content_hash(#[trigger] raws[i]),
            ),
        ) by {}
        if crate::artifacts::is_intact(files[0].artifacts) {
            crate::artifacts::storing_keeps_artifacts_intact(then.artifacts, raws[last]);
        }
    }
}

/// Any number of checkpoints of a scope is kept: where the directory is numbered as checkpoints
/// number it, they are numbered on from the count of what was there, each stands under its own
/// name in the end, as does every one that was there before, and the last one is the latest. The
/// raw history of each has its file, and artifacts that were intact still are.
pub proof fn any_number_of_checkpoints_is_kept(
    files: Seq<ScopeFiles>,
    data: Seq<CheckpointData>,
    raws: Seq<Seq<u8>>,
    taken: Seq<ContextCheckpoint>,
    names: Seq<Seq<u8>>,
    i: int,
)
    requires
        are_taken(files, data, raws, taken),
        names.no_duplicates(),
        names.to_set() == files.first().names(),
        crate::checkpoints::is_numbered(names),
        0 <= i < taken.len(),
    ensures
        ({
            let name = crate::checkpoints::checkpoint_name_bytes(taken[i].sequence);
            &&& taken[i].sequence == names.len() + 1 + i
            &&& files.last().names().contains(name)
            &&& files.last().checkpoints->0[name] == taken[i]
        }),
        forall|name: Seq<u8>| #[trigger]
            files.first().names().contains(name) ==> files.last().names().contains(name)
                && files.last().checkpoints->0[name] == files.first().checkpoints->0[name],
        files.last().is_latest_checkpoint(Some(taken.last())),
        files.last().artifacts.contains_key(
            crate::artifacts::artifact_location(crate::artifacts::content_hash(raws[i])),
        ),
        crate::artifacts::is_intact(files.first().artifacts) ==> crate::artifacts::is_intact(
            files.last().artifacts,
        ),
{
    lemma_kept_after(files, data, raws, taken, names, taken.len() as int);
    let name = crate::checkpoints::checkpoint_name_bytes(taken[i].sequence);
    assert(files[taken.len() as int].names().contains(name));
}

/// The request changes a file or a directory within `directory`.
pub open spec fn changes_within(ask: Ask, directory: Seq<Seq<char>>) -> bool {
    (is_write(ask) || ask is CreateDirectory) && crate::context::is_within(
        place_of(ask),
        directory,
    )
}

/// A rebuild of one scope changes nothing in the directory of another, whatever the disk answers.
pub proof fn rebuild_changes_nothing_of_other_scopes(
    input: RebuildInput,
    states: Seq<Rebuild>,
    replies: Seq<ContextReply>,
    k: int,
    other: ContextScope,
)
    requires
        is_answered_rebuild(states, replies),
        states.first() == (Rebuild::ReadingCore { input }),
        0 <= k < states.len(),
        other != input.scope,
    ensures
        states[k].asks() matches Some(ask) ==> !changes_within(
            ask,
            crate::context::scope_directory(other),
        ),
{
    lemma_rebuild_with(input, states, replies, k);
    let hash = crate::artifacts::content_hash(input.diff@);
    let location = crate::artifacts::artifact_location(hash);
    lemma_artifact_place(hash);
    if crate::context::is_within(location, crate::context::scope_directory(other)) {
        crate::context::scopes_do_not_overlap(other, other, location);
    }
}

/// The taking of a checkpoint of one scope changes nothing in the directory of another, whatever
/// the disk answers.
pub proof fn checkpoint_changes_nothing_of_other_scopes(
    scope: ContextScope,
    data: CheckpointData,
    raw: Vec<u8>,
    states: Seq<TakeCheckpoint>,
    replies: Seq<ContextReply>,
    k: int,
    other: ContextScope,
)
    requires
        is_answered_checkpoint(states, replies),
        states.first() == (TakeCheckpoint::ReadingCore { scope, data, raw }),
        0 <= k < states.len(),
        other != scope,
    ensures
        states[k].asks() matches Some(ask) ==> !changes_within(
            ask,
            crate::context::scope_directory(other),
        ),
{
    lemma_checkpoint_with(scope, data, raw, states, replies, k);
    let directory = crate::context::scope_directory(other);
    if let Some(ask) = states[k].asks() {
        let place = place_of(ask);
        if changes_within(ask, directory) {
            match states[k] {
                TakeCheckpoint::StoringHistory { scope: s, data: d, core, put } => {
                    lemma_artifact_place(crate::artifacts::content_hash(raw@));
                },
                TakeCheckpoint::Writing { checkpoint } => {
                    lemma_scope_places(scope, checkpoint.sequence);
                },
                _ => {
                    lemma_scope_places(scope, 0);
                },
            }
            crate::context::scopes_do_not_overlap(other, scope, place);
        }
    }
}

/// What other scopes store disturbs no rebuild: among more artifacts, a context that could be
/// rebuilt still can, to the same result; and where the artifacts that were asked for are there,
/// one that could not be rebuilt still cannot.
pub proof fn what_others_store_disturbs_no_rebuild(
    files: ScopeFiles,
    artifacts: Map<Seq<Seq<char>>, Seq<u8>>,
    input: RebuildInput,
    context: RebuiltContext,
)
    requires
        files.artifacts.submap_of(artifacts),
    ensures
        ({
            let more = ScopeFiles { artifacts, ..files };
            &&& files.can_rebuild(input) ==> more.can_rebuild(input)
            &&& files.holds_first(input, input.artifacts@.len() as int) ==> files.can_rebuild(input)
                == more.can_rebuild(input)
            &&& files.is_rebuilt(input, context) == more.is_rebuilt(input, context)
        }),
{
    let more = ScopeFiles { artifacts, ..files };
    assert forall|checkpoint: Option<ContextCheckpoint>| #[trigger]
        files.is_latest_checkpoint(checkpoint) == more.is_latest_checkpoint(checkpoint) by {
        assert(files.names() == more.names());
        assert forall|name: Seq<u8>| #[trigger]
            files.is_latest_name(name) == more.is_latest_name(name) by {}
        if let Some(c) = checkpoint {
            if files.is_latest_checkpoint(checkpoint) {
                let name = choose|name: Seq<u8>| #[trigger]
                    files.is_latest_name(name) && files.checkpoints->0[name] == c;
                assert(more.is_latest_name(name));
            }
            if more.is_latest_checkpoint(checkpoint) {
                let name = choose|name: Seq<u8>| #[trigger]
                    more.is_latest_name(name) && more.checkpoints->0[name] == c;
                assert(files.is_latest_name(name));
            }
        }
    }
    assert(files.accepts_checkpoint(input) == more.accepts_checkpoint(input)) by {
        if files.accepts_checkpoint(input) {
            assert forall|c: ContextCheckpoint| #[trigger]
                more.is_latest_checkpoint(Some(c)) implies input.accepts_specification_of(c)
                && input.accepts_head_of(c) by {
                assert(files.is_latest_checkpoint(Some(c)));
            }
        }
        if more.accepts_checkpoint(input) {
            assert forall|c: ContextCheckpoint| #[trigger]
                files.is_latest_checkpoint(Some(c)) implies input.accepts_specification_of(c)
                && input.accepts_head_of(c) by {
                assert(more.is_latest_checkpoint(Some(c)));
            }
        }
    }
    if files.holds_first(input, input.artifacts@.len() as int) {
        assert forall|i: int| 0 <= i < input.artifacts@.len() implies more.holds(
            #[trigger] input.artifacts@[i],
        ) by {
            assert(files.holds(input.artifacts@[i]));
            let location = crate::artifacts::artifact_location(input.artifacts@[i].hash@);
            assert(files.artifacts.dom().contains(location));
        }
    }
    assert(files.is_latest_checkpoint(context.checkpoint) == more.is_latest_checkpoint(
        context.checkpoint,
    ));
}

/// What a rebuild needs, and nothing more: a core context with the very version and hash that were
/// asked for, a working context, no latest checkpoint or one with the very version, hash and head,
/// and for each artifact a file whose content has the very hash that it is asked for by.
pub proof fn what_a_rebuild_needs(files: ScopeFiles, input: RebuildInput)
    ensures
        files.can_rebuild(input) <==> {
            &&& files.core is Some
            &&& files.core->0.specification_version_id == input.specification_version_id
            &&& files.core->0.specification_hash@ == input.specification_hash@
            &&& files.working is Some
            &&& forall|name: Seq<u8>| #[trigger]
                files.is_latest_name(name) ==> {
                    let latest = files.checkpoints->0[name];
                    &&& latest.specification_version_id == input.specification_version_id
                    &&& latest.specification_hash@ == input.specification_hash@
                    &&& latest.data.workspace_head@ == input.head@
                }
            &&& forall|i: int|
                0 <= i < input.artifacts@.len() ==> {
                    let hash = (#[trigger] input.artifacts@[i]).hash@;
                    let location = seq!["artifacts"@, "sha256"@, hash.skip(7)];
                    &&& files.artifacts.contains_key(location)
                    &&& "sha256:"@ + crate::text::lower_hex(
                        crate::artifacts::sha256_digest(files.artifacts[location])@,
                    ) == hash
                }
        },
{
    assert forall|i: int| 0 <= i < input.artifacts@.len() implies files.holds(
        #[trigger] input.artifacts@[i],
    ) == ({
        let hash = input.artifacts@[i].hash@;
        let location = seq!["artifacts"@, "sha256"@, hash.skip(7)];
        &&& files.artifacts.contains_key(location)
        &&& "sha256:"@ + crate::text::lower_hex(
            crate::artifacts::sha256_digest(files.artifacts[location])@,
        ) == hash
    }) by {
        let hash = input.artifacts@[i].hash@;
        let location = crate::artifacts::artifact_location(hash);
        crate::artifacts::accepted_hashes_have_this_form(hash);
        crate::artifacts::a_content_is_kept_under_its_digest(files.artifacts[location]);
        crate::artifacts::content_hash_is_an_artifact_hash(files.artifacts[location]);
    }
    if files.accepts_checkpoint(input) {
        assert forall|name: Seq<u8>| #[trigger] files.is_latest_name(name) implies ({
            let latest = files.checkpoints->0[name];
            &&& latest.specification_version_id == input.specification_version_id
            &&& latest.specification_hash@ == input.specification_hash@
            &&& latest.data.workspace_head@ == input.head@
        }) by {
            assert(files.is_latest_checkpoint(Some(files.checkpoints->0[name])));
        }
    }
    if forall|name: Seq<u8>| #[trigger]
        files.is_latest_name(name) ==> {
            let latest = files.checkpoints->0[name];
            &&& latest.specification_version_id == input.specification_version_id
            &&& latest.specification_hash@ == input.specification_hash@
            &&& latest.data.workspace_head@ == input.head@
        } {
        assert forall|c: ContextCheckpoint| #[trigger]
            files.is_latest_checkpoint(Some(c)) implies input.accepts_specification_of(c)
            && input.accepts_head_of(c) by {
            let name = choose|name: Seq<u8>| #[trigger]
                files.is_latest_name(name) && files.checkpoints->0[name] == c;
        }
    }
    if files.holds_first(input, input.artifacts@.len() as int) {
        assert forall|i: int| 0 <= i < input.artifacts@.len() implies ({
            let hash = (#[trigger] input.artifacts@[i]).hash@;
            let location = seq!["artifacts"@, "sha256"@, hash.skip(7)];
            &&& files.artifacts.contains_key(location)
            &&& "sha256:"@ + crate::text::lower_hex(
                crate::artifacts::sha256_digest(files.artifacts[location])@,
            ) == hash
        }) by {
            assert(files.holds(input.artifacts@[i]));
        }
    }
}

/// The latest name is one of the names, and all others stand before it; the names are those of the
/// checkpoints that are there, and none where there is no directory of them.
pub proof fn the_latest_name_is_one_of_the_names(files: ScopeFiles, name: Seq<u8>)
    ensures
        files.is_latest_name(name) <==> files.names().contains(name) && forall|other: Seq<u8>|
         #[trigger]
            files.names().contains(other) ==> other == name || crate::checkpoints::before(
                other,
                name,
            ),
        files.names().contains(name) <==> files.checkpoints is Some
            && files.checkpoints->0.contains_key(name),
{
    if files.is_latest_name(name) {
        assert forall|other: Seq<u8>| #[trigger]
            files.names().contains(other) implies other == name || crate::checkpoints::before(
            other,
            name,
        ) by {
            crate::checkpoints::names_are_totally_ordered(other, name);
        }
    }
    if files.names().contains(name) && forall|other: Seq<u8>| #[trigger]
        files.names().contains(other) ==> other == name || crate::checkpoints::before(
            other,
            name,
        ) {
        assert forall|other: Seq<u8>| #[trigger]
            files.names().contains(other) implies !crate::checkpoints::before(name, other) by {
            let pair = seq![name, other];
            crate::checkpoints::the_latest_name_is_behind_all_others(pair, name);
            assert(pair[0] == name && pair[1] == other);
            assert(pair.contains(name));
            assert(crate::checkpoints::is_latest(pair, name));
        }
    }
}

/// A rebuild that cannot be done fails for the first reason that it meets, in the order core
/// context, working context, checkpoint, artifacts.
pub proof fn rebuilds_fail_for_the_first_reason(
    files: ScopeFiles,
    input: RebuildInput,
    error: OrchestratorError,
)
    requires
        files.fails_with(input, error),
        files.core is Some,
    ensures
        files.core->0.specification_version_id != input.specification_version_id
            || files.core->0.specification_hash@ != input.specification_hash@ ==> error is InvalidInput
            && error->InvalidInput_0@ == "active specification mismatch"@,
        files.core->0.specification_version_id == input.specification_version_id
            && files.core->0.specification_hash@ == input.specification_hash@
            && files.working is Some ==> forall|name: Seq<u8>| #[trigger]
            files.is_latest_name(name) ==> {
                let latest = files.checkpoints->0[name];
                if latest.specification_version_id != input.specification_version_id
                    || latest.specification_hash@ != input.specification_hash@ {
                    error is InvalidInput && error->InvalidInput_0@
                        == "checkpoint specification mismatch"@
                } else {
                    latest.data.workspace_head@ != input.head@ ==> error is InvalidInput
                        && error->InvalidInput_0@ == "workspace HEAD mismatch"@
                }
            },
{
    if files.accepts_core(input) && files.working is Some {
        assert forall|name: Seq<u8>| #[trigger] files.is_latest_name(name) implies ({
            let latest = files.checkpoints->0[name];
            if latest.specification_version_id != input.specification_version_id
                || latest.specification_hash@ != input.specification_hash@ {
                error is InvalidInput && error->InvalidInput_0@
                    == "checkpoint specification mismatch"@
            } else {
                latest.data.workspace_head@ != input.head@ ==> error is InvalidInput
                    && error->InvalidInput_0@ == "workspace HEAD mismatch"@
            }
        }) by {
            let latest = files.checkpoints->0[name];
            assert(files.is_latest_checkpoint(Some(latest)));
            if !files.accepts_checkpoint(input) {
                let c = choose|c: ContextCheckpoint| #[trigger]
                    files.is_latest_checkpoint(Some(c)) && if input.accepts_specification_of(c) {
                        error.is_invalid_input("workspace HEAD mismatch"@)
                    } else {
                        error.is_invalid_input("checkpoint specification mismatch"@)
                    };
                lemma_one_latest_checkpoint(files, c, latest);
            }
        }
    }
}

/// The files after a checkpoint was taken hold it under its number, its history in the store, and
/// all else as it was.
pub proof fn what_a_checkpoint_adds(
    files: ScopeFiles,
    raw: Seq<u8>,
    checkpoint: ContextCheckpoint,
    name: Seq<u8>,
    path: Seq<Seq<char>>,
)
    ensures
        ({
            let after = with_checkpoint(files, raw, checkpoint);
            let new = vstd::utf8::encode_utf8(
                crate::context::checkpoint_name(checkpoint.sequence),
            );
            let location = seq![
                "artifacts"@,
                "sha256"@,
                crate::text::lower_hex(crate::artifacts::sha256_digest(raw)@),
            ];
            &&& after.scope == files.scope && after.core == files.core && after.working
                == files.working
            &&& after.checkpoints is Some
            &&& after.checkpoints->0.contains_key(new) && after.checkpoints->0[new] == checkpoint
            &&& name != new ==> (after.checkpoints->0.contains_key(name) <==> files.checkpoints
                is Some && files.checkpoints->0.contains_key(name))
            &&& name != new && files.checkpoints is Some && files.checkpoints->0.contains_key(name)
                ==> after.checkpoints->0[name] == files.checkpoints->0[name]
            &&& after.artifacts.contains_key(path) <==> files.artifacts.contains_key(path) || path
                == location
            &&& files.artifacts.contains_key(path) ==> after.artifacts[path]
                == files.artifacts[path]
            &&& !files.artifacts.contains_key(location) ==> after.artifacts[location] == raw
        }),
{
    crate::artifacts::storing_adds_no_other_file(files.artifacts, raw, path);
}

} // verus!
