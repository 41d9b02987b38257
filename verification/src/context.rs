//! Durable, isolated agent contexts: what is kept of each, and where.

use vstd::prelude::*;

use crate::error::OrchestratorError;
use crate::files::{FileStep, StorePath};
use crate::ids::EntityId;

verus! {

/// Whose context it is.
#[derive(Clone, Copy, Debug, PartialEq, Eq, Structural)]
pub enum ContextScope {
    Requirement(EntityId),
    Lead(EntityId),
    Worker(EntityId),
}

/// This section is always retained verbatim during compaction.
#[derive(Clone, Debug, PartialEq, Eq)]
pub struct CoreContext {
    pub specification_version_id: EntityId,
    pub specification_hash: String,
    pub acceptance_criteria: Vec<String>,
    pub architecture_decisions: Vec<String>,
    pub prohibitions: Vec<String>,
    pub task_boundaries: Vec<String>,
    pub branch: String,
    pub workspace_path: std::path::PathBuf,
}

/// Refers to stored bytes by their hash.
#[derive(Clone, Debug, PartialEq, Eq)]
pub struct ArtifactRef {
    pub hash: String,
    pub kind: String,
    pub summary: String,
    pub line_range: Option<(u64, u64)>,
    pub byte_len: u64,
}

#[derive(Clone, Debug, Default, PartialEq, Eq)]
pub struct WorkingContext {
    pub current_task: String,
    pub notes: Vec<String>,
    pub artifacts: Vec<ArtifactRef>,
}

#[derive(Clone, Debug, PartialEq, Eq)]
pub struct CheckpointData {
    pub completed_work: Vec<String>,
    pub modified_files: Vec<std::path::PathBuf>,
    pub key_decisions: Vec<String>,
    pub failed_attempts: Vec<String>,
    pub open_questions: Vec<String>,
    pub next_steps: Vec<String>,
    pub git_status: String,
    pub workspace_head: String,
}

#[derive(Clone, Debug, PartialEq, Eq)]
pub struct ContextCheckpoint {
    pub sequence: u64,
    pub scope: ContextScope,
    pub specification_version_id: EntityId,
    pub specification_hash: String,
    pub raw_history: ArtifactRef,
    pub data: CheckpointData,
}

#[derive(Clone, Debug, PartialEq, Eq)]
pub struct RebuiltContext {
    pub core: CoreContext,
    pub checkpoint: Option<ContextCheckpoint>,
    pub current_task: String,
    pub artifacts: Vec<ArtifactRef>,
    pub git_diff: ArtifactRef,
}

impl ContextScope {
    /// The kind of scope, as it names a directory.
    pub open spec fn kind(self) -> Seq<char> {
        match self {
            ContextScope::Requirement(_) => "requirement"@,
            ContextScope::Lead(_) => "lead"@,
            ContextScope::Worker(_) => "worker"@,
        }
    }

    pub open spec fn id(self) -> EntityId {
        match self {
            ContextScope::Requirement(id) => id,
            ContextScope::Lead(id) => id,
            ContextScope::Worker(id) => id,
        }
    }

    /// Where the scope stands among the contexts.
    pub open spec fn location(self) -> Seq<Seq<char>> {
        seq![self.kind(), crate::ids::hyphenated(self.id().value)]
    }

    /// Where the scope stands among the contexts.
    pub fn path(&self) -> (r: StorePath)
        ensures
            r@ == self.location(),
    {
        let (kind, id) = match self {
            ContextScope::Requirement(id) => ("requirement", id),
            ContextScope::Lead(id) => ("lead", id),
            ContextScope::Worker(id) => ("worker", id),
        };
        let r = StorePath::root().join(kind).join(id.text().as_str());
        assert(r@ =~= self.location());
        r
    }
}

/// The directory of a scope's context.
pub open spec fn scope_directory(scope: ContextScope) -> Seq<Seq<char>> {
    seq!["contexts"@] + scope.location()
}

/// Where a scope's core context is kept.
pub open spec fn core_location(scope: ContextScope) -> Seq<Seq<char>> {
    scope_directory(scope).push("core.json"@)
}

/// Where a scope's working context is kept.
pub open spec fn working_location(scope: ContextScope) -> Seq<Seq<char>> {
    scope_directory(scope).push("working.json"@)
}

/// The directory of a scope's checkpoints.
pub open spec fn checkpoints_directory(scope: ContextScope) -> Seq<Seq<char>> {
    scope_directory(scope).push("checkpoints"@)
}

/// The file name of the checkpoint with this sequence number: the number in twenty digits.
pub open spec fn checkpoint_name(sequence: u64) -> Seq<char> {
    crate::text::padded_decimal(sequence as nat, 20) + ".json"@
}

/// Where the checkpoint with this sequence number is kept.
pub open spec fn checkpoint_location(scope: ContextScope, sequence: u64) -> Seq<Seq<char>> {
    checkpoints_directory(scope).push(checkpoint_name(sequence))
}

/// The name of the file through which a write with this mark goes.
pub open spec fn temporary_name(mark: EntityId) -> Seq<char> {
    "."@ + crate::ids::hyphenated(mark.value) + ".tmp"@
}

/// The steps put `contents` at `location` by way of a temporary file beside it, after its
/// directory is created.
pub open spec fn writes_at(
    steps: Seq<FileStep>,
    location: Seq<Seq<char>>,
    mark: EntityId,
    contents: Seq<u8>,
) -> bool {
    let directory = location.drop_last();
    let temporary = directory.push(temporary_name(mark));
    &&& steps.len() == 3
    &&& steps[0].creates_directory(directory)
    &&& steps[1].writes(temporary, contents)
    &&& steps[2].renames(temporary, location)
}

/// The directory of a scope's context.
pub fn scope_path(scope: &ContextScope) -> (r: StorePath)
    ensures
        r@ == scope_directory(*scope),
{
    let mut r = StorePath::root().join("contexts");
    let mut below = scope.path();
    r.segments.append(&mut below.segments);
    assert(r@ =~= scope_directory(*scope));
    r
}

/// File store whose APIs always require a scope; no complete history is shared by default.
#[derive(Clone, Debug)]
pub struct ContextRepository {
    pub root: std::path::PathBuf,
}

impl ContextRepository {
    /// A repository below `root`, and the directory that has to be created there for it.
    pub fn new(root: std::path::PathBuf) -> (r: (ContextRepository, StorePath))
        ensures
            r.0.root == root,
            r.1@ == seq!["artifacts"@, "sha256"@],
    {
        let directory = StorePath::root().join("artifacts").join("sha256");
        assert(directory@ =~= seq!["artifacts"@, "sha256"@]);
        (ContextRepository { root }, directory)
    }

    /// The directory of the scope's context.
    pub fn dir(&self, scope: &ContextScope) -> (r: StorePath)
        ensures
            r@ == scope_directory(*scope),
    {
        scope_path(scope)
    }

    /// Plans how `bytes` are put at `path`, by way of a temporary file that carries `mark`.
    pub fn write_marked(&self, path: &StorePath, bytes: Vec<u8>, mark: EntityId) -> (r: Result<
        Vec<FileStep>,
        OrchestratorError,
    >)
        ensures
            r is Ok <==> path@.len() > 0,
            r matches Err(e) ==> e.is_invalid_input("path has no parent"@),
            r matches Ok(steps) ==> writes_at(steps@, path@, mark, bytes@),
            r matches Ok(steps) ==> {
                let directory = path@.drop_last();
                let temporary = directory.push(
                    "."@ + crate::ids::hyphenated(mark.value) + ".tmp"@,
                );
                &&& steps@.len() == 3
                &&& steps@[0] matches FileStep::CreateDirectory { path: p } && p@ == directory
                &&& steps@[1] matches FileStep::WriteFile { path: p, contents } && p@ == temporary
                    && contents@ == bytes@
                &&& steps@[2] matches FileStep::RenameFile { from, to } && from@ == temporary && to@
                    == path@
            },
    {
        match path.parent() {
            None => Err(OrchestratorError::invalid_input("path has no parent")),
            Some(directory) => {
                let name = ".".to_owned().concat(mark.text().as_str()).concat(".tmp");
                let temporary = directory.join(name.as_str());
                let mut steps: Vec<FileStep> = Vec::new();
                steps.push(FileStep::CreateDirectory { path: directory });
                steps.push(FileStep::WriteFile { path: temporary.duplicate(), contents: bytes });
                steps.push(FileStep::RenameFile { from: temporary, to: path.duplicate() });
                Ok(steps)
            },
        }
    }

    /// Plans how `bytes` are put at `path`, by way of a temporary file that carries a random
    /// mark.
    pub fn write(&self, path: &StorePath, bytes: Vec<u8>) -> (r: Result<
        Vec<FileStep>,
        OrchestratorError,
    >)
        ensures
            r is Ok <==> path@.len() > 0,
            r matches Err(e) ==> e.is_invalid_input("path has no parent"@),
            r matches Ok(steps) ==> exists|mark: EntityId| #[trigger]
                writes_at(steps@, path@, mark, bytes@) && crate::ids::is_version_four(mark.value),
    {
        let mark = EntityId::random();
        self.write_marked(path, bytes, mark)
    }

    /// Plans how the scope's core context, given as its JSON, is saved.
    pub fn save_core(&self, scope: &ContextScope, json: Vec<u8>) -> (r: Result<
        Vec<FileStep>,
        OrchestratorError,
    >)
        ensures
            r matches Ok(steps) && exists|mark: EntityId| #[trigger]
                writes_at(steps@, core_location(*scope), mark, json@)
                    && crate::ids::is_version_four(mark.value),
    {
        let path = self.dir(scope).join("core.json");
        assert(path@ == core_location(*scope));
        self.write(&path, json)
    }

    /// Plans how the scope's working context, given as its JSON, is saved.
    pub fn save_working(&self, scope: &ContextScope, json: Vec<u8>) -> (r: Result<
        Vec<FileStep>,
        OrchestratorError,
    >)
        ensures
            r matches Ok(steps) && exists|mark: EntityId| #[trigger]
                writes_at(steps@, working_location(*scope), mark, json@)
                    && crate::ids::is_version_four(mark.value),
    {
        let path = self.dir(scope).join("working.json");
        assert(path@ == working_location(*scope));
        self.write(&path, json)
    }
}

/// `path` is at or below `directory`.
pub open spec fn is_within(path: Seq<Seq<char>>, directory: Seq<Seq<char>>) -> bool {
    directory.len() <= path.len() && path.take(directory.len() as int) == directory
}

/// Contexts are isolated: what is within the directory of one scope is within the directory of
/// no other, nor among the artifacts.
pub proof fn scopes_do_not_overlap(a: ContextScope, b: ContextScope, path: Seq<Seq<char>>)
    requires
        is_within(path, scope_directory(a)),
    ensures
        is_within(path, scope_directory(b)) ==> a == b,
        !is_within(path, seq!["artifacts"@]),
{
    reveal_strlit("contexts");
    reveal_strlit("artifacts");
    reveal_strlit("requirement");
    reveal_strlit("lead");
    reveal_strlit("worker");
    assert("contexts"@[0] == 'c');
    assert("artifacts"@[0] == 'a');
    assert("requirement"@[0] == 'r');
    assert("lead"@[0] == 'l');
    assert("worker"@[0] == 'w');
    let p = path.take(3);
    assert(p[0] == path[0] && p[1] == path[1] && p[2] == path[2]);
    assert(scope_directory(a)[0] == "contexts"@);
    if is_within(path, scope_directory(b)) {
        assert(scope_directory(a)[1] == a.kind() && scope_directory(b)[1] == b.kind());
        assert(scope_directory(a)[2] == crate::ids::hyphenated(a.id().value));
        assert(scope_directory(b)[2] == crate::ids::hyphenated(b.id().value));
        crate::ids::hyphenated_is_injective(a.id().value, b.id().value);
    }
    if is_within(path, seq!["artifacts"@]) {
        assert(path.take(1)[0] == path[0]);
        assert(seq!["artifacts"@][0] == "artifacts"@);
    }
}

/// Saving is atomic, and touches nothing but its own file: a file whose name does not start with
/// a dot is what it was until the last step puts all of the new contents in its place, and every
/// other such file stays as it was.
pub proof fn saving_is_atomic(
    steps: Seq<FileStep>,
    location: Seq<Seq<char>>,
    mark: EntityId,
    contents: Seq<u8>,
    files: Map<Seq<Seq<char>>, Seq<u8>>,
    done: int,
    other: Seq<Seq<char>>,
)
    requires
        writes_at(steps, location, mark, contents),
        location.len() > 0,
        location.last().len() > 0 && location.last()[0] != '.',
        0 <= done <= 3,
        other.len() > 0 && other.last().len() > 0 && other.last()[0] != '.',
    ensures
        ({
            let now = crate::files::performed(steps.take(done), files);
            if done == 3 && other == location {
                now.contains_key(other) && now[other] == contents
            } else {
                &&& now.contains_key(other) == files.contains_key(other)
                &&& files.contains_key(other) ==> now[other] == files[other]
            }
        }),
{
    let temporary = location.drop_last().push(temporary_name(mark));
    reveal_strlit(".");
    assert(temporary_name(mark)[0] == '.');
    assert(temporary.last()[0] == '.');
    assert(crate::files::is_replacement(steps, temporary, location, contents));
    crate::files::replacement_is_atomic(steps, temporary, location, contents, files, done);
    let now = crate::files::performed(steps.take(done), files);
    if done < 3 {
        assert(now.remove(temporary).contains_key(other) == now.contains_key(other));
        assert(files.remove(temporary).contains_key(other) == files.contains_key(other));
        if files.contains_key(other) {
            assert(now.remove(temporary)[other] == now[other]);
            assert(files.remove(temporary)[other] == files[other]);
        }
    }
}

/// Each scope's context has its place: below `contexts`, in a directory named after the kind of
/// scope, in one named after its identifier, the core and working context in a file each, and the
/// checkpoints by their numbers in a directory of theirs.
pub proof fn contexts_have_their_places(id: EntityId, sequence: u64)
    ensures
        scope_directory(ContextScope::Requirement(id)) == seq![
            "contexts"@,
            "requirement"@,
            crate::ids::hyphenated(id.value),
        ],
        scope_directory(ContextScope::Lead(id)) == seq![
            "contexts"@,
            "lead"@,
            crate::ids::hyphenated(id.value),
        ],
        scope_directory(ContextScope::Worker(id)) == seq![
            "contexts"@,
            "worker"@,
            crate::ids::hyphenated(id.value),
        ],
        forall|scope: ContextScope| #[trigger]
            core_location(scope) == scope_directory(scope).push("core.json"@),
        forall|scope: ContextScope| #[trigger]
            working_location(scope) == scope_directory(scope).push("working.json"@),
        forall|scope: ContextScope| #[trigger]
            checkpoints_directory(scope) == scope_directory(scope).push("checkpoints"@),
        forall|scope: ContextScope| #[trigger]
            checkpoint_location(scope, sequence) == scope_directory(scope).push(
                "checkpoints"@,
            ).push(checkpoint_name(sequence)),
{
    assert(scope_directory(ContextScope::Requirement(id)) =~= seq![
        "contexts"@,
        "requirement"@,
        crate::ids::hyphenated(id.value),
    ]);
    assert(scope_directory(ContextScope::Lead(id)) =~= seq![
        "contexts"@,
        "lead"@,
        crate::ids::hyphenated(id.value),
    ]);
    assert(scope_directory(ContextScope::Worker(id)) =~= seq![
        "contexts"@,
        "worker"@,
        crate::ids::hyphenated(id.value),
    ]);
}

/// A checkpoint's file name is twenty digits, which read back as its number, and `.json`.
pub proof fn checkpoint_names_read_back(sequence: u64)
    ensures
        checkpoint_name(sequence).len() == 25,
        checkpoint_name(sequence).skip(20) == ".json"@,
        crate::text::are_digits(checkpoint_name(sequence).take(20), 10),
        crate::text::number_of(checkpoint_name(sequence).take(20), 10) == sequence,
{
    reveal_strlit(".json");
    let digits = crate::text::padded_decimal(sequence as nat, 20);
    crate::text::padded_decimal_reads_back(sequence as nat, 20);
    assert(vstd::arithmetic::power::pow(10, 20) == 100000000000000000000) by {
        reveal_with_fuel(vstd::arithmetic::power::pow, 21);
    }
    assert(checkpoint_name(sequence).skip(20) =~= ".json"@);
    assert(checkpoint_name(sequence).take(20) =~= digits);
}

/// A temporary file's name starts with a dot, ends in `.tmp`, and has the text of its mark between
/// them, so that different marks have different names.
pub proof fn temporary_names_carry_their_mark(mark: EntityId, other: EntityId)
    ensures
        temporary_name(mark) == "."@ + crate::ids::hyphenated(mark.value) + ".tmp"@,
        temporary_name(mark) == temporary_name(other) ==> mark == other,
{
    reveal_strlit(".");
    if temporary_name(mark) == temporary_name(other) {
        assert(temporary_name(mark).subrange(1, 37) =~= crate::ids::hyphenated(mark.value));
        assert(temporary_name(other).subrange(1, 37) =~= crate::ids::hyphenated(other.value));
        crate::ids::hyphenated_is_injective(mark.value, other.value);
    }
}

/// A write is three steps: the directory of the location is created, all of the contents go into a
/// temporary file in it, and that file is renamed to the location.
pub proof fn a_write_is_three_steps(
    steps: Seq<FileStep>,
    location: Seq<Seq<char>>,
    mark: EntityId,
    bytes: Seq<u8>,
)
    requires
        writes_at(steps, location, mark, bytes),
    ensures
        steps.len() == 3,
        steps[0] matches FileStep::CreateDirectory { path } && path@ == location.drop_last(),
        steps[1] matches FileStep::WriteFile { path, contents } && contents@ == bytes && path@
            == location.drop_last().push("."@ + crate::ids::hyphenated(mark.value) + ".tmp"@),
        steps[2] matches FileStep::RenameFile { from, to } && to@ == location && from@
            == location.drop_last().push("."@ + crate::ids::hyphenated(mark.value) + ".tmp"@),
{
}

/// A path is within a directory exactly where it starts with the names that lead there.
pub proof fn what_is_within_starts_alike(path: Seq<Seq<char>>, directory: Seq<Seq<char>>)
    ensures
        is_within(path, directory) <==> directory.len() <= path.len() && forall|i: int|
            0 <= i < directory.len() ==> #[trigger] path[i] == directory[i],
{
    if directory.len() <= path.len() {
        let head = path.take(directory.len() as int);
        if forall|i: int| 0 <= i < directory.len() ==> #[trigger] path[i] == directory[i] {
            assert(head =~= directory);
        }
        if head == directory {
            assert forall|i: int| 0 <= i < directory.len() implies #[trigger] path[i]
                == directory[i] by {
                assert(head[i] == path[i]);
            }
        }
    }
}

} // verus!
