//! Content-addressed artifacts, and the questions that context operations put to the disk.
//!
//! An operation on a context repository is a state machine. It asks one question at a time;
//! whoever owns the disk answers it, and the answer moves the operation on until it is finished.

use vstd::prelude::*;

use crate::context::{
    ArtifactRef, ContextCheckpoint, ContextRepository, CoreContext, WorkingContext,
};
use crate::error::OrchestratorError;
use crate::files::StorePath;

verus! {

/// What an operation asks for next.
pub enum ContextRequest<'a> {
    /// Read and parse a core context.
    ReadCore { path: StorePath },
    /// Read and parse a working context.
    ReadWorking { path: StorePath },
    /// Read and parse the checkpoint in the file of this name.
    ReadCheckpoint { directory: StorePath, name: &'a Vec<u8> },
    /// Tell whether something exists there.
    Exists { path: StorePath },
    /// Create the directory and those above it, as far as they are missing.
    CreateDirectory { path: StorePath },
    /// List the names in the directory.
    ListDirectory { path: StorePath },
    /// Read a file.
    ReadFile { path: StorePath },
    /// Write a file as [`ContextRepository::write`] plans it.
    WriteFile { path: StorePath, contents: &'a Vec<u8> },
    /// Write the JSON of a checkpoint as [`ContextRepository::write`] plans it.
    WriteCheckpoint { path: StorePath, checkpoint: &'a ContextCheckpoint },
}

/// A request by what it asks for.
pub enum Ask {
    ReadCore(Seq<Seq<char>>),
    ReadWorking(Seq<Seq<char>>),
    ReadCheckpoint(Seq<Seq<char>>, Seq<u8>),
    Exists(Seq<Seq<char>>),
    CreateDirectory(Seq<Seq<char>>),
    ListDirectory(Seq<Seq<char>>),
    ReadFile(Seq<Seq<char>>),
    WriteFile(Seq<Seq<char>>, Seq<u8>),
    WriteCheckpoint(Seq<Seq<char>>, ContextCheckpoint),
}

impl<'a> View for ContextRequest<'a> {
    type V = Ask;

    open spec fn view(&self) -> Ask {
        match *self {
            ContextRequest::ReadCore { path } => Ask::ReadCore(path@),
            ContextRequest::ReadWorking { path } => Ask::ReadWorking(path@),
            ContextRequest::ReadCheckpoint { directory, name } => Ask::ReadCheckpoint(
                directory@,
                name@,
            ),
            ContextRequest::Exists { path } => Ask::Exists(path@),
            ContextRequest::CreateDirectory { path } => Ask::CreateDirectory(path@),
            ContextRequest::ListDirectory { path } => Ask::ListDirectory(path@),
            ContextRequest::ReadFile { path } => Ask::ReadFile(path@),
            ContextRequest::WriteFile { path, contents } => Ask::WriteFile(path@, contents@),
            ContextRequest::WriteCheckpoint { path, checkpoint } => Ask::WriteCheckpoint(
                path@,
                *checkpoint,
            ),
        }
    }
}

/// The answer to a request.
#[derive(Debug)]
pub enum ContextReply {
    Core(CoreContext),
    Working(WorkingContext),
    Checkpoint(ContextCheckpoint),
    Exists(bool),
    Entries(Vec<Vec<u8>>),
    Bytes(Vec<u8>),
    Done,
    Failed(OrchestratorError),
}

impl Ask {
    /// `reply` is of the kind that answers this; a failure answers everything.
    pub open spec fn is_answered_by(self, reply: ContextReply) -> bool {
        reply is Failed || match self {
            Ask::ReadCore(_) => reply is Core,
            Ask::ReadWorking(_) => reply is Working,
            Ask::ReadCheckpoint(_, _) => reply is Checkpoint,
            Ask::Exists(_) => reply is Exists,
            Ask::CreateDirectory(_) => reply is Done,
            Ask::ListDirectory(_) => reply is Entries,
            Ask::ReadFile(_) => reply is Bytes,
            Ask::WriteFile(_, _) => reply is Done,
            Ask::WriteCheckpoint(_, _) => reply is Done,
        }
    }
}

/// The SHA-256 digest of the bytes.
pub uninterp spec fn sha256_digest(bytes: Seq<u8>) -> [u8; 32];

/// Hashes the bytes through `Sha256::digest` of [`sha2`].
#[verifier::external_body]
fn sha256(bytes: &[u8]) -> (digest: [u8; 32])
    ensures
        digest == sha256_digest(bytes@),
{
    <sha2::Sha256 as sha2::Digest>::digest(bytes).into()
}

/// The name of a digest: `sha256:` and its bytes in lower-case hexadecimal.
pub open spec fn digest_name(digest: Seq<u8>) -> Seq<char> {
    "sha256:"@ + crate::text::lower_hex(digest)
}

/// The name of a content is that of its digest.
pub open spec fn content_hash(bytes: Seq<u8>) -> Seq<char> {
    digest_name(sha256_digest(bytes)@)
}

/// The name of a digest.
pub fn digest_text(digest: &[u8; 32]) -> (r: String)
    ensures
        r@ == digest_name(digest@),
{
    "sha256:".to_owned().concat(crate::text::hex_text(digest.as_slice()).as_str())
}

/// The name of a content.
pub fn hash_text(bytes: &[u8]) -> (r: String)
    ensures
        r@ == content_hash(bytes@),
{
    let digest = sha256(bytes);
    digest_text(&digest)
}

/// `c` is a hexadecimal digit, of either case.
pub open spec fn is_hex_digit(c: char) -> bool {
    '0' <= c <= '9' || 'a' <= c <= 'f' || 'A' <= c <= 'F'
}

/// `hash` has the form of an artifact's hash: `sha256:` and 64 hexadecimal digits.
pub open spec fn is_artifact_hash(hash: Seq<char>) -> bool {
    &&& hash.len() == 71
    &&& hash.take(7) == "sha256:"@
    &&& forall|i: int| 7 <= i < 71 ==> is_hex_digit(#[trigger] hash[i])
}

/// Where the artifact of this hash is kept.
pub open spec fn artifact_location(hash: Seq<char>) -> Seq<Seq<char>> {
    seq!["artifacts"@, "sha256"@, hash.skip(7)]
}

/// The range names no line: lines are counted from one, and the last is not before the first.
pub open spec fn is_bad_range(lines: Option<(u64, u64)>) -> bool {
    lines matches Some(range) && (range.0 == 0 || range.1 < range.0)
}

/// `reference` refers to these bytes.
pub open spec fn refers_to(
    reference: ArtifactRef,
    kind: Seq<char>,
    summary: Seq<char>,
    bytes: Seq<u8>,
    lines: Option<(u64, u64)>,
) -> bool {
    &&& reference.hash@ == content_hash(bytes)
    &&& reference.kind@ == kind
    &&& reference.summary@ == summary
    &&& reference.line_range == lines
    &&& reference.byte_len == bytes.len()
}

/// Storing an artifact: its file is written unless it exists.
#[derive(Debug)]
pub enum PutArtifact {
    Checking { path: StorePath, bytes: Vec<u8>, reference: ArtifactRef },
    Writing { path: StorePath, bytes: Vec<u8>, reference: ArtifactRef },
    Finished(Result<ArtifactRef, OrchestratorError>),
}

impl PutArtifact {
    /// The storing of these bytes begins so: refused for a bad line range, and else by asking
    /// for the file of the content.
    pub open spec fn begins(
        self,
        kind: Seq<char>,
        summary: Seq<char>,
        bytes: Seq<u8>,
        lines: Option<(u64, u64)>,
    ) -> bool {
        if is_bad_range(lines) {
            self matches PutArtifact::Finished(Err(e)) && e.is_invalid_input("invalid line range"@)
        } else {
            &&& self matches PutArtifact::Checking { path, bytes: b, reference }
            &&& path@ == artifact_location(content_hash(bytes))
            &&& b@ == bytes
            &&& refers_to(reference, kind, summary, bytes, lines)
        }
    }

    /// What the operation asks for.
    pub open spec fn asks(self) -> Option<Ask> {
        match self {
            PutArtifact::Checking { path, bytes, reference } => Some(Ask::Exists(path@)),
            PutArtifact::Writing { path, bytes, reference } => Some(
                Ask::WriteFile(path@, bytes@),
            ),
            PutArtifact::Finished(_) => None,
        }
    }

    /// Where `reply` takes the operation: an artifact that exists is not written again.
    pub open spec fn after(self, reply: ContextReply) -> PutArtifact {
        match (self, reply) {
            (_, ContextReply::Failed(e)) => PutArtifact::Finished(Err(e)),
            (
                PutArtifact::Checking { path, bytes, reference },
                ContextReply::Exists(false),
            ) => PutArtifact::Writing { path, bytes, reference },
            (PutArtifact::Checking { path, bytes, reference }, _) => PutArtifact::Finished(
                Ok(reference),
            ),
            (PutArtifact::Writing { path, bytes, reference }, _) => PutArtifact::Finished(
                Ok(reference),
            ),
            (PutArtifact::Finished(result), _) => PutArtifact::Finished(result),
        }
    }

    /// Begins to store these bytes.
    pub fn begin(
        kind: String,
        summary: String,
        bytes: Vec<u8>,
        lines: Option<(u64, u64)>,
    ) -> (r: PutArtifact)
        ensures
            r.begins(kind@, summary@, bytes@, lines),
            r is Finished <==> (lines matches Some(range) && (range.0 == 0 || range.1 < range.0)),
            r matches PutArtifact::Finished(result) ==> result matches Err(e) && e is InvalidInput
                && e->InvalidInput_0@ == "invalid line range"@,
            !(r is Writing),
            r matches PutArtifact::Checking { path, bytes: b, reference } ==> {
                let hex = crate::text::lower_hex(sha256_digest(bytes@)@);
                &&& path@ == seq!["artifacts"@, "sha256"@, hex]
                &&& b@ == bytes@
                &&& reference.hash@ == "sha256:"@ + hex
                &&& reference.kind@ == kind@
                &&& reference.summary@ == summary@
                &&& reference.line_range == lines
                &&& reference.byte_len == bytes@.len()
            },
    {
        proof {
            a_content_is_kept_under_its_digest(bytes@);
        }
        if let Some((first, last)) = lines {
            if first == 0 || last < first {
                return PutArtifact::Finished(
                    Err(OrchestratorError::invalid_input("invalid line range")),
                );
            }
        }
        let hash = hash_text(bytes.as_slice());
        proof {
            content_hash_is_an_artifact_hash(bytes@);
        }
        match artifact_path(hash.as_str()) {
            Err(e) => PutArtifact::Finished(Err(e)),
            Ok(path) => {
                let byte_len = bytes.len() as u64;
                PutArtifact::Checking {
                    path,
                    bytes,
                    reference: ArtifactRef { hash, kind, summary, line_range: lines, byte_len },
                }
            },
        }
    }

    /// What the operation asks for; nothing, once it is finished.
    pub fn request(&self) -> (r: Option<ContextRequest<'_>>)
        ensures
            match r {
                Some(request) => self.asks() == Some(request@),
                None => self.asks() is None,
            },
    {
        match self {
            PutArtifact::Checking { path, bytes: _, reference: _ } => Some(
                ContextRequest::Exists { path: path.duplicate() },
            ),
            PutArtifact::Writing { path, bytes, reference: _ } => Some(
                ContextRequest::WriteFile { path: path.duplicate(), contents: bytes },
            ),
            PutArtifact::Finished(_) => None,
        }
    }

    /// Moves the operation on by the answer to what it asked for.
    pub fn advance(self, reply: ContextReply) -> (r: PutArtifact)
        requires
            self.asks() matches Some(ask) && ask.is_answered_by(reply),
        ensures
            r == self.after(reply),
    {
        match (self, reply) {
            (_, ContextReply::Failed(e)) => PutArtifact::Finished(Err(e)),
            (
                PutArtifact::Checking { path, bytes, reference },
                ContextReply::Exists(false),
            ) => PutArtifact::Writing { path, bytes, reference },
            (PutArtifact::Checking { path: _, bytes: _, reference }, _) => PutArtifact::Finished(
                Ok(reference),
            ),
            (PutArtifact::Writing { path: _, bytes: _, reference }, _) => PutArtifact::Finished(
                Ok(reference),
            ),
            (PutArtifact::Finished(result), _) => PutArtifact::Finished(result),
        }
    }
}

/// Reading an artifact: what is read counts only if it has the hash.
#[derive(Debug)]
pub enum ReadArtifact {
    Reading { path: StorePath, hash: String },
    Finished(Result<Vec<u8>, OrchestratorError>),
}

impl ReadArtifact {
    /// The reading of the artifact of this hash begins so: refused for a hash that is none,
    /// and else by asking for the file of the content.
    pub open spec fn begins(self, hash: Seq<char>) -> bool {
        if is_artifact_hash(hash) {
            self matches ReadArtifact::Reading { path, hash: h } && path@ == artifact_location(hash)
                && h@ == hash
        } else {
            self matches ReadArtifact::Finished(Err(e)) && e.is_invalid_input(
                "invalid artifact hash"@,
            )
        }
    }

    /// What the operation asks for.
    pub open spec fn asks(self) -> Option<Ask> {
        match self {
            ReadArtifact::Reading { path, hash } => Some(Ask::ReadFile(path@)),
            ReadArtifact::Finished(_) => None,
        }
    }

    /// The reading of `bytes` ends so: with them, if the hash computed of them is the one that
    /// was asked for.
    pub open spec fn is_settled(
        self,
        hash: Seq<char>,
        computed: Seq<char>,
        bytes: Vec<u8>,
    ) -> bool {
        if computed == hash {
            self == ReadArtifact::Finished(Ok(bytes))
        } else {
            self matches ReadArtifact::Finished(Err(e)) && e.is_invalid_input(
                "artifact hash mismatch"@,
            )
        }
    }

    /// `next` is where `reply` takes the operation: what was read, if it has the hash.
    pub open spec fn leads_to(self, reply: ContextReply, next: ReadArtifact) -> bool {
        match (self, reply) {
            (_, ContextReply::Failed(e)) => next == ReadArtifact::Finished(Err(e)),
            (
                ReadArtifact::Reading { path, hash },
                ContextReply::Bytes(bytes),
            ) => next.is_settled(hash@, content_hash(bytes@), bytes),
            _ => next == self,
        }
    }

    /// Begins to read the artifact.
    pub fn begin(artifact: &ArtifactRef) -> (r: ReadArtifact)
        ensures
            r.begins(artifact.hash@),
    {
        match artifact_path(artifact.hash.as_str()) {
            Err(e) => ReadArtifact::Finished(Err(e)),
            Ok(path) => ReadArtifact::Reading { path, hash: artifact.hash.clone() },
        }
    }

    /// What the operation asks for; nothing, once it is finished.
    pub fn request(&self) -> (r: Option<ContextRequest<'_>>)
        ensures
            match r {
                Some(request) => self.asks() == Some(request@),
                None => self.asks() is None,
            },
    {
        match self {
            ReadArtifact::Reading { path, hash: _ } => Some(
                ContextRequest::ReadFile { path: path.duplicate() },
            ),
            ReadArtifact::Finished(_) => None,
        }
    }

    /// Ends the reading of `bytes`, given the hash computed of them.
    pub fn settle(hash: &String, computed: &String, bytes: Vec<u8>) -> (r: ReadArtifact)
        ensures
            r.is_settled(hash@, computed@, bytes),
            computed@ == hash@ ==> r == ReadArtifact::Finished(Ok(bytes)),
            computed@ != hash@ ==> (r matches ReadArtifact::Finished(Err(e)) && e is InvalidInput
                && e->InvalidInput_0@ == "artifact hash mismatch"@),
    {
        if *computed == *hash {
            ReadArtifact::Finished(Ok(bytes))
        } else {
            ReadArtifact::Finished(Err(OrchestratorError::invalid_input("artifact hash mismatch")))
        }
    }

    /// Moves the operation on by the answer to what it asked for.
    pub fn advance(self, reply: ContextReply) -> (r: ReadArtifact)
        requires
            self.asks() matches Some(ask) && ask.is_answered_by(reply),
        ensures
            self.leads_to(reply, r),
    {
        match (self, reply) {
            (_, ContextReply::Failed(e)) => ReadArtifact::Finished(Err(e)),
            (ReadArtifact::Reading { path: _, hash }, ContextReply::Bytes(bytes)) => {
                let computed = hash_text(bytes.as_slice());
                ReadArtifact::settle(&hash, &computed, bytes)
            },
            (unfinished, _) => unfinished,
        }
    }
}

/// Where the artifact of this hash is kept.
pub fn artifact_path(hash: &str) -> (r: Result<StorePath, OrchestratorError>)
    ensures
        r is Ok <==> is_artifact_hash(hash@),
        r matches Ok(path) ==> path@ == artifact_location(hash@),
        r matches Err(e) ==> e.is_invalid_input("invalid artifact hash"@),
        r is Ok <==> hash@.len() == 71 && hash@.take(7) == "sha256:"@ && forall|i: int|
            7 <= i < 71 ==> ('0' <= #[trigger] hash@[i] <= '9' || 'a' <= hash@[i] <= 'f' || 'A'
                <= hash@[i] <= 'F'),
        r matches Ok(path) ==> path@ == seq!["artifacts"@, "sha256"@, hash@.skip(7)],
        r matches Err(e) ==> e is InvalidInput && e->InvalidInput_0@ == "invalid artifact hash"@,
{
    let chars = crate::text::char_vec(hash);
    if chars.len() != 71 {
        return Err(OrchestratorError::invalid_input("invalid artifact hash"));
    }
    let prefix = hash.substring_char(0, 7);
    assert(prefix@ =~= hash@.take(7));
    if !crate::text::same_text(prefix, "sha256:") {
        return Err(OrchestratorError::invalid_input("invalid artifact hash"));
    }
    let mut i: usize = 7;
    while i < 71
        invariant
            chars@ == hash@,
            chars.len() == 71,
            7 <= i <= 71,
            forall|j: int| 7 <= j < i ==> is_hex_digit(#[trigger] hash@[j]),
        decreases 71 - i,
    {
        let c = chars[i];
        if !(('0' <= c && c <= '9') || ('a' <= c && c <= 'f') || ('A' <= c && c <= 'F')) {
            assert(!is_hex_digit(hash@[i as int]));
            return Err(OrchestratorError::invalid_input("invalid artifact hash"));
        }
        i = i + 1;
    }
    let digits = hash.substring_char(7, 71);
    assert(digits@ =~= hash@.skip(7));
    let r = StorePath::root().join("artifacts").join("sha256").join(digits);
    assert(r@ =~= artifact_location(hash@));
    Ok(r)
}

impl ContextRepository {
    /// Where the artifact of this hash is kept.
    pub fn artifact_path(&self, hash: &str) -> (r: Result<StorePath, OrchestratorError>)
        ensures
            r is Ok <==> is_artifact_hash(hash@),
            r matches Ok(path) ==> path@ == artifact_location(hash@),
            r matches Err(e) ==> e.is_invalid_input("invalid artifact hash"@),
    {
        artifact_path(hash)
    }

    /// Begins to store these bytes.
    pub fn put_artifact(
        &self,
        kind: String,
        summary: String,
        bytes: Vec<u8>,
        lines: Option<(u64, u64)>,
    ) -> (r: PutArtifact)
        ensures
            r.begins(kind@, summary@, bytes@, lines),
    {
        PutArtifact::begin(kind, summary, bytes, lines)
    }

    /// Begins to read the artifact.
    pub fn read_artifact(&self, artifact: &ArtifactRef) -> (r: ReadArtifact)
        ensures
            r.begins(artifact.hash@),
    {
        ReadArtifact::begin(artifact)
    }
}

/// The hash of a content has the form of an artifact's hash, so that nothing is stored under a
/// name that a read would refuse.
pub proof fn content_hash_is_an_artifact_hash(bytes: Seq<u8>)
    ensures
        is_artifact_hash(content_hash(bytes)),
{
    reveal_strlit("sha256:");
    let digest = sha256_digest(bytes)@;
    let hex = crate::text::lower_hex(digest);
    let hash = content_hash(bytes);
    assert(digest.len() == 32);
    assert(hash.len() == 71);
    assert(hash.take(7) =~= "sha256:"@);
    assert forall|i: int| 7 <= i < 71 implies is_hex_digit(#[trigger] hash[i]) by {
        assert(hash[i] == hex[i - 7]);
    }
}

/// What storing the bytes makes of the files of a repository.
pub open spec fn stored(
    files: Map<Seq<Seq<char>>, Seq<u8>>,
    bytes: Seq<u8>,
) -> Map<Seq<Seq<char>>, Seq<u8>> {
    let location = artifact_location(content_hash(bytes));
    if files.contains_key(location) {
        files
    } else {
        files.insert(location, bytes)
    }
}

/// Storing asks whether the content's file exists, writes the bytes there if it does not, and
/// ends with a reference to them; so it makes of the files what [`stored`] says.
pub proof fn putting_writes_what_is_missing(
    put: PutArtifact,
    kind: Seq<char>,
    summary: Seq<char>,
    bytes: Seq<u8>,
    lines: Option<(u64, u64)>,
)
    requires
        put.begins(kind, summary, bytes, lines),
        !is_bad_range(lines),
    ensures
        ({
            let location = artifact_location(content_hash(bytes));
            let writing = put.after(ContextReply::Exists(false));
            &&& put.asks() == Some(Ask::Exists(location))
            &&& put.after(ContextReply::Exists(true)) matches PutArtifact::Finished(Ok(reference))
                && refers_to(reference, kind, summary, bytes, lines)
            &&& put.after(ContextReply::Exists(true)) matches PutArtifact::Finished(Ok(reference))
                && reference.line_range == lines && reference.kind@ == kind && reference.summary@
                == summary && reference.byte_len == bytes.len() && reference.hash@ == "sha256:"@
                + crate::text::lower_hex(sha256_digest(bytes)@)
            &&& writing.asks() == Some(Ask::WriteFile(location, bytes))
            &&& writing.after(ContextReply::Done) matches PutArtifact::Finished(Ok(reference))
                && refers_to(reference, kind, summary, bytes, lines)
            &&& writing.after(ContextReply::Done) matches PutArtifact::Finished(Ok(reference))
                && reference.line_range == lines && reference.kind@ == kind && reference.summary@
                == summary && reference.byte_len == bytes.len() && reference.hash@ == "sha256:"@
                + crate::text::lower_hex(sha256_digest(bytes)@)
            &&& location == seq![
                "artifacts"@,
                "sha256"@,
                crate::text::lower_hex(sha256_digest(bytes)@),
            ]
        }),
{
    a_content_is_kept_under_its_digest(bytes);
}

/// Every artifact file holds a content of the hash that it is named after.
pub open spec fn is_intact(files: Map<Seq<Seq<char>>, Seq<u8>>) -> bool {
    forall|bytes: Seq<u8>|
        files.contains_key(#[trigger] artifact_location(content_hash(bytes))) ==> content_hash(
            files[artifact_location(content_hash(bytes))],
        ) == content_hash(bytes)
}

/// Artifacts of different hashes are kept in different files.
pub proof fn artifact_locations_are_distinct(a: Seq<char>, b: Seq<char>)
    requires
        is_artifact_hash(a),
        is_artifact_hash(b),
        artifact_location(a) == artifact_location(b),
    ensures
        a == b,
{
    assert(artifact_location(a)[2] == artifact_location(b)[2]);
    assert(a =~= a.take(7) + a.skip(7));
    assert(b =~= b.take(7) + b.skip(7));
}

/// Storing keeps the artifacts intact, and changes no file that was there.
pub proof fn storing_keeps_artifacts_intact(files: Map<Seq<Seq<char>>, Seq<u8>>, bytes: Seq<u8>)
    requires
        is_intact(files),
    ensures
        is_intact(stored(files, bytes)),
        files.submap_of(stored(files, bytes)),
{
    let after = stored(files, bytes);
    assert forall|other: Seq<u8>|
        after.contains_key(#[trigger] artifact_location(content_hash(other))) implies content_hash(
        after[artifact_location(content_hash(other))],
    ) == content_hash(other) by {
        content_hash_is_an_artifact_hash(bytes);
        content_hash_is_an_artifact_hash(other);
        if artifact_location(content_hash(other)) == artifact_location(content_hash(bytes)) {
            artifact_locations_are_distinct(content_hash(other), content_hash(bytes));
        }
    }
}

/// What was put is what is read back: where the content had no file yet, the very bytes; where
/// it had one, what that file holds, if it still has the hash, and else the refusal of it.
pub proof fn what_was_put_is_read_back(
    reference: ArtifactRef,
    kind: Seq<char>,
    summary: Seq<char>,
    bytes: Seq<u8>,
    lines: Option<(u64, u64)>,
    files: Map<Seq<Seq<char>>, Seq<u8>>,
    read: ReadArtifact,
    found: Vec<u8>,
    next: ReadArtifact,
)
    requires
        refers_to(reference, kind, summary, bytes, lines),
        read.begins(reference.hash@),
        found@ == stored(files, bytes)[artifact_location(reference.hash@)],
        read.leads_to(ContextReply::Bytes(found), next),
    ensures
        read.asks() == Some(Ask::ReadFile(artifact_location(content_hash(bytes)))),
        stored(files, bytes).contains_key(artifact_location(content_hash(bytes))),
        !files.contains_key(artifact_location(content_hash(bytes))) ==> found@ == bytes && next
            == ReadArtifact::Finished(Ok(found)),
        is_intact(files) ==> next == ReadArtifact::Finished(Ok(found)),
        content_hash(found@) != content_hash(bytes) ==> (next matches ReadArtifact::Finished(
            Err(e),
        ) && e.is_invalid_input("artifact hash mismatch"@)),
{
    content_hash_is_an_artifact_hash(bytes);
    if is_intact(files) {
        storing_keeps_artifacts_intact(files, bytes);
    }
}

/// A content is named by the digits of its digest, behind `sha256:`, and its file by the digits
/// alone.
pub proof fn a_content_is_kept_under_its_digest(bytes: Seq<u8>)
    ensures
        content_hash(bytes) == "sha256:"@ + crate::text::lower_hex(sha256_digest(bytes)@),
        digest_name(sha256_digest(bytes)@) == "sha256:"@ + crate::text::lower_hex(
            sha256_digest(bytes)@,
        ),
        artifact_location(content_hash(bytes)) == seq![
            "artifacts"@,
            "sha256"@,
            crate::text::lower_hex(sha256_digest(bytes)@),
        ],
{
    reveal_strlit("sha256:");
    assert(content_hash(bytes).skip(7) =~= crate::text::lower_hex(sha256_digest(bytes)@));
}

/// A hash is accepted exactly where it is `sha256:` and 64 hexadecimal digits of either case, and
/// its artifact's file is named by these digits as they are.
pub proof fn accepted_hashes_have_this_form(hash: Seq<char>)
    ensures
        is_artifact_hash(hash) <==> hash.len() == 71 && hash.take(7) == "sha256:"@ && forall|i: int|
            7 <= i < 71 ==> ('0' <= #[trigger] hash[i] <= '9' || 'a' <= hash[i] <= 'f' || 'A'
                <= hash[i] <= 'F'),
        artifact_location(hash) == seq!["artifacts"@, "sha256"@, hash.skip(7)],
{
    if is_artifact_hash(hash) {
        assert forall|i: int| 7 <= i < 71 implies ('0' <= #[trigger] hash[i] <= '9' || 'a'
            <= hash[i] <= 'f' || 'A' <= hash[i] <= 'F') by {
            assert(is_hex_digit(hash[i]));
        }
    }
}

/// Where a content goes into the store, a reference to it holds its hash, kind, summary, line
/// range and length, each as given; lines are counted from one and do not run backwards.
pub proof fn references_hold_what_was_given(
    reference: ArtifactRef,
    kind: Seq<char>,
    summary: Seq<char>,
    bytes: Seq<u8>,
    lines: Option<(u64, u64)>,
)
    ensures
        refers_to(reference, kind, summary, bytes, lines) <==> {
            &&& reference.hash@ == "sha256:"@ + crate::text::lower_hex(sha256_digest(bytes)@)
            &&& reference.kind@ == kind
            &&& reference.summary@ == summary
            &&& reference.line_range == lines
            &&& reference.byte_len == bytes.len()
        },
        is_bad_range(lines) <==> (lines matches Some(range) && (range.0 == 0 || range.1
            < range.0)),
{
}

/// Storing begins with a look for the content's file, and is refused exactly for a bad range of
/// lines.
pub proof fn storing_begins_with_a_look(
    put: PutArtifact,
    kind: Seq<char>,
    summary: Seq<char>,
    bytes: Seq<u8>,
    lines: Option<(u64, u64)>,
)
    requires
        put.begins(kind, summary, bytes, lines),
    ensures
        (lines matches Some(range) && (range.0 == 0 || range.1 < range.0)) ==> (
        put matches PutArtifact::Finished(Err(e)) && e is InvalidInput && e->InvalidInput_0@
            == "invalid line range"@),
        !(lines matches Some(range) && (range.0 == 0 || range.1 < range.0)) ==> (
        put matches PutArtifact::Checking { path, bytes: b, reference } && b@ == bytes && path@
            == seq!["artifacts"@, "sha256"@, crate::text::lower_hex(sha256_digest(bytes)@)]
            && reference.line_range == lines && reference.kind@ == kind && reference.summary@
            == summary && reference.byte_len == bytes.len() && reference.hash@ == "sha256:"@
            + crate::text::lower_hex(sha256_digest(bytes)@)),
{
    a_content_is_kept_under_its_digest(bytes);
}

/// Storing goes on by the answers: a content that is there is not written, one that is not is, as
/// it is and where it was looked for; the reference stays the same throughout, and a failure ends
/// the storing with that failure.
pub proof fn storing_goes_on_by_the_answers(
    path: StorePath,
    bytes: Vec<u8>,
    reference: ArtifactRef,
    error: OrchestratorError,
)
    ensures
        ({
            let checking = PutArtifact::Checking { path, bytes, reference };
            let writing = PutArtifact::Writing { path, bytes, reference };
            &&& checking.asks() == Some(Ask::Exists(path@))
            &&& writing.asks() == Some(Ask::WriteFile(path@, bytes@))
            &&& checking.after(ContextReply::Exists(true)) == PutArtifact::Finished(Ok(reference))
            &&& checking.after(ContextReply::Exists(false)) == writing
            &&& writing.after(ContextReply::Done) == PutArtifact::Finished(Ok(reference))
            &&& checking.after(ContextReply::Failed(error)) == PutArtifact::Finished(Err(error))
            &&& writing.after(ContextReply::Failed(error)) == PutArtifact::Finished(Err(error))
        }),
        forall|result: Result<ArtifactRef, OrchestratorError>|
            (#[trigger] PutArtifact::Finished(result).asks()) is None,
{
}

/// A read is refused for a hash of another form, and else asks for the file of the digits. What is
/// read counts exactly where its own hash is the one that was asked for, and is then given as it
/// is; a failure ends the read with that failure.
pub proof fn reads_are_checked_against_the_hash(
    begun: ReadArtifact,
    hash: Seq<char>,
    found: Vec<u8>,
    error: OrchestratorError,
    next: ReadArtifact,
    failed: ReadArtifact,
)
    requires
        begun.begins(hash),
        begun is Reading ==> begun.leads_to(ContextReply::Bytes(found), next),
        begun is Reading ==> begun.leads_to(ContextReply::Failed(error), failed),
    ensures
        begun is Reading <==> hash.len() == 71 && hash.take(7) == "sha256:"@ && forall|i: int|
            7 <= i < 71 ==> ('0' <= #[trigger] hash[i] <= '9' || 'a' <= hash[i] <= 'f' || 'A'
                <= hash[i] <= 'F'),
        begun is Finished ==> (begun matches ReadArtifact::Finished(Err(e)) && e is InvalidInput
            && e->InvalidInput_0@ == "invalid artifact hash"@),
        begun is Reading ==> begun.asks() == Some(
            Ask::ReadFile(seq!["artifacts"@, "sha256"@, hash.skip(7)]),
        ),
        begun is Reading && "sha256:"@ + crate::text::lower_hex(sha256_digest(found@)@) == hash
            ==> next == ReadArtifact::Finished(Ok(found)),
        begun is Reading && "sha256:"@ + crate::text::lower_hex(sha256_digest(found@)@) != hash
            ==> (next matches ReadArtifact::Finished(Err(e)) && e is InvalidInput
            && e->InvalidInput_0@ == "artifact hash mismatch"@),
        begun is Reading ==> failed == ReadArtifact::Finished(Err(error)),
{
    accepted_hashes_have_this_form(hash);
}

/// A content that is stored is in its file, a file that was there keeps what it held, and there is
/// no other new file.
pub proof fn storing_adds_no_other_file(
    files: Map<Seq<Seq<char>>, Seq<u8>>,
    bytes: Seq<u8>,
    path: Seq<Seq<char>>,
)
    ensures
        ({
            let after = stored(files, bytes);
            let location = seq![
                "artifacts"@,
                "sha256"@,
                crate::text::lower_hex(sha256_digest(bytes)@),
            ];
            &&& after.contains_key(path) <==> files.contains_key(path) || path == location
            &&& files.contains_key(path) ==> after[path] == files[path]
            &&& !files.contains_key(location) ==> after[location] == bytes
        }),
{
    a_content_is_kept_under_its_digest(bytes);
}

/// A request asks for what it holds, and each kind of request has its own kinds of answers: a
/// failure, or what was asked for.
pub proof fn requests_ask_for_what_they_hold(
    path: StorePath,
    name: Vec<u8>,
    contents: Vec<u8>,
    checkpoint: ContextCheckpoint,
    reply: ContextReply,
)
    ensures
        (ContextRequest::ReadCore { path })@ == Ask::ReadCore(path@),
        (ContextRequest::ReadWorking { path })@ == Ask::ReadWorking(path@),
        (ContextRequest::ReadCheckpoint { directory: path, name: &name })@ == Ask::ReadCheckpoint(
            path@,
            name@,
        ),
        (ContextRequest::Exists { path })@ == Ask::Exists(path@),
        (ContextRequest::CreateDirectory { path })@ == Ask::CreateDirectory(path@),
        (ContextRequest::ListDirectory { path })@ == Ask::ListDirectory(path@),
        (ContextRequest::ReadFile { path })@ == Ask::ReadFile(path@),
        (ContextRequest::WriteFile { path, contents: &contents })@ == Ask::WriteFile(
            path@,
            contents@,
        ),
        (ContextRequest::WriteCheckpoint { path, checkpoint: &checkpoint })@
            == Ask::WriteCheckpoint(path@, checkpoint),
        Ask::ReadCore(path@).is_answered_by(reply) <==> reply is Core || reply is Failed,
        Ask::ReadWorking(path@).is_answered_by(reply) <==> reply is Working || reply is Failed,
        Ask::ReadCheckpoint(path@, name@).is_answered_by(reply) <==> reply is Checkpoint
            || reply is Failed,
        Ask::Exists(path@).is_answered_by(reply) <==> reply is Exists || reply is Failed,
        Ask::CreateDirectory(path@).is_answered_by(reply) <==> reply is Done || reply is Failed,
        Ask::ListDirectory(path@).is_answered_by(reply) <==> reply is Entries || reply is Failed,
        Ask::ReadFile(path@).is_answered_by(reply) <==> reply is Bytes || reply is Failed,
        Ask::WriteFile(path@, contents@).is_answered_by(reply) <==> reply is Done
            || reply is Failed,
        Ask::WriteCheckpoint(path@, checkpoint).is_answered_by(reply) <==> reply is Done
            || reply is Failed,
{
}

} // verus!
