//! Context repositories, driven on a disk in memory.

use std::collections::{BTreeMap, BTreeSet};
use std::path::PathBuf;

use agentharbor::artifacts::{artifact_path, digest_text, hash_text};
use agentharbor::checkpoints::{latest_entry, precedes};
use agentharbor::context::scope_path;
use agentharbor::{
    ArtifactRef, CheckpointData, ContextCheckpoint, ContextReply, ContextRepository,
    ContextRequest, ContextScope, CoreContext, EntityId, FileStep, OrchestratorError, PutArtifact,
    ReadArtifact, Rebuild, RebuiltContext, StorePath, TakeCheckpoint, WorkingContext,
};

type Location = Vec<String>;

/// Holds files by their locations, and beside the bytes of contexts the values they stand for.
#[derive(Default)]
struct Disk {
    files: BTreeMap<Location, Vec<u8>>,
    directories: BTreeSet<Location>,
    cores: BTreeMap<Location, CoreContext>,
    workings: BTreeMap<Location, WorkingContext>,
    checkpoints: BTreeMap<Location, ContextCheckpoint>,
}

fn not_found() -> OrchestratorError {
    OrchestratorError::Io(std::io::Error::from(std::io::ErrorKind::NotFound))
}

impl Disk {
    fn create_directory(&mut self, path: &[String]) {
        for count in 0..=path.len() {
            self.directories.insert(path[..count].to_vec());
        }
    }

    fn perform(&mut self, steps: Vec<FileStep>) {
        for step in steps {
            match step {
                FileStep::CreateDirectory { path } => self.create_directory(&path.segments),
                FileStep::WriteFile { path, contents } => {
                    let parent = path.segments[..path.segments.len() - 1].to_vec();
                    assert!(self.directories.contains(&parent));
                    self.files.insert(path.segments, contents);
                }
                FileStep::CopyFile { from, to } => {
                    let contents = self.files[&from.segments].clone();
                    self.files.insert(to.segments, contents);
                }
                FileStep::SyncFile { .. } => {}
                FileStep::RenameFile { from, to } => {
                    let contents = self.files.remove(&from.segments).unwrap();
                    self.files.insert(to.segments, contents);
                }
            }
        }
    }

    fn names_in(&self, directory: &[String]) -> Vec<Vec<u8>> {
        self.files
            .keys()
            .filter(|path| path.len() == directory.len() + 1 && path.starts_with(directory))
            .map(|path| path[directory.len()].clone().into_bytes())
            .rev()
            .collect()
    }

    fn answer(&mut self, repository: &ContextRepository, request: ContextRequest<'_>) -> ContextReply {
        match request {
            ContextRequest::ReadCore { path } => match self.cores.get(&path.segments) {
                Some(core) => ContextReply::Core(core.clone()),
                None => ContextReply::Failed(not_found()),
            },
            ContextRequest::ReadWorking { path } => match self.workings.get(&path.segments) {
                Some(working) => ContextReply::Working(working.clone()),
                None => ContextReply::Failed(not_found()),
            },
            ContextRequest::ReadCheckpoint { directory, name } => {
                let path = directory.join(&String::from_utf8(name.clone()).unwrap());
                match self.checkpoints.get(&path.segments) {
                    Some(checkpoint) => ContextReply::Checkpoint(checkpoint.clone()),
                    None => ContextReply::Failed(not_found()),
                }
            }
            ContextRequest::Exists { path } => ContextReply::Exists(
                self.files.contains_key(&path.segments)
                    || self.directories.contains(&path.segments),
            ),
            ContextRequest::CreateDirectory { path } => {
                self.create_directory(&path.segments);
                ContextReply::Done
            }
            ContextRequest::ListDirectory { path } => {
                ContextReply::Entries(self.names_in(&path.segments))
            }
            ContextRequest::ReadFile { path } => match self.files.get(&path.segments) {
                Some(contents) => ContextReply::Bytes(contents.clone()),
                None => ContextReply::Failed(not_found()),
            },
            ContextRequest::WriteFile { path, contents } => {
                let steps = repository.write(&path, contents.clone()).unwrap();
                self.perform(steps);
                ContextReply::Done
            }
            ContextRequest::WriteCheckpoint { path, checkpoint } => {
                let steps = repository.write(&path, format!("{checkpoint:?}").into_bytes()).unwrap();
                self.perform(steps);
                self.checkpoints.insert(path.segments, checkpoint.clone());
                ContextReply::Done
            }
        }
    }
}

struct Fixture {
    repository: ContextRepository,
    disk: Disk,
}

impl Fixture {
    fn new() -> Fixture {
        let (repository, directory) = ContextRepository::new(PathBuf::from("/data"));
        let mut disk = Disk::default();
        disk.create_directory(&directory.segments);
        Fixture { repository, disk }
    }

    fn save_core(&mut self, scope: &ContextScope, core: &CoreContext) {
        let steps = self.repository.save_core(scope, format!("{core:?}").into_bytes()).unwrap();
        let path = scope_path(scope).join("core.json");
        self.disk.perform(steps);
        assert!(self.disk.files.contains_key(&path.segments));
        self.disk.cores.insert(path.segments, core.clone());
    }

    fn save_working(&mut self, scope: &ContextScope, working: &WorkingContext) {
        let steps =
            self.repository.save_working(scope, format!("{working:?}").into_bytes()).unwrap();
        let path = scope_path(scope).join("working.json");
        self.disk.perform(steps);
        assert!(self.disk.files.contains_key(&path.segments));
        self.disk.workings.insert(path.segments, working.clone());
    }

    fn put_artifact(
        &mut self,
        kind: &str,
        summary: &str,
        bytes: &[u8],
        lines: Option<(u64, u64)>,
    ) -> Result<ArtifactRef, OrchestratorError> {
        let mut operation = self.repository.put_artifact(
            kind.to_owned(),
            summary.to_owned(),
            bytes.to_vec(),
            lines,
        );
        while let Some(request) = operation.request() {
            let reply = self.disk.answer(&self.repository, request);
            operation = operation.advance(reply);
        }
        match operation {
            PutArtifact::Finished(result) => result,
            _ => unreachable!(),
        }
    }

    fn read_artifact(&mut self, artifact: &ArtifactRef) -> Result<Vec<u8>, OrchestratorError> {
        let mut operation = self.repository.read_artifact(artifact);
        while let Some(request) = operation.request() {
            let reply = self.disk.answer(&self.repository, request);
            operation = operation.advance(reply);
        }
        match operation {
            ReadArtifact::Finished(result) => result,
            _ => unreachable!(),
        }
    }

    fn checkpoint(
        &mut self,
        scope: &ContextScope,
        data: CheckpointData,
        raw: &[u8],
    ) -> Result<ContextCheckpoint, OrchestratorError> {
        let mut operation = self.repository.checkpoint(scope, data, raw.to_vec());
        while let Some(request) = operation.request() {
            let reply = self.disk.answer(&self.repository, request);
            operation = operation.advance(reply);
        }
        match operation {
            TakeCheckpoint::Finished(result) => result,
            _ => unreachable!(),
        }
    }

    fn rebuild(
        &mut self,
        scope: &ContextScope,
        spec_id: EntityId,
        spec_hash: &str,
        head: &str,
        diff: &[u8],
        artifacts: &[ArtifactRef],
    ) -> Result<RebuiltContext, OrchestratorError> {
        let mut operation = self.repository.rebuild(
            scope,
            spec_id,
            spec_hash.to_owned(),
            head.to_owned(),
            diff.to_vec(),
            artifacts.to_vec(),
        );
        while let Some(request) = operation.request() {
            let reply = self.disk.answer(&self.repository, request);
            operation = operation.advance(reply);
        }
        match operation {
            Rebuild::Finished(result) => result,
            _ => unreachable!(),
        }
    }
}

fn core_context() -> CoreContext {
    CoreContext {
        specification_version_id: EntityId::random(),
        specification_hash: "hash".to_owned(),
        acceptance_criteria: vec![],
        architecture_decisions: vec![],
        prohibitions: vec![],
        task_boundaries: vec![],
        branch: "work".to_owned(),
        workspace_path: PathBuf::from("/data"),
    }
}

fn working() -> WorkingContext {
    WorkingContext { current_task: "task".to_owned(), ..Default::default() }
}

fn data(head: &str) -> CheckpointData {
    CheckpointData {
        completed_work: vec![],
        modified_files: vec![],
        key_decisions: vec![],
        failed_attempts: vec![],
        open_questions: vec![],
        next_steps: vec![],
        git_status: "clean".to_owned(),
        workspace_head: head.to_owned(),
    }
}

fn refusal<T>(result: Result<T, OrchestratorError>) -> String {
    match result {
        Err(OrchestratorError::InvalidInput(message)) => message,
        Err(other) => panic!("another error: {}", other.message()),
        Ok(_) => panic!("accepted"),
    }
}

#[test]
fn raw_history_survives_and_head_is_checked() {
    let mut r = Fixture::new();
    let s = ContextScope::Worker(EntityId::random());
    let c = core_context();
    r.save_core(&s, &c);
    r.save_working(&s, &working());
    let cp = r.checkpoint(&s, data("abc"), b"full history").unwrap();
    assert_eq!(r.read_artifact(&cp.raw_history).unwrap(), b"full history");
    assert!(r
        .rebuild(&s, c.specification_version_id, &c.specification_hash, "wrong", b"", &[])
        .is_err());
    assert!(r
        .rebuild(&s, c.specification_version_id, &c.specification_hash, "abc", b"diff", &[])
        .is_ok())
}

#[test]
fn known_contents_have_their_known_hashes() {
    assert_eq!(
        hash_text(b""),
        "sha256:e3b0c44298fc1c149afbf4c8996fb92427ae41e4649b934ca495991b7852b855"
    );
    assert_eq!(
        hash_text(b"abc"),
        "sha256:ba7816bf8f01cfea414140de5dae2223b00361a396177a9cb410ff61f20015ad"
    );
    assert_eq!(
        hash_text(b"hello world"),
        "sha256:b94d27b9934d3e08a52e52d7da7dabfac484efe37a5380ee9088f7ace2efcde9"
    );
    let mut digest = [0u8; 32];
    digest[0] = 0xab;
    assert_eq!(digest_text(&digest), format!("sha256:ab{}", "0".repeat(62)));
}

#[test]
fn artifacts_are_kept_by_their_content() {
    let mut r = Fixture::new();
    let reference = r.put_artifact("log", "build log", b"abc", Some((1, 9))).unwrap();
    assert_eq!(
        reference,
        ArtifactRef {
            hash: "sha256:ba7816bf8f01cfea414140de5dae2223b00361a396177a9cb410ff61f20015ad"
                .to_owned(),
            kind: "log".to_owned(),
            summary: "build log".to_owned(),
            line_range: Some((1, 9)),
            byte_len: 3,
        }
    );
    let location = vec![
        "artifacts".to_owned(),
        "sha256".to_owned(),
        "ba7816bf8f01cfea414140de5dae2223b00361a396177a9cb410ff61f20015ad".to_owned(),
    ];
    assert_eq!(r.disk.files[&location], b"abc");
    assert_eq!(r.disk.files.len(), 1);
    assert_eq!(r.read_artifact(&reference).unwrap(), b"abc");
}

#[test]
fn an_artifact_that_exists_is_not_written_again() {
    let mut r = Fixture::new();
    let first = r.put_artifact("a", "first", b"same", None).unwrap();
    let path = artifact_path(&first.hash).unwrap();
    r.disk.files.insert(path.segments.clone(), b"tampered".to_vec());
    let second = r.put_artifact("b", "second", b"same", None).unwrap();
    assert_eq!(second.hash, first.hash);
    assert_eq!(second.summary, "second");
    assert_eq!(r.disk.files[&path.segments], b"tampered");
    assert_eq!(refusal(r.read_artifact(&second)), "artifact hash mismatch");
}

#[test]
fn line_ranges_count_from_one_and_do_not_run_backwards() {
    let mut r = Fixture::new();
    for bad in [(0, 0), (0, 5), (5, 4)] {
        assert_eq!(refusal(r.put_artifact("k", "s", b"x", Some(bad))), "invalid line range");
    }
    assert!(r.disk.files.is_empty());
    for good in [(1, 1), (3, 8)] {
        assert!(r.put_artifact("k", "s", b"x", Some(good)).is_ok());
    }
}

#[test]
fn hashes_of_another_form_are_refused() {
    let digits = "ba7816bf8f01cfea414140de5dae2223b00361a396177a9cb410ff61f20015ad";
    let r = Fixture::new();
    assert_eq!(
        r.repository.artifact_path(&format!("sha256:{digits}")).unwrap(),
        StorePath::root().join("artifacts").join("sha256").join(digits)
    );
    assert!(artifact_path(&format!("sha256:{}", digits.to_uppercase())).is_ok());
    for bad in [
        digits.to_owned(),
        format!("sha512:{digits}"),
        format!("SHA256:{digits}"),
        format!("sha256:{}", &digits[1..]),
        format!("sha256:{digits}0"),
        format!("sha256:{}g", &digits[1..]),
        format!("sha256:{}/", &digits[1..]),
        format!("sha256:{}é", &digits[2..]),
        "sha256:".to_owned(),
        String::new(),
    ] {
        assert_eq!(refusal(artifact_path(&bad)), "invalid artifact hash", "{bad}");
    }
}

#[test]
fn an_upper_case_hash_is_not_that_of_its_content() {
    let mut r = Fixture::new();
    let mut reference = r.put_artifact("k", "s", b"abc", None).unwrap();
    let path = artifact_path(&reference.hash).unwrap();
    reference.hash = format!("sha256:{}", reference.hash[7..].to_uppercase());
    let upper = artifact_path(&reference.hash).unwrap();
    assert_ne!(path, upper);
    r.disk.files.insert(upper.segments, b"abc".to_vec());
    assert_eq!(refusal(r.read_artifact(&reference)), "artifact hash mismatch");
}

#[test]
fn a_missing_artifact_cannot_be_read() {
    let mut r = Fixture::new();
    let reference = r.put_artifact("k", "s", b"abc", None).unwrap();
    r.disk.files.clear();
    assert!(matches!(r.read_artifact(&reference), Err(OrchestratorError::Io(_))));
}

#[test]
fn settling_compares_the_hashes() {
    let hash = hash_text(b"x");
    assert!(matches!(
        ReadArtifact::settle(&hash, &hash, b"x".to_vec()),
        ReadArtifact::Finished(Ok(bytes)) if bytes == b"x"
    ));
    assert!(matches!(
        ReadArtifact::settle(&hash, &hash_text(b"y"), b"y".to_vec()),
        ReadArtifact::Finished(Err(OrchestratorError::InvalidInput(_)))
    ));
}

#[test]
fn scopes_have_directories_of_their_own() {
    let id = EntityId { value: 0x0123_4567_89ab_cdef_0011_2233_4455_6677 };
    let text = "01234567-89ab-cdef-0011-223344556677";
    let r = Fixture::new();
    for (scope, kind) in [
        (ContextScope::Requirement(id), "requirement"),
        (ContextScope::Lead(id), "lead"),
        (ContextScope::Worker(id), "worker"),
    ] {
        assert_eq!(scope.path(), StorePath::root().join(kind).join(text));
        assert_eq!(
            r.repository.dir(&scope),
            StorePath::root().join("contexts").join(kind).join(text)
        );
    }
}

#[test]
fn writes_go_through_a_marked_temporary_file() {
    let r = Fixture::new();
    assert_eq!(r.repository.root, PathBuf::from("/data"));
    let path = StorePath::root().join("a").join("b.json");
    let mark = EntityId { value: 1 };
    let temporary =
        StorePath::root().join("a").join(".00000000-0000-0000-0000-000000000001.tmp");
    assert_eq!(
        r.repository.write_marked(&path, b"x".to_vec(), mark).unwrap(),
        vec![
            FileStep::CreateDirectory { path: StorePath::root().join("a") },
            FileStep::WriteFile { path: temporary.duplicate(), contents: b"x".to_vec() },
            FileStep::RenameFile { from: temporary, to: path.duplicate() },
        ]
    );
    assert_eq!(
        refusal(r.repository.write(&StorePath::root(), b"x".to_vec())),
        "path has no parent"
    );
}

#[test]
fn checkpoints_are_numbered_and_carry_the_specification() {
    let mut r = Fixture::new();
    let s = ContextScope::Lead(EntityId::random());
    let c = core_context();
    r.save_core(&s, &c);
    let first = r.checkpoint(&s, data("one"), b"raw 1").unwrap();
    let second = r.checkpoint(&s, data("two"), b"raw 2").unwrap();
    assert_eq!((first.sequence, second.sequence), (1, 2));
    assert_eq!(second.scope, s);
    assert_eq!(second.specification_version_id, c.specification_version_id);
    assert_eq!(second.specification_hash, "hash");
    assert_eq!(second.data, data("two"));
    assert_eq!(second.raw_history.kind, "raw_chat_history");
    assert_eq!(second.raw_history.summary, "uncompressed pre-checkpoint history");
    assert_eq!(second.raw_history.byte_len, 5);
    let directory = scope_path(&s).join("checkpoints");
    assert_eq!(
        r.disk.checkpoints[&directory.join("00000000000000000002.json").segments],
        second
    );
    assert_eq!(r.disk.names_in(&directory.segments).len(), 2);
}

#[test]
fn a_scope_without_a_core_has_no_checkpoint() {
    let mut r = Fixture::new();
    let s = ContextScope::Worker(EntityId::random());
    assert!(matches!(r.checkpoint(&s, data("abc"), b"raw"), Err(OrchestratorError::Io(_))));
    assert!(r.disk.files.is_empty());
}

#[test]
fn a_rebuild_gives_back_what_the_scope_keeps() {
    let mut r = Fixture::new();
    let s = ContextScope::Requirement(EntityId::random());
    let c = core_context();
    r.save_core(&s, &c);
    r.save_working(&s, &working());
    let kept = r.put_artifact("log", "l", b"log", None).unwrap();
    for head in ["a", "b", "abc"] {
        r.checkpoint(&s, data(head), head.as_bytes()).unwrap();
    }
    let rebuilt = r
        .rebuild(&s, c.specification_version_id, "hash", "abc", b"diff", &[kept.clone()])
        .unwrap();
    assert_eq!(rebuilt.core, c);
    assert_eq!(rebuilt.current_task, "task");
    assert_eq!(rebuilt.artifacts, vec![kept]);
    assert_eq!(rebuilt.checkpoint.unwrap().sequence, 3);
    assert_eq!(rebuilt.git_diff.kind, "git_diff");
    assert_eq!(rebuilt.git_diff.summary, "latest Git diff");
    assert_eq!(r.read_artifact(&rebuilt.git_diff).unwrap(), b"diff");
}

#[test]
fn a_rebuild_needs_no_checkpoint() {
    let mut r = Fixture::new();
    let s = ContextScope::Worker(EntityId::random());
    let c = core_context();
    r.save_core(&s, &c);
    r.save_working(&s, &working());
    let rebuilt = r.rebuild(&s, c.specification_version_id, "hash", "any", b"", &[]).unwrap();
    assert_eq!(rebuilt.checkpoint, None);
    r.disk.create_directory(&scope_path(&s).join("checkpoints").segments);
    let rebuilt = r.rebuild(&s, c.specification_version_id, "hash", "any", b"", &[]).unwrap();
    assert_eq!(rebuilt.checkpoint, None);
}

#[test]
fn a_rebuild_fails_for_the_first_reason_that_it_meets() {
    let mut r = Fixture::new();
    let s = ContextScope::Worker(EntityId::random());
    let c = core_context();
    let id = c.specification_version_id;
    assert!(matches!(
        r.rebuild(&s, id, "hash", "abc", b"", &[]),
        Err(OrchestratorError::Io(_))
    ));
    r.save_core(&s, &c);
    assert_eq!(
        refusal(r.rebuild(&s, id, "other", "abc", b"", &[])),
        "active specification mismatch"
    );
    assert_eq!(
        refusal(r.rebuild(&s, EntityId::random(), "hash", "abc", b"", &[])),
        "active specification mismatch"
    );
    assert!(matches!(
        r.rebuild(&s, id, "hash", "abc", b"", &[]),
        Err(OrchestratorError::Io(_))
    ));
    r.save_working(&s, &working());
    r.checkpoint(&s, data("abc"), b"raw").unwrap();
    assert_eq!(
        refusal(r.rebuild(&s, id, "hash", "wrong", b"", &[])),
        "workspace HEAD mismatch"
    );
    let mut changed = c.clone();
    changed.specification_hash = "next".to_owned();
    r.save_core(&s, &changed);
    assert_eq!(
        refusal(r.rebuild(&s, id, "next", "wrong", b"", &[])),
        "checkpoint specification mismatch"
    );
}

#[test]
fn a_rebuild_verifies_every_artifact() {
    let mut r = Fixture::new();
    let s = ContextScope::Worker(EntityId::random());
    let c = core_context();
    let id = c.specification_version_id;
    r.save_core(&s, &c);
    r.save_working(&s, &working());
    let good = r.put_artifact("k", "s", b"good", None).unwrap();
    let torn = r.put_artifact("k", "s", b"torn", None).unwrap();
    let path = artifact_path(&torn.hash).unwrap();
    r.disk.files.insert(path.segments, b"to".to_vec());
    assert_eq!(
        refusal(r.rebuild(&s, id, "hash", "", b"diff", &[good.clone(), torn])),
        "artifact hash mismatch"
    );
    let mut strange = good.clone();
    strange.hash = "md5:00".to_owned();
    assert_eq!(
        refusal(r.rebuild(&s, id, "hash", "", b"diff", &[good.clone(), strange])),
        "invalid artifact hash"
    );
    let mut missing = good.clone();
    missing.hash = hash_text(b"never stored");
    assert!(matches!(
        r.rebuild(&s, id, "hash", "", b"diff", &[missing]),
        Err(OrchestratorError::Io(_))
    ));
    assert!(!r.disk.files.contains_key(&artifact_path(&hash_text(b"diff")).unwrap().segments));
    assert!(r.rebuild(&s, id, "hash", "", b"diff", &[good.clone(), good]).is_ok());
}

#[test]
fn scopes_do_not_see_one_another() {
    let mut r = Fixture::new();
    let id = EntityId::random();
    let worker = ContextScope::Worker(id);
    let lead = ContextScope::Lead(id);
    let c = core_context();
    r.save_core(&worker, &c);
    r.save_working(&worker, &working());
    r.checkpoint(&worker, data("abc"), b"worker history").unwrap();
    assert!(r.rebuild(&lead, c.specification_version_id, "hash", "abc", b"", &[]).is_err());
    r.save_core(&lead, &c);
    r.save_working(&lead, &working());
    let rebuilt =
        r.rebuild(&lead, c.specification_version_id, "hash", "other", b"", &[]).unwrap();
    assert_eq!(rebuilt.checkpoint, None);
}

#[test]
fn a_rebuild_changes_no_file_but_the_diff() {
    let mut r = Fixture::new();
    let s = ContextScope::Worker(EntityId::random());
    let c = core_context();
    r.save_core(&s, &c);
    r.save_working(&s, &working());
    r.checkpoint(&s, data("abc"), b"raw").unwrap();
    let before = r.disk.files.clone();
    r.rebuild(&s, c.specification_version_id, "hash", "abc", b"diff", &[]).unwrap();
    let mut after = r.disk.files.clone();
    after.remove(&artifact_path(&hash_text(b"diff")).unwrap().segments).unwrap();
    assert_eq!(after, before);
}

#[test]
fn a_checkpoint_keeps_core_and_working_context() {
    let mut r = Fixture::new();
    let s = ContextScope::Worker(EntityId::random());
    r.save_core(&s, &core_context());
    r.save_working(&s, &working());
    let before = r.disk.files.clone();
    r.checkpoint(&s, data("abc"), b"raw").unwrap();
    for (path, contents) in before {
        assert_eq!(r.disk.files[&path], contents);
    }
}

#[test]
fn a_leftover_temporary_file_only_moves_the_numbering_on() {
    let mut r = Fixture::new();
    let s = ContextScope::Worker(EntityId::random());
    let c = core_context();
    r.save_core(&s, &c);
    r.save_working(&s, &working());
    r.checkpoint(&s, data("one"), b"raw").unwrap();
    let leftover = scope_path(&s).join("checkpoints").join(".x.tmp");
    r.disk.files.insert(leftover.segments, vec![]);
    assert_eq!(r.checkpoint(&s, data("two"), b"raw").unwrap().sequence, 3);
    let rebuilt = r.rebuild(&s, c.specification_version_id, "hash", "two", b"", &[]).unwrap();
    assert_eq!(rebuilt.checkpoint.unwrap().sequence, 3);
}

#[test]
fn names_are_ordered_byte_by_byte() {
    let names: Vec<Vec<u8>> = ["", "a", "ab", "b", "00", "01", ".x", "\u{e9}"]
        .iter()
        .map(|name| name.as_bytes().to_vec())
        .collect();
    for a in &names {
        for b in &names {
            assert_eq!(precedes(a, b), a < b);
        }
    }
}

#[test]
fn the_latest_name_stands_last() {
    let names = |list: &[&str]| -> Vec<Vec<u8>> {
        list.iter().map(|name| name.as_bytes().to_vec()).collect()
    };
    assert_eq!(latest_entry(&vec![]), None);
    assert_eq!(latest_entry(&names(&["a"])), Some(0));
    assert_eq!(latest_entry(&names(&["02", "10", "09", ".t"])), Some(1));
    assert_eq!(latest_entry(&names(&["3", "10", "2"])), Some(0));
}

#[test]
fn many_checkpoints_are_all_kept() {
    let mut r = Fixture::new();
    let s = ContextScope::Worker(EntityId::random());
    let other = ContextScope::Lead(EntityId::random());
    let c = core_context();
    r.save_core(&s, &c);
    r.save_working(&s, &working());
    r.save_core(&other, &c);
    let mut taken = vec![];
    for n in 1..=12u64 {
        let raw = format!("history {n}");
        taken.push(r.checkpoint(&s, data(&format!("head {n}")), raw.as_bytes()).unwrap());
        r.checkpoint(&other, data("elsewhere"), b"other history").unwrap();
    }
    let directory = scope_path(&s).join("checkpoints");
    for (n, checkpoint) in (1..).zip(&taken) {
        assert_eq!(checkpoint.sequence, n);
        let path = directory.join(&format!("{n:020}.json"));
        assert_eq!(r.disk.checkpoints[&path.segments], *checkpoint);
        assert_eq!(
            r.read_artifact(&checkpoint.raw_history).unwrap(),
            format!("history {n}").into_bytes()
        );
    }
    let rebuilt = r.rebuild(&s, c.specification_version_id, "hash", "head 12", b"", &[]).unwrap();
    assert_eq!(rebuilt.checkpoint.as_ref(), taken.last());
}
