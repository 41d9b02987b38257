//! State snapshots.

use std::collections::BTreeMap;
use std::path::PathBuf;

use agentharbor::{EntityId, FileStep, JsonStateStore, OrchestratorError, StorePath};

fn at(segments: &[&str]) -> StorePath {
    StorePath { segments: segments.iter().map(|segment| segment.to_string()).collect() }
}

type Files = BTreeMap<Vec<String>, Vec<u8>>;

fn perform(files: &mut Files, step: FileStep) {
    match step {
        FileStep::CreateDirectory { .. } | FileStep::SyncFile { .. } => {}
        FileStep::WriteFile { path, contents } => {
            files.insert(path.segments, contents);
        }
        FileStep::CopyFile { from, to } => {
            let contents = files[&from.segments].clone();
            files.insert(to.segments, contents);
        }
        FileStep::RenameFile { from, to } => {
            let contents = files.remove(&from.segments).unwrap();
            files.insert(to.segments, contents);
        }
    }
}

#[test]
fn a_save_is_written_flushed_and_renamed() {
    let store = JsonStateStore::new(PathBuf::from("/state"));
    assert_eq!(store.directory, PathBuf::from("/state"));
    let steps = store.save("sessions", None, b"{}".to_vec()).unwrap();
    assert_eq!(
        steps,
        vec![
            FileStep::WriteFile { path: at(&["sessions.json.tmp"]), contents: b"{}\n".to_vec() },
            FileStep::SyncFile { path: at(&["sessions.json.tmp"]) },
            FileStep::RenameFile { from: at(&["sessions.json.tmp"]), to: at(&["sessions.json"]) },
        ]
    );
}

#[test]
fn dots_in_a_name_are_kept() {
    let store = JsonStateStore::new(PathBuf::from("/state"));
    let steps = store.save("a.b", None, b"1".to_vec()).unwrap();
    assert_eq!(steps[1], FileStep::SyncFile { path: at(&["a.b.json.tmp"]) });
    assert_eq!(store.path("a.b"), at(&["a.b.json"]));
}

#[test]
fn a_name_in_a_directory_keeps_its_directory() {
    let store = JsonStateStore::new(PathBuf::from("/state"));
    let steps = store.save("team.a/board", None, b"1".to_vec()).unwrap();
    assert_eq!(
        steps[2],
        FileStep::RenameFile {
            from: at(&["team.a/board.json.tmp"]),
            to: at(&["team.a/board.json"]),
        }
    );
}

#[test]
fn what_was_never_saved_is_not_loaded() {
    let store = JsonStateStore::new(PathBuf::from("/state"));
    assert_eq!(store.load("x", false), None);
    assert_eq!(store.load("x", true), Some(at(&["x.json"])));
}

#[test]
fn a_load_reads_what_was_saved_last_under_its_name() {
    let store = JsonStateStore::new(PathBuf::from("/state"));
    let mut files = Files::new();
    for (name, json) in [("a", "1"), ("b", "2"), ("a", "3")] {
        for step in store.save(name, None, json.as_bytes().to_vec()).unwrap() {
            perform(&mut files, step);
        }
    }
    let mut read = |name: &str| {
        let exists = files.contains_key(&store.path(name).segments);
        store.load(name, exists).map(|path| files[&path.segments].clone())
    };
    assert_eq!(read("a").unwrap(), b"3\n");
    assert_eq!(read("b").unwrap(), b"2\n");
    assert_eq!(read("c"), None);
    assert_eq!(files.len(), 2);
}

#[test]
fn a_save_that_is_cut_short_leaves_the_old_value() {
    let store = JsonStateStore::new(PathBuf::from("/state"));
    for done in 0..3 {
        let mut files = Files::new();
        files.insert(store.path("a").segments, b"old".to_vec());
        for step in store.save("a", None, b"new".to_vec()).unwrap().into_iter().take(done) {
            perform(&mut files, step);
        }
        assert_eq!(files[&store.path("a").segments], b"old");
    }
}

#[test]
fn a_given_temporary_file_is_used() {
    let store = JsonStateStore::new(PathBuf::from("/state"));
    let steps = store.save_through("a", "scratch", b"1".to_vec());
    assert_eq!(
        steps[2],
        FileStep::RenameFile { from: at(&["scratch"]), to: at(&["a.json"]) }
    );
}

#[test]
fn locations_are_built_from_segments() {
    let path = StorePath::root().join("a").join("b");
    assert_eq!(path, at(&["a", "b"]));
    assert_eq!(path.parent(), Some(at(&["a"])));
    assert_eq!(StorePath::root().parent(), None);
    assert_eq!(path.duplicate(), path);
}

fn temporary_of(name: &str) -> String {
    let store = JsonStateStore::new(PathBuf::from("/state"));
    match &store.save(name, None, b"1".to_vec()).unwrap()[..] {
        [FileStep::WriteFile { path, .. }, FileStep::SyncFile { .. }, FileStep::RenameFile { from, to }] => {
            assert_eq!(path, from);
            assert_eq!(*to, store.path(name));
            path.segments.concat()
        }
        other => panic!("{other:?}"),
    }
}

#[test]
fn every_name_is_written_through_a_temporary_file() {
    assert_eq!(temporary_of("a:b"), "a:b.json.tmp");
    assert_eq!(temporary_of("a\\b"), "a\\b.json.tmp");
    assert_eq!(temporary_of("C:/x/y"), "C:/x/y.json.tmp");
    assert_eq!(temporary_of(".."), "...json.tmp");
    assert_eq!(temporary_of("a."), "a..json.tmp");
    assert_eq!(temporary_of(""), ".json.json.tmp");
    assert_eq!(temporary_of("a/"), "a/.json.json.tmp");
}

#[test]
fn a_name_that_stands_for_no_file_cannot_be_saved() {
    let store = JsonStateStore::new(PathBuf::from("/state"));
    for name in ["a\\", "C:", "//host/share", ".", "x/.", "\\\\host\\share"] {
        let given = PathBuf::from(format!("{name}.json")).with_extension("json.tmp");
        let given = given.to_str().unwrap();
        match store.save(name, None, b"1".to_vec()) {
            Ok(_) => {
                assert!(given.ends_with(".tmp"));
                assert_eq!(temporary_of(name), given);
            }
            Err(error) => {
                assert!(matches!(error, OrchestratorError::Io(_)));
                assert!(!given.ends_with(".tmp"));
            }
        }
    }
    for temporary in ["", "..", "tmp", "a.json"] {
        assert!(matches!(
            store.save_marked("a", None, temporary, b"1".to_vec()),
            Err(OrchestratorError::Io(_))
        ));
    }
    assert_eq!(
        store.save_marked("a", None, "t.tmp", b"1".to_vec()).unwrap(),
        store.save_through("a", "t.tmp", b"1".to_vec())
    );
    assert_eq!(
        store.save_marked("a", Some(EntityId { value: 7 }), "t.tmp", b"1".to_vec()).unwrap()[..2],
        store.quarantine_marked("a", EntityId { value: 7 })[..]
    );
}

#[test]
fn only_bytes_that_are_no_json_are_put_aside() {
    let store = JsonStateStore::new(PathBuf::from("/state"));
    for good in ["{}", "[1, 2]\n", " null ", "\"text\"", "1.5e3"] {
        let steps = store.save("a", Some(&good.as_bytes().to_vec()), b"1".to_vec()).unwrap();
        assert_eq!(steps.len(), 3, "{good}");
    }
    for bad in ["", "{", "{} {}", "nul", "{\"a\": }", "'x'"] {
        let steps = store.save("a", Some(&bad.as_bytes().to_vec()), b"1".to_vec()).unwrap();
        assert_eq!(steps.len(), 5, "{bad}");
    }
    assert_eq!(store.save("a", Some(&vec![0xff]), b"1".to_vec()).unwrap().len(), 5);
}

#[test]
fn a_corrupt_record_is_copied_and_flushed_before_it_is_replaced() {
    let store = JsonStateStore::new(PathBuf::from("/state"));
    let aside = at(&["a.json.00000000-0000-0000-0000-000000000007.corrupt"]);
    assert_eq!(
        store.quarantine_marked("a", EntityId { value: 7 }),
        vec![
            FileStep::CopyFile { from: at(&["a.json"]), to: aside.duplicate() },
            FileStep::SyncFile { path: aside },
        ]
    );
    let steps = store.save("a", Some(&b"{".to_vec()), b"1".to_vec()).unwrap();
    assert_eq!(steps.len(), 5);
    assert!(matches!(&steps[0], FileStep::CopyFile { from, .. } if *from == at(&["a.json"])));
    assert_eq!(steps[2..], store.save("a", None, b"1".to_vec()).unwrap()[..]);
}

#[test]
fn corrupt_bytes_are_kept_however_often_they_come() {
    let store = JsonStateStore::new(PathBuf::from("/state"));
    let mut files = Files::new();
    for broken in ["{", "[1,"] {
        files.insert(store.path("a").segments, broken.as_bytes().to_vec());
        let stored = files[&store.path("a").segments].clone();
        for step in store.save("a", Some(&stored), b"{}".to_vec()).unwrap() {
            perform(&mut files, step);
        }
        assert_eq!(files[&store.path("a").segments], b"{}\n");
    }
    let kept: Vec<&Vec<u8>> = files
        .iter()
        .filter(|(path, _)| path[0].starts_with("a.json.") && path[0].ends_with(".corrupt"))
        .map(|(_, contents)| contents)
        .collect();
    assert_eq!(kept.len(), 2);
    assert!(kept.contains(&&b"{".to_vec()) && kept.contains(&&b"[1,".to_vec()));
}

#[test]
fn a_quarantine_that_is_cut_short_leaves_the_record() {
    let store = JsonStateStore::new(PathBuf::from("/state"));
    for done in 0..5 {
        let mut files = Files::new();
        files.insert(store.path("a").segments, b"{".to_vec());
        let steps = store.save("a", Some(&b"{".to_vec()), b"{}".to_vec()).unwrap();
        for step in steps.into_iter().take(done) {
            perform(&mut files, step);
        }
        assert_eq!(files[&store.path("a").segments], b"{");
    }
}
