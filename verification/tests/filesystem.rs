//! The workspace-root capability.

use agentharbor::{CanonicalPath, OrchestratorError, WorkspaceFs};

fn path(text: &str) -> CanonicalPath {
    let mut components = vec![b"/".to_vec()];
    for name in text.split('/').filter(|name| !name.is_empty()) {
        components.push(name.as_bytes().to_vec());
    }
    CanonicalPath { components, display: text.to_owned() }
}

/// Reads the file, if the workspace hands its path out.
fn read(
    workspace: &WorkspaceFs,
    files: &[(CanonicalPath, Vec<u8>)],
    relative: &str,
) -> Result<Vec<u8>, OrchestratorError> {
    let found = workspace.resolve(path(&format!("/home/agent/work/{relative}")))?;
    match files.iter().find(|(at, _)| *at == found) {
        Some((_, contents)) => Ok(contents.clone()),
        None => Err(OrchestratorError::Io(std::io::Error::from(std::io::ErrorKind::NotFound))),
    }
}

#[test]
fn reads_inside_workspace() {
    let files = vec![(path("/home/agent/work/hello.txt"), b"hello".to_vec())];
    let workspace = WorkspaceFs::new(path("/home/agent/work"));
    assert_eq!(read(&workspace, &files, "hello.txt").unwrap(), b"hello");
}

#[test]
fn the_root_and_all_below_it_are_handed_out() {
    let workspace = WorkspaceFs::new(path("/home/agent/work"));
    for inside in ["/home/agent/work", "/home/agent/work/a", "/home/agent/work/a/b/c"] {
        assert_eq!(workspace.resolve(path(inside)).unwrap(), path(inside));
    }
}

#[test]
fn what_is_outside_is_denied_by_its_displayed_path() {
    let workspace = WorkspaceFs::new(path("/home/agent/work"));
    for outside in [
        "/home/agent/work2",
        "/home/agent/work2/a",
        "/home/agent/wor",
        "/home/agent",
        "/",
        "/etc/passwd",
    ] {
        match workspace.resolve(path(outside)) {
            Err(OrchestratorError::AccessDenied(shown)) => assert_eq!(shown, outside),
            other => panic!("{other:?}"),
        }
    }
}

#[test]
fn an_inner_workspace_hands_out_no_more_than_the_outer() {
    let outer = WorkspaceFs::new(path("/home/agent"));
    let inner = WorkspaceFs::new(path("/home/agent/work"));
    for candidate in ["/home/agent/work/a", "/home/agent/notes", "/home"] {
        if inner.resolve(path(candidate)).is_ok() {
            assert!(outer.resolve(path(candidate)).is_ok());
        }
    }
    assert!(outer.resolve(path("/home/agent/notes")).is_ok());
    assert!(inner.resolve(path("/home/agent/notes")).is_err());
}

#[test]
fn paths_are_compared_component_by_component() {
    assert!(path("/a/b").starts_with(&path("/a")));
    assert!(path("/a/b").starts_with(&path("/a/b")));
    assert!(!path("/a/bc").starts_with(&path("/a/b")));
    assert!(!path("/a").starts_with(&path("/a/b")));
    assert!(path("/a/b").is_same(&path("/a/b")));
    assert!(!path("/a/b").is_same(&path("/a")));
    assert!(!path("/a/b").is_same(&path("/a/c")));
}
