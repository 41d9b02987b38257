//! Worktree commands.

use std::path::PathBuf;

use agentharbor::worktree::ensure_branch_name;
use agentharbor::{
    CanonicalPath, GitTurns, GitWorktreeService, OrchestratorError, WorktreeRequest,
};

fn request(branch: &str) -> WorktreeRequest {
    WorktreeRequest {
        repository: PathBuf::from("/repo"),
        destination: PathBuf::from("/trees/one"),
        branch: branch.to_owned(),
    }
}

#[test]
fn creation_names_branch_and_destination() {
    let wanted = request("feature/x");
    let command = GitWorktreeService.create(&wanted).unwrap();
    assert_eq!(command.arguments, vec!["worktree", "add", "-b", "feature/x"]);
    assert_eq!(command.destination, &PathBuf::from("/trees/one"));
    assert_eq!(command.repository, &PathBuf::from("/repo"));
}

#[test]
fn removal_names_the_destination() {
    let repository = PathBuf::from("/repo");
    let destination = PathBuf::from("/trees/one");
    let command = GitWorktreeService::default().remove(&repository, &destination);
    assert_eq!(command.arguments, vec!["worktree", "remove"]);
    assert_eq!(command.destination, &destination);
    assert_eq!(command.repository, &repository);
}

#[test]
fn branch_names_that_git_could_misread_are_refused() {
    for bad in ["", "-b", "-", "a\nb", "a\rb", "a\0b", "\n"] {
        match GitWorktreeService.create(&request(bad)) {
            Err(OrchestratorError::InvalidInput(message)) => {
                assert_eq!(message, "invalid branch name")
            }
            other => panic!("{bad:?}: {other:?}"),
        }
        assert!(ensure_branch_name(bad).is_err());
    }
    for good in ["main", "a-b", "fix/ünïcode", "a b", "a\tb"] {
        assert!(ensure_branch_name(good).is_ok());
    }
}

#[test]
fn the_end_of_a_run_decides() {
    assert!(GitWorktreeService.created(true).is_ok());
    assert!(GitWorktreeService.removed(true).is_ok());
    assert_eq!(
        GitWorktreeService.created(false).unwrap_err().message(),
        "invalid input: git worktree add failed"
    );
    assert_eq!(
        GitWorktreeService.removed(false).unwrap_err().message(),
        "invalid input: git worktree remove failed"
    );
}

fn repository(name: &str) -> CanonicalPath {
    CanonicalPath {
        components: vec![b"/".to_vec(), name.as_bytes().to_vec()],
        display: format!("/{name}"),
    }
}

#[test]
fn a_repository_is_given_to_one_run_at_a_time() {
    let mut turns = GitTurns::default();
    assert!(turns.begin(repository("a")));
    assert!(!turns.begin(repository("a")));
    assert!(turns.begin(repository("b")));
    turns.end(&repository("a"));
    assert!(!turns.begin(repository("b")));
    assert!(turns.begin(repository("a")));
    turns.end(&repository("c"));
    assert!(!turns.begin(repository("a")));
    turns.end(&repository("b"));
    turns.end(&repository("a"));
    assert!(turns.begin(repository("b")));
    assert!(turns.begin(repository("a")));
}
