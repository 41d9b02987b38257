//! The descriptions of errors.

use agentharbor::OrchestratorError;

#[test]
fn messages_name_the_kind_and_the_detail() {
    assert_eq!(OrchestratorError::AccessDenied("/etc".to_owned()).message(), "access denied: /etc");
    assert_eq!(
        OrchestratorError::ApprovalRequired("git push".to_owned()).message(),
        "approval is required for git push"
    );
    assert_eq!(
        OrchestratorError::invalid_input("empty executable").message(),
        "invalid input: empty executable"
    );
}

#[test]
fn outside_errors_are_shown_as_they_display() {
    let io = std::io::Error::new(std::io::ErrorKind::NotFound, "gone");
    assert_eq!(OrchestratorError::from(io).message(), "I/O failed: gone");

    let json = serde_json::from_str::<serde_json::Value>("{").unwrap_err();
    let shown = json.to_string();
    let error = OrchestratorError::from(json);
    assert!(matches!(error, OrchestratorError::Serialization(_)));
    assert_eq!(error.message(), format!("state serialization failed: {shown}"));

    let error = OrchestratorError::from(rusqlite::Error::QueryReturnedNoRows);
    assert!(matches!(error, OrchestratorError::Database(_)));
    assert_eq!(
        error.message(),
        format!("database operation failed: {}", rusqlite::Error::QueryReturnedNoRows)
    );
}
