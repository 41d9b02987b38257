//! The command protocol.

use agentharbor::protocol::respond;
use agentharbor::{dispatch, Envelope, ProtocolError, Response, PROTOCOL_VERSION};
use serde_json::Value;

fn envelope(version: u8, payload: &str) -> Envelope {
    Envelope {
        version,
        request_id: "req-1".to_owned(),
        payload: serde_json::from_str(payload).unwrap(),
    }
}

fn not_implemented() -> Response {
    Response::Failure {
        ok: false,
        error: ProtocolError {
            code: "INVALID_COMMAND".to_owned(),
            message: "Command is not implemented".to_owned(),
            retryable: false,
            request_id: None,
        },
    }
}

#[test]
fn workspaces_are_listed() {
    let response = dispatch(envelope(1, r#"{"type": "workspace.list"}"#));
    assert_eq!(response, Response::Success { ok: true, workspaces: vec![] });
    let response = dispatch(envelope(1, r#"{"other": 1, "type": "workspace.list", "x": null}"#));
    assert!(matches!(response, Response::Success { ok: true, .. }));
}

#[test]
fn other_versions_are_refused_with_their_request() {
    assert_eq!(PROTOCOL_VERSION, 1);
    for version in [0u8, 2, 255] {
        assert_eq!(
            dispatch(envelope(version, r#"{"type": "workspace.list"}"#)),
            Response::Failure {
                ok: false,
                error: ProtocolError {
                    code: "PROTOCOL_VERSION_UNSUPPORTED".to_owned(),
                    message: "Unsupported protocol version".to_owned(),
                    retryable: false,
                    request_id: Some("req-1".to_owned()),
                },
            }
        );
    }
}

#[test]
fn unknown_commands_are_refused() {
    for payload in [
        r#"{"type": "workspace.delete"}"#,
        r#"{"type": "Workspace.list"}"#,
        r#"{"type": 1}"#,
        r#"{"type": ["workspace.list"]}"#,
        r#"{}"#,
        r#"[{"type": "workspace.list"}]"#,
        r#""workspace.list""#,
        "null",
    ] {
        assert_eq!(dispatch(envelope(1, payload)), not_implemented(), "{payload}");
    }
    assert_eq!(
        dispatch(Envelope {
            version: 1,
            request_id: String::new(),
            payload: Value::Bool(true),
        }),
        not_implemented()
    );
}

#[test]
fn the_command_alone_decides_within_the_version() {
    assert_eq!(
        respond(1, "r".to_owned(), Some("workspace.list".to_owned())),
        Response::Success { ok: true, workspaces: vec![] }
    );
    assert_eq!(respond(1, "r".to_owned(), Some("x".to_owned())), not_implemented());
    assert_eq!(respond(1, "r".to_owned(), None), not_implemented());
    assert!(matches!(respond(3, "r".to_owned(), None), Response::Failure { ok: false, .. }));
}
