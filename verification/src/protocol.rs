//! The command protocol between the webview and the host.

use vstd::prelude::*;

verus! {

/// The version of the protocol that the host speaks.
pub const PROTOCOL_VERSION: u8 = 1;

/// The members of a JSON object whose values are strings; none, where the value is no object.
pub uninterp spec fn string_members(value: serde_json::Value) -> Map<Seq<char>, Seq<char>>;

/// Looks a member up through `get` of [`serde_json::Value`], which finds nothing in a value that
/// is no object, and reads it through `as_str`, which reads nothing but strings.
#[verifier::external_body]
fn string_member(value: &serde_json::Value, key: &str) -> (r: Option<String>)
    ensures
        match r {
            Some(text) => string_members(*value).contains_key(key@)
                && string_members(*value)[key@] == text@,
            None => !string_members(*value).contains_key(key@),
        },
{
    value.get(key).and_then(serde_json::Value::as_str).map(str::to_owned)
}

/// A command as it arrives.
#[derive(Clone, Debug)]
pub struct Envelope {
    pub version: u8,
    pub request_id: String,
    pub payload: serde_json::Value,
}

/// Why a command is refused.
#[derive(Clone, Debug, PartialEq, Eq)]
pub struct ProtocolError {
    pub code: String,
    pub message: String,
    pub retryable: bool,
    /// The request that the refusal belongs to, where the details name it.
    pub request_id: Option<String>,
}

/// The answer to a command.
#[derive(Clone, Debug, PartialEq, Eq)]
pub enum Response {
    /// The workspaces, by their names.
    Success { ok: bool, workspaces: Vec<String> },
    Failure { ok: bool, error: ProtocolError },
}

impl ProtocolError {
    pub open spec fn is(
        self,
        code: Seq<char>,
        message: Seq<char>,
        retryable: bool,
        request_id: Option<Seq<char>>,
    ) -> bool {
        &&& self.code@ == code
        &&& self.message@ == message
        &&& self.retryable == retryable
        &&& match (self.request_id, request_id) {
            (Some(a), Some(b)) => a@ == b,
            (None, None) => true,
            _ => false,
        }
    }
}

/// The command that the payload names, if it names one.
pub open spec fn command_of(payload: serde_json::Value) -> Option<Seq<char>> {
    if string_members(payload).contains_key("type"@) {
        Some(string_members(payload)["type"@])
    } else {
        None
    }
}

/// `response` answers a message of this version and request that names this command: a version
/// that is not the host's is refused whatever the command is, and so is every command but the
/// listing of workspaces.
pub open spec fn answers(
    response: Response,
    version: u8,
    request_id: Seq<char>,
    command: Option<Seq<char>>,
) -> bool {
    if version != PROTOCOL_VERSION {
        response matches Response::Failure { ok, error } && !ok && error.is(
            "PROTOCOL_VERSION_UNSUPPORTED"@,
            "Unsupported protocol version"@,
            false,
            Some(request_id),
        )
    } else if command == Some("workspace.list"@) {
        response matches Response::Success { ok, workspaces } && ok && workspaces@.len() == 0
    } else {
        response matches Response::Failure { ok, error } && !ok && error.is(
            "INVALID_COMMAND"@,
            "Command is not implemented"@,
            false,
            None,
        )
    }
}

/// Answers a message, given the command that its payload names.
pub fn respond(version: u8, request_id: String, command: Option<String>) -> (r: Response)
    ensures
        answers(
            r,
            version,
            request_id@,
            match command {
                Some(name) => Some(name@),
                None => None,
            },
        ),
{
    if version != PROTOCOL_VERSION {
        return Response::Failure {
            ok: false,
            error: ProtocolError {
                code: "PROTOCOL_VERSION_UNSUPPORTED".to_owned(),
                message: "Unsupported protocol version".to_owned(),
                retryable: false,
                request_id: Some(request_id),
            },
        };
    }
    if let Some(name) = command {
        if crate::text::same_text(name.as_str(), "workspace.list") {
            return Response::Success { ok: true, workspaces: Vec::new() };
        }
    }
    Response::Failure {
        ok: false,
        error: ProtocolError {
            code: "INVALID_COMMAND".to_owned(),
            message: "Command is not implemented".to_owned(),
            retryable: false,
            request_id: None,
        },
    }
}

/// Answers a message.
pub fn dispatch(message: Envelope) -> (r: Response)
    ensures
        answers(r, message.version, message.request_id@, command_of(message.payload)),
{
    let command = string_member(&message.payload, "type");
    respond(message.version, message.request_id, command)
}

/// Only known commands of the host's protocol version succeed.
pub proof fn only_known_commands_succeed(
    response: Response,
    version: u8,
    request_id: Seq<char>,
    command: Option<Seq<char>>,
)
    requires
        answers(response, version, request_id, command),
    ensures
        response is Success <==> version == PROTOCOL_VERSION && command == Some(
            "workspace.list"@,
        ),
        response matches Response::Success { ok, workspaces } ==> ok,
        response matches Response::Failure { ok, error } ==> !ok && !error.retryable,
{
}

/// A message of another version is refused with the request that it belongs to, whatever its
/// command; one of the host's version is answered by its command alone: the workspaces are listed,
/// and every other command, or none, is refused without naming the request.
pub proof fn messages_are_answered_by_version_and_command(
    response: Response,
    version: u8,
    request_id: Seq<char>,
    command: Option<Seq<char>>,
)
    requires
        answers(response, version, request_id, command),
    ensures
        version != 1 ==> {
            &&& response is Failure && !response->Failure_ok
            &&& response->error.code@ == "PROTOCOL_VERSION_UNSUPPORTED"@
            &&& response->error.message@ == "Unsupported protocol version"@
            &&& !response->error.retryable
            &&& response->error.request_id is Some && response->error.request_id->0@ == request_id
        },
        version == 1 && command is Some && command->0 == "workspace.list"@ ==> response is Success
            && response->Success_ok && response->workspaces@.len() == 0,
        version == 1 && !(command is Some && command->0 == "workspace.list"@) ==> {
            &&& response is Failure && !response->Failure_ok
            &&& response->error.code@ == "INVALID_COMMAND"@
            &&& response->error.message@ == "Command is not implemented"@
            &&& !response->error.retryable
            &&& response->error.request_id is None
        },
{
}

/// A payload's command is its member `type`, whole, where that is a string.
pub proof fn the_command_is_the_type_of_the_payload(payload: serde_json::Value)
    ensures
        command_of(payload) is Some <==> string_members(payload).contains_key("type"@),
        command_of(payload) is Some ==> command_of(payload)->0 == string_members(payload)["type"@],
{
}

} // verus!
