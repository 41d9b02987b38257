//! The error that every operation of the orchestrator reports.

use vstd::prelude::*;

verus! {

/// Declares [`std::io::Error`], carried through without being looked into.
#[verifier::external_type_specification]
#[verifier::external_body]
pub struct ExIoError(std::io::Error);

/// Declares [`serde_json::Error`], carried through without being looked into.
#[verifier::external_type_specification]
#[verifier::external_body]
pub struct ExSerializationError(serde_json::Error);

/// Declares [`rusqlite::Error`], carried through without being looked into.
#[verifier::external_type_specification]
#[verifier::external_body]
pub struct ExDatabaseError(rusqlite::Error);

#[derive(Debug)]
pub enum OrchestratorError {
    AccessDenied(String),
    ApprovalRequired(String),
    InvalidInput(String),
    Io(std::io::Error),
    Serialization(serde_json::Error),
    Database(rusqlite::Error),
}

impl OrchestratorError {
    /// This is the refusal of an input, with the explanation `message`.
    pub open spec fn is_invalid_input(self, message: Seq<char>) -> bool {
        self matches OrchestratorError::InvalidInput(m) && m@ == message
    }

    /// This is the refusal of an access to `subject`.
    pub open spec fn is_access_denied(self, subject: Seq<char>) -> bool {
        self matches OrchestratorError::AccessDenied(m) && m@ == subject
    }

    /// `line` is the line that describes this error: the kind of failure, then its detail,
    /// which for an outside error is what that error displays.
    pub open spec fn describes(self, line: Seq<char>) -> bool {
        match self {
            OrchestratorError::AccessDenied(m) => line == "access denied: "@ + m@,
            OrchestratorError::ApprovalRequired(m) => line == "approval is required for "@ + m@,
            OrchestratorError::InvalidInput(m) => line == "invalid input: "@ + m@,
            OrchestratorError::Io(e) => exists|shown: String| #[trigger]
                vstd::string::to_string_from_display_ensures(&e, shown) && line
                    == "I/O failed: "@ + shown@,
            OrchestratorError::Serialization(e) => exists|shown: String| #[trigger]
                vstd::string::to_string_from_display_ensures(&e, shown) && line
                    == "state serialization failed: "@ + shown@,
            OrchestratorError::Database(e) => exists|shown: String| #[trigger]
                vstd::string::to_string_from_display_ensures(&e, shown) && line
                    == "database operation failed: "@ + shown@,
        }
    }

    /// The refusal of an input, explained by `message`.
    pub fn invalid_input(message: &str) -> (e: OrchestratorError)
        ensures
            e.is_invalid_input(message@),
            e is InvalidInput && e->InvalidInput_0@ == message@,
    {
        OrchestratorError::InvalidInput(message.to_owned())
    }

    /// The line that describes this error.
    pub fn message(&self) -> (line: String)
        ensures
            self.describes(line@),
            *self matches OrchestratorError::AccessDenied(subject) ==> line@ == "access denied: "@
                + subject@,
            *self matches OrchestratorError::ApprovalRequired(subject) ==> line@
                == "approval is required for "@ + subject@,
            *self matches OrchestratorError::InvalidInput(message) ==> line@ == "invalid input: "@
                + message@,
            *self matches OrchestratorError::Io(e) ==> exists|shown: String| #[trigger]
                vstd::string::to_string_from_display_ensures(&e, shown) && line@
                    == "I/O failed: "@ + shown@,
            *self matches OrchestratorError::Serialization(e) ==> exists|shown: String| #[trigger]
                vstd::string::to_string_from_display_ensures(&e, shown) && line@
                    == "state serialization failed: "@ + shown@,
            *self matches OrchestratorError::Database(e) ==> exists|shown: String| #[trigger]
                vstd::string::to_string_from_display_ensures(&e, shown) && line@
                    == "database operation failed: "@ + shown@,
    {
        match self {
            OrchestratorError::AccessDenied(m) => "access denied: ".to_owned().concat(m.as_str()),
            OrchestratorError::ApprovalRequired(m) => "approval is required for ".to_owned().concat(
                m.as_str(),
            ),
            OrchestratorError::InvalidInput(m) => "invalid input: ".to_owned().concat(m.as_str()),
            OrchestratorError::Io(e) => {
                let shown = e.to_string();
                "I/O failed: ".to_owned().concat(shown.as_str())
            },
            OrchestratorError::Serialization(e) => {
                let shown = e.to_string();
                "state serialization failed: ".to_owned().concat(shown.as_str())
            },
            OrchestratorError::Database(e) => {
                let shown = e.to_string();
                "database operation failed: ".to_owned().concat(shown.as_str())
            },
        }
    }
}

impl From<std::io::Error> for OrchestratorError {
    fn from(error: std::io::Error) -> (r: Self) {
        OrchestratorError::Io(error)
    }
}

impl vstd::std_specs::convert::FromSpecImpl<std::io::Error> for OrchestratorError {
    open spec fn obeys_from_spec() -> bool {
        true
    }

    open spec fn from_spec(error: std::io::Error) -> Self {
        OrchestratorError::Io(error)
    }
}

impl From<serde_json::Error> for OrchestratorError {
    fn from(error: serde_json::Error) -> (r: Self) {
        OrchestratorError::Serialization(error)
    }
}

impl vstd::std_specs::convert::FromSpecImpl<serde_json::Error> for OrchestratorError {
    open spec fn obeys_from_spec() -> bool {
        true
    }

    open spec fn from_spec(error: serde_json::Error) -> Self {
        OrchestratorError::Serialization(error)
    }
}

impl From<rusqlite::Error> for OrchestratorError {
    fn from(error: rusqlite::Error) -> (r: Self) {
        OrchestratorError::Database(error)
    }
}

impl vstd::std_specs::convert::FromSpecImpl<rusqlite::Error> for OrchestratorError {
    open spec fn obeys_from_spec() -> bool {
        true
    }

    open spec fn from_spec(error: rusqlite::Error) -> Self {
        OrchestratorError::Database(error)
    }
}

/// A refusal or denial carries the whole of its text.
pub proof fn refusals_carry_their_whole_text(error: OrchestratorError, text: Seq<char>)
    ensures
        error.is_invalid_input(text) <==> error is InvalidInput && error->InvalidInput_0@ == text,
        error.is_access_denied(text) <==> error is AccessDenied && error->AccessDenied_0@ == text,
{
}

/// The line that describes a refusal or denial ends in the whole of its text, behind the words of
/// its kind.
pub proof fn lines_give_the_whole_text(error: OrchestratorError, line: Seq<char>)
    requires
        error.describes(line),
    ensures
        error matches OrchestratorError::AccessDenied(m) ==> line.len() == 15 + m@.len()
            && line.skip(15) == m@ && line.take(15) == "access denied: "@,
        error matches OrchestratorError::ApprovalRequired(m) ==> line.len() == 25 + m@.len()
            && line.skip(25) == m@ && line.take(25) == "approval is required for "@,
        error matches OrchestratorError::InvalidInput(m) ==> line.len() == 15 + m@.len()
            && line.skip(15) == m@ && line.take(15) == "invalid input: "@,
{
    reveal_strlit("access denied: ");
    reveal_strlit("approval is required for ");
    reveal_strlit("invalid input: ");
    match error {
        OrchestratorError::AccessDenied(m) => {
            assert(line.skip(15) =~= m@);
            assert(line.take(15) =~= "access denied: "@);
        },
        OrchestratorError::ApprovalRequired(m) => {
            assert(line.skip(25) =~= m@);
            assert(line.take(25) =~= "approval is required for "@);
        },
        OrchestratorError::InvalidInput(m) => {
            assert(line.skip(15) =~= m@);
            assert(line.take(15) =~= "invalid input: "@);
        },
        _ => {},
    }
}

} // verus!
