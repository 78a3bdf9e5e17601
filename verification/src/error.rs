//! The errors that the registry's rules produce, and their messages.
use vstd::prelude::*;

use crate::text::{owned, push_str};

verus! {

broadcast use vstd::string::group_string_axioms;

/// Why a registry request was refused.
#[derive(Debug, PartialEq, Eq)]
pub enum RegistryError {
    /// A value that must not be blank was blank; `kind` names it.
    Empty { kind: String },
    /// A session ID held a character that is not filename-safe, or was `.` or `..`.
    UnsafeSessionId,
    /// A name component held something other than letters, apostrophes or
    /// hyphens, or did not start and end with a letter; `kind` names it.
    InvalidComponent { kind: String },
    /// A bundled name list was empty.
    EmptyNameLists,
    /// Every attempt at a name for the realm was taken or unusable.
    Exhausted { realm: String },
    /// Nothing in the registry matched a lookup identifier.
    NotFound { input: String },
    /// No assignment is stored for a session ID.
    NotRegistered { session_id: String },
    /// The stored assignment names a different session.
    ForeignEntry { session_id: String },
    /// A negative `--recent` window.
    NegativeRecent,
    /// No session ID was given or found in the environment.
    NoSession,
    /// The bundled realm list was empty.
    NoRealmCandidates,
    /// An `--extension` argument was not `OWNER=JSON` with a non-blank owner
    /// and a JSON value.
    InvalidExtension { argument: String },
    /// A `--before` argument was not an RFC 3339 timestamp.
    InvalidTimestamp { text: String },
}

impl RegistryError {
    /// The text of the message that describes the error.
    pub open spec fn message_text(self) -> Seq<char> {
        match self {
            RegistryError::Empty { kind } => kind@ + " cannot be empty"@,
            RegistryError::UnsafeSessionId =>
                "session ID must be a filename-safe value using letters, digits, '.', '_' or '-'"@,
            RegistryError::InvalidComponent { kind } => kind@
                + " must contain only letters, apostrophes, or hyphens"@,
            RegistryError::EmptyNameLists => "name lists are empty"@,
            RegistryError::Exhausted { realm } => "exhausted available names for realm "@ + realm@,
            RegistryError::NotFound { input } => "no identity found for '"@ + input@
                + "'; lookup accepts a session ID, canonical name, or slug"@,
            RegistryError::NotRegistered { session_id } => "no identity registered for session "@
                + session_id@ + "; run `agent-id register "@ + session_id@ + "`"@,
            RegistryError::ForeignEntry { session_id } =>
                "identity registry entry does not belong to session "@ + session_id@,
            RegistryError::NegativeRecent => "--recent must be non-negative"@,
            RegistryError::NoSession =>
                "no session ID found; pass SESSION_ID or --session-id, or set AGENT_ID_SESSION_ID"@,
            RegistryError::NoRealmCandidates => "bundled realm candidate list is empty"@,
            RegistryError::InvalidExtension { argument } =>
                "extension must be OWNER=JSON with a JSON value: "@ + argument@,
            RegistryError::InvalidTimestamp { text } => "not an RFC 3339 timestamp: "@ + text@,
        }
    }

    /// The message that describes the error.
    pub fn message(&self) -> (m: String)
        ensures
            m@ == self.message_text(),
    {
        match self {
            RegistryError::Empty { kind } => {
                let mut m = owned(kind.as_str());
                push_str(&mut m, " cannot be empty");
                m
            },
            RegistryError::UnsafeSessionId => owned(
                "session ID must be a filename-safe value using letters, digits, '.', '_' or '-'",
            ),
            RegistryError::InvalidComponent { kind } => {
                let mut m = owned(kind.as_str());
                push_str(&mut m, " must contain only letters, apostrophes, or hyphens");
                m
            },
            RegistryError::EmptyNameLists => owned("name lists are empty"),
            RegistryError::Exhausted { realm } => {
                let mut m = owned("exhausted available names for realm ");
                push_str(&mut m, realm.as_str());
                m
            },
            RegistryError::NotFound { input } => {
                let mut m = owned("no identity found for '");
                push_str(&mut m, input.as_str());
                push_str(&mut m, "'; lookup accepts a session ID, canonical name, or slug");
                m
            },
            RegistryError::NotRegistered { session_id } => {
                let mut m = owned("no identity registered for session ");
                push_str(&mut m, session_id.as_str());
                push_str(&mut m, "; run `agent-id register ");
                push_str(&mut m, session_id.as_str());
                push_str(&mut m, "`");
                m
            },
            RegistryError::ForeignEntry { session_id } => {
                let mut m = owned("identity registry entry does not belong to session ");
                push_str(&mut m, session_id.as_str());
                m
            },
            RegistryError::NegativeRecent => owned("--recent must be non-negative"),
            RegistryError::NoSession => owned(
                "no session ID found; pass SESSION_ID or --session-id, or set AGENT_ID_SESSION_ID",
            ),
            RegistryError::NoRealmCandidates => owned("bundled realm candidate list is empty"),
            RegistryError::InvalidExtension { argument } => {
                let mut m = owned("extension must be OWNER=JSON with a JSON value: ");
                push_str(&mut m, argument.as_str());
                m
            },
            RegistryError::InvalidTimestamp { text } => {
                let mut m = owned("not an RFC 3339 timestamp: ");
                push_str(&mut m, text.as_str());
                m
            },
        }
    }
}

} // verus!
