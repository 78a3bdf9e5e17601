//! The command line's parsed form: subcommands and their arguments.
use vstd::prelude::*;

use crate::activity::ActivityStateValue;

verus! {

/// The first of two optional values that is given.
pub open spec fn first_given(a: Option<String>, b: Option<String>) -> Option<Seq<char>> {
    match a {
        Some(s) => Some(s@),
        None => match b {
            Some(s) => Some(s@),
            None => None,
        },
    }
}

fn first_of<'a>(a: &'a Option<String>, b: &'a Option<String>) -> (r: Option<&'a str>)
    ensures
        r matches Some(s) ==> first_given(*a, *b) == Some(s@),
        r is None ==> first_given(*a, *b) is None,
{
    match a {
        Some(s) => Some(s.as_str()),
        None => match b {
            Some(s) => Some(s.as_str()),
            None => None,
        },
    }
}

/// The parsed command line.
#[derive(Debug)]
pub struct Cli {
    pub command: Commands,
}

/// The subcommands.
#[derive(Debug)]
pub enum Commands {
    /// Register a new permanent identity for a session
    Register(RegisterArgs),
    /// Look up the identity already registered for a session
    Lookup(LookupArgs),
    /// Look up the identity for AGENT_ID_SESSION_ID
    Current(CurrentArgs),
    /// Set or clear the current-work summary for a registered session
    Annotate(AnnotateArgs),
    /// List identity assignments; stopped assignments are hidden by default
    Discover(DiscoverArgs),
    /// Remove identity assignments older than a cutoff
    Prune(PruneArgs),
    /// Output the agent-facing identity workflow manual
    Prime(PrimeArgs),
}

/// Arguments of `current`.
#[derive(Debug)]
pub struct CurrentArgs {
    /// Print the complete assignment as JSON
    pub json: bool,
}

/// Arguments of `register`.
#[derive(Debug)]
pub struct RegisterArgs {
    /// Harness session ID; falls back to AGENT_ID_SESSION_ID
    pub session: Option<String>,
    /// Explicit harness session ID
    pub session_id: Option<String>,
    /// Prefer this family name when allocating the identity
    pub family: Option<String>,
    /// Computer realm; falls back to AGENT_REALM or config
    pub realm: Option<String>,
    /// Print the complete assignment as JSON
    pub json: bool,
}

impl RegisterArgs {
    /// The session ID given on the command line, positional first.
    pub fn explicit_session(&self) -> (r: Option<&str>)
        ensures
            r matches Some(s) ==> first_given(self.session, self.session_id) == Some(s@),
            r is None ==> first_given(self.session, self.session_id) is None,
    {
        first_of(&self.session, &self.session_id)
    }
}

/// Arguments of `lookup`.
#[derive(Debug)]
pub struct LookupArgs {
    /// Session ID, canonical name, or slug; falls back to AGENT_ID_SESSION_ID
    pub input: Option<String>,
    /// Explicit session ID
    pub session_id: Option<String>,
    /// Print the complete assignment as JSON
    pub json: bool,
}

impl LookupArgs {
    /// The identifier given on the command line, positional first.
    pub fn explicit_input(&self) -> (r: Option<&str>)
        ensures
            r matches Some(s) ==> first_given(self.input, self.session_id) == Some(s@),
            r is None ==> first_given(self.input, self.session_id) is None,
    {
        first_of(&self.input, &self.session_id)
    }
}

/// Arguments of `annotate`.
#[derive(Debug)]
pub struct AnnotateArgs {
    /// Harness session ID; falls back to AGENT_ID_SESSION_ID
    pub session: Option<String>,
    /// Explicit harness session ID
    pub session_id: Option<String>,
    /// Set the concise current-work summary
    pub summary: Option<String>,
    /// Remove the current-work summary
    pub clear_summary: bool,
    /// Set the OMP lifecycle state signal
    pub state: Option<ActivityStateValue>,
    /// Remove the OMP lifecycle state signal
    pub clear_state: bool,
    /// Set the current working directory
    pub cwd: Option<String>,
    /// Remove the current working directory
    pub clear_cwd: bool,
    /// Set namespaced extension metadata from OWNER=JSON
    pub extensions: Vec<String>,
    /// Remove one namespaced extension metadata value
    pub clear_extensions: Vec<String>,
    /// Print the complete assignment as JSON
    pub json: bool,
}

impl AnnotateArgs {
    /// The session ID given on the command line, positional first.
    pub fn explicit_session(&self) -> (r: Option<&str>)
        ensures
            r matches Some(s) ==> first_given(self.session, self.session_id) == Some(s@),
            r is None ==> first_given(self.session, self.session_id) is None,
    {
        first_of(&self.session, &self.session_id)
    }
}

/// Arguments of `discover`.
#[derive(Debug)]
pub struct DiscoverArgs {
    /// Maximum records to print; zero prints all records
    pub limit: usize,
    /// Only include records updated within this many hours
    pub recent: Option<i64>,
    /// Only include records in this realm
    pub realm: Option<String>,
    /// Include stopped assignments
    pub all: bool,
    /// Print the complete assignments as JSON
    pub json: bool,
}

/// Arguments of `prune`.
#[derive(Debug)]
pub struct PruneArgs {
    /// Remove records with updated_at before this RFC 3339 timestamp
    pub before: String,
    /// Preview matching records without deleting them
    pub dry_run: bool,
    /// Print the prune report as JSON
    pub json: bool,
}

/// Arguments of `prime`.
#[derive(Debug)]
pub struct PrimeArgs {
    /// Output only the workflow prelude
    pub prelude: bool,
    /// Wrap the documentation in a JSON object
    pub json: bool,
}

} // verus!
