//! The lifecycle state that a coding-agent session reports.
use vstd::prelude::*;

use crate::text::str_equal;
use crate::timestamp::Timestamp;

verus! {

broadcast use vstd::string::group_string_axioms;

/// A session's lifecycle state.
#[derive(Debug, Clone, Copy, PartialEq, Eq, Structural)]
pub enum ActivityStateValue {
    Working,
    Idle,
    Waiting,
    Blocked,
    Stopped,
    Unknown,
}

impl ActivityStateValue {
    /// The external name of the state.
    pub open spec fn name_text(self) -> Seq<char> {
        match self {
            ActivityStateValue::Working => "working"@,
            ActivityStateValue::Idle => "idle"@,
            ActivityStateValue::Waiting => "waiting"@,
            ActivityStateValue::Blocked => "blocked"@,
            ActivityStateValue::Stopped => "stopped"@,
            ActivityStateValue::Unknown => "unknown"@,
        }
    }

    /// The state an external name stands for; any other text is `Unknown`.
    pub open spec fn from_text(value: Seq<char>) -> ActivityStateValue {
        if value == "working"@ {
            ActivityStateValue::Working
        } else if value == "idle"@ {
            ActivityStateValue::Idle
        } else if value == "waiting"@ {
            ActivityStateValue::Waiting
        } else if value == "blocked"@ {
            ActivityStateValue::Blocked
        } else if value == "stopped"@ {
            ActivityStateValue::Stopped
        } else {
            ActivityStateValue::Unknown
        }
    }

    /// The state named by an external signal; unrecognised text is `Unknown`.
    pub fn from_external(value: &str) -> (r: ActivityStateValue)
        ensures
            r == ActivityStateValue::from_text(value@),
    {
        if str_equal(value, "working") {
            ActivityStateValue::Working
        } else if str_equal(value, "idle") {
            ActivityStateValue::Idle
        } else if str_equal(value, "waiting") {
            ActivityStateValue::Waiting
        } else if str_equal(value, "blocked") {
            ActivityStateValue::Blocked
        } else if str_equal(value, "stopped") {
            ActivityStateValue::Stopped
        } else {
            ActivityStateValue::Unknown
        }
    }

    /// The external name of the state, as it is displayed.
    pub fn as_str(&self) -> (r: &'static str)
        ensures
            r@ == self.name_text(),
    {
        match self {
            ActivityStateValue::Working => "working",
            ActivityStateValue::Idle => "idle",
            ActivityStateValue::Waiting => "waiting",
            ActivityStateValue::Blocked => "blocked",
            ActivityStateValue::Stopped => "stopped",
            ActivityStateValue::Unknown => "unknown",
        }
    }

    /// The external name of the state, as it is displayed.
    pub fn to_string(&self) -> (r: String)
        ensures
            r@ == self.name_text(),
    {
        crate::text::owned(self.as_str())
    }
}

/// Reading back the displayed name of a state gives the same state.
pub proof fn lemma_state_name_round_trip(v: ActivityStateValue)
    ensures
        ActivityStateValue::from_text(v.name_text()) == v,
{
    reveal_strlit("working");
    reveal_strlit("idle");
    reveal_strlit("waiting");
    reveal_strlit("blocked");
    reveal_strlit("stopped");
    reveal_strlit("unknown");
    assert("working"@[1] == 'o' && "waiting"@[1] == 'a');
    assert("idle"@.len() == 4 && "working"@.len() == 7 && "waiting"@.len() == 7);
    assert("blocked"@[0] == 'b' && "stopped"@[0] == 's' && "unknown"@[0] == 'u');
    assert("working"@[0] == 'w' && "waiting"@[0] == 'w' && "idle"@[0] == 'i');
}

/// A lifecycle state and when it was reported.
#[derive(Debug, Clone, Copy, PartialEq, Eq, Structural)]
pub struct ActivityState {
    pub value: ActivityStateValue,
    pub updated_at: Timestamp,
}

impl ActivityState {
    /// The `Unknown` state, reported at `updated_at`.
    pub fn unknown(updated_at: Timestamp) -> (r: ActivityState)
        ensures
            r.value == ActivityStateValue::Unknown,
            r.updated_at == updated_at,
    {
        ActivityState { value: ActivityStateValue::Unknown, updated_at }
    }

    /// The state named by an external signal, reported at `updated_at`.
    pub fn from_external(value: &str, updated_at: Timestamp) -> (r: ActivityState)
        ensures
            r.value == ActivityStateValue::from_text(value@),
            r.updated_at == updated_at,
    {
        ActivityState { value: ActivityStateValue::from_external(value), updated_at }
    }
}

} // verus!
