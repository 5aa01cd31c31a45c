//! The action and capability model: what a client may ask for, and how a
//! capability's answer (or refusal) becomes an outcome.

use vstd::prelude::*;
use vstd::string::StringExecFns;

verus! {

/// One unit of requested work, decoded from a client message.
///
/// The variant set is closed at compile time, but the queue and the pool
/// never inspect it: new variants extend only the capability layer.
pub enum Action {
    /// Retrieve the full textual content stored under `key`
    /// (a filesystem path for the built-in capability).
    Read { key: String },
}

/// The outcome of one action: the original action echoed back for
/// correlation, paired with either a success payload or a failure message.
pub struct ActionResult {
    pub action: Action,
    pub outcome: Result<String, String>,
}

impl Action {
    /// The request key identifying the resource this action touches.
    pub open spec fn spec_key(self) -> Seq<char> {
        match self {
            Action::Read { key } => key@,
        }
    }

    /// Whether a memoised payload may stand in for executing this action:
    /// only idempotent, read-like variants are eligible, so that future
    /// variants with side effects are kept away from the cache.
    pub open spec fn spec_cache_eligible(self) -> bool {
        match self {
            Action::Read { .. } => true,
        }
    }

    pub fn key(&self) -> (k: &String)
        ensures
            k@ == self.spec_key(),
    {
        match self {
            Action::Read { key } => key,
        }
    }

    pub fn cache_eligible(&self) -> (e: bool)
        ensures
            e == self.spec_cache_eligible(),
    {
        match self {
            Action::Read { .. } => true,
        }
    }
}

/// The failure message prefix that wraps an underlying capability error.
pub open spec fn spec_failure_prefix() -> Seq<char> {
    "Cannot Action: "@
}

/// The uniform message for a variant the capability does not implement.
pub open spec fn spec_unsupported_message() -> Seq<char> {
    "Cannot Action."@
}

/// The message delivered for jobs still queued when the service shuts down.
pub open spec fn spec_shutdown_message() -> Seq<char> {
    "Cannot Action: service shutting down."@
}

/// Builds the outcome of a capability invocation for `action`, given what
/// the capability's resource access returned: a success keeps the payload
/// as-is, a failure wraps the underlying error text in a descriptive
/// message.  Total over both cases; a failing invocation becomes data,
/// never a panic.
pub fn read_outcome(action: Action, read: Result<String, String>) -> (r: ActionResult)
    ensures
        r.action == action,
        read is Ok ==> r.outcome == Ok::<String, String>(read->Ok_0),
        read is Err ==> r.outcome is Err && r.outcome->Err_0@ == spec_failure_prefix()
            + read->Err_0@,
{
    match read {
        Ok(content) => ActionResult { action, outcome: Ok(content) },
        Err(error) => ActionResult {
            action,
            outcome: Err(String::from_str("Cannot Action: ").concat(error.as_str())),
        },
    }
}

/// Builds the uniform failure outcome for an action variant that the
/// capability does not implement.  Total; never a panic, so an
/// unrecognised variant cannot terminate a worker.
pub fn unsupported_outcome(action: Action) -> (r: ActionResult)
    ensures
        r.action == action,
        r.outcome is Err && r.outcome->Err_0@ == spec_unsupported_message(),
{
    ActionResult { action, outcome: Err(String::from_str("Cannot Action.")) }
}

/// Builds the service-unavailable failure outcome delivered for a job
/// that was still queued when the service shut down.
pub fn shutdown_outcome(action: Action) -> (r: ActionResult)
    ensures
        r.action == action,
        r.outcome is Err && r.outcome->Err_0@ == spec_shutdown_message(),
{
    ActionResult {
        action,
        outcome: Err(String::from_str("Cannot Action: service shutting down.")),
    }
}

} // verus!
