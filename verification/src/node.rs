//! The node loop's decisions: what a poll response leads to, and the
//! floors on the loop intervals. The loop itself — HTTP calls and sleeps —
//! runs outside the core and feeds events in.

use vstd::prelude::*;
use crate::ids::Id;
use crate::models::Snapshot;

verus! {

/// A node's view of which version it last applied.
#[derive(Debug)]
pub struct NodeRuntime {
    pub current_version: Option<Id>,
}

/// What the published-config poll returned.
pub enum PollResponse {
    /// No config has been published yet: a no-op.
    NotFound,
    /// The call failed or the body did not parse: log and retry next tick.
    Failure,
    /// A published snapshot with its version id.
    Published { version_id: Option<Id>, snapshot: Snapshot },
}

/// What the node does with a poll response.
pub enum PollAction {
    Ignore,
    Apply { version_id: Option<Id>, snapshot: Snapshot },
}

impl NodeRuntime {
    /// A node that has applied nothing yet.
    pub fn new() -> (r: NodeRuntime)
        ensures
            r.current_version is None,
    {
        NodeRuntime { current_version: None }
    }

    /// Decides one poll: apply exactly when a published snapshot arrived
    /// whose version differs from the last applied one.
    pub fn poll_step(&self, response: PollResponse) -> (r: PollAction)
        ensures
            match response {
                PollResponse::Published { version_id, snapshot } => {
                    if version_id == self.current_version {
                        r is Ignore
                    } else {
                        r == (PollAction::Apply { version_id, snapshot })
                    }
                },
                _ => r is Ignore,
            },
    {
        match response {
            PollResponse::Published { version_id, snapshot } => {
                let same = match (&version_id, &self.current_version) {
                    (None, None) => true,
                    (Some(a), Some(b)) => a.hi == b.hi && a.lo == b.lo,
                    _ => false,
                };
                if same {
                    PollAction::Ignore
                } else {
                    PollAction::Apply { version_id, snapshot }
                }
            },
            _ => PollAction::Ignore,
        }
    }

    /// Records a successful apply; only then does the version advance, so
    /// a failed apply is retried on the next poll.
    pub fn on_applied(&mut self, version_id: Option<Id>)
        ensures
            final(self).current_version == version_id,
    {
        self.current_version = version_id;
    }
}

/// The loop intervals are floored at two seconds.
pub fn effective_interval(secs: u64) -> (r: u64)
    ensures
        r == if secs < 2 {
            2u64
        } else {
            secs
        },
{
    if secs < 2 {
        2
    } else {
        secs
    }
}

} // verus!
