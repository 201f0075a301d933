use vstd::prelude::*;

verus! {

/// When deleting, whether the deletion should be only for this session or for all sessions.
#[derive(Clone, Copy, Debug, PartialEq, Eq, Structural)]
pub enum DeletionScope {
    SessionOnly,
    AllSessions,
}

} // verus!
