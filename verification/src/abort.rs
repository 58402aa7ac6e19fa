//! Aborting the task behind an abort handle.
//!
//! Aborting hands back a record of it, an [`AbortedTask`]. Only
//! [`abort_task`] makes one, right after aborting, so holding a record for a
//! handle shows that the handle's task was aborted.

use vstd::prelude::*;
use futures::future::AbortHandle;

verus! {

/// Record that the task registered with a handle was aborted.
pub struct AbortedTask {
    handle: Ghost<AbortHandle>,
}

impl AbortedTask {
    /// The handle whose task was aborted.
    pub closed spec fn handle(&self) -> AbortHandle {
        self.handle@
    }
}

/// Aborts the task registered with `handle`: `futures`' `AbortHandle::abort`,
/// which marks the task aborted (its `Abortable` resolves to an error from
/// then on, and `is_aborted` holds) and wakes it. Returns the record of that
/// abort, for `handle`.
#[verifier::external_body]
pub(crate) fn abort_task(handle: &AbortHandle) -> (res: AbortedTask)
    ensures
        res.handle() == *handle,
{
    handle.abort();
    AbortedTask { handle: Ghost(*handle) }
}

} // verus!
