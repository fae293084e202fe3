//! The retry discipline for closing a kernel file descriptor: the close
//! call itself is I/O and lives with the caller; this is the decision taken
//! on each outcome.

use vstd::prelude::*;
use crate::fail::EINTR;

verus! {

/// What to do after one close attempt.
#[derive(Clone, Copy, Debug, PartialEq, Eq, Structural)]
pub enum CloseAction {
    /// The descriptor is closed.
    Done,
    /// The call was interrupted; yield and try again.
    Retry,
    /// The call failed with this errno; give up.
    Failed(i32),
}

/// Decides the next step from a close attempt's return code and errno:
/// success finishes, an interrupted call retries, anything else fails with
/// the errno observed.
pub fn close_step(rc: i32, errno: i32) -> (r: CloseAction)
    ensures
        rc == 0 ==> r == CloseAction::Done,
        rc != 0 && errno == EINTR ==> r == CloseAction::Retry,
        rc != 0 && errno != EINTR ==> r == CloseAction::Failed(errno),
{
    if rc == 0 {
        CloseAction::Done
    } else if errno == EINTR {
        CloseAction::Retry
    } else {
        CloseAction::Failed(errno)
    }
}

} // verus!
