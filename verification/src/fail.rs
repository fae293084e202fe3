//! Error values carried through the stack, mirroring the POSIX errno
//! convention: every failure is an errno plus nothing else, so errors can
//! cross the library boundary as plain integers.

use vstd::prelude::*;

verus! {

/// `errno`: interrupted call.
pub const EINTR: i32 = 4;
/// `errno`: resource temporarily unavailable; retry later.
pub const EAGAIN: i32 = 11;
/// `errno`: invalid argument.
pub const EINVAL: i32 = 22;
/// `errno`: bad message (malformed or unexpected segment).
pub const EBADMSG: i32 = 74;
/// `errno`: operation not supported.
pub const ENOTSUP: i32 = 95;
/// `errno`: connection reset by peer.
pub const ECONNRESET: i32 = 104;
/// `errno`: endpoint is not connected.
pub const ENOTCONN: i32 = 107;
/// `errno`: connection timed out.
pub const ETIMEDOUT: i32 = 110;
/// `errno`: connection refused.
pub const ECONNREFUSED: i32 = 111;

/// A failure, identified by its errno.
#[derive(Clone, Copy, Debug, PartialEq, Eq, Structural)]
pub struct Fail {
    pub errno: i32,
}

impl Fail {
    pub fn new(errno: i32) -> (r: Fail)
        ensures
            r.errno == errno,
    {
        Fail { errno }
    }
}

} // verus!
