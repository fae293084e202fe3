//! A worker core: its own TCP machinery plus the synthetic workload. Each
//! completed pop carries the work parameters in its payload — bytes 32..40
//! the iteration count, bytes 40..48 the randomness, both little-endian —
//! and the unchanged payload is echoed back.

use vstd::prelude::*;
use crate::bytes::{read_le64, spec_le64};
use crate::ctrlblk::{ControlBlock, State};
use crate::fail::{Fail, EINVAL};
use crate::fakework::FakeWorker;
use crate::sender::MAX_WINDOW;

verus! {

/// Byte offset of the iteration count in a request payload.
pub const ITERS_OFFSET: usize = 32;

/// Byte offset of the randomness word in a request payload.
pub const RND_OFFSET: usize = 40;

/// Bytes a payload must hold to carry work parameters.
pub const PARAMS_END: usize = 48;

/// What a worker is built from.
pub struct WorkerArg {
    /// This worker's index.
    pub worker_id: u16,
    /// The fake-work spec string.
    pub spec: Vec<u8>,
}

/// One worker core's state.
pub struct Worker {
    pub worker_id: u16,
    pub fakework: FakeWorker,
}

/// Reads the work parameters out of a request payload: the iteration count
/// and the randomness word, or nothing when the payload is too short to
/// carry them.
pub fn parse_work_params(payload: &[u8]) -> (r: Option<(u64, u64)>)
    ensures
        payload@.len() >= PARAMS_END ==> r == Some((
            spec_le64(payload@, ITERS_OFFSET as int),
            spec_le64(payload@, RND_OFFSET as int),
        )),
        payload@.len() < PARAMS_END ==> r is None,
{
    if payload.len() < PARAMS_END {
        return None;
    }
    let iters = read_le64(payload, ITERS_OFFSET);
    let rnd = read_le64(payload, RND_OFFSET);
    Some((iters, rnd))
}

impl Worker {
    /// Builds a worker from its argument block: the workload is the one the
    /// spec string names (by variant and shape), under this worker's id;
    /// construction fails exactly when the string is outside the fake-work
    /// grammar.
    pub fn new(args: &WorkerArg) -> (r: Result<Worker, Fail>)
        ensures
            r is Ok <==> crate::fakework::spec_grammar_ok(args.spec@),
            r matches Ok(w) ==> w.worker_id == args.worker_id
                && w.fakework.wf()
                && crate::fakework::spec_workload_matches(w.fakework, args.spec@),
            r matches Err(e) ==> e.errno == EINVAL,
    {
        let fakework = match FakeWorker::create(args.spec.as_slice()) {
            Ok(f) => f,
            Err(e) => {
                return Err(e);
            },
        };
        Ok(Worker { worker_id: args.worker_id, fakework })
    }

    /// Services one completed pop: runs the synthetic work with the
    /// parameters the payload carries (zero each when the payload is too
    /// short to carry them), then offers the same payload back for
    /// transmission — echo semantics, byte for byte. Returns the work
    /// digest; fails only when the connection no longer accepts sends.
    pub fn process_payload(&self, cb: &mut ControlBlock, payload: Vec<u8>)
        -> (r: Result<u64, Fail>)
        requires
            old(cb).wf(),
            self.fakework.wf(),
        ensures
            final(cb).wf(),
            (old(cb).state == State::Established || old(cb).state == State::CloseWait)
                ==> {
                    let iters = (if payload@.len() >= PARAMS_END {
                        spec_le64(payload@, ITERS_OFFSET as int)
                    } else {
                        0u64
                    });
                    let rnd = (if payload@.len() >= PARAMS_END {
                        spec_le64(payload@, RND_OFFSET as int)
                    } else {
                        0u64
                    });
                    &&& (r matches Ok(d)
                        && d == crate::fakework::spec_work(self.fakework, iters, rnd))
                    &&& final(cb).sender.unsent@ == old(cb).sender.unsent@ + payload@
                },
            !(old(cb).state == State::Established || old(cb).state == State::CloseWait)
                ==> (r matches Err(e) && e.errno == crate::fail::ENOTCONN)
                    && *final(cb) == *old(cb),
    {
        let (iters, rnd) = match parse_work_params(payload.as_slice()) {
            Some(p) => p,
            None => (0, 0),
        };
        let digest = self.fakework.work(iters, rnd);
        match cb.send(payload) {
            Ok(()) => Ok(digest),
            Err(e) => Err(e),
        }
    }
}

} // verus!
