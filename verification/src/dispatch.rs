//! The dispatcher core: classifies received packets by 5-tuple, routes each
//! to its connection's worker through that worker's ring, keeps the
//! first-in/first-out list of idle workers, and parks overflow work in a
//! bounded queue — counting, not crashing, when even that is full.
//!
//! The idle list and the overflow queue are fixed-capacity vectors from an
//! outside crate, used through trusted wrappers whose contracts state what
//! that crate's source shows.

use vstd::prelude::*;
use crate::endpoint::Endpoint;
use crate::bytes::{be16, be32, spec_be16, spec_be32};
use crate::fail::{Fail, ENOTCONN, EAGAIN};
use crate::peer::{InetQueue, Socket, SocketId, TcpQueue, EstablishedSocket};
use crate::passive_open::{PassiveSocket, PassiveOutput, spec_passive_receive_post};
use crate::ring::{Ring, WorkItem};
use crate::tcp_header::TcpHeader;

verus! {

/// The most workers a dispatcher drives.
pub const MAX_WORKERS: usize = 32;

/// Capacity of the overflow work queue.
pub const MAX_WORK_QUEUE: usize = 1024;

/// The items of the idle-worker list, oldest first.
pub uninterp spec fn idle_list_view(q: arrayvec::ArrayVec<u16, 32>) -> Seq<u16>;

/// The items of the overflow work queue, oldest first.
pub uninterp spec fn work_queue_view(q: arrayvec::ArrayVec<(u64, u32), 1024>)
    -> Seq<(u64, u32)>;

/// The fixed-capacity vector of the outside collection crate, opaque here.
#[verifier::external_type_specification]
#[verifier::external_body]
#[verifier::reject_recursive_types(T)]
pub struct ExArrayVec<T, const CAP: usize>(arrayvec::ArrayVec<T, CAP>);

/// Relies on `arrayvec::ArrayVec::new`: a fresh vector holds nothing.
#[verifier::external_body]
fn idle_list_new() -> (q: arrayvec::ArrayVec<u16, 32>)
    ensures
        idle_list_view(q) == Seq::<u16>::empty(),
{
    arrayvec::ArrayVec::new()
}

/// Relies on `arrayvec::ArrayVec::try_push`: appends and succeeds below
/// capacity; fails, changing nothing, at capacity.
#[verifier::external_body]
fn idle_list_push(q: &mut arrayvec::ArrayVec<u16, 32>, w: u16) -> (r: bool)
    ensures
        idle_list_view(*old(q)).len() < 32 ==> r
            && idle_list_view(*final(q)) == idle_list_view(*old(q)).push(w),
        idle_list_view(*old(q)).len() >= 32 ==> !r
            && idle_list_view(*final(q)) == idle_list_view(*old(q)),
{
    match q.try_push(w) {
        Ok(()) => true,
        Err(_) => false,
    }
}

/// Relies on `arrayvec::ArrayVec::pop_at`: removes and returns the first
/// item, or nothing when empty.
#[verifier::external_body]
fn idle_list_pop_front(q: &mut arrayvec::ArrayVec<u16, 32>) -> (r: Option<u16>)
    ensures
        idle_list_view(*old(q)).len() == 0 ==> r is None
            && idle_list_view(*final(q)) == idle_list_view(*old(q)),
        idle_list_view(*old(q)).len() > 0 ==> r == Some(idle_list_view(*old(q))[0])
            && idle_list_view(*final(q)) == idle_list_view(*old(q)).skip(1),
{
    q.pop_at(0)
}

/// Relies on `arrayvec::ArrayVec::len`.
#[verifier::external_body]
fn idle_list_len(q: &arrayvec::ArrayVec<u16, 32>) -> (r: usize)
    ensures
        r == idle_list_view(*q).len(),
{
    q.len()
}

/// Relies on `arrayvec::ArrayVec`'s slice view (`first`): the first item,
/// without removing it, or nothing when empty.
#[verifier::external_body]
fn idle_list_first(q: &arrayvec::ArrayVec<u16, 32>) -> (r: Option<u16>)
    ensures
        idle_list_view(*q).len() == 0 ==> r is None,
        idle_list_view(*q).len() > 0 ==> r == Some(idle_list_view(*q)[0]),
{
    q.first().copied()
}

/// Relies on `arrayvec::ArrayVec::new`: a fresh vector holds nothing.
#[verifier::external_body]
fn work_queue_new() -> (q: arrayvec::ArrayVec<(u64, u32), 1024>)
    ensures
        work_queue_view(q) == Seq::<(u64, u32)>::empty(),
{
    arrayvec::ArrayVec::new()
}

/// Relies on `arrayvec::ArrayVec::try_push`: appends and succeeds below
/// capacity; fails, changing nothing, at capacity.
#[verifier::external_body]
fn work_queue_push(q: &mut arrayvec::ArrayVec<(u64, u32), 1024>, item: (u64, u32))
    -> (r: bool)
    ensures
        work_queue_view(*old(q)).len() < 1024 ==> r
            && work_queue_view(*final(q)) == work_queue_view(*old(q)).push(item),
        work_queue_view(*old(q)).len() >= 1024 ==> !r
            && work_queue_view(*final(q)) == work_queue_view(*old(q)),
{
    match q.try_push(item) {
        Ok(()) => true,
        Err(_) => false,
    }
}

/// Relies on `arrayvec::ArrayVec::pop_at`: removes and returns the first
/// item, or nothing when empty.
#[verifier::external_body]
fn work_queue_pop_front(q: &mut arrayvec::ArrayVec<(u64, u32), 1024>)
    -> (r: Option<(u64, u32)>)
    ensures
        work_queue_view(*old(q)).len() == 0 ==> r is None
            && work_queue_view(*final(q)) == work_queue_view(*old(q)),
        work_queue_view(*old(q)).len() > 0 ==> r == Some(work_queue_view(*old(q))[0])
            && work_queue_view(*final(q)) == work_queue_view(*old(q)).skip(1),
{
    q.pop_at(0)
}

/// Relies on `arrayvec::ArrayVec::len`.
#[verifier::external_body]
fn work_queue_len(q: &arrayvec::ArrayVec<(u64, u32), 1024>) -> (r: usize)
    ensures
        r == work_queue_view(*q).len(),
{
    q.len()
}

/// Relies on `arrayvec::ArrayVec`'s slice view (`first`): the first item,
/// without removing it, or nothing when empty.
#[verifier::external_body]
fn work_queue_first(q: &arrayvec::ArrayVec<(u64, u32), 1024>) -> (r: Option<(u64, u32)>)
    ensures
        work_queue_view(*q).len() == 0 ==> r is None,
        work_queue_view(*q).len() > 0 ==> r == Some(work_queue_view(*q)[0]),
{
    q.first().copied()
}

/// A worker's handoff flag, written by one side at a time.
#[derive(Clone, Copy, Debug, PartialEq, Eq, Structural)]
pub enum WorkerState {
    /// The worker finished its item; the dispatcher has not noticed yet.
    Idle,
    /// The dispatcher has moved the worker back to the idle list.
    AlreadyIdle,
    /// The worker holds an item.
    Busy,
}

/// The dispatcher's routing state.
pub struct Dispatcher {
    /// How many workers are driven; their ids are `0..nr_workers`.
    pub nr_workers: u16,
    /// Idle workers, oldest first; no worker appears twice.
    pub idle_workers: arrayvec::ArrayVec<u16, 32>,
    /// Work that found no idle worker, oldest first.
    pub queue_work: arrayvec::ArrayVec<(u64, u32), 1024>,
    /// Packets dropped because even the overflow queue was full. The drop
    /// policy: count and drop, never crash.
    pub dropped: u64,
    /// The flow directory: who owns which queue descriptor.
    pub addresses: Vec<(SocketId, u32)>,
    /// The queue table; a descriptor is an index here.
    pub qtable: Vec<InetQueue>,
    /// Per worker, the control-block handle it is busy with: while a
    /// connection is in a worker's hands, later packets of that connection
    /// follow it there rather than going to another worker.
    pub busy_cb: Vec<Option<u32>>,
}

/// Where one packet was routed.
pub enum RouteDecision {
    /// Handed to this worker's ring.
    ToWorker(u16),
    /// Parked in the overflow queue (no usable worker, or its ring full).
    Queued,
    /// Overflow queue full as well: dropped (and counted).
    Dropped,
}

/// What parking an item in the overflow queue promises: appended while
/// there is room; dropped — and counted, never crashing — when even the
/// overflow queue is full.
pub open spec fn spec_overflow_post(
    pre: Dispatcher,
    post: Dispatcher,
    item: WorkItem,
    r: RouteDecision,
) -> bool {
    &&& work_queue_view(pre.queue_work).len() < MAX_WORK_QUEUE ==> {
        &&& r is Queued
        &&& work_queue_view(post.queue_work) == work_queue_view(pre.queue_work).push(item)
        &&& post.dropped == pre.dropped
    }
    &&& work_queue_view(pre.queue_work).len() >= MAX_WORK_QUEUE ==> {
        &&& r is Dropped
        &&& work_queue_view(post.queue_work) == work_queue_view(pre.queue_work)
        &&& (post.dropped == pre.dropped + 1 || post.dropped == pre.dropped)
    }
}

/// The listening outcome mirrors the passive socket's decision: a completed
/// handshake becomes an accepted descriptor, a SYN+ACK request is passed on
/// as the reply to transmit, an ignored segment stays ignored, and an error
/// keeps its errno.
pub open spec fn spec_mirrors_passive(
    r0: Result<PassiveOutput, Fail>,
    r: Result<ListenOutcome, Fail>,
) -> bool {
    match r0 {
        Ok(PassiveOutput::Completed(_)) => r matches Ok(o) && o is Accepted,
        Ok(PassiveOutput::SynAck(reply)) => (r matches Ok(o)
            && o matches ListenOutcome::Reply(h) && h == reply),
        Ok(PassiveOutput::Ignored) => r matches Ok(o) && o is Ignored,
        Err(e) => r == Err::<ListenOutcome, Fail>(e),
    }
}

/// The workers whose flags read `Idle` among the first `n`, in worker order.
pub open spec fn spec_idle_flagged(flags: Seq<WorkerState>, n: int) -> Seq<u16>
    decreases (if n >= 0 { n } else { 0 }),
{
    if n <= 0 {
        Seq::empty()
    } else {
        spec_idle_flagged(flags, n - 1)
            + (if flags[n - 1] == WorkerState::Idle {
                seq![(n - 1) as u16]
            } else {
                Seq::empty()
            })
    }
}

/// A duplicate-free list of worker ids below `bound` has at most `bound`
/// entries.
proof fn idle_unique_below_count(s: Seq<u16>, bound: int)
    requires
        forall|i: int, j: int| 0 <= i < j < s.len() ==> #[trigger] s[i] != #[trigger] s[j],
        forall|i: int| 0 <= i < s.len() ==> (#[trigger] s[i]) < bound,
        bound >= 0,
    ensures
        s.len() <= bound,
    decreases bound,
{
    if s.len() > bound {
        if bound == 0 {
            assert(s[0] < 0);
        } else {
            let v = (bound - 1) as u16;
            if exists|i: int| 0 <= i < s.len() && s[i] == v {
                let w = choose|i: int| 0 <= i < s.len() && s[i] == v;
                let t = s.remove(w);
                assert forall|i: int, j: int| 0 <= i < j < t.len()
                    implies #[trigger] t[i] != #[trigger] t[j] by {
                    if j < w {
                        assert(s[i] != s[j]);
                    } else if i < w {
                        assert(s[i] != s[j + 1]);
                    } else {
                        assert(s[i + 1] != s[j + 1]);
                    }
                }
                assert forall|i: int| 0 <= i < t.len()
                    implies (#[trigger] t[i]) < bound - 1 by {
                    if i < w {
                        assert(s[i] < bound && s[i] != v);
                    } else {
                        assert(s[i + 1] < bound && s[i + 1] != v);
                    }
                }
                idle_unique_below_count(t, bound - 1);
            } else {
                assert forall|i: int| 0 <= i < s.len()
                    implies (#[trigger] s[i]) < bound - 1 by {
                    assert(s[i] < bound && s[i] != v);
                }
                idle_unique_below_count(s, bound - 1);
            }
        }
    }
}

/// Every collected worker id lies below the scan bound and had the `Idle`
/// flag.
proof fn lemma_idle_flagged_bounds(flags: Seq<WorkerState>, n: int)
    requires
        n <= 0x1_0000,
    ensures
        forall|k: int| 0 <= k < spec_idle_flagged(flags, n).len()
            ==> (#[trigger] spec_idle_flagged(flags, n)[k]) < n
                && flags[spec_idle_flagged(flags, n)[k] as int] == WorkerState::Idle,
    decreases (if n >= 0 { n } else { 0 }),
{
    if n > 0 {
        lemma_idle_flagged_bounds(flags, n - 1);
        assert forall|k: int| 0 <= k < spec_idle_flagged(flags, n).len()
            implies (#[trigger] spec_idle_flagged(flags, n)[k]) < n
                && flags[spec_idle_flagged(flags, n)[k] as int]
                    == WorkerState::Idle by {
            if k < spec_idle_flagged(flags, n - 1).len() {
                assert(spec_idle_flagged(flags, n)[k]
                    == spec_idle_flagged(flags, n - 1)[k]);
            } else {
                assert(flags[n - 1] == WorkerState::Idle);
                assert(spec_idle_flagged(flags, n)[k] == (n - 1) as u16);
            }
        }
    }
}

impl Dispatcher {
    /// Some worker is busy with this control block.
    pub open spec fn owner_has(self, cb: u32) -> bool {
        exists|w: int| 0 <= w < self.busy_cb@.len()
            && #[trigger] self.busy_cb@[w] == Some(cb)
    }

    /// The worker busy with this control block.
    pub open spec fn owner_of(self, cb: u32) -> int {
        choose|w: int| 0 <= w < self.busy_cb@.len()
            && #[trigger] self.busy_cb@[w] == Some(cb)
    }

    /// The flow directory maps each key at most once and points into the
    /// queue table; worker ids stay below the worker count; the idle list
    /// holds each worker at most once; no two workers are busy with the
    /// same connection, and an idle worker is busy with nothing.
    pub open spec fn wf(self) -> bool {
        &&& forall|i: int, j: int| 0 <= i < j < self.addresses@.len()
            ==> (#[trigger] self.addresses@[i]).0 != (#[trigger] self.addresses@[j]).0
        &&& forall|i: int| 0 <= i < self.addresses@.len()
            ==> (#[trigger] self.addresses@[i]).1 < self.qtable@.len()
        &&& forall|i: int| 0 <= i < idle_list_view(self.idle_workers).len()
            ==> #[trigger] idle_list_view(self.idle_workers)[i] < self.nr_workers
        &&& forall|i: int, j: int| 0 <= i < j < idle_list_view(self.idle_workers).len()
            ==> #[trigger] idle_list_view(self.idle_workers)[i]
                != #[trigger] idle_list_view(self.idle_workers)[j]
        &&& self.busy_cb@.len() == self.nr_workers
        &&& forall|i: int, j: int| 0 <= i < j < self.busy_cb@.len()
            ==> ((#[trigger] self.busy_cb@[i]) is Some
                && (#[trigger] self.busy_cb@[j]) is Some
                ==> self.busy_cb@[i] != self.busy_cb@[j])
        &&& forall|k: int| 0 <= k < idle_list_view(self.idle_workers).len()
            ==> self.busy_cb@[#[trigger] idle_list_view(self.idle_workers)[k] as int]
                is None
        &&& work_queue_view(self.queue_work).len() <= MAX_WORK_QUEUE
        &&& self.nr_workers as int <= MAX_WORKERS
    }

    /// A dispatcher for `nr_workers` workers, all initially idle, with an
    /// empty directory and table.
    pub fn new(nr_workers: u16) -> (r: Dispatcher)
        requires
            1 <= nr_workers <= MAX_WORKERS,
        ensures
            r.wf(),
            r.nr_workers == nr_workers,
            idle_list_view(r.idle_workers).len() == nr_workers,
            forall|i: int| 0 <= i < nr_workers
                ==> #[trigger] idle_list_view(r.idle_workers)[i] == i,
            work_queue_view(r.queue_work).len() == 0,
            r.dropped == 0,
            r.addresses@.len() == 0,
            r.qtable@.len() == 0,
    {
        let mut idle_workers = idle_list_new();
        let mut busy_cb: Vec<Option<u32>> = Vec::new();
        let mut w: u16 = 0;
        while w < nr_workers
            invariant
                w <= nr_workers <= MAX_WORKERS,
                idle_list_view(idle_workers).len() == w,
                busy_cb@.len() == w,
                forall|i: int| 0 <= i < w
                    ==> #[trigger] idle_list_view(idle_workers)[i] == i,
                forall|i: int| 0 <= i < w ==> (#[trigger] busy_cb@[i]) is None,
            decreases nr_workers - w,
        {
            let ok = idle_list_push(&mut idle_workers, w);
            busy_cb.push(None);
            w = w + 1;
        }
        Dispatcher {
            nr_workers,
            idle_workers,
            queue_work: work_queue_new(),
            dropped: 0,
            addresses: Vec::new(),
            qtable: Vec::new(),
            busy_cb,
        }
    }

    /// Binds the listening socket: allocates its queue descriptor and
    /// enters it in the flow directory under its passive identity.
    pub fn prepare(&mut self, local: Endpoint, backlog: usize,
        tcp_config: crate::config::TcpConfig, nonce: u32) -> (r: u32)
        requires
            old(self).wf(),
            tcp_config.window_scale <= 14,
            0 < tcp_config.mss <= 0xffff,
            old(self).qtable@.len() < 0x1_0000,
            !old(self).directory_has(SocketId::Passive(local)),
        ensures
            final(self).wf(),
            r == old(self).qtable@.len(),
            final(self).qtable@.len() == old(self).qtable@.len() + 1,
            final(self).addresses@
                == old(self).addresses@.push((SocketId::Passive(local), r)),
            (final(self).qtable@.last() matches InetQueue::Tcp(q)
                && q.socket matches Socket::Listening(s) && s.local == local
                && s.max_backlog == backlog && s.nonce == nonce
                && s.tcp_config == tcp_config && s.isn_count == 0
                && s.inflight@.len() == 0 && s.ready@.len() == 0),
            final(self).nr_workers == old(self).nr_workers,
            final(self).idle_workers == old(self).idle_workers,
            final(self).queue_work == old(self).queue_work,
            final(self).busy_cb@ == old(self).busy_cb@,
    {
        let socket = PassiveSocket::new(local, backlog, tcp_config, nonce);
        let mut tcp_queue = TcpQueue::new();
        tcp_queue.set_socket(Socket::Listening(socket));
        let qd = self.qtable.len() as u32;
        self.qtable.push(InetQueue::Tcp(tcp_queue));
        self.addresses.push((SocketId::Passive(local), qd));
        proof {
            assert forall|i: int, j: int| 0 <= i < j < self.addresses@.len()
                implies (#[trigger] self.addresses@[i]).0
                    != (#[trigger] self.addresses@[j]).0 by {
                if j < self.addresses@.len() - 1 {
                    assert(old(self).addresses@[i].0 != old(self).addresses@[j].0);
                } else {
                    assert(!old(self).directory_has(SocketId::Passive(local)));
                    assert(old(self).addresses@[i] == self.addresses@[i]);
                }
            }
            assert forall|i: int| 0 <= i < self.addresses@.len()
                implies (#[trigger] self.addresses@[i]).1 < self.qtable@.len() by {
                if i < self.addresses@.len() - 1 {
                    assert(old(self).addresses@[i].1 < old(self).qtable@.len());
                }
            }
        }
        qd
    }

    /// Whether the directory has an entry under `id`.
    pub open spec fn directory_has(self, id: SocketId) -> bool {
        exists|i: int| 0 <= i < self.addresses@.len()
            && (#[trigger] self.addresses@[i]).0 == id
    }

    /// The descriptor the directory maps `id` to.
    pub open spec fn directory_at(self, id: SocketId) -> u32 {
        self.addresses@[choose|i: int| 0 <= i < self.addresses@.len()
            && (#[trigger] self.addresses@[i]).0 == id].1
    }

    /// Looks up `id` in the flow directory.
    fn directory_lookup(&self, id: SocketId) -> (r: Option<u32>)
        requires
            self.wf(),
        ensures
            (r is Some) == self.directory_has(id),
            r matches Some(qd) ==> qd == self.directory_at(id)
                && qd < self.qtable@.len(),
    {
        let n = self.addresses.len();
        for i in 0..n
            invariant
                n == self.addresses@.len(),
                self.wf(),
                forall|j: int| 0 <= j < i ==> (#[trigger] self.addresses@[j]).0 != id,
        {
            if self.addresses[i].0 == id {
                proof {
                    assert(self.addresses@[i as int].0 == id);
                    assert(exists|k: int| 0 <= k < self.addresses@.len()
                        && (#[trigger] self.addresses@[k]).0 == id);
                    let w = choose|k: int| 0 <= k < self.addresses@.len()
                        && (#[trigger] self.addresses@[k]).0 == id;
                    if w != i {
                        if w < i {
                            assert(self.addresses@[w].0 != self.addresses@[i as int].0);
                        } else {
                            assert(self.addresses@[i as int].0 != self.addresses@[w].0);
                        }
                    }
                }
                return Some(self.addresses[i].1);
            }
        }
        proof {
            if self.directory_has(id) {
                let w = choose|k: int| 0 <= k < self.addresses@.len()
                    && (#[trigger] self.addresses@[k]).0 == id;
                assert(self.addresses@[w].0 == id);
            }
        }
        None
    }

    /// The owning descriptor for a packet's addressing: the established
    /// connection's entry if there is one, else the listening socket's.
    pub fn get_qd(&self, local: Endpoint, remote: Endpoint) -> (r: Option<u32>)
        requires
            self.wf(),
        ensures
            self.directory_has(SocketId::Active(local, remote))
                ==> r == Some(self.directory_at(SocketId::Active(local, remote))),
            (!self.directory_has(SocketId::Active(local, remote))
                && self.directory_has(SocketId::Passive(local)))
                ==> r == Some(self.directory_at(SocketId::Passive(local))),
            (!self.directory_has(SocketId::Active(local, remote))
                && !self.directory_has(SocketId::Passive(local)))
                ==> r is None,
            r matches Some(qd) ==> qd < self.qtable@.len(),
    {
        let active = self.directory_lookup(SocketId::Active(local, remote));
        match active {
            Some(qd) => Some(qd),
            None => self.directory_lookup(SocketId::Passive(local)),
        }
    }

    /// Reads the 5-tuple straight from a frame's fixed offsets (Ethernet,
    /// then IPv4 without options, then TCP ports): the packet's local
    /// (destination) and remote (source) endpoints.
    pub fn get_5tuple(pkt: &[u8]) -> (r: Option<(Endpoint, Endpoint)>)
        ensures
            pkt@.len() >= 54 ==> (r matches Some((local, remote)) && {
                &&& local.ip == spec_be32(pkt@[30], pkt@[31], pkt@[32], pkt@[33])
                &&& local.port == spec_be16(pkt@[36], pkt@[37])
                &&& remote.ip == spec_be32(pkt@[26], pkt@[27], pkt@[28], pkt@[29])
                &&& remote.port == spec_be16(pkt@[34], pkt@[35])
            }),
            pkt@.len() < 54 ==> r is None,
    {
        if pkt.len() < 54 {
            return None;
        }
        let src_addr = be32(pkt[26], pkt[27], pkt[28], pkt[29]);
        let dst_addr = be32(pkt[30], pkt[31], pkt[32], pkt[33]);
        let src_port = be16(pkt[34], pkt[35]);
        let dst_port = be16(pkt[36], pkt[37]);
        Some((Endpoint::new(dst_addr, dst_port), Endpoint::new(src_addr, src_port)))
    }

    /// Finds the worker busy with this control block, if any.
    fn find_owner(&self, cb: u32) -> (r: Option<u16>)
        requires
            self.wf(),
        ensures
            (r is Some) == self.owner_has(cb),
            r matches Some(w) ==> w as int == self.owner_of(cb) && w < self.nr_workers
                && self.busy_cb@[w as int] == Some(cb),
    {
        let n = self.busy_cb.len();
        for w in 0..n
            invariant
                n == self.busy_cb@.len(),
                self.wf(),
                forall|j: int| 0 <= j < w ==> #[trigger] self.busy_cb@[j] != Some(cb),
        {
            let hit = (match self.busy_cb[w] {
                Some(c) => c == cb,
                None => false,
            });
            if hit {
                proof {
                    assert(self.busy_cb@[w as int] == Some(cb));
                    assert(exists|k: int| 0 <= k < self.busy_cb@.len()
                        && #[trigger] self.busy_cb@[k] == Some(cb));
                    let v = choose|k: int| 0 <= k < self.busy_cb@.len()
                        && #[trigger] self.busy_cb@[k] == Some(cb);
                    if v != w {
                        if v < w {
                            assert(self.busy_cb@[v] != self.busy_cb@[w as int]);
                        } else {
                            assert(self.busy_cb@[w as int] != self.busy_cb@[v]);
                        }
                    }
                }
                return Some(w as u16);
            }
        }
        proof {
            if self.owner_has(cb) {
                let v = choose|k: int| 0 <= k < self.busy_cb@.len()
                    && #[trigger] self.busy_cb@[k] == Some(cb);
                assert(self.busy_cb@[v] == Some(cb));
            }
        }
        None
    }

    /// Routes one unit of established-connection work. A connection already
    /// in some worker's hands follows it there — packets of one connection
    /// go to the worker that owns its control block, in arrival order; an
    /// unowned one goes to the oldest idle worker, which becomes its owner;
    /// with no idle worker (or the target ring full) the item parks in the
    /// overflow queue, and when even that is full it is dropped, counted.
    pub fn route_established(
        &mut self,
        item: WorkItem,
        rings: &mut Vec<Ring>,
        flags: &mut Vec<WorkerState>,
    ) -> (r: RouteDecision)
        requires
            old(self).wf(),
            old(rings)@.len() == old(self).nr_workers,
            old(flags)@.len() == old(self).nr_workers,
            forall|i: int| 0 <= i < old(rings)@.len() ==> (#[trigger] old(rings)@[i]).wf(),
        ensures
            final(self).wf(),
            final(self).nr_workers == old(self).nr_workers,
            final(self).addresses@ == old(self).addresses@,
            final(self).qtable@ == old(self).qtable@,
            final(rings)@.len() == old(rings)@.len(),
            final(flags)@.len() == old(flags)@.len(),
            forall|i: int| 0 <= i < final(rings)@.len() ==> (#[trigger] final(rings)@[i]).wf(),
            // Owned: the packet follows its connection's worker.
            old(self).owner_has(item.1) ==> {
                let w = old(self).owner_of(item.1);
                &&& final(self).idle_workers == old(self).idle_workers
                &&& final(self).busy_cb@ == old(self).busy_cb@
                &&& final(flags)@ == old(flags)@
                &&& forall|i: int| 0 <= i < old(rings)@.len() && i != w
                    ==> #[trigger] final(rings)@[i] == old(rings)@[i]
                &&& (old(rings)@[w]@.len() < old(rings)@[w].capacity() ==> {
                    &&& (r matches RouteDecision::ToWorker(ww) && ww as int == w)
                    &&& final(rings)@[w]@ == old(rings)@[w]@.push(item)
                    &&& work_queue_view(final(self).queue_work)
                        == work_queue_view(old(self).queue_work)
                })
                &&& (old(rings)@[w]@.len() == old(rings)@[w].capacity() ==> {
                    &&& final(rings)@[w] == old(rings)@[w]
                    &&& spec_overflow_post(*old(self), *final(self), item, r)
                })
            },
            // Unowned with an idle worker: the oldest idle worker takes it
            // and becomes its owner.
            (!old(self).owner_has(item.1)
                && idle_list_view(old(self).idle_workers).len() > 0) ==> {
                let w = idle_list_view(old(self).idle_workers)[0] as int;
                &&& idle_list_view(final(self).idle_workers)
                    == idle_list_view(old(self).idle_workers).skip(1)
                &&& final(flags)@ == old(flags)@.update(w, WorkerState::Busy)
                &&& forall|i: int| 0 <= i < old(rings)@.len() && i != w
                    ==> #[trigger] final(rings)@[i] == old(rings)@[i]
                &&& (old(rings)@[w]@.len() < old(rings)@[w].capacity() ==> {
                    &&& (r matches RouteDecision::ToWorker(ww) && ww as int == w)
                    &&& final(rings)@[w]@ == old(rings)@[w]@.push(item)
                    &&& final(self).busy_cb@ == old(self).busy_cb@.update(w, Some(item.1))
                    &&& work_queue_view(final(self).queue_work)
                        == work_queue_view(old(self).queue_work)
                })
                &&& (old(rings)@[w]@.len() == old(rings)@[w].capacity() ==> {
                    &&& final(rings)@[w] == old(rings)@[w]
                    &&& final(self).busy_cb@ == old(self).busy_cb@
                    &&& spec_overflow_post(*old(self), *final(self), item, r)
                })
            },
            // Unowned with no idle worker: the overflow queue takes it, or
            // the drop counter does.
            (!old(self).owner_has(item.1)
                && idle_list_view(old(self).idle_workers).len() == 0) ==> {
                &&& final(rings)@ == old(rings)@
                &&& final(flags)@ == old(flags)@
                &&& final(self).busy_cb@ == old(self).busy_cb@
                &&& idle_list_view(final(self).idle_workers)
                    == idle_list_view(old(self).idle_workers)
                &&& spec_overflow_post(*old(self), *final(self), item, r)
            },
    {
        let owner = self.find_owner(item.1);
        match owner {
            Some(w) => {
                let pushed = rings[w as usize].try_enqueue(item);
                match pushed {
                    Ok(()) => RouteDecision::ToWorker(w),
                    Err(it) => self.overflow(it),
                }
            },
            None => {
                let idle = idle_list_pop_front(&mut self.idle_workers);
                match idle {
                    Some(w) => {
                        proof {
                            assert(idle_list_view(old(self).idle_workers)[0]
                                < self.nr_workers);
                            assert forall|i: int|
                                    0 <= i < idle_list_view(self.idle_workers).len()
                                implies #[trigger] idle_list_view(self.idle_workers)[i]
                                    < self.nr_workers by {
                                assert(idle_list_view(old(self).idle_workers)[i + 1]
                                    < self.nr_workers);
                            }
                        }
                        flags.set(w as usize, WorkerState::Busy);
                        let pushed = rings[w as usize].try_enqueue(item);
                        match pushed {
                            Ok(()) => {
                                self.busy_cb.set(w as usize, Some(item.1));
                                proof {
                                    self.lemma_wf_after_take(*old(self), w, item.1);
                                }
                                RouteDecision::ToWorker(w)
                            },
                            Err(it) => {
                                proof {
                                    self.lemma_wf_after_pop(*old(self));
                                }
                                self.overflow(it)
                            },
                        }
                    },
                    None => self.overflow(item),
                }
            },
        }
    }

    /// After popping the idle head, the remaining idle list still satisfies
    /// the dispatcher's invariants.
    proof fn lemma_wf_after_pop(&self, pre: Dispatcher)
        requires
            pre.wf(),
            idle_list_view(pre.idle_workers).len() > 0,
            idle_list_view(self.idle_workers)
                == idle_list_view(pre.idle_workers).skip(1),
            self.busy_cb@ == pre.busy_cb@,
            self.addresses@ == pre.addresses@,
            self.qtable@ == pre.qtable@,
            self.queue_work == pre.queue_work,
            self.nr_workers == pre.nr_workers,
        ensures
            self.wf(),
    {
        let pi = idle_list_view(pre.idle_workers);
        let si = idle_list_view(self.idle_workers);
        assert forall|i: int| 0 <= i < si.len()
            implies #[trigger] si[i] < self.nr_workers by {
            assert(pi[i + 1] < pre.nr_workers);
        }
        assert forall|i: int, j: int| 0 <= i < j < si.len()
            implies #[trigger] si[i] != #[trigger] si[j] by {
            assert(pi[i + 1] != pi[j + 1]);
        }
        assert forall|k: int| 0 <= k < si.len()
            implies self.busy_cb@[#[trigger] si[k] as int] is None by {
            assert(pre.busy_cb@[pi[k + 1] as int] is None);
        }
    }

    /// After popping the idle head and recording it as the owner of a
    /// previously unowned connection, the invariants hold again.
    proof fn lemma_wf_after_take(&self, pre: Dispatcher, w: u16, cb: u32)
        requires
            pre.wf(),
            !pre.owner_has(cb),
            idle_list_view(pre.idle_workers).len() > 0,
            w == idle_list_view(pre.idle_workers)[0],
            idle_list_view(self.idle_workers)
                == idle_list_view(pre.idle_workers).skip(1),
            self.busy_cb@ == pre.busy_cb@.update(w as int, Some(cb)),
            self.addresses@ == pre.addresses@,
            self.qtable@ == pre.qtable@,
            self.queue_work == pre.queue_work,
            self.nr_workers == pre.nr_workers,
        ensures
            self.wf(),
    {
        let pi = idle_list_view(pre.idle_workers);
        let si = idle_list_view(self.idle_workers);
        assert(w < pre.nr_workers) by {
            assert(pi[0] < pre.nr_workers);
        }
        assert forall|i: int| 0 <= i < si.len()
            implies #[trigger] si[i] < self.nr_workers by {
            assert(pi[i + 1] < pre.nr_workers);
        }
        assert forall|i: int, j: int| 0 <= i < j < si.len()
            implies #[trigger] si[i] != #[trigger] si[j] by {
            assert(pi[i + 1] != pi[j + 1]);
        }
        assert forall|k: int| 0 <= k < si.len()
            implies self.busy_cb@[#[trigger] si[k] as int] is None by {
            assert(pi[k + 1] != pi[0]);
            assert(pre.busy_cb@[pi[k + 1] as int] is None);
        }
        assert forall|i: int, j: int| 0 <= i < j < self.busy_cb@.len()
            implies ((#[trigger] self.busy_cb@[i]) is Some
                && (#[trigger] self.busy_cb@[j]) is Some
                ==> self.busy_cb@[i] != self.busy_cb@[j]) by {
            if self.busy_cb@[i] is Some && self.busy_cb@[j] is Some {
                if i == w as int {
                    assert(pre.busy_cb@[j] != Some(cb));
                } else if j == w as int {
                    assert(pre.busy_cb@[i] != Some(cb));
                } else {
                    assert(pre.busy_cb@[i] != pre.busy_cb@[j]
                        || !(pre.busy_cb@[i] is Some));
                }
            }
        }
    }

    /// Parks an item in the overflow queue, or drops it — counted — when
    /// even that is full.
    fn overflow(&mut self, item: WorkItem) -> (r: RouteDecision)
        requires
            old(self).wf(),
        ensures
            final(self).wf(),
            final(self).nr_workers == old(self).nr_workers,
            final(self).idle_workers == old(self).idle_workers,
            final(self).busy_cb@ == old(self).busy_cb@,
            final(self).addresses@ == old(self).addresses@,
            final(self).qtable@ == old(self).qtable@,
            spec_overflow_post(*old(self), *final(self), item, r),
    {
        let ok = work_queue_push(&mut self.queue_work, item);
        if ok {
            RouteDecision::Queued
        } else {
            if self.dropped < u64::MAX {
                self.dropped = self.dropped + 1;
            }
            RouteDecision::Dropped
        }
    }

    /// Moves parked work out of the overflow queue, oldest first: an item
    /// owned by a busy worker goes to that worker's ring, an unowned item
    /// to the oldest idle worker. Draining stops when the queue is empty,
    /// no placement is possible for its head, or the idle list runs out.
    pub fn drain_queue_work(
        &mut self,
        rings: &mut Vec<Ring>,
        flags: &mut Vec<WorkerState>,
    )
        requires
            old(self).wf(),
            old(rings)@.len() == old(self).nr_workers,
            old(flags)@.len() == old(self).nr_workers,
            forall|i: int| 0 <= i < old(rings)@.len() ==> (#[trigger] old(rings)@[i]).wf(),
        ensures
            final(self).wf(),
            final(self).nr_workers == old(self).nr_workers,
            final(self).addresses@ == old(self).addresses@,
            final(self).qtable@ == old(self).qtable@,
            final(self).dropped == old(self).dropped,
            final(rings)@.len() == old(rings)@.len(),
            final(flags)@.len() == old(flags)@.len(),
            forall|i: int| 0 <= i < final(rings)@.len() ==> (#[trigger] final(rings)@[i]).wf(),
            // Parked items leave oldest-first: what remains is a suffix of
            // what was parked.
            exists|k: int| 0 <= k <= work_queue_view(old(self).queue_work).len()
                && work_queue_view(final(self).queue_work)
                    == #[trigger] work_queue_view(old(self).queue_work).skip(k),
            // Draining stops only for cause: the queue is empty, or its
            // head cannot be placed (owner's ring full; or no idle worker,
            // or the oldest idle worker's ring full).
            work_queue_view(final(self).queue_work).len() > 0 ==> {
                let head = work_queue_view(final(self).queue_work)[0];
                if final(self).owner_has(head.1) {
                    final(rings)@[final(self).owner_of(head.1)]@.len()
                        == final(rings)@[final(self).owner_of(head.1)].capacity()
                } else {
                    idle_list_view(final(self).idle_workers).len() == 0
                        || final(rings)@[
                            idle_list_view(final(self).idle_workers)[0] as int]@.len()
                            == final(rings)@[
                                idle_list_view(final(self).idle_workers)[0] as int]
                                .capacity()
                }
            },
    {
        let ghost wq0 = work_queue_view(old(self).queue_work);
        let mut processed: usize = 0;
        proof {
            assert(wq0.skip(0) =~= wq0);
        }
        loop
            invariant
                self.wf(),
                self.nr_workers == old(self).nr_workers,
                self.addresses@ == old(self).addresses@,
                self.qtable@ == old(self).qtable@,
                self.dropped == old(self).dropped,
                rings@.len() == old(rings)@.len() == self.nr_workers,
                flags@.len() == old(flags)@.len() == self.nr_workers,
                forall|i: int| 0 <= i < rings@.len() ==> (#[trigger] rings@[i]).wf(),
                wq0 == work_queue_view(old(self).queue_work),
                wq0.len() <= MAX_WORK_QUEUE,
                processed <= wq0.len(),
                work_queue_view(self.queue_work) == wq0.skip(processed as int),
            ensures
                work_queue_view(self.queue_work).len() > 0 ==> {
                    let head = work_queue_view(self.queue_work)[0];
                    if self.owner_has(head.1) {
                        rings@[self.owner_of(head.1)]@.len()
                            == rings@[self.owner_of(head.1)].capacity()
                    } else {
                        idle_list_view(self.idle_workers).len() == 0
                            || rings@[idle_list_view(self.idle_workers)[0] as int]@.len()
                                == rings@[idle_list_view(self.idle_workers)[0] as int]
                                    .capacity()
                    }
                },
            decreases wq0.len() - processed,
        {
            if work_queue_len(&self.queue_work) == 0 {
                return;
            }
            let head = (match work_queue_first(&self.queue_work) {
                Some(h) => h,
                None => {
                    return;
                },
            });
            let owner = self.find_owner(head.1);
            match owner {
                Some(w) => {
                    let cap = rings[w as usize].buf.len();
                    if rings[w as usize].queued() == cap {
                        return;
                    }
                    let item = (match work_queue_pop_front(&mut self.queue_work) {
                        Some(it) => it,
                        None => {
                            return;
                        },
                    });
                    let pushed = rings[w as usize].try_enqueue(item);
                    proof {
                        assert(processed < wq0.len());
                        assert(work_queue_view(self.queue_work)
                            =~= wq0.skip(processed + 1));
                    }
                    processed = processed + 1;
                },
                None => {
                    if idle_list_len(&self.idle_workers) == 0 {
                        return;
                    }
                    let w = (match idle_list_first(&self.idle_workers) {
                        Some(w) => w,
                        None => {
                            return;
                        },
                    });
                    proof {
                        assert(idle_list_view(self.idle_workers)[0] < self.nr_workers);
                    }
                    let cap = rings[w as usize].buf.len();
                    if rings[w as usize].queued() == cap {
                        return;
                    }
                    let ghost pre = *self;
                    let item = (match work_queue_pop_front(&mut self.queue_work) {
                        Some(it) => it,
                        None => {
                            return;
                        },
                    });
                    let popped = idle_list_pop_front(&mut self.idle_workers);
                    flags.set(w as usize, WorkerState::Busy);
                    let pushed = rings[w as usize].try_enqueue(item);
                    self.busy_cb.set(w as usize, Some(item.1));
                    proof {
                        assert(processed < wq0.len());
                        let ghost mid = Dispatcher {
                            queue_work: self.queue_work,
                            ..pre
                        };
                        assert(mid.wf());
                        self.lemma_wf_after_take(mid, w, item.1);
                        assert(work_queue_view(self.queue_work)
                            =~= wq0.skip(processed + 1));
                    }
                    processed = processed + 1;
                },
            }
        }
    }

    /// Scans the worker flags: every worker seen `Idle` is appended to the
    /// idle list — exactly those workers, in worker order, once each — its
    /// flag rewritten `AlreadyIdle` so it is not collected twice, and its
    /// connection released (later packets of that connection may go to any
    /// idle worker again). Other flags and slots are untouched. The caller
    /// keeps the single-writer discipline: a worker already in the idle
    /// list never has its flag reading `Idle`.
    pub fn collect_idle_workers(&mut self, flags: &mut Vec<WorkerState>)
        requires
            old(self).wf(),
            old(flags)@.len() == old(self).nr_workers,
            forall|k: int| 0 <= k < idle_list_view(old(self).idle_workers).len()
                ==> old(flags)@[#[trigger] idle_list_view(old(self).idle_workers)[k]
                    as int] != WorkerState::Idle,
        ensures
            final(self).wf(),
            final(self).nr_workers == old(self).nr_workers,
            final(self).addresses@ == old(self).addresses@,
            final(self).qtable@ == old(self).qtable@,
            final(self).queue_work == old(self).queue_work,
            final(self).dropped == old(self).dropped,
            final(flags)@.len() == old(flags)@.len(),
            // Exactly the idle-flagged workers join the idle list, in
            // worker order, each once.
            idle_list_view(final(self).idle_workers)
                == idle_list_view(old(self).idle_workers)
                    + spec_idle_flagged(old(flags)@, old(self).nr_workers as int),
            // Their flags read AlreadyIdle afterwards; no flag reads Idle.
            forall|i: int| 0 <= i < final(flags)@.len()
                ==> #[trigger] final(flags)@[i] != WorkerState::Idle,
            forall|i: int| 0 <= i < final(flags)@.len()
                ==> (old(flags)@[i] != WorkerState::Idle
                    ==> #[trigger] final(flags)@[i] == old(flags)@[i]),
            forall|i: int| 0 <= i < final(flags)@.len()
                ==> (old(flags)@[i] == WorkerState::Idle
                    ==> #[trigger] final(flags)@[i] == WorkerState::AlreadyIdle),
            // Collected workers hold no connection any more; other slots
            // are untouched.
            final(self).busy_cb@.len() == old(self).busy_cb@.len(),
            forall|w: int| 0 <= w < old(self).busy_cb@.len()
                ==> #[trigger] final(self).busy_cb@[w]
                    == (if old(flags)@[w] == WorkerState::Idle {
                        None
                    } else {
                        old(self).busy_cb@[w]
                    }),
    {
        let n = self.nr_workers;
        let mut w: u16 = 0;
        proof {
            assert(idle_list_view(self.idle_workers)
                + spec_idle_flagged(old(flags)@, 0)
                =~= idle_list_view(self.idle_workers));
        }
        while w < n
            invariant
                w <= n == self.nr_workers,
                self.wf(),
                self.nr_workers == old(self).nr_workers,
                self.addresses@ == old(self).addresses@,
                self.qtable@ == old(self).qtable@,
                self.queue_work == old(self).queue_work,
                self.dropped == old(self).dropped,
                flags@.len() == old(flags)@.len() == self.nr_workers,
                self.busy_cb@.len() == old(self).busy_cb@.len(),
                idle_list_view(self.idle_workers)
                    == idle_list_view(old(self).idle_workers)
                        + spec_idle_flagged(old(flags)@, w as int),
                forall|i: int| 0 <= i < w
                    ==> #[trigger] flags@[i] != WorkerState::Idle,
                forall|i: int| 0 <= i < flags@.len()
                    ==> (old(flags)@[i] != WorkerState::Idle
                        ==> #[trigger] flags@[i] == old(flags)@[i]),
                forall|i: int| 0 <= i < flags@.len()
                    ==> (old(flags)@[i] == WorkerState::Idle && i < w
                        ==> #[trigger] flags@[i] == WorkerState::AlreadyIdle),
                forall|i: int| w <= i < flags@.len()
                    ==> #[trigger] flags@[i] == old(flags)@[i],
                forall|v: int| 0 <= v < old(self).busy_cb@.len()
                    ==> #[trigger] self.busy_cb@[v]
                        == (if old(flags)@[v] == WorkerState::Idle && v < w {
                            None
                        } else {
                            old(self).busy_cb@[v]
                        }),
                forall|k: int| 0 <= k < idle_list_view(old(self).idle_workers).len()
                    ==> old(flags)@[#[trigger] idle_list_view(old(self).idle_workers)[k]
                        as int] != WorkerState::Idle,
            decreases n - w,
        {
            let is_idle = matches!(flags[w as usize], WorkerState::Idle);
            let ghost pre = *self;
            if is_idle {
                proof {
                    // The collected worker is not in the list yet: listed
                    // workers never have the Idle flag (the discipline for
                    // those carried over, a lower index for those collected
                    // this scan).
                    lemma_idle_flagged_bounds(old(flags)@, w as int);
                    assert(old(flags)@[w as int] == WorkerState::Idle);
                    let pi = idle_list_view(pre.idle_workers);
                    let ov = idle_list_view(old(self).idle_workers);
                    let fl = spec_idle_flagged(old(flags)@, w as int);
                    assert forall|k: int| 0 <= k < pi.len()
                        implies #[trigger] pi[k] != w by {
                        if k < ov.len() {
                            assert(pi[k] == ov[k]);
                            assert(old(flags)@[ov[k] as int] != WorkerState::Idle);
                        } else {
                            assert(pi[k] == fl[k - ov.len()]);
                            assert(fl[k - ov.len()] < w as int);
                        }
                    }
                    // Distinct workers below the count leave room to push.
                    assert(pi.push(w).len() <= pre.nr_workers as int) by {
                        assert forall|a: int, b: int| 0 <= a < b < pi.push(w).len()
                            implies #[trigger] pi.push(w)[a]
                                != #[trigger] pi.push(w)[b] by {
                            if b < pi.len() {
                                assert(pi[a] != pi[b]);
                            } else {
                                assert(pi[a] != w);
                            }
                        }
                        assert forall|a: int| 0 <= a < pi.push(w).len()
                            implies (#[trigger] pi.push(w)[a])
                                < pre.nr_workers by {
                            if a < pi.len() {
                                assert(pi[a] < pre.nr_workers);
                            }
                        }
                        idle_unique_below_count(pi.push(w), pre.nr_workers as int);
                    }
                }
                let ok = idle_list_push(&mut self.idle_workers, w);
                flags.set(w as usize, WorkerState::AlreadyIdle);
                self.busy_cb.set(w as usize, None);
                proof {
                    let pi = idle_list_view(pre.idle_workers);
                    let si = idle_list_view(self.idle_workers);
                    assert(si == pi.push(w));
                    assert(si =~= idle_list_view(old(self).idle_workers)
                        + spec_idle_flagged(old(flags)@, w + 1));
                    // Invariants: entries stay distinct, below the count,
                    // and idle workers hold no connection.
                    assert forall|a: int, b: int| 0 <= a < b < si.len()
                        implies #[trigger] si[a] != #[trigger] si[b] by {
                        if b < pi.len() {
                            assert(pi[a] != pi[b]);
                        } else {
                            assert(pi[a] != w);
                        }
                    }
                    assert forall|a: int| 0 <= a < si.len()
                        implies #[trigger] si[a] < self.nr_workers by {
                        if a < pi.len() {
                            assert(pi[a] < pre.nr_workers);
                        }
                    }
                    assert forall|k: int| 0 <= k < si.len()
                        implies self.busy_cb@[#[trigger] si[k] as int] is None by {
                        if k < pi.len() {
                            assert(pi[k] != w);
                            assert(pre.busy_cb@[pi[k] as int] is None);
                        }
                    }
                    assert forall|a: int, b: int| 0 <= a < b < self.busy_cb@.len()
                        implies ((#[trigger] self.busy_cb@[a]) is Some
                            && (#[trigger] self.busy_cb@[b]) is Some
                            ==> self.busy_cb@[a] != self.busy_cb@[b]) by {
                        if a != w as int && b != w as int {
                            assert(self.busy_cb@[a] == pre.busy_cb@[a]);
                            assert(self.busy_cb@[b] == pre.busy_cb@[b]);
                        }
                    }
                }
            } else {
                proof {
                    assert(spec_idle_flagged(old(flags)@, w + 1)
                        =~= spec_idle_flagged(old(flags)@, w as int));
                }
            }
            w = w + 1;
        }
    }

    /// Tears a finished connection down: removes its flow-directory entry
    /// and retires its queue-table slot to the inactive state, as the error
    /// design asks once a connection closes. Descriptors keep their
    /// meaning: the slot is reused for nothing else. Reports whether an
    /// entry existed.
    pub fn remove_connection(&mut self, local: Endpoint, remote: Endpoint) -> (r: bool)
        requires
            old(self).wf(),
        ensures
            final(self).wf(),
            final(self).nr_workers == old(self).nr_workers,
            final(self).idle_workers == old(self).idle_workers,
            final(self).queue_work == old(self).queue_work,
            final(self).busy_cb@ == old(self).busy_cb@,
            final(self).qtable@.len() == old(self).qtable@.len(),
            !old(self).directory_has(SocketId::Active(local, remote))
                ==> !r && *final(self) == *old(self),
            old(self).directory_has(SocketId::Active(local, remote)) ==> {
                let qd = old(self).directory_at(SocketId::Active(local, remote));
                &&& r
                &&& !final(self).directory_has(SocketId::Active(local, remote))
                &&& (final(self).qtable@[qd as int] matches InetQueue::Tcp(q)
                    && q.socket matches Socket::Inactive(e) && e is None)
                &&& forall|i: int| 0 <= i < old(self).qtable@.len() && i != qd as int
                    ==> final(self).qtable@[i] == old(self).qtable@[i]
                &&& forall|id: SocketId| id != SocketId::Active(local, remote)
                    ==> (final(self).directory_has(id)
                        <==> old(self).directory_has(id))
            },
    {
        let id = SocketId::Active(local, remote);
        let n = self.addresses.len();
        for i in 0..n
            invariant
                id == SocketId::Active(local, remote),
                n == self.addresses@.len(),
                *self == *old(self),
                old(self).wf(),
                forall|j: int| 0 <= j < i ==> (#[trigger] self.addresses@[j]).0 != id,
        {
            if self.addresses[i].0 == id {
                proof {
                    assert(self.addresses@[i as int].0 == id);
                    assert(exists|k: int| 0 <= k < self.addresses@.len()
                        && (#[trigger] self.addresses@[k]).0 == id);
                    let v = choose|k: int| 0 <= k < self.addresses@.len()
                        && (#[trigger] self.addresses@[k]).0 == id;
                    if v != i {
                        if v < i {
                            assert(self.addresses@[v].0 != self.addresses@[i as int].0);
                        } else {
                            assert(self.addresses@[i as int].0 != self.addresses@[v].0);
                        }
                    }
                }
                proof {
                    assert(old(self).directory_has(id));
                    assert(old(self).directory_at(id)
                        == old(self).addresses@[i as int].1);
                }
                let qd = self.addresses[i].1;
                let _ = self.addresses.remove(i);
                self.qtable.set(qd as usize, InetQueue::Tcp(TcpQueue::new()));
                proof {
                    assert forall|a: int, b: int| 0 <= a < b < self.addresses@.len()
                        implies (#[trigger] self.addresses@[a]).0
                            != (#[trigger] self.addresses@[b]).0 by {
                        if b < i {
                            assert(old(self).addresses@[a].0 != old(self).addresses@[b].0);
                        } else if a < i {
                            assert(old(self).addresses@[a].0
                                != old(self).addresses@[b + 1].0);
                        } else {
                            assert(old(self).addresses@[a + 1].0
                                != old(self).addresses@[b + 1].0);
                        }
                    }
                    assert forall|a: int| 0 <= a < self.addresses@.len()
                        implies (#[trigger] self.addresses@[a]).1
                            < self.qtable@.len() by {
                        if a < i {
                            assert(old(self).addresses@[a].1 < old(self).qtable@.len());
                        } else {
                            assert(old(self).addresses@[a + 1].1
                                < old(self).qtable@.len());
                        }
                    }
                    assert(!self.directory_has(id)) by {
                        if self.directory_has(id) {
                            let v = choose|k: int| 0 <= k < self.addresses@.len()
                                && (#[trigger] self.addresses@[k]).0 == id;
                            assert(self.addresses@[v].0 == id);
                            if v < i {
                                assert(self.addresses@[v] == old(self).addresses@[v]);
                                assert(old(self).addresses@[v].0 != id);
                            } else {
                                assert(self.addresses@[v] == old(self).addresses@[v + 1]);
                                assert(old(self).addresses@[i as int].0
                                    != old(self).addresses@[v + 1].0);
                            }
                        }
                    }
                    assert forall|id2: SocketId| id2 != id
                        implies (self.directory_has(id2)
                            <==> old(self).directory_has(id2)) by {
                        if self.directory_has(id2) {
                            let v = choose|k: int| 0 <= k < self.addresses@.len()
                                && (#[trigger] self.addresses@[k]).0 == id2;
                            if v < i {
                                assert(old(self).addresses@[v].0 == id2);
                            } else {
                                assert(old(self).addresses@[v + 1].0 == id2);
                            }
                        }
                        if old(self).directory_has(id2) {
                            let v = choose|k: int| 0 <= k < old(self).addresses@.len()
                                && (#[trigger] old(self).addresses@[k]).0 == id2;
                            if v < i {
                                assert(self.addresses@[v].0 == id2);
                            } else {
                                assert(v != i);
                                assert(self.addresses@[v - 1].0 == id2);
                            }
                        }
                    }
                }
                return true;
            }
        }
        proof {
            if old(self).directory_has(id) {
                let v = choose|k: int| 0 <= k < old(self).addresses@.len()
                    && (#[trigger] old(self).addresses@[k]).0 == id;
                assert(old(self).addresses@[v].0 == id);
            }
        }
        false
    }

    /// Handles one packet for a listening descriptor: the passive socket
    /// takes the parsed header from here. A completed handshake allocates a
    /// fresh descriptor, owns the new connection under it, and enters it in
    /// the flow directory; a valid SYN yields the SYN+ACK to transmit.
    pub fn handle_listening(
        &mut self,
        qd: u32,
        local_link_addr: [u8; 6],
        remote_link_addr: [u8; 6],
        local: Endpoint,
        remote: Endpoint,
        header: &TcpHeader,
    ) -> (r: Result<ListenOutcome, Fail>)
        requires
            old(self).wf(),
            qd < old(self).qtable@.len(),
            old(self).qtable@.len() < 0x1_0000,
            (old(self).qtable@[qd as int] matches InetQueue::Tcp(q)
                && q.socket matches Socket::Listening(p) && p.wf() && p.local == local),
        ensures
            final(self).wf(),
            final(self).nr_workers == old(self).nr_workers,
            final(self).idle_workers == old(self).idle_workers,
            final(self).queue_work == old(self).queue_work,
            r matches Ok(ListenOutcome::Accepted(nq)) ==> {
                &&& nq == old(self).qtable@.len()
                &&& final(self).qtable@.len() == old(self).qtable@.len() + 1
                &&& (final(self).qtable@.last() matches InetQueue::Tcp(q)
                    && q.socket matches Socket::Established(e)
                    && e.cb.qd == nq && e.cb.local == local && e.cb.remote == remote
                    && e.cb.wf())
                &&& final(self).addresses@ == old(self).addresses@.push(
                    (SocketId::Active(local, remote), nq))
            },
            (r matches Ok(o) && (o is Reply || o is Ignored))
                ==> final(self).addresses@ == old(self).addresses@
                    && final(self).qtable@.len() == old(self).qtable@.len(),
            r is Err ==> final(self).addresses@ == old(self).addresses@
                && final(self).qtable@.len() == old(self).qtable@.len(),
            // A packet for an already-established 5-tuple does not belong
            // here: the dispatcher should have routed it to the connection.
            old(self).directory_has(SocketId::Active(local, remote))
                ==> (r matches Err(e) && e.errno == EAGAIN)
                    && final(self).qtable@ == old(self).qtable@,
            // Otherwise the outcome mirrors the listening socket's decision
            // on this header, and the socket moves as its contract says.
            !old(self).directory_has(SocketId::Active(local, remote)) ==> {
                &&& (old(self).qtable@[qd as int] matches InetQueue::Tcp(q1)
                    && q1.socket matches Socket::Listening(pre_sock)
                    && final(self).qtable@[qd as int] matches InetQueue::Tcp(q2)
                    && q2.socket matches Socket::Listening(post_sock)
                    && exists|r0: Result<PassiveOutput, Fail>|
                        #[trigger] spec_mirrors_passive(r0, r)
                        && spec_passive_receive_post(pre_sock, post_sock,
                            old(self).qtable@.len() as u32, remote, header@, r0))
            },
    {
        if self.directory_lookup(SocketId::Active(local, remote)).is_some() {
            // The dispatcher should have routed this to the connection.
            return Err(Fail::new(EAGAIN));
        }
        let new_qd = self.qtable.len() as u32;
        let out = (match &mut self.qtable[qd as usize] {
            InetQueue::Tcp(q) => (match &mut q.socket {
                Socket::Listening(p) => p.receive(
                    new_qd, local_link_addr, remote_link_addr, remote, header),
                _ => {
                    return Err(Fail::new(ENOTCONN));
                },
            }),
        });
        let ghost witness = out;
        proof {
            assert(old(self).qtable@[qd as int] matches InetQueue::Tcp(q1)
                && q1.socket matches Socket::Listening(pre_sock)
                && self.qtable@[qd as int] matches InetQueue::Tcp(q2)
                && q2.socket matches Socket::Listening(post_sock)
                && spec_passive_receive_post(pre_sock, post_sock,
                    old(self).qtable@.len() as u32, remote, header@, witness));
        }
        match out {
            Ok(PassiveOutput::Completed(cb)) => {
                let established = EstablishedSocket::new(cb, new_qd);
                let mut q = TcpQueue::new();
                q.set_socket(Socket::Established(established));
                self.qtable.push(InetQueue::Tcp(q));
                self.addresses.push((SocketId::Active(local, remote), new_qd));
                proof {
                    assert forall|i: int, j: int| 0 <= i < j < self.addresses@.len()
                        implies (#[trigger] self.addresses@[i]).0
                            != (#[trigger] self.addresses@[j]).0 by {
                        if j < self.addresses@.len() - 1 {
                            assert(old(self).addresses@[i].0 != old(self).addresses@[j].0);
                        } else {
                            assert(!old(self).directory_has(
                                SocketId::Active(local, remote)));
                            assert(old(self).addresses@[i] == self.addresses@[i]);
                        }
                    }
                    assert forall|i: int| 0 <= i < self.addresses@.len()
                        implies (#[trigger] self.addresses@[i]).1
                            < self.qtable@.len() by {
                        if i < self.addresses@.len() - 1 {
                            assert(old(self).addresses@[i].1 < old(self).qtable@.len());
                        }
                    }
                }
                let res = Ok(ListenOutcome::Accepted(new_qd));
                proof {
                    assert(spec_mirrors_passive(witness, res));
                }
                res
            },
            Ok(PassiveOutput::SynAck(reply)) => {
                let res = Ok(ListenOutcome::Reply(reply));
                proof {
                    assert(spec_mirrors_passive(witness, res));
                }
                res
            },
            Ok(PassiveOutput::Ignored) => {
                let res = Ok(ListenOutcome::Ignored);
                proof {
                    assert(spec_mirrors_passive(witness, res));
                }
                res
            },
            Err(e) => {
                let res = Err(e);
                proof {
                    assert(spec_mirrors_passive(witness, res));
                }
                res
            },
        }
    }
}

/// What handling a packet on the listening descriptor produced.
pub enum ListenOutcome {
    /// A handshake completed: the new connection's descriptor.
    Accepted(u32),
    /// Transmit this SYN+ACK.
    Reply(TcpHeader),
    /// Nothing to do.
    Ignored,
}

} // verus!
