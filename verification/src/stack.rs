//! The per-worker stack instance: the full receive pipeline from raw frame
//! to connection state, the pop-task bookkeeping around it, and the
//! amortized clock tick.

use vstd::prelude::*;
use crate::config::TcpConfig;
use crate::ctrlblk::{ControlBlock, ReceiveOutput};
use crate::eth::EthernetHeader;
use crate::fail::{Fail, EINVAL};
use crate::eth::{spec_eth_parse_ok, spec_eth_dst, spec_eth_payload};
use crate::peer::{Peer, spec_ip_receive_post};
use crate::sched::{Scheduler, TaskHandle, TaskKind, spec_remove_post};

verus! {

/// The clock is advanced once per this many poll iterations, to amortize
/// reading it.
pub const TIMER_RESOLUTION: usize = 64;

/// One worker's stack instance.
pub struct InetStack {
    /// MAC of the local port; frames for other stations are dropped.
    pub local_link_addr: [u8; 6],
    pub ipv4: Peer,
    pub scheduler: Scheduler,
    pub tcp_config: TcpConfig,
    /// Poll iterations since the clock was last advanced.
    pub ts_iters: usize,
}

/// A frame's destination MAC is broadcast.
pub open spec fn spec_mac_broadcast(mac: Seq<u8>) -> bool {
    mac =~= seq![0xffu8, 0xffu8, 0xffu8, 0xffu8, 0xffu8, 0xffu8]
}

/// A frame's destination MAC is a group address (multicast bit set).
pub open spec fn spec_mac_multicast(mac: Seq<u8>) -> bool {
    mac.len() == 6 && mac[0] % 2 == 1
}

impl InetStack {
    pub open spec fn wf(self) -> bool {
        self.scheduler.wf() && self.ts_iters < TIMER_RESOLUTION
    }

    /// A frame's destination MAC means this station: our own address,
    /// broadcast, or a group address.
    pub open spec fn spec_dst_is_ours(self, mac: Seq<u8>) -> bool {
        mac == self.local_link_addr@ || spec_mac_broadcast(mac) || spec_mac_multicast(mac)
    }

    pub fn new(local_link_addr: [u8; 6], local_ipv4_addr: u32, tcp_config: TcpConfig)
        -> (r: Result<InetStack, Fail>)
        ensures
            r matches Ok(s) ==> s.wf() && s.ts_iters == 0
                && s.local_link_addr@ == local_link_addr@
                && s.ipv4.local_ipv4_addr == local_ipv4_addr,
    {
        let ipv4 = match Peer::new(local_ipv4_addr, tcp_config) {
            Ok(p) => p,
            Err(e) => {
                return Err(e);
            },
        };
        Ok(InetStack {
            local_link_addr,
            ipv4,
            scheduler: Scheduler::new(),
            tcp_config,
            ts_iters: 0,
        })
    }

    /// Runs one frame through the whole receive pipeline: a frame that is
    /// not Ethernet-II-over-IPv4 is a bad-message error; one addressed to
    /// another station (unicast to another MAC, neither broadcast nor
    /// multicast) an invalid-argument error — the block untouched either
    /// way; otherwise the network layer's contract governs the result on
    /// the bytes after the Ethernet header.
    pub fn do_receive(&self, cb: &mut ControlBlock, frame: &[u8], now: u64)
        -> (r: Result<ReceiveOutput, Fail>)
        requires
            old(cb).wf(),
        ensures
            final(cb).wf(),
            r is Err ==> *final(cb) == *old(cb),
            !spec_eth_parse_ok(frame@)
                ==> (r matches Err(e) && e.errno == crate::fail::EBADMSG),
            (spec_eth_parse_ok(frame@) && !self.spec_dst_is_ours(spec_eth_dst(frame@)))
                ==> (r matches Err(e) && e.errno == EINVAL),
            (spec_eth_parse_ok(frame@) && self.spec_dst_is_ours(spec_eth_dst(frame@)))
                ==> spec_ip_receive_post(self.ipv4.local_ipv4_addr,
                    self.tcp_config.rx_checksum_offload,
                    self.ipv4.tcp.inner.tcp_config.rx_checksum_offload,
                    *old(cb), *final(cb), spec_eth_payload(frame@), now, r),
    {
        let parsed = EthernetHeader::parse(frame);
        match parsed {
            Ok((header, payload)) => {
                if !self.dst_is_ours(&header) {
                    return Err(Fail::new(EINVAL));
                }
                self.ipv4.receive(cb, payload, self.tcp_config.rx_checksum_offload, now)
            },
            Err(e) => Err(e),
        }
    }

    /// Whether a frame's destination MAC means this station: our own
    /// address, broadcast, or a group address.
    fn dst_is_ours(&self, header: &EthernetHeader) -> (r: bool)
        ensures
            r == (header.dst_addr@ == self.local_link_addr@
                || spec_mac_broadcast(header.dst_addr@)
                || spec_mac_multicast(header.dst_addr@)),
    {
        let mut ours = true;
        let mut bcast = true;
        let mut i: usize = 0;
        while i < 6
            invariant
                i <= 6,
                ours == (forall|j: int| 0 <= j < i
                    ==> #[trigger] header.dst_addr@[j] == self.local_link_addr@[j]),
                bcast == (forall|j: int| 0 <= j < i
                    ==> #[trigger] header.dst_addr@[j] == 0xff),
            decreases 6 - i,
        {
            if header.dst_addr[i] != self.local_link_addr[i] {
                ours = false;
            }
            if header.dst_addr[i] != 0xff {
                bcast = false;
            }
            i = i + 1;
        }
        let mcast = header.dst_addr[0] % 2 == 1;
        proof {
            if ours {
                assert(header.dst_addr@ =~= self.local_link_addr@);
            } else if header.dst_addr@ == self.local_link_addr@ {
                assert(forall|j: int| 0 <= j < 6
                    ==> #[trigger] header.dst_addr@[j] == self.local_link_addr@[j]);
            }
            if bcast {
                assert(header.dst_addr@
                    =~= seq![0xffu8, 0xffu8, 0xffu8, 0xffu8, 0xffu8, 0xffu8]);
            } else if spec_mac_broadcast(header.dst_addr@) {
                assert(forall|j: int| 0 <= j < 6
                    ==> #[trigger] header.dst_addr@[j] == 0xff);
            }
        }
        ours || bcast || mcast
    }

    /// Registers a pop task for the queue a just-arrived packet belongs to.
    pub fn schedule_pop(&mut self, qd: u32) -> (r: Option<TaskHandle>)
        requires
            old(self).wf(),
        ensures
            final(self).wf(),
            final(self).ts_iters == old(self).ts_iters,
            old(self).scheduler.next_id < u64::MAX ==> (r matches Some(h)
                && h.id == old(self).scheduler.next_id
                && final(self).scheduler.tasks@
                    == old(self).scheduler.tasks@.push(
                        (old(self).scheduler.next_id, TaskKind::Pop(qd)))),
            old(self).scheduler.next_id == u64::MAX
                ==> r is None && *final(self) == *old(self),
    {
        self.scheduler.insert(TaskKind::Pop(qd))
    }

    /// Registers a push task: the queue waits for the acknowledgment that
    /// drains what was just offered.
    pub fn schedule_push(&mut self, qd: u32) -> (r: Option<TaskHandle>)
        requires
            old(self).wf(),
        ensures
            final(self).wf(),
            final(self).ts_iters == old(self).ts_iters,
            old(self).scheduler.next_id < u64::MAX ==> (r matches Some(h)
                && h.id == old(self).scheduler.next_id
                && final(self).scheduler.tasks@
                    == old(self).scheduler.tasks@.push(
                        (old(self).scheduler.next_id, TaskKind::Push(qd)))),
            old(self).scheduler.next_id == u64::MAX
                ==> r is None && *final(self) == *old(self),
    {
        self.scheduler.insert(TaskKind::Push(qd))
    }

    /// Takes a finished task out of the scheduler, returning what it was:
    /// the scheduler's removal contract, verbatim. A stale handle yields
    /// nothing and changes nothing.
    pub fn take_operation(&mut self, handle: TaskHandle) -> (r: Option<TaskKind>)
        requires
            old(self).wf(),
        ensures
            final(self).wf(),
            final(self).ts_iters == old(self).ts_iters,
            spec_remove_post(old(self).scheduler, final(self).scheduler, handle, r),
    {
        self.scheduler.remove(handle)
    }

    /// Socket management in this fork goes through the dispatcher's queue
    /// table; the per-call socket API is not served here.
    pub fn socket(&mut self, _domain: i32, _socket_type: i32, _protocol: i32)
        -> (r: Result<u32, Fail>)
        ensures
            (r matches Err(e) && e.errno == crate::fail::ENOTSUP),
    {
        Err(Fail::new(crate::fail::ENOTSUP))
    }

    /// See `socket`: not served here.
    pub fn bind(&mut self, _qd: u32, _local: crate::endpoint::Endpoint)
        -> (r: Result<(), Fail>)
        ensures
            (r matches Err(e) && e.errno == crate::fail::ENOTSUP),
    {
        Err(Fail::new(crate::fail::ENOTSUP))
    }

    /// See `socket`: not served here.
    pub fn listen(&mut self, _qd: u32, _backlog: usize) -> (r: Result<(), Fail>)
        ensures
            (r matches Err(e) && e.errno == crate::fail::ENOTSUP),
    {
        Err(Fail::new(crate::fail::ENOTSUP))
    }

    /// See `socket`: not served here.
    pub fn accept(&mut self, _qd: u32) -> (r: Result<u64, Fail>)
        ensures
            (r matches Err(e) && e.errno == crate::fail::ENOTSUP),
    {
        Err(Fail::new(crate::fail::ENOTSUP))
    }

    /// See `socket`: not served here.
    pub fn connect(&mut self, _qd: u32, _remote: crate::endpoint::Endpoint)
        -> (r: Result<u64, Fail>)
        ensures
            (r matches Err(e) && e.errno == crate::fail::ENOTSUP),
    {
        Err(Fail::new(crate::fail::ENOTSUP))
    }

    /// See `socket`: not served here.
    pub fn close(&mut self, _qd: u32) -> (r: Result<(), Fail>)
        ensures
            (r matches Err(e) && e.errno == crate::fail::ENOTSUP),
    {
        Err(Fail::new(crate::fail::ENOTSUP))
    }

    /// See `socket`: not served here.
    pub fn async_close(&mut self, _qd: u32) -> (r: Result<u64, Fail>)
        ensures
            (r matches Err(e) && e.errno == crate::fail::ENOTSUP),
    {
        Err(Fail::new(crate::fail::ENOTSUP))
    }

    /// See `socket`: not served here.
    pub fn pop(&mut self, _qd: u32, _size: Option<usize>) -> (r: Result<u64, Fail>)
        ensures
            (r matches Err(e) && e.errno == crate::fail::ENOTSUP),
    {
        Err(Fail::new(crate::fail::ENOTSUP))
    }

    /// See `socket`: not served here.
    pub fn push2(&mut self, _qd: u32, _data: &[u8]) -> (r: Result<u64, Fail>)
        ensures
            (r matches Err(e) && e.errno == crate::fail::ENOTSUP),
    {
        Err(Fail::new(crate::fail::ENOTSUP))
    }

    /// Datagram queues are not served by this stack.
    pub fn do_pushto(&mut self, _qd: u32, _to: crate::endpoint::Endpoint)
        -> (r: Result<u64, Fail>)
        ensures
            (r matches Err(e) && e.errno == crate::fail::ENOTSUP),
    {
        Err(Fail::new(crate::fail::ENOTSUP))
    }

    /// Datagram queues are not served by this stack.
    pub fn pushto2(&mut self, _qd: u32, _data: &[u8], _to: crate::endpoint::Endpoint)
        -> (r: Result<u64, Fail>)
        ensures
            (r matches Err(e) && e.errno == crate::fail::ENOTSUP),
    {
        Err(Fail::new(crate::fail::ENOTSUP))
    }

    /// Blocking waits belong to the caller's loop, not this stack.
    pub fn wait2(&mut self, _qt: u64) -> (r: Result<u32, Fail>)
        ensures
            (r matches Err(e) && e.errno == crate::fail::ENOTSUP),
    {
        Err(Fail::new(crate::fail::ENOTSUP))
    }

    /// Blocking waits belong to the caller's loop, not this stack.
    pub fn wait_any2(&mut self, _qts: &Vec<u64>) -> (r: Result<(usize, u32), Fail>)
        ensures
            (r matches Err(e) && e.errno == crate::fail::ENOTSUP),
    {
        Err(Fail::new(crate::fail::ENOTSUP))
    }

    /// Counts one poll iteration; reports whether this is the iteration on
    /// which the shared clock must be advanced (every `TIMER_RESOLUTION`-th
    /// poll, starting with the first).
    pub fn advance_clock_due(&mut self) -> (r: bool)
        requires
            old(self).wf(),
        ensures
            final(self).wf(),
            r == (old(self).ts_iters == 0),
            final(self).ts_iters == (old(self).ts_iters + 1) % (TIMER_RESOLUTION as int),
            final(self).scheduler == old(self).scheduler,
    {
        let due = self.ts_iters == 0;
        self.ts_iters = (self.ts_iters + 1) % TIMER_RESOLUTION;
        due
    }
}

} // verus!
