//! The passive-open (listening) socket: the SYN / SYN+ACK / ACK handshake,
//! the in-flight accept table, the backlog limit, and the ready queue of
//! completed connections.

use vstd::prelude::*;
use crate::config::{TcpConfig, FALLBACK_MSS};
use crate::ctrlblk::ControlBlock;
use crate::endpoint::Endpoint;
use crate::fail::{Fail, EBADMSG, ECONNREFUSED};
use crate::seqnum::{seq_add, seq_number_add};
use crate::sender::{pow2, pow2_u32, lemma_pow2_le_14, MAX_WINDOW};
use crate::tcp_header::{TcpHeader, TcpOption, spec_option_mss, spec_option_window_scale};

verus! {

/// A half-open connection: SYN received, SYN+ACK sent, final ACK awaited.
pub struct InflightAccept {
    pub local_isn: u32,
    pub remote_isn: u32,
    /// The window the peer's SYN advertised, unscaled.
    pub header_window_size: u16,
    /// The window scale the peer's SYN advertised, if any.
    pub remote_window_scale: Option<u8>,
    /// The segment size agreed for this connection.
    pub mss: usize,
}

/// What the listening socket did with a segment.
pub enum PassiveOutput {
    /// The final ACK of a handshake: a fully initialized control block.
    Completed(ControlBlock),
    /// A valid SYN: reply with this SYN+ACK header.
    SynAck(TcpHeader),
    /// A segment for a connection already completed and awaiting accept.
    Ignored,
}

/// The multiplier that spreads the in-flight counter across the sequence
/// space when initial sequence numbers are generated.
pub const ISN_SPREAD: u32 = 0x9E37_79B9;

/// The initial sequence number for the `count`-th accepted connection from
/// `remote`, derived from the process nonce.
pub open spec fn spec_isn(nonce: u32, count: u32, remote: Endpoint) -> u32 {
    seq_add(seq_add(seq_add(nonce,
        ((count * ISN_SPREAD) % 0x1_0000_0000) as u32), remote.ip), remote.port as u32)
}

/// The segment size agreed from what the SYN advertised: the advertisement
/// capped at the fallback size; absent or zero advertisements give the
/// fallback itself.
pub open spec fn spec_negotiated_mss(advertised: Option<u16>) -> usize {
    match advertised {
        Some(m) => if m == 0 { FALLBACK_MSS }
            else if m as usize > FALLBACK_MSS { FALLBACK_MSS } else { m as usize },
        None => FALLBACK_MSS,
    }
}

/// The window scales agreed at the handshake: `(local, remote)`. A peer
/// that advertised no scale gets none either way; an advertised scale is
/// capped at the largest shift the protocol allows.
pub open spec fn spec_negotiated_scales(configured: u8, advertised: Option<u8>) -> (u8, u8) {
    match advertised {
        Some(w) => (configured, if w > 14 { 14u8 } else { w }),
        None => (0u8, 0u8),
    }
}

/// Everything `PassiveSocket::receive` promises for a segment with header
/// `hdr` from `remote`, relating the socket before (`pre`) and after
/// (`post`) to the result: segments for completed-but-unaccepted remotes
/// are ignored; for a half-open remote only the exact final ACK yields the
/// finalized control block; from anyone else only a clean SYN within the
/// backlog opens an entry and asks for a SYN+ACK.
pub open spec fn spec_passive_receive_post(
    pre: PassiveSocket,
    post: PassiveSocket,
    qd: u32,
    remote: Endpoint,
    hdr: crate::tcp_header::TcpHeaderV,
    r: Result<PassiveOutput, Fail>,
) -> bool {
    &&& post.wf()
    &&& post.local == pre.local
    &&& post.max_backlog == pre.max_backlog
    &&& post.ready@ == pre.ready@
    // Completed but unaccepted: ignore.
    &&& pre.in_ready(remote) ==> (r matches Ok(out) && out is Ignored) && post == pre
    // Half-open: only the exact final ACK completes the handshake.
    &&& (!pre.in_ready(remote) && pre.has_inflight(remote)) ==> {
        let entry = pre.inflight@[pre.inflight_idx(remote)].1;
        if hdr.ack && hdr.ack_num == seq_add(entry.local_isn, 1) {
            let scales = spec_negotiated_scales(
                pre.tcp_config.window_scale, entry.remote_window_scale);
            &&& (r matches Ok(out) && out matches PassiveOutput::Completed(cb)
                && cb.qd == qd
                && cb.local == pre.local
                && cb.remote == remote
                && cb.state == crate::ctrlblk::State::Established
                && cb.receiver.rcv_nxt == seq_add(entry.remote_isn, 1)
                && cb.sender.snd_una == seq_add(entry.local_isn, 1)
                && cb.sender.snd_nxt == seq_add(entry.local_isn, 1)
                && cb.sender.snd_wnd == entry.header_window_size * pow2(scales.1 as nat)
                && cb.receiver.rcv_wnd
                    == pre.tcp_config.receive_window_size * pow2(scales.0 as nat)
                && cb.snd_scale == scales.1
                && cb.mss == entry.mss
                && cb.wf())
            &&& post.inflight@ == pre.inflight@.remove(pre.inflight_idx(remote))
        } else {
            (r matches Err(e) && e.errno == EBADMSG) && post == pre
        }
    }
    // Unknown remote: a clean SYN within the backlog opens an entry.
    &&& (!pre.in_ready(remote) && !pre.has_inflight(remote)) ==> {
        if !(hdr.syn && !hdr.ack && !hdr.rst) {
            (r matches Err(e) && e.errno == EBADMSG) && post == pre
        } else if pre.inflight@.len() + pre.ready@.len() >= pre.max_backlog {
            (r matches Err(e) && e.errno == ECONNREFUSED) && post == pre
        } else {
            let isn = spec_isn(pre.nonce, pre.isn_count, remote);
            &&& (r matches Ok(out) && out matches PassiveOutput::SynAck(reply)
                && reply.src_port == pre.local.port
                && reply.dst_port == remote.port
                && reply.syn && reply.ack && !reply.rst && !reply.fin
                && reply.seq_num == isn
                && reply.ack_num == seq_add(hdr.seq_num, 1)
                && reply.window_size == pre.tcp_config.receive_window_size
                && spec_option_mss(reply.options@) == Some(pre.tcp_config.mss as u16)
                && spec_option_window_scale(reply.options@)
                    == Some(pre.tcp_config.window_scale))
            &&& post.inflight@.len() == pre.inflight@.len() + 1
            &&& post.inflight@.take(pre.inflight@.len() as int) == pre.inflight@
            &&& post.inflight@.last().0 == remote
            &&& post.inflight@.last().1.local_isn == isn
            &&& post.inflight@.last().1.remote_isn == hdr.seq_num
            &&& post.inflight@.last().1.header_window_size == hdr.window_size
            &&& post.inflight@.last().1.remote_window_scale
                == spec_option_window_scale(hdr.options)
            &&& post.inflight@.last().1.mss
                == spec_negotiated_mss(spec_option_mss(hdr.options))
            &&& post.isn_count == seq_add(pre.isn_count, 1)
        }
    }
}

/// A listening socket.
pub struct PassiveSocket {
    /// Half-open connections, keyed by remote endpoint (unique keys).
    pub inflight: Vec<(Endpoint, InflightAccept)>,
    /// Completed connections awaiting accept.
    pub ready: Vec<ControlBlock>,
    /// Cap on half-open plus completed-unaccepted connections.
    pub max_backlog: usize,
    /// Process nonce seeding initial sequence numbers.
    pub nonce: u32,
    /// Count of initial sequence numbers generated so far.
    pub isn_count: u32,
    /// The bound endpoint.
    pub local: Endpoint,
    pub tcp_config: TcpConfig,
}

impl PassiveSocket {
    /// A remote endpoint has a half-open entry.
    pub open spec fn has_inflight(self, remote: Endpoint) -> bool {
        exists|i: int| 0 <= i < self.inflight@.len() && self.inflight@[i].0 == remote
    }

    /// The index of a remote endpoint's half-open entry.
    pub open spec fn inflight_idx(self, remote: Endpoint) -> int {
        choose|i: int| 0 <= i < self.inflight@.len() && self.inflight@[i].0 == remote
    }

    /// A remote endpoint has a completed, not-yet-accepted connection.
    pub open spec fn in_ready(self, remote: Endpoint) -> bool {
        exists|i: int| 0 <= i < self.ready@.len() && self.ready@[i].remote == remote
    }

    /// Well-formedness: in-flight keys are unique, the configured window
    /// scale is a legal shift, and the configured segment size is non-zero.
    pub open spec fn wf(self) -> bool {
        &&& forall|i: int, j: int| 0 <= i < j < self.inflight@.len()
            ==> (#[trigger] self.inflight@[i]).0 != (#[trigger] self.inflight@[j]).0
        &&& forall|i: int| 0 <= i < self.inflight@.len()
            ==> (#[trigger] self.inflight@[i]).1.mss > 0
        &&& self.tcp_config.window_scale <= 14
        &&& 0 < self.tcp_config.mss <= 0xffff
        &&& forall|i: int| 0 <= i < self.ready@.len() ==> (#[trigger] self.ready@[i]).wf()
    }

    /// A fresh listening socket bound to `local`.
    pub fn new(local: Endpoint, max_backlog: usize, tcp_config: TcpConfig, nonce: u32)
        -> (r: PassiveSocket)
        requires
            tcp_config.window_scale <= 14,
            0 < tcp_config.mss <= 0xffff,
        ensures
            r.wf(),
            r.local == local,
            r.max_backlog == max_backlog,
            r.nonce == nonce,
            r.tcp_config == tcp_config,
            r.isn_count == 0,
            r.inflight@.len() == 0,
            r.ready@.len() == 0,
    {
        PassiveSocket {
            inflight: Vec::new(),
            ready: Vec::new(),
            max_backlog,
            nonce,
            isn_count: 0,
            local,
            tcp_config,
        }
    }

    /// The address the socket is bound to.
    pub fn endpoint(&self) -> (r: Endpoint)
        ensures
            r == self.local,
    {
        self.local
    }

    /// Takes one completed connection off the ready queue, if any.
    pub fn poll_accept(&mut self) -> (r: Option<ControlBlock>)
        requires
            old(self).wf(),
        ensures
            final(self).wf(),
            old(self).ready@.len() == 0 ==> r is None && *final(self) == *old(self),
            old(self).ready@.len() > 0 ==> {
                &&& (r matches Some(cb) && cb == old(self).ready@[0])
                &&& final(self).ready@ == old(self).ready@.skip(1)
                &&& final(self).inflight@ == old(self).inflight@
            },
    {
        if self.ready.len() == 0 {
            return None;
        }
        let cb = self.ready.remove(0);
        proof {
            assert(self.ready@ =~= old(self).ready@.skip(1));
        }
        Some(cb)
    }

    /// Finds the half-open entry for `remote`, if any.
    fn find_inflight(&self, remote: Endpoint) -> (r: Option<usize>)
        requires
            self.wf(),
        ensures
            r is Some <==> self.has_inflight(remote),
            r matches Some(i) ==> 0 <= i < self.inflight@.len()
                && self.inflight@[i as int].0 == remote
                && i == self.inflight_idx(remote),
    {
        let n = self.inflight.len();
        for i in 0..n
            invariant
                n == self.inflight@.len(),
                self.wf(),
                forall|j: int| 0 <= j < i ==> (#[trigger] self.inflight@[j]).0 != remote,
        {
            if self.inflight[i].0 == remote {
                proof {
                    let w = self.inflight_idx(remote);
                    assert(0 <= w < self.inflight@.len() && self.inflight@[w].0 == remote);
                    if w != i {
                        if w < i {
                            assert(self.inflight@[w].0 != self.inflight@[i as int].0);
                        } else {
                            assert(self.inflight@[i as int].0 != self.inflight@[w].0);
                        }
                    }
                }
                return Some(i);
            }
        }
        proof {
            if self.has_inflight(remote) {
                let w = self.inflight_idx(remote);
                assert(0 <= w < self.inflight@.len() && self.inflight@[w].0 == remote);
            }
        }
        None
    }

    /// Whether `remote` already has a completed, unaccepted connection.
    fn find_ready(&self, remote: Endpoint) -> (r: bool)
        ensures
            r == self.in_ready(remote),
    {
        let n = self.ready.len();
        for i in 0..n
            invariant
                n == self.ready@.len(),
                forall|j: int| 0 <= j < i ==> (#[trigger] self.ready@[j]).remote != remote,
        {
            if self.ready[i].remote == remote {
                return true;
            }
        }
        false
    }

    /// Handles a segment addressed to the listening port, from `remote`.
    ///
    /// A segment from a remote whose connection is completed but unaccepted
    /// is ignored. For a half-open remote, only the pure ACK of our SYN+ACK
    /// is valid: it finalizes the control block with the negotiated window
    /// scales and segment size, removes the half-open entry, and hands the
    /// connection out; anything else is a bad-message error. From any other
    /// remote, only a clean SYN is valid, and only while the backlog has
    /// room: it records the half-open entry and asks for a SYN+ACK reply;
    /// a full backlog refuses the connection (no reply is sent), and wrong
    /// flags are a bad-message error.
    #[verifier::rlimit(100)]
    pub fn receive(
        &mut self,
        qd: u32,
        local_link_addr: [u8; 6],
        remote_link_addr: [u8; 6],
        remote: Endpoint,
        header: &TcpHeader,
    ) -> (r: Result<PassiveOutput, Fail>)
        requires
            old(self).wf(),
        ensures
            spec_passive_receive_post(*old(self), *final(self), qd, remote, header@, r),
    {
        if self.find_ready(remote) {
            return Ok(PassiveOutput::Ignored);
        }

        let idx = self.find_inflight(remote);
        match idx {
            Some(i) => self.finalize_handshake(qd, local_link_addr, remote_link_addr,
                remote, header, i),
            None => self.handle_syn(remote, header),
        }
    }

    /// Completes the handshake for a half-open remote: only the pure ACK of
    /// our SYN+ACK is valid; it yields the finalized control block.
    #[verifier::rlimit(100)]
    fn finalize_handshake(
        &mut self,
        qd: u32,
        local_link_addr: [u8; 6],
        remote_link_addr: [u8; 6],
        remote: Endpoint,
        header: &TcpHeader,
        i: usize,
    ) -> (r: Result<PassiveOutput, Fail>)
        requires
            old(self).wf(),
            0 <= i < old(self).inflight@.len(),
            old(self).inflight@[i as int].0 == remote,
            i == old(self).inflight_idx(remote),
        ensures
            final(self).wf(),
            final(self).local == old(self).local,
            final(self).max_backlog == old(self).max_backlog,
            final(self).ready@ == old(self).ready@,
            ({
                let entry = old(self).inflight@[i as int].1;
                if header.ack && header.ack_num == seq_add(entry.local_isn, 1) {
                    let scales = spec_negotiated_scales(
                        old(self).tcp_config.window_scale, entry.remote_window_scale);
                    &&& (r matches Ok(out) && out matches PassiveOutput::Completed(cb)
                        && cb.qd == qd
                        && cb.local == old(self).local
                        && cb.remote == remote
                        && cb.state == crate::ctrlblk::State::Established
                        && cb.receiver.rcv_nxt == seq_add(entry.remote_isn, 1)
                        && cb.sender.snd_una == seq_add(entry.local_isn, 1)
                        && cb.sender.snd_nxt == seq_add(entry.local_isn, 1)
                        && cb.sender.snd_wnd
                            == entry.header_window_size * pow2(scales.1 as nat)
                        && cb.receiver.rcv_wnd
                            == old(self).tcp_config.receive_window_size
                                * pow2(scales.0 as nat)
                        && cb.snd_scale == scales.1
                        && cb.mss == entry.mss
                        && cb.wf())
                    &&& final(self).inflight@ == old(self).inflight@.remove(i as int)
                } else {
                    (r matches Err(e) && e.errno == EBADMSG) && *final(self) == *old(self)
                }
            }),
    {
        let expected_ack = seq_number_add(self.inflight[i].1.local_isn, 1);
                if !header.ack || header.ack_num != expected_ack {
                    return Err(Fail::new(EBADMSG));
                }
                let entry = self.inflight.remove(i);
                let accept = entry.1;
                let (local_scale, remote_scale): (u8, u8) = match accept.remote_window_scale {
                    Some(w) => (self.tcp_config.window_scale, if w > 14 { 14 } else { w }),
                    None => (0, 0),
                };
                let ghost rwnd16 = self.tcp_config.receive_window_size;
                let ghost hwnd16 = accept.header_window_size;
                proof {
                    lemma_pow2_le_14(local_scale as nat);
                    lemma_pow2_le_14(remote_scale as nat);
                    assert((local_scale, remote_scale) == spec_negotiated_scales(
                        old(self).tcp_config.window_scale, accept.remote_window_scale));
                    assert(rwnd16 * pow2(local_scale as nat) <= 0xffff * 0x4000)
                        by (nonlinear_arith)
                        requires pow2(local_scale as nat) <= 0x4000, rwnd16 <= 0xffff;
                    assert(hwnd16 * pow2(remote_scale as nat) <= 0xffff * 0x4000)
                        by (nonlinear_arith)
                        requires pow2(remote_scale as nat) <= 0x4000, hwnd16 <= 0xffff;
                }
                let remote_window_size: u32 =
                    (accept.header_window_size as u32) * pow2_u32(remote_scale);
                let local_window_size: u32 =
                    (self.tcp_config.receive_window_size as u32) * pow2_u32(local_scale);
                let mss = accept.mss;
                let cb = ControlBlock::new(
                    qd,
                    self.local,
                    remote,
                    local_link_addr,
                    remote_link_addr,
                    self.tcp_config,
                    seq_number_add(accept.remote_isn, 1),
                    local_window_size,
                    seq_number_add(accept.local_isn, 1),
                    remote_window_size,
                    remote_scale,
                    mss,
                );
                proof {
                    assert forall|a: int, b: int| 0 <= a < b < self.inflight@.len()
                        implies (#[trigger] self.inflight@[a]).0
                            != (#[trigger] self.inflight@[b]).0 by {
                        if b < i {
                            assert(old(self).inflight@[a].0 != old(self).inflight@[b].0);
                        } else if a < i {
                            assert(old(self).inflight@[a].0 != old(self).inflight@[b + 1].0);
                        } else {
                            assert(old(self).inflight@[a + 1].0
                                != old(self).inflight@[b + 1].0);
                        }
                    }
                }
        Ok(PassiveOutput::Completed(cb))
    }

    /// Handles a segment from a remote with no half-open entry: a clean SYN
    /// within the backlog opens one and asks for a SYN+ACK reply.
    #[verifier::rlimit(100)]
    fn handle_syn(&mut self, remote: Endpoint, header: &TcpHeader)
        -> (r: Result<PassiveOutput, Fail>)
        requires
            old(self).wf(),
            !old(self).has_inflight(remote),
        ensures
            final(self).wf(),
            final(self).local == old(self).local,
            final(self).max_backlog == old(self).max_backlog,
            final(self).ready@ == old(self).ready@,
            ({
                if !(header.syn && !header.ack && !header.rst) {
                    (r matches Err(e) && e.errno == EBADMSG) && *final(self) == *old(self)
                } else if old(self).inflight@.len() + old(self).ready@.len()
                        >= old(self).max_backlog {
                    (r matches Err(e) && e.errno == ECONNREFUSED)
                        && *final(self) == *old(self)
                } else {
                    let isn = spec_isn(old(self).nonce, old(self).isn_count, remote);
                    &&& (r matches Ok(out) && out matches PassiveOutput::SynAck(reply)
                        && reply.src_port == old(self).local.port
                        && reply.dst_port == remote.port
                        && reply.syn && reply.ack && !reply.rst && !reply.fin
                        && reply.seq_num == isn
                        && reply.ack_num == seq_add(header.seq_num, 1)
                        && reply.window_size == old(self).tcp_config.receive_window_size
                        && spec_option_mss(reply.options@)
                            == Some(old(self).tcp_config.mss as u16)
                        && spec_option_window_scale(reply.options@)
                            == Some(old(self).tcp_config.window_scale))
                    &&& final(self).inflight@.len() == old(self).inflight@.len() + 1
                    &&& final(self).inflight@.take(old(self).inflight@.len() as int)
                        == old(self).inflight@
                    &&& final(self).inflight@.last().0 == remote
                    &&& final(self).inflight@.last().1.local_isn == isn
                    &&& final(self).inflight@.last().1.remote_isn == header.seq_num
                    &&& final(self).inflight@.last().1.header_window_size
                        == header.window_size
                    &&& final(self).inflight@.last().1.remote_window_scale
                        == spec_option_window_scale(header.options@)
                    &&& final(self).inflight@.last().1.mss
                        == spec_negotiated_mss(spec_option_mss(header.options@))
                    &&& final(self).isn_count == seq_add(old(self).isn_count, 1)
                }
            }),
    {
        // A brand-new remote: only a clean SYN may open a connection.
        if !header.syn || header.ack || header.rst {
                    return Err(Fail::new(EBADMSG));
                }
                if self.inflight.len() >= self.max_backlog
                    || self.ready.len() >= self.max_backlog - self.inflight.len() {
                    return Err(Fail::new(ECONNREFUSED));
                }
                let local_isn = self.generate_isn(remote);
                let remote_isn = header.seq_num;

                let mut reply = TcpHeader::new(self.local.port, remote.port);
                reply.syn = true;
                reply.ack = true;
                reply.seq_num = local_isn;
                reply.ack_num = seq_number_add(remote_isn, 1);
                reply.window_size = self.tcp_config.receive_window_size;
                let advertised_mss: u16 = self.tcp_config.mss as u16;
                reply.push_option(TcpOption::MaximumSegmentSize(advertised_mss));
                reply.push_option(TcpOption::WindowScale(self.tcp_config.window_scale));
                proof {
                    let opts = reply.options@;
                    assert(opts[0] == TcpOption::MaximumSegmentSize(advertised_mss));
                    assert(opts[1] == TcpOption::WindowScale(self.tcp_config.window_scale));
                    assert(opts.skip(1)
                        =~= seq![TcpOption::WindowScale(self.tcp_config.window_scale)]);
                    assert(opts.skip(1).skip(1) =~= Seq::<TcpOption>::empty());
                    assert(spec_option_mss(opts) == Some(advertised_mss));
                    assert(spec_option_window_scale(opts.skip(1))
                        == Some(self.tcp_config.window_scale));
                    assert(spec_option_window_scale(opts)
                        == Some(self.tcp_config.window_scale));
                }

                let remote_window_scale = header.option_window_scale();
                let advertised = header.option_mss();
                let mss: usize = match advertised {
                    Some(m) => if m == 0 { FALLBACK_MSS }
                        else if m as usize > FALLBACK_MSS { FALLBACK_MSS }
                        else { m as usize },
                    None => FALLBACK_MSS,
                };
                let accept = InflightAccept {
                    local_isn,
                    remote_isn,
                    header_window_size: header.window_size,
                    remote_window_scale,
                    mss,
                };
        self.inflight.push((remote, accept));
        proof {
            assert forall|a: int, b: int| 0 <= a < b < self.inflight@.len()
                implies (#[trigger] self.inflight@[a]).0
                    != (#[trigger] self.inflight@[b]).0 by {
                if b == self.inflight@.len() - 1 {
                    assert(!old(self).has_inflight(remote));
                    assert(old(self).inflight@[a].0 == self.inflight@[a].0);
                } else {
                    assert(old(self).inflight@[a].0 != old(self).inflight@[b].0);
                }
            }
        }
        Ok(PassiveOutput::SynAck(reply))
    }

    /// Generates the next initial sequence number for `remote`.
    fn generate_isn(&mut self, remote: Endpoint) -> (r: u32)
        ensures
            r == spec_isn(old(self).nonce, old(self).isn_count, remote),
            final(self).isn_count == seq_add(old(self).isn_count, 1),
            *final(self) == (PassiveSocket { isn_count: final(self).isn_count, ..*old(self) }),
    {
        let spread = self.isn_count.wrapping_mul(ISN_SPREAD);
        let isn = self.nonce
            .wrapping_add(spread)
            .wrapping_add(remote.ip)
            .wrapping_add(remote.port as u32);
        self.isn_count = self.isn_count.wrapping_add(1);
        isn
    }
}

} // verus!
