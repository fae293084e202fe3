//! The TCP control block: per-connection state joining the send side, the
//! receive side, the round-trip-time estimator, the two timers, and the
//! lifecycle state machine (passive open through close).

use vstd::prelude::*;
use crate::config::TcpConfig;
use crate::endpoint::Endpoint;
use crate::fail::{Fail, ENOTCONN, ECONNRESET, ETIMEDOUT};
use crate::receiver::{Receiver, Disposition};
use crate::rto::{RtoCalculator, spec_rto, MAX_RTO_NS};
use crate::sender::{Sender, MAX_WINDOW, seg_bytes};
use crate::seqnum::{seq_add, seq_sub, seq_le};
use crate::tcp_header::TcpHeader;

verus! {

/// Lifecycle state of a connection (the listening state lives in the
/// passive socket, not here).
#[derive(Clone, Copy, Debug, PartialEq, Eq, Structural)]
pub enum State {
    SynReceived,
    Established,
    FinWait1,
    FinWait2,
    Closing,
    TimeWait,
    CloseWait,
    LastAck,
    Closed,
}

/// Retransmissions allowed before the connection is abandoned.
pub const MAX_RETRIES: u32 = 5;

/// The state after the local side asks to close.
pub open spec fn spec_close_state(s: State) -> State {
    match s {
        State::SynReceived => State::FinWait1,
        State::Established => State::FinWait1,
        State::CloseWait => State::LastAck,
        _ => s,
    }
}

/// The state after a FIN arrives from the peer.
pub open spec fn spec_fin_state(s: State) -> State {
    match s {
        State::SynReceived => State::CloseWait,
        State::Established => State::CloseWait,
        State::FinWait1 => State::Closing,
        State::FinWait2 => State::TimeWait,
        _ => s,
    }
}

/// The state after the peer acknowledges our FIN.
pub open spec fn spec_fin_acked_state(s: State) -> State {
    match s {
        State::FinWait1 => State::FinWait2,
        State::Closing => State::TimeWait,
        State::LastAck => State::Closed,
        _ => s,
    }
}

/// What the control block asks its caller to transmit after a receive.
#[derive(Clone, Copy, Debug, PartialEq, Eq, Structural)]
pub enum AckPlan {
    /// Nothing owed.
    NotOwed,
    /// Send a pure ACK immediately (out-of-order data, duplicate, or FIN).
    Immediate,
    /// A delayed ACK is pending (deadline already recorded).
    Delayed,
}

/// What to do when the retransmission timer fires.
pub enum RtoAction {
    /// Nothing due: timer not expired or nothing in flight.
    Idle,
    /// Re-send this segment (sequence number and bytes).
    Retransmit(u32, Vec<u8>),
    /// Retry budget exhausted: the connection is now closed.
    Abort,
}

/// Per-connection TCP state.
pub struct ControlBlock {
    /// Queue descriptor of the owning queue.
    pub qd: u32,
    pub local: Endpoint,
    pub remote: Endpoint,
    /// MAC of the local NIC port.
    pub local_link_addr: [u8; 6],
    /// MAC of the remote (or gateway) side.
    pub remote_link_addr: [u8; 6],
    pub tcp_config: TcpConfig,
    pub state: State,
    pub sender: Sender,
    pub receiver: Receiver,
    pub rto_calc: RtoCalculator,
    /// Shift applied to window advertisements from the peer.
    pub snd_scale: u8,
    /// Maximum segment size agreed at the handshake.
    pub mss: usize,
    /// Retransmissions of the current leftmost segment.
    pub retries: u32,
    /// Retransmission deadline on the monotonic clock, if armed.
    pub rto_deadline_ns: Option<u64>,
    /// Delayed-ACK deadline on the monotonic clock, if armed.
    pub ack_deadline_ns: Option<u64>,
    /// Whether close has been requested locally (makes close idempotent).
    pub close_requested: bool,
}

/// What a receive asks the caller to do and what it observed.
pub struct ReceiveOutput {
    /// The acknowledgment the caller owes the peer.
    pub ack: AckPlan,
    /// The peer reset the connection.
    pub reset: bool,
    /// What happened to the payload, if the segment carried one.
    pub payload: Option<Disposition>,
}

/// `a + b`, clamped at the top of the 64-bit range.
pub open spec fn spec_sat_add(a: u64, b: u64) -> u64 {
    if a + b > u64::MAX { u64::MAX } else { (a + b) as u64 }
}

/// The timeout armed after the `n`-th retransmission of a segment whose
/// estimator timeout is `t`: doubled per retry, capped at the ceiling.
pub open spec fn spec_backoff(t: u64, n: nat) -> u64
    decreases n,
{
    if n == 0 {
        t
    } else {
        let p = spec_backoff(t, (n - 1) as nat);
        if p > MAX_RTO_NS / 2 { MAX_RTO_NS } else { (p * 2) as u64 }
    }
}

/// Everything `ControlBlock::receive` promises, relating the block before
/// (`pre`) and after (`post`) one segment with header `hdr` and payload
/// `data`, arriving at time `now`, to what it returned (`out`). The
/// pipeline layers above restate exactly this.
pub open spec fn spec_receive_post(
    pre: ControlBlock,
    post: ControlBlock,
    hdr: crate::tcp_header::TcpHeaderV,
    data: Seq<u8>,
    now: u64,
    out: ReceiveOutput,
) -> bool {
    &&& post.wf()
    &&& post.close_requested == pre.close_requested
    &&& post.local == pre.local && post.remote == pre.remote
    // Reset: everything stops.
    &&& hdr.rst ==> {
        &&& out.reset && post.state == State::Closed
        &&& post.sender == pre.sender
        &&& post.receiver == pre.receiver
    }
    &&& !hdr.rst ==> !out.reset
    // SND.UNA advances to the acknowledgment number exactly when it
    // acknowledges new data, else stays.
    &&& !hdr.rst ==> seq_le(pre.sender.snd_una, post.sender.snd_una)
    &&& (!hdr.rst && hdr.ack && pre.sender.ack_in_range(hdr.ack_num))
        ==> post.sender.snd_una == hdr.ack_num
            && seg_bytes(post.sender.unacked@)
                == seg_bytes(pre.sender.unacked@).skip(
                    seq_sub(hdr.ack_num, pre.sender.snd_una) as int)
    &&& (!hdr.rst && !(hdr.ack && pre.sender.ack_in_range(hdr.ack_num)))
        ==> post.sender.snd_una == pre.sender.snd_una
            && post.sender.unacked@ == pre.sender.unacked@
    // The delivered stream only grows, by appending.
    &&& !hdr.rst ==> pre.receiver.stream().len() <= post.receiver.stream().len()
        && (forall|i: int| 0 <= i < pre.receiver.stream().len()
            ==> post.receiver.stream()[i] == pre.receiver.stream()[i])
    // No payload: the receive side's queues are untouched.
    &&& (!hdr.rst && data.len() == 0) ==> {
        &&& post.receiver.reassembled@ == pre.receiver.reassembled@
        &&& post.receiver.rcv_nxt == pre.receiver.rcv_nxt
        &&& out.payload is None
    }
    // In-order payload: delivered up to the first parked segment.
    &&& (!hdr.rst && data.len() > 0 && hdr.seq_num == pre.receiver.rcv_nxt
        && data.len() <= pre.receiver.rcv_wnd) ==> {
        let kept = pre.receiver.in_order_keep(data.len() as int);
        &&& out.payload == Some(Disposition::Delivered)
        &&& post.receiver.stream().len() >= pre.receiver.stream().len() + kept
        &&& forall|t: int| 0 <= t < kept
            ==> post.receiver.stream()[pre.receiver.stream().len() + t] == data[t]
    }
    // The acknowledgment owed back: in-order data is acknowledged by the
    // delayed-ACK timer (kept if already armed), anything out of order or
    // duplicated at once, and a FIN at once.
    &&& (!hdr.rst && hdr.fin) ==> out.ack == AckPlan::Immediate
    &&& (!hdr.rst && !hdr.fin && data.len() == 0)
        ==> out.ack == AckPlan::NotOwed && post.ack_deadline_ns == pre.ack_deadline_ns
    &&& (!hdr.rst && !hdr.fin && data.len() > 0) ==> (match out.payload {
        Some(d) => {
            if d == Disposition::Delivered {
                &&& out.ack == AckPlan::Delayed
                &&& post.ack_deadline_ns is Some
                &&& (pre.ack_deadline_ns is Some
                    ==> post.ack_deadline_ns == pre.ack_deadline_ns)
            } else {
                out.ack == AckPlan::Immediate
            }
        },
        None => false,
    })
    // The close diagram.
    &&& !hdr.rst ==> post.state == {
        let s1 = (if hdr.ack && pre.fin_outstanding()
                && hdr.ack_num == seq_add(pre.sender.snd_nxt, 1) {
            spec_fin_acked_state(pre.state)
        } else {
            pre.state
        });
        if hdr.fin { spec_fin_state(s1) } else { s1 }
    }
}

/// Everything `ControlBlock::send` promises: accepted in offered order on a
/// connection that still sends, refused as not-connected otherwise.
pub open spec fn spec_send_post(
    pre: ControlBlock,
    post: ControlBlock,
    buf: Seq<u8>,
    r: Result<(), Fail>,
) -> bool {
    &&& post.wf()
    &&& (pre.state == State::Established || pre.state == State::CloseWait)
        <==> r is Ok
    &&& r is Ok ==> {
        &&& post.sender.unsent@ == pre.sender.unsent@ + buf
        &&& post.sender.unacked@ == pre.sender.unacked@
        &&& post.sender.snd_una == pre.sender.snd_una
        &&& post.sender.snd_nxt == pre.sender.snd_nxt
        &&& post.receiver == pre.receiver
        &&& post.state == pre.state
    }
    &&& !(r is Ok) ==> (r matches Err(e) && e.errno == ENOTCONN) && post == pre
}

/// Everything `ControlBlock::poll_recv` promises: ready bytes come off the
/// front of the reassembled queue; a drained, closed connection reports the
/// reset; otherwise the caller polls again.
pub open spec fn spec_pop_post(
    pre: ControlBlock,
    post: ControlBlock,
    max: Option<usize>,
    r: Option<Result<Vec<u8>, Fail>>,
) -> bool {
    &&& post.wf()
    &&& post.state == pre.state
    &&& post.sender == pre.sender
    &&& pre.receiver.reassembled@.len() > 0 ==> {
        let k = (match max {
            Some(m) => vstd::math::min(m as int, pre.receiver.reassembled@.len() as int),
            None => pre.receiver.reassembled@.len() as int,
        });
        &&& (r matches Some(rr) && rr matches Ok(bytes)
            && bytes@ == pre.receiver.reassembled@.take(k))
        &&& post.receiver.reassembled@ == pre.receiver.reassembled@.skip(k)
    }
    &&& (pre.receiver.reassembled@.len() == 0 && pre.state == State::Closed)
        ==> (r matches Some(rr) && rr matches Err(e) && e.errno == ECONNRESET)
    &&& (pre.receiver.reassembled@.len() == 0 && pre.state != State::Closed)
        ==> r is None && post == pre
}

/// Everything `ControlBlock::close` promises: always succeeds, moves along
/// the close diagram on the first call, and changes nothing on a repeat.
pub open spec fn spec_close_post(
    pre: ControlBlock,
    post: ControlBlock,
    r: Result<(), Fail>,
) -> bool {
    &&& post.wf()
    &&& r is Ok
    &&& pre.close_requested ==> post == pre
    &&& !pre.close_requested ==> {
        &&& post.state == spec_close_state(pre.state)
        &&& post.close_requested
        &&& post.sender == pre.sender
        &&& post.receiver == pre.receiver
    }
}

impl ControlBlock {
    /// All parts well-formed, and the handshake agreements within bounds.
    pub open spec fn wf(self) -> bool {
        &&& self.sender.wf()
        &&& self.receiver.wf()
        &&& self.rto_calc.wf()
        &&& self.snd_scale <= 14
        &&& self.mss > 0
    }

    /// A control block as the passive open finalizes it: established, with
    /// both sides' sequence numbers one past their initial values.
    pub fn new(
        qd: u32,
        local: Endpoint,
        remote: Endpoint,
        local_link_addr: [u8; 6],
        remote_link_addr: [u8; 6],
        tcp_config: TcpConfig,
        rcv_nxt: u32,
        local_window_size: u32,
        snd_nxt: u32,
        remote_window_size: u32,
        snd_scale: u8,
        mss: usize,
    ) -> (r: ControlBlock)
        requires
            local_window_size <= MAX_WINDOW,
            remote_window_size <= MAX_WINDOW,
            snd_scale <= 14,
            mss > 0,
        ensures
            r.wf(),
            r.qd == qd,
            r.local == local && r.remote == remote,
            r.state == State::Established,
            r.sender.snd_una == snd_nxt && r.sender.snd_nxt == snd_nxt,
            r.sender.snd_wnd == remote_window_size,
            r.receiver.rcv_nxt == rcv_nxt && r.receiver.rcv_wnd == local_window_size,
            r.receiver.stream().len() == 0,
            r.mss == mss && r.snd_scale == snd_scale,
            !r.close_requested,
            r.rto_deadline_ns is None && r.ack_deadline_ns is None,
    {
        ControlBlock {
            qd,
            local,
            remote,
            local_link_addr,
            remote_link_addr,
            tcp_config,
            state: State::Established,
            sender: Sender::new(snd_nxt, remote_window_size),
            receiver: Receiver::new(rcv_nxt, local_window_size),
            rto_calc: RtoCalculator::new(),
            snd_scale,
            mss,
            retries: 0,
            rto_deadline_ns: None,
            ack_deadline_ns: None,
            close_requested: false,
        }
    }

    pub fn get_local(&self) -> (r: Endpoint)
        ensures
            r == self.local,
    {
        self.local
    }

    pub fn get_remote(&self) -> (r: Endpoint)
        ensures
            r == self.remote,
    {
        self.remote
    }

    /// The segment size agreed with the peer.
    pub fn remote_mss(&self) -> (r: usize)
        ensures
            r == self.mss,
    {
        self.mss
    }

    /// The current retransmission timeout, nanoseconds.
    pub fn rto(&self) -> (r: u64)
        requires
            self.wf(),
        ensures
            r == spec_rto(self.rto_calc.srtt_ns, self.rto_calc.rttvar_ns,
                self.rto_calc.initialized),
    {
        self.rto_calc.rto_ns()
    }

    /// Handles one incoming segment already parsed into header and payload.
    ///
    /// A reset closes the connection at once. Otherwise, an acknowledgment
    /// advances `SND.UNA` exactly per the send side's rule, refreshes the
    /// send window and the retransmission timer, and — when it covers our
    /// FIN — advances the close diagram. A payload goes through the receive
    /// side; out-of-order or dropped payloads are acknowledged immediately,
    /// in-order ones by the delayed-ACK timer. A FIN advances the close
    /// diagram and is acknowledged immediately.
    pub fn receive(&mut self, hdr: &TcpHeader, data: Vec<u8>, now: u64) -> (out: ReceiveOutput)
        requires
            old(self).wf(),
            data@.len() <= MAX_WINDOW,
        ensures
            spec_receive_post(*old(self), *final(self), hdr@, data@, now, out),
    {
        let ghost orig = *self;
        if hdr.rst {
            self.state = State::Closed;
            return ReceiveOutput { ack: AckPlan::NotOwed, reset: true, payload: None };
        }

        if hdr.ack {
            let sample = self.sender.process_ack(hdr.ack_num);
            self.sender.update_window(hdr.window_size, self.snd_scale);
            match sample {
                Some(sent_at) => {
                    if now >= sent_at {
                        self.rto_calc.add_sample(now - sent_at);
                    }
                    self.retries = 0;
                },
                None => {},
            }
            // The retransmission timer follows the oldest in-flight segment.
            if self.sender.unacked.len() == 0 {
                self.rto_deadline_ns = None;
            } else {
                let t = self.rto_calc.rto_ns();
                self.rto_deadline_ns = Some(saturating_add_u64(now, t));
            }
            // An acknowledgment covering our FIN advances the close diagram.
            if self.fin_outstanding_exec()
                && hdr.ack_num == crate::seqnum::seq_number_add(self.sender.snd_nxt, 1) {
                self.state = match self.state {
                    State::FinWait1 => State::FinWait2,
                    State::Closing => State::TimeWait,
                    State::LastAck => State::Closed,
                    s => s,
                };
            }
        }

        let mut ack = AckPlan::NotOwed;
        let mut payload: Option<Disposition> = None;
        if data.len() > 0 {
            let disp = self.receiver.receive(hdr.seq_num, data);
            payload = Some(disp);
            match disp {
                Disposition::Delivered => {
                    // Schedule a delayed ACK unless one is already pending.
                    if self.ack_deadline_ns.is_none() {
                        self.ack_deadline_ns = Some(saturating_add_u64(
                            now, self.tcp_config.ack_delay_timeout_ns));
                    }
                    ack = AckPlan::Delayed;
                },
                _ => {
                    // Out-of-order or duplicate: acknowledge immediately.
                    ack = AckPlan::Immediate;
                },
            }
        }

        if hdr.fin {
            self.state = match self.state {
                State::SynReceived => State::CloseWait,
                State::Established => State::CloseWait,
                State::FinWait1 => State::Closing,
                State::FinWait2 => State::TimeWait,
                s => s,
            };
            ack = AckPlan::Immediate;
        }

        ReceiveOutput { ack, reset: false, payload }
    }

    /// Whether this side has sent a FIN that awaits acknowledgment.
    pub open spec fn fin_outstanding(self) -> bool {
        self.state == State::FinWait1 || self.state == State::Closing
            || self.state == State::LastAck
    }

    fn fin_outstanding_exec(&self) -> (r: bool)
        ensures
            r == self.fin_outstanding(),
    {
        match self.state {
            State::FinWait1 => true,
            State::Closing => true,
            State::LastAck => true,
            _ => false,
        }
    }

    /// Accepts application bytes for transmission, in offered order.
    pub fn send(&mut self, buf: Vec<u8>) -> (r: Result<(), Fail>)
        requires
            old(self).wf(),
        ensures
            spec_send_post(*old(self), *final(self), buf@, r),
    {
        match self.state {
            State::Established | State::CloseWait => {
                self.sender.enqueue_bytes(buf);
                Ok(())
            },
            _ => Err(Fail::new(ENOTCONN)),
        }
    }

    /// Emits the next data segment allowed by the window, arming the
    /// retransmission timer if it was idle. Returns the starting sequence
    /// number and the bytes, or nothing when the window or the unsent queue
    /// forbids a segment.
    pub fn emit_segment(&mut self, now: u64) -> (r: Option<(u32, Vec<u8>)>)
        requires
            old(self).wf(),
        ensures
            final(self).wf(),
            final(self).state == old(self).state,
            final(self).receiver == old(self).receiver,
            old(self).sender.next_emit_size(old(self).mss) == 0 ==> {
                &&& r is None
                &&& final(self).sender == old(self).sender
            },
            old(self).sender.next_emit_size(old(self).mss) > 0 ==> {
                let size = old(self).sender.next_emit_size(old(self).mss) as int;
                &&& (r matches Some((seq, data)) && seq == old(self).sender.snd_nxt
                    && data@ == old(self).sender.unsent@.take(size))
                &&& final(self).sender.unsent@ == old(self).sender.unsent@.skip(size)
                &&& final(self).sender.snd_nxt
                    == seq_add(old(self).sender.snd_nxt, size as u32)
                &&& seg_bytes(final(self).sender.unacked@)
                    == seg_bytes(old(self).sender.unacked@)
                        + old(self).sender.unsent@.take(size)
                &&& final(self).rto_deadline_ns is Some
            },
    {
        let r = self.sender.emit_segment(self.mss, now);
        if r.is_some() && self.rto_deadline_ns.is_none() {
            let t = self.rto_calc.rto_ns();
            self.rto_deadline_ns = Some(saturating_add_u64(now, t));
        }
        r
    }

    /// Delivers buffered in-order bytes to the application, if any: ready
    /// bytes come out at once; on a closed connection the error is
    /// connection-reset; otherwise the caller must poll again later.
    pub fn poll_recv(&mut self, max: Option<usize>) -> (r: Option<Result<Vec<u8>, Fail>>)
        requires
            old(self).wf(),
        ensures
            spec_pop_post(*old(self), *final(self), max, r),
    {
        if self.receiver.available() > 0 {
            let bytes = self.receiver.pop(max);
            match bytes {
                Some(b) => Some(Ok(b)),
                None => None,
            }
        } else if matches!(self.state, State::Closed) {
            Some(Err(Fail::new(ECONNRESET)))
        } else {
            None
        }
    }

    /// Begins a local close, following the standard diagram: established
    /// connections move to `FinWait1`, half-closed ones to `LastAck`.
    /// Calling `close` twice is idempotent: the second call changes nothing
    /// and returns the same result as the first (which is always success).
    pub fn close(&mut self) -> (r: Result<(), Fail>)
        requires
            old(self).wf(),
        ensures
            spec_close_post(*old(self), *final(self), r),
    {
        if self.close_requested {
            return Ok(());
        }
        self.close_requested = true;
        self.state = match self.state {
            State::SynReceived => State::FinWait1,
            State::Established => State::FinWait1,
            State::CloseWait => State::LastAck,
            s => s,
        };
        Ok(())
    }

    /// Whether the close has completed: ready exactly in the closed state.
    pub fn poll_close(&self) -> (r: bool)
        ensures
            r == (self.state == State::Closed),
    {
        matches!(self.state, State::Closed)
    }

    /// Reacts to the retransmission timer: when it has expired with data in
    /// flight, re-sends the leftmost unacknowledged segment, doubles the
    /// timeout (already capped by the estimator's ceiling), and counts the
    /// retry; past the retry budget the connection is abandoned with a
    /// timeout. The estimator never sees samples from such segments.
    pub fn on_rto_timer(&mut self, now: u64) -> (r: RtoAction)
        requires
            old(self).wf(),
        ensures
            final(self).wf(),
            final(self).receiver == old(self).receiver,
            (match old(self).rto_deadline_ns {
                Some(d) => now < d || old(self).sender.unacked@.len() == 0,
                None => true,
            }) ==> (r is Idle && *final(self) == *old(self)),
            (match old(self).rto_deadline_ns {
                Some(d) => now >= d && old(self).sender.unacked@.len() > 0,
                None => false,
            }) ==> {
                if old(self).retries + 1 > MAX_RETRIES {
                    r is Abort && final(self).state == State::Closed
                } else {
                    &&& (r matches RtoAction::Retransmit(seq, data)
                        && seq == old(self).sender.snd_una
                        && data@ == old(self).sender.unacked@[0].data@)
                    &&& final(self).retries == old(self).retries + 1
                    &&& final(self).sender.snd_una == old(self).sender.snd_una
                    &&& final(self).sender.snd_nxt == old(self).sender.snd_nxt
                    &&& seg_bytes(final(self).sender.unacked@)
                        == seg_bytes(old(self).sender.unacked@)
                    // Exponential backoff: the wait doubles with every
                    // retransmission of the segment, capped at the ceiling.
                    &&& final(self).rto_deadline_ns == Some(spec_sat_add(now,
                        spec_backoff(spec_rto(old(self).rto_calc.srtt_ns,
                            old(self).rto_calc.rttvar_ns,
                            old(self).rto_calc.initialized),
                            (old(self).retries + 1) as nat)))
                }
            },
    {
        let expired = match self.rto_deadline_ns {
            Some(d) => now >= d && self.sender.unacked.len() > 0,
            None => false,
        };
        if !expired {
            return RtoAction::Idle;
        }
        if self.retries >= MAX_RETRIES {
            self.state = State::Closed;
            return RtoAction::Abort;
        }
        self.retries = self.retries + 1;
        let head = self.sender.retransmit_head();
        match head {
            Some((seq, data)) => {
                // The wait compounds: estimator timeout scaled by two for
                // each retransmission so far, capped at the ceiling.
                let t = self.rto_calc.rto_ns();
                let mut wait = t;
                let mut n: u32 = 0;
                while n < self.retries
                    invariant
                        n <= self.retries,
                        wait == spec_backoff(t, n as nat),
                        wait <= MAX_RTO_NS,
                        t <= MAX_RTO_NS,
                    decreases self.retries - n,
                {
                    wait = if wait > MAX_RTO_NS / 2 { MAX_RTO_NS } else { wait * 2 };
                    n = n + 1;
                }
                self.rto_deadline_ns = Some(saturating_add_u64(now, wait));
                RtoAction::Retransmit(seq, data)
            },
            None => RtoAction::Idle,
        }
    }

    /// The advertised window for the next outbound header: the receive
    /// window, capped at what the unscaled field can carry.
    pub open spec fn spec_advertised_window(self) -> u16 {
        if self.receiver.rcv_wnd > 0xffff { 0xffffu16 } else { self.receiver.rcv_wnd as u16 }
    }

    /// The header of a pure acknowledgment: current send position, the next
    /// expected byte acknowledged, no payload flags.
    pub fn make_ack_header(&self) -> (r: TcpHeader)
        ensures
            r.src_port == self.local.port && r.dst_port == self.remote.port,
            r.ack && !r.syn && !r.fin && !r.rst,
            r.seq_num == self.sender.snd_nxt,
            r.ack_num == self.receiver.rcv_nxt,
            r.window_size == self.spec_advertised_window(),
            r.options@.len() == 0,
    {
        let mut h = TcpHeader::new(self.local.port, self.remote.port);
        h.ack = true;
        h.seq_num = self.sender.snd_nxt;
        h.ack_num = self.receiver.rcv_nxt;
        h.window_size = if self.receiver.rcv_wnd > 0xffff {
            0xffff
        } else {
            self.receiver.rcv_wnd as u16
        };
        h
    }

    /// The header of a data segment starting at `seq` (as `emit_segment`
    /// hands out), acknowledging what has been received.
    pub fn make_data_header(&self, seq: u32) -> (r: TcpHeader)
        ensures
            r.src_port == self.local.port && r.dst_port == self.remote.port,
            r.ack && r.psh && !r.syn && !r.fin && !r.rst,
            r.seq_num == seq,
            r.ack_num == self.receiver.rcv_nxt,
            r.window_size == self.spec_advertised_window(),
            r.options@.len() == 0,
    {
        let mut h = self.make_ack_header();
        h.seq_num = seq;
        h.psh = true;
        h
    }

    /// The header of this side's FIN, sent after `close` moved the state:
    /// it occupies the sequence number right after the data sent so far.
    pub fn make_fin_header(&self) -> (r: TcpHeader)
        ensures
            r.src_port == self.local.port && r.dst_port == self.remote.port,
            r.ack && r.fin && !r.syn && !r.rst,
            r.seq_num == self.sender.snd_nxt,
            r.ack_num == self.receiver.rcv_nxt,
            r.window_size == self.spec_advertised_window(),
            r.options@.len() == 0,
    {
        let mut h = self.make_ack_header();
        h.fin = true;
        h
    }

    /// Finishes the wait after a simultaneous or active close: when the
    /// time-wait period has elapsed, the connection reaches its final state.
    pub fn on_time_wait_expired(&mut self)
        requires
            old(self).wf(),
        ensures
            final(self).wf(),
            old(self).state == State::TimeWait ==> final(self).state == State::Closed,
            old(self).state != State::TimeWait ==> *final(self) == *old(self),
    {
        if matches!(self.state, State::TimeWait) {
            self.state = State::Closed;
        }
    }

    /// The connection's timeout error, used when the retry budget runs out.
    pub fn timeout_error(&self) -> (r: Fail)
        ensures
            r.errno == ETIMEDOUT,
    {
        Fail::new(ETIMEDOUT)
    }
}

/// `a + b`, clamped at the top of the 64-bit range.
pub fn saturating_add_u64(a: u64, b: u64) -> (r: u64)
    ensures
        r == (if a + b > u64::MAX { u64::MAX as int } else { a + b }),
{
    if a > u64::MAX - b {
        u64::MAX
    } else {
        a + b
    }
}

} // verus!
