//! The per-queue socket layer: sockets in their lifecycle roles, the
//! queue-table entries that hold them, and the TCP peer that feeds parsed
//! segments into a connection's control block.

use vstd::prelude::*;
use crate::config::TcpConfig;
use crate::ctrlblk::{ControlBlock, ReceiveOutput, State, spec_receive_post, spec_send_post,
    spec_pop_post, spec_close_post};
use crate::endpoint::{Endpoint, ip_is_broadcast, ip_is_multicast, ip_is_unspecified,
    spec_is_broadcast, spec_is_multicast, spec_is_unspecified};
use crate::fail::{Fail, EINVAL, EBADMSG, ENOTSUP};
use crate::ipv4::Ipv4Header;
use crate::passive_open::PassiveSocket;
use crate::rto::spec_rto;
use crate::segment::{tcp_parse, spec_tcp_parse_ok, spec_parsed_tcp_header, spec_tcp_payload};
use crate::ipv4::{spec_ipv4_parse_ok, spec_parsed_ipv4_header, spec_ipv4_payload};
use crate::sender::MAX_WINDOW;
use crate::tcp_header::TcpHeader;

verus! {

/// A source address no legitimate peer sends from.
pub open spec fn spec_bad_source(src_addr: u32) -> bool {
    spec_is_broadcast(src_addr) || spec_is_multicast(src_addr)
        || spec_is_unspecified(src_addr)
}

/// Everything the segment layer promises for one IPv4 payload `buf` carrying
/// a TCP segment from `src_addr` to `dst_addr`: an illegitimate source is an
/// invalid-argument error, a segment that does not parse (or, without
/// receive offload, does not checksum) a bad-message error — the block
/// untouched either way; a valid segment reaches the control block, whose
/// own receive contract then governs the outcome.
pub open spec fn spec_segment_receive_post(
    rx_checksum_offload: bool,
    src_addr: u32,
    dst_addr: u32,
    pre: ControlBlock,
    post: ControlBlock,
    buf: Seq<u8>,
    now: u64,
    r: Result<ReceiveOutput, Fail>,
) -> bool {
    &&& post.wf()
    &&& r is Err ==> post == pre
    &&& spec_bad_source(src_addr) ==> (r matches Err(e) && e.errno == EINVAL)
    &&& !spec_bad_source(src_addr) ==> {
        if spec_tcp_parse_ok(buf, src_addr, dst_addr, rx_checksum_offload) {
            r matches Ok(out) && spec_receive_post(pre, post,
                spec_parsed_tcp_header(buf), spec_tcp_payload(buf), now, out)
        } else {
            r matches Err(e) && e.errno == EBADMSG
        }
    }
}

/// Everything the network layer promises for one frame payload `buf`
/// beginning with an IPv4 packet: a packet that does not parse is a
/// bad-message error; one addressed neither to this host nor to broadcast
/// is a not-connected error — the block untouched either way; otherwise the
/// segment layer's contract governs the outcome on the packet's payload.
pub open spec fn spec_ip_receive_post(
    local_ipv4_addr: u32,
    ip_rx_checksum_offload: bool,
    tcp_rx_checksum_offload: bool,
    pre: ControlBlock,
    post: ControlBlock,
    buf: Seq<u8>,
    now: u64,
    r: Result<ReceiveOutput, Fail>,
) -> bool {
    &&& post.wf()
    &&& r is Err ==> post == pre
    &&& !spec_ipv4_parse_ok(buf, ip_rx_checksum_offload)
        ==> (r matches Err(e) && e.errno == EBADMSG)
    &&& spec_ipv4_parse_ok(buf, ip_rx_checksum_offload) ==> {
        let h = spec_parsed_ipv4_header(buf);
        if h.dst_addr != local_ipv4_addr && !spec_is_broadcast(h.dst_addr) {
            r matches Err(e) && e.errno == crate::fail::ENOTCONN
        } else {
            spec_segment_receive_post(tcp_rx_checksum_offload, h.src_addr, h.dst_addr,
                pre, post, spec_ipv4_payload(buf), now, r)
        }
    }
}

/// A connection owned by a queue, with its control block.
pub struct EstablishedSocket {
    pub cb: ControlBlock,
}

impl EstablishedSocket {
    /// Adopts a control block under its queue descriptor.
    pub fn new(mut cb: ControlBlock, qd: u32) -> (r: EstablishedSocket)
        requires
            cb.wf(),
        ensures
            r.cb.wf(),
            r.cb.qd == qd,
            r.cb == (ControlBlock { qd, ..cb }),
    {
        cb.qd = qd;
        EstablishedSocket { cb }
    }

    /// The connection's endpoints, local first.
    pub fn endpoints(&self) -> (r: (Endpoint, Endpoint))
        ensures
            r.0 == self.cb.local && r.1 == self.cb.remote,
    {
        (self.cb.get_local(), self.cb.get_remote())
    }

    /// The segment size agreed with the peer.
    pub fn remote_mss(&self) -> (r: usize)
        ensures
            r == self.cb.mss,
    {
        self.cb.remote_mss()
    }

    /// The current retransmission timeout, nanoseconds.
    pub fn current_rto(&self) -> (r: u64)
        requires
            self.cb.wf(),
        ensures
            r == spec_rto(self.cb.rto_calc.srtt_ns, self.cb.rto_calc.rttvar_ns,
                self.cb.rto_calc.initialized),
    {
        self.cb.rto()
    }

    /// Begins a local close; idempotent (see the control block).
    pub fn close(&mut self) -> (r: Result<(), Fail>)
        requires
            old(self).cb.wf(),
        ensures
            spec_close_post(old(self).cb, final(self).cb, r),
    {
        self.cb.close()
    }

    /// Whether the close has completed.
    pub fn poll_close(&self) -> (r: bool)
        ensures
            r == (self.cb.state == State::Closed),
    {
        self.cb.poll_close()
    }

    /// Accepts application bytes for transmission: the control block's send
    /// contract, verbatim.
    pub fn send(&mut self, buf: Vec<u8>) -> (r: Result<(), Fail>)
        requires
            old(self).cb.wf(),
        ensures
            spec_send_post(old(self).cb, final(self).cb, buf@, r),
    {
        self.cb.send(buf)
    }

    /// Delivers buffered in-order bytes, if any: the control block's pop
    /// contract, verbatim.
    pub fn poll_recv(&mut self, max: Option<usize>) -> (r: Option<Result<Vec<u8>, Fail>>)
        requires
            old(self).cb.wf(),
        ensures
            spec_pop_post(old(self).cb, final(self).cb, max, r),
    {
        self.cb.poll_recv(max)
    }

    /// Feeds a parsed segment into the connection: the control block's
    /// receive contract, verbatim.
    pub fn receive(&mut self, hdr: &TcpHeader, data: Vec<u8>, now: u64) -> (r: ReceiveOutput)
        requires
            old(self).cb.wf(),
            data@.len() <= MAX_WINDOW,
        ensures
            spec_receive_post(old(self).cb, final(self).cb, hdr@, data@, now, r),
    {
        self.cb.receive(hdr, data, now)
    }
}

/// A socket in one of its lifecycle roles.
pub enum Socket {
    /// Created but neither bound nor connected.
    Inactive(Option<Endpoint>),
    /// Listening for connections.
    Listening(PassiveSocket),
    /// An established connection.
    Established(EstablishedSocket),
    /// An established connection being torn down.
    Closing(EstablishedSocket),
}

/// What the flow directory keys a queue by.
#[derive(Clone, Copy, Debug, PartialEq, Eq, Structural)]
pub enum SocketId {
    /// An established connection: local then remote endpoint.
    Active(Endpoint, Endpoint),
    /// A listening socket: its local endpoint.
    Passive(Endpoint),
}

/// The TCP state a queue descriptor names.
pub struct TcpQueue {
    pub socket: Socket,
}

impl TcpQueue {
    /// A queue with no socket role yet.
    pub fn new() -> (r: TcpQueue)
        ensures
            (r.socket matches Socket::Inactive(e) && e is None),
    {
        TcpQueue { socket: Socket::Inactive(None) }
    }

    /// Replaces the queue's socket.
    pub fn set_socket(&mut self, socket: Socket)
        ensures
            final(self).socket == socket,
    {
        self.socket = socket;
    }
}

/// Per-queue state of the stack.
pub enum InetQueue {
    Tcp(TcpQueue),
}

/// The kinds of queue the stack serves.
#[derive(Clone, Copy, Debug, PartialEq, Eq, Structural)]
pub enum QType {
    TcpSocket,
}

impl InetQueue {
    pub fn get_qtype(&self) -> (r: QType)
        ensures
            r == QType::TcpSocket,
    {
        match self {
            InetQueue::Tcp(_) => QType::TcpSocket,
        }
    }
}

/// Shared innards of the TCP peer.
pub struct Inner {
    pub tcp_config: TcpConfig,
}

impl Inner {
    pub fn new(tcp_config: TcpConfig) -> (r: Inner)
        ensures
            r.tcp_config == tcp_config,
    {
        Inner { tcp_config }
    }

    /// Parses a TCP segment out of an IPv4 payload and feeds it to the
    /// owning connection: segments from broadcast, multicast or unspecified
    /// sources and malformed segments are refused with the block untouched;
    /// a valid segment reaches the control block, whose receive contract
    /// then governs the result.
    pub fn receive(&self, cb: &mut ControlBlock, ip_hdr: &Ipv4Header, buf: Vec<u8>, now: u64)
        -> (r: Result<ReceiveOutput, Fail>)
        requires
            old(cb).wf(),
            buf@.len() <= 0xffff,
        ensures
            spec_segment_receive_post(self.tcp_config.rx_checksum_offload,
                ip_hdr.src_addr, ip_hdr.dst_addr, *old(cb), *final(cb), buf@, now, r),
    {
        if ip_is_broadcast(ip_hdr.src_addr) || ip_is_multicast(ip_hdr.src_addr)
            || ip_is_unspecified(ip_hdr.src_addr) {
            return Err(Fail::new(EINVAL));
        }
        let parsed = tcp_parse(
            buf.as_slice(),
            ip_hdr.src_addr,
            ip_hdr.dst_addr,
            self.tcp_config.rx_checksum_offload,
        );
        match parsed {
            Ok((hdr, data)) => {
                proof {
                    assert(data@.len() <= buf@.len());
                }
                Ok(cb.receive(&hdr, data, now))
            },
            Err(e) => Err(e),
        }
    }
}

/// The TCP peer: segments in, connection state out.
pub struct TcpPeer {
    pub inner: Inner,
}

impl TcpPeer {
    pub fn new(tcp_config: TcpConfig) -> (r: Result<TcpPeer, Fail>)
        ensures
            (r matches Ok(p) && p.inner.tcp_config == tcp_config),
    {
        Ok(TcpPeer { inner: Inner::new(tcp_config) })
    }

    /// Feeds an IPv4 payload carrying a TCP segment to a connection: the
    /// segment layer's contract, verbatim.
    pub fn receive(&self, cb: &mut ControlBlock, ip_hdr: &Ipv4Header, buf: Vec<u8>, now: u64)
        -> (r: Result<ReceiveOutput, Fail>)
        requires
            old(cb).wf(),
            buf@.len() <= 0xffff,
        ensures
            spec_segment_receive_post(self.inner.tcp_config.rx_checksum_offload,
                ip_hdr.src_addr, ip_hdr.dst_addr, *old(cb), *final(cb), buf@, now, r),
    {
        self.inner.receive(cb, ip_hdr, buf, now)
    }

    /// Offers application bytes to a connection for transmission. An empty
    /// buffer is refused; a connection that no longer accepts sends fails
    /// with not-connected.
    pub fn push(&self, cb: &mut ControlBlock, buf: Vec<u8>) -> (r: Result<(), Fail>)
        requires
            old(cb).wf(),
        ensures
            final(cb).wf(),
            buf@.len() == 0 ==> (r matches Err(e) && e.errno == EINVAL)
                && *final(cb) == *old(cb),
            (buf@.len() > 0
                && (old(cb).state == State::Established
                    || old(cb).state == State::CloseWait))
                ==> r is Ok
                    && final(cb).sender.unsent@ == old(cb).sender.unsent@ + buf@,
            (buf@.len() > 0
                && !(old(cb).state == State::Established
                    || old(cb).state == State::CloseWait))
                ==> (r matches Err(e) && e.errno == crate::fail::ENOTCONN)
                    && *final(cb) == *old(cb),
    {
        if buf.len() == 0 {
            return Err(Fail::new(EINVAL));
        }
        cb.send(buf)
    }

    /// Takes up to `size` delivered bytes off a connection (everything
    /// buffered when `size` is `None`); nothing when the caller must poll
    /// again: the control block's pop contract, verbatim.
    pub fn pop(&self, cb: &mut ControlBlock, size: Option<usize>)
        -> (r: Option<Result<Vec<u8>, Fail>>)
        requires
            old(cb).wf(),
        ensures
            spec_pop_post(*old(cb), *final(cb), size, r),
    {
        cb.poll_recv(size)
    }

    /// Opening fresh sockets is the queue layer's job, not the peer's.
    pub fn do_socket(&self) -> (r: Result<u32, Fail>)
        ensures
            (r matches Err(e) && e.errno == ENOTSUP),
    {
        Err(Fail::new(ENOTSUP))
    }

    /// Binding is the queue layer's job, not the peer's.
    pub fn bind(&self, _qd: u32, _addr: Endpoint) -> (r: Result<(), Fail>)
        ensures
            (r matches Err(e) && e.errno == ENOTSUP),
    {
        Err(Fail::new(ENOTSUP))
    }

    /// Listening is set up through the dispatcher, not the peer.
    pub fn listen(&self, _qd: u32, _backlog: usize) -> (r: Result<(), Fail>)
        ensures
            (r matches Err(e) && e.errno == ENOTSUP),
    {
        Err(Fail::new(ENOTSUP))
    }

    /// Closing goes through the connection itself, not the peer.
    pub fn do_close(&self, _qd: u32) -> (r: Result<(), Fail>)
        ensures
            (r matches Err(e) && e.errno == ENOTSUP),
    {
        Err(Fail::new(ENOTSUP))
    }

    /// The segment size a connection agreed with its peer.
    pub fn remote_mss(&self, cb: &ControlBlock) -> (r: Result<usize, Fail>)
        ensures
            r == Ok::<usize, Fail>(cb.mss),
    {
        Ok(cb.remote_mss())
    }

    /// A connection's current retransmission timeout, nanoseconds.
    pub fn current_rto(&self, cb: &ControlBlock) -> (r: Result<u64, Fail>)
        requires
            cb.wf(),
        ensures
            r == Ok::<u64, Fail>(spec_rto(cb.rto_calc.srtt_ns, cb.rto_calc.rttvar_ns,
                cb.rto_calc.initialized)),
    {
        Ok(cb.rto())
    }

    /// A connection's endpoints, local first.
    pub fn endpoints(&self, cb: &ControlBlock) -> (r: Result<(Endpoint, Endpoint), Fail>)
        ensures
            r == Ok::<(Endpoint, Endpoint), Fail>((cb.local, cb.remote)),
    {
        Ok((cb.get_local(), cb.get_remote()))
    }

    /// Delivers buffered in-order bytes off a connection, if any: the
    /// control block's pop contract, verbatim.
    pub fn poll_recv(&self, cb: &mut ControlBlock, size: Option<usize>)
        -> (r: Option<Result<Vec<u8>, Fail>>)
        requires
            old(cb).wf(),
        ensures
            spec_pop_post(*old(cb), *final(cb), size, r),
    {
        cb.poll_recv(size)
    }
}

/// The IPv4 peer: validates the network header and hands the payload to TCP.
pub struct Peer {
    pub local_ipv4_addr: u32,
    pub tcp: TcpPeer,
}

impl Peer {
    pub fn new(local_ipv4_addr: u32, tcp_config: TcpConfig) -> (r: Result<Peer, Fail>)
        ensures
            (r matches Ok(p) && p.local_ipv4_addr == local_ipv4_addr
                && p.tcp.inner.tcp_config == tcp_config),
    {
        let tcp = match TcpPeer::new(tcp_config) {
            Ok(t) => t,
            Err(e) => {
                return Err(e);
            },
        };
        Ok(Peer { local_ipv4_addr, tcp })
    }

    /// Parses the IPv4 header off a frame payload, checks it is addressed
    /// to this host, and hands the TCP segment to the connection: a packet
    /// that does not parse is a bad-message error, one for another host a
    /// not-connected error — the block untouched either way — and otherwise
    /// the segment layer's contract governs the result.
    pub fn receive(&self, cb: &mut ControlBlock, buf: Vec<u8>, rx_checksum_offload: bool,
        now: u64) -> (r: Result<ReceiveOutput, Fail>)
        requires
            old(cb).wf(),
        ensures
            spec_ip_receive_post(self.local_ipv4_addr, rx_checksum_offload,
                self.tcp.inner.tcp_config.rx_checksum_offload,
                *old(cb), *final(cb), buf@, now, r),
    {
        let parsed = crate::ipv4::ipv4_parse(buf.as_slice(), rx_checksum_offload);
        match parsed {
            Ok((hdr, payload)) => {
                if hdr.get_dest_addr() != self.local_ipv4_addr
                    && !ip_is_broadcast(hdr.get_dest_addr()) {
                    return Err(Fail::new(crate::fail::ENOTCONN));
                }
                proof {
                    assert(payload@.len() <= 0xffff);
                }
                self.tcp.receive(cb, &hdr, payload, now)
            },
            Err(e) => Err(e),
        }
    }
}

} // verus!
