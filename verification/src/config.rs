//! Per-stack TCP configuration: segment size, advertised window and scale,
//! checksum-offload switches, and the delayed-ACK timeout.

use vstd::prelude::*;

verus! {

/// The segment size assumed when the peer advertises none.
pub const FALLBACK_MSS: usize = 536;

/// The default maximum segment size.
pub const DEFAULT_MSS: usize = 1450;

/// Delayed-ACK timeout in nanoseconds.
pub const ACK_DELAY_TIMEOUT_NS: u64 = 5_000_000;

/// TCP knobs, fixed at stack construction.
#[derive(Clone, Copy, Debug)]
pub struct TcpConfig {
    /// Maximum segment size advertised and used for send coalescing.
    pub mss: usize,
    /// Receive window advertised during the handshake (pre-scaling).
    pub receive_window_size: u16,
    /// Window-scale shift advertised during the handshake.
    pub window_scale: u8,
    /// Delayed-ACK timeout, nanoseconds.
    pub ack_delay_timeout_ns: u64,
    /// Whether the NIC verifies checksums on receive.
    pub rx_checksum_offload: bool,
    /// Whether the NIC computes checksums on transmit.
    pub tx_checksum_offload: bool,
}

impl TcpConfig {
    /// A configuration with the given segment size and offload switches and
    /// the stack's standard window (65535, unscaled).
    pub fn new(mss: usize, rx_checksum_offload: bool, tx_checksum_offload: bool) -> (r: TcpConfig)
        ensures
            r.mss == mss,
            r.receive_window_size == 0xffffu16,
            r.window_scale == 0u8,
            r.ack_delay_timeout_ns == ACK_DELAY_TIMEOUT_NS,
            r.rx_checksum_offload == rx_checksum_offload,
            r.tx_checksum_offload == tx_checksum_offload,
    {
        TcpConfig {
            mss,
            receive_window_size: 0xffff,
            window_scale: 0,
            ack_delay_timeout_ns: ACK_DELAY_TIMEOUT_NS,
            rx_checksum_offload,
            tx_checksum_offload,
        }
    }
}

impl Default for TcpConfig {
    /// The default configuration: default segment size, no offload.
    fn default() -> (r: TcpConfig)
        ensures
            r.mss == DEFAULT_MSS,
            r.receive_window_size == 0xffffu16,
            r.window_scale == 0u8,
            r.ack_delay_timeout_ns == ACK_DELAY_TIMEOUT_NS,
            !r.rx_checksum_offload,
            !r.tx_checksum_offload,
    {
        TcpConfig::new(DEFAULT_MSS, false, false)
    }
}

} // verus!
