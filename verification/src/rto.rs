//! Retransmission-timeout estimation: smoothed round-trip time and
//! variance kept in integer nanoseconds, updated per received sample.
//! Samples from retransmitted segments never reach this estimator
//! (Karn's rule); the sender withholds them.

use vstd::prelude::*;

verus! {

/// Samples above this are clamped; keeps all arithmetic far from overflow.
pub const MAX_RTT_NS: u64 = 60_000_000_000;

/// The floor of the retransmission timeout, nanoseconds.
pub const MIN_RTO_NS: u64 = 100_000_000;

/// The ceiling of the retransmission timeout, nanoseconds.
pub const MAX_RTO_NS: u64 = 60_000_000_000;

/// The timeout used before any sample has arrived, nanoseconds.
pub const INITIAL_RTO_NS: u64 = 1_000_000_000;

/// A clamped sample.
pub open spec fn spec_clamp_sample(r: u64) -> u64 {
    if r > MAX_RTT_NS { MAX_RTT_NS } else { r }
}

/// The estimator state after absorbing a clamped sample `r`.
pub open spec fn spec_absorb(srtt: u64, rttvar: u64, init: bool, r: u64) -> (u64, u64) {
    if !init {
        (r, (r / 2) as u64)
    } else {
        let delta = if srtt >= r { (srtt - r) as u64 } else { (r - srtt) as u64 };
        (
            ((srtt * 7 + r) / 8) as u64,
            ((rttvar * 3 + delta) / 4) as u64,
        )
    }
}

/// The timeout that a given estimator state yields.
pub open spec fn spec_rto(srtt: u64, rttvar: u64, init: bool) -> u64 {
    if !init {
        INITIAL_RTO_NS
    } else {
        let raw = srtt + 4 * rttvar;
        if raw < MIN_RTO_NS {
            MIN_RTO_NS
        } else if raw > MAX_RTO_NS {
            MAX_RTO_NS
        } else {
            raw as u64
        }
    }
}

/// Round-trip-time estimator for one connection.
pub struct RtoCalculator {
    /// Smoothed round-trip time, nanoseconds.
    pub srtt_ns: u64,
    /// Round-trip-time variance, nanoseconds.
    pub rttvar_ns: u64,
    /// Whether any sample has been absorbed yet.
    pub initialized: bool,
}

impl RtoCalculator {
    /// Both estimates stay at or below the sample clamp.
    pub open spec fn wf(self) -> bool {
        self.srtt_ns <= MAX_RTT_NS && self.rttvar_ns <= MAX_RTT_NS
    }

    pub fn new() -> (r: RtoCalculator)
        ensures
            r.wf(),
            !r.initialized,
            r.srtt_ns == 0 && r.rttvar_ns == 0,
    {
        RtoCalculator { srtt_ns: 0, rttvar_ns: 0, initialized: false }
    }

    /// Absorbs one round-trip-time sample.
    pub fn add_sample(&mut self, rtt_ns: u64)
        requires
            old(self).wf(),
        ensures
            final(self).wf(),
            final(self).initialized,
            (final(self).srtt_ns, final(self).rttvar_ns) == spec_absorb(
                old(self).srtt_ns,
                old(self).rttvar_ns,
                old(self).initialized,
                spec_clamp_sample(rtt_ns),
            ),
    {
        let r = if rtt_ns > MAX_RTT_NS { MAX_RTT_NS } else { rtt_ns };
        if !self.initialized {
            self.srtt_ns = r;
            self.rttvar_ns = r / 2;
            self.initialized = true;
        } else {
            let delta = if self.srtt_ns >= r { self.srtt_ns - r } else { r - self.srtt_ns };
            self.srtt_ns = (self.srtt_ns * 7 + r) / 8;
            self.rttvar_ns = (self.rttvar_ns * 3 + delta) / 4;
        }
    }

    /// The current retransmission timeout, clamped to its floor and ceiling.
    pub fn rto_ns(&self) -> (r: u64)
        requires
            self.wf(),
        ensures
            r == spec_rto(self.srtt_ns, self.rttvar_ns, self.initialized),
            MIN_RTO_NS <= r <= MAX_RTO_NS,
    {
        if !self.initialized {
            return INITIAL_RTO_NS;
        }
        let raw = self.srtt_ns + 4 * self.rttvar_ns;
        if raw < MIN_RTO_NS {
            MIN_RTO_NS
        } else if raw > MAX_RTO_NS {
            MAX_RTO_NS
        } else {
            raw
        }
    }
}

} // verus!
