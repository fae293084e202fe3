//! The send side of a TCP control block: offered bytes waiting to be
//! segmented, the queue of transmitted-but-unacknowledged segments, and the
//! window bookkeeping around `SND.UNA` and `SND.NXT`.

use vstd::prelude::*;
use crate::seqnum::{
    seq_add, seq_sub, seq_lt, seq_le, seq_number_lt, seq_number_le, seq_number_sub,
    seq_number_add, lemma_ack_bound, lemma_seq_add_grows, SEQ_SPACE, SEQ_HALF,
};
use crate::bytes::copy_range;

verus! {

/// A transmitted segment awaiting acknowledgment.
pub struct UnackedSegment {
    /// The segment's payload bytes.
    pub data: Vec<u8>,
    /// Monotonic-clock timestamp of the (first) transmission, nanoseconds.
    pub sent_at: u64,
    /// Whether the segment has been retransmitted; such segments give no
    /// round-trip-time sample.
    pub retransmitted: bool,
}

/// The payload bytes of `segs`, in send order.
pub open spec fn seg_bytes(segs: Seq<UnackedSegment>) -> Seq<u8>
    decreases segs.len(),
{
    if segs.len() == 0 {
        Seq::empty()
    } else {
        segs[0].data@ + seg_bytes(segs.skip(1))
    }
}

/// Two segment queues with the same payloads flatten to the same bytes.
pub proof fn lemma_seg_bytes_congruent(a: Seq<UnackedSegment>, b: Seq<UnackedSegment>)
    requires
        a.len() == b.len(),
        forall|i: int| 0 <= i < a.len() ==> a[i].data@ == b[i].data@,
    ensures
        seg_bytes(a) == seg_bytes(b),
    decreases a.len(),
{
    if a.len() > 0 {
        lemma_seg_bytes_congruent(a.skip(1), b.skip(1));
    }
}

/// Skipping twice is skipping the sum.
pub proof fn lemma_skip_skip(s: Seq<u8>, a: int, b: int)
    requires
        0 <= a,
        0 <= b,
        a + b <= s.len(),
    ensures
        s.skip(a).skip(b) =~= s.skip(a + b),
{
}

/// Appending a segment appends its bytes.
pub proof fn lemma_seg_bytes_push(segs: Seq<UnackedSegment>, seg: UnackedSegment)
    ensures
        seg_bytes(segs.push(seg)) == seg_bytes(segs) + seg.data@,
    decreases segs.len(),
{
    let p = segs.push(seg);
    if segs.len() == 0 {
        assert(p.len() == 1 && p[0] == seg);
        assert(p.skip(1) =~= Seq::<UnackedSegment>::empty());
        assert(seg_bytes(p) == p[0].data@ + seg_bytes(p.skip(1)));
        assert(seg_bytes(p) =~= seg_bytes(segs) + seg.data@);
    } else {
        assert(p.skip(1) =~= segs.skip(1).push(seg));
        lemma_seg_bytes_push(segs.skip(1), seg);
        assert(p[0] == segs[0]);
        assert(seg_bytes(p) == segs[0].data@ + (seg_bytes(segs.skip(1)) + seg.data@));
        assert(seg_bytes(p) =~= seg_bytes(segs) + seg.data@);
    }
}

/// The upper bound kept on the flight size and the send window; it is far
/// below half the sequence space, so wrapped distances stay unambiguous.
pub const MAX_WINDOW: u64 = 0x4000_0000;

/// The send side of one connection.
pub struct Sender {
    /// Oldest unacknowledged sequence number.
    pub snd_una: u32,
    /// Next sequence number to send.
    pub snd_nxt: u32,
    /// Send window granted by the peer, already scaled.
    pub snd_wnd: u32,
    /// Transmitted segments not yet fully acknowledged, in send order;
    /// the leftmost starts at `snd_una` and together they cover exactly
    /// `[snd_una, snd_nxt)`.
    pub unacked: Vec<UnackedSegment>,
    /// Bytes offered by the application, not yet segmented.
    pub unsent: Vec<u8>,
}

impl Sender {
    /// Bytes in flight: transmitted, not yet acknowledged.
    pub open spec fn inflight(self) -> nat {
        seg_bytes(self.unacked@).len()
    }

    /// Well-formedness: the un-ACK queue covers exactly `[snd_una, snd_nxt)`,
    /// the flight size and the window stay far below half the sequence
    /// space, and no queued segment is empty.
    pub open spec fn wf(self) -> bool {
        &&& self.inflight() == seq_sub(self.snd_nxt, self.snd_una)
        &&& self.inflight() <= MAX_WINDOW
        &&& self.snd_wnd <= MAX_WINDOW
        &&& forall|i: int| 0 <= i < self.unacked@.len() ==> self.unacked@[i].data@.len() > 0
    }

    /// A fresh send side: nothing in flight, nothing unsent.
    pub fn new(snd_nxt: u32, snd_wnd: u32) -> (r: Sender)
        requires
            snd_wnd <= MAX_WINDOW,
        ensures
            r.wf(),
            r.snd_una == snd_nxt && r.snd_nxt == snd_nxt && r.snd_wnd == snd_wnd,
            r.unacked@.len() == 0,
            r.unsent@.len() == 0,
    {
        proof {
            crate::seqnum::lemma_seq_sub_cases(snd_nxt, snd_nxt);
        }
        Sender {
            snd_una: snd_nxt,
            snd_nxt,
            snd_wnd,
            unacked: Vec::new(),
            unsent: Vec::new(),
        }
    }

    /// The acknowledgment number `ack` acknowledges new data: it lies in
    /// `(SND.UNA, SND.NXT]` in sequence order.
    pub open spec fn ack_in_range(self, ack: u32) -> bool {
        seq_lt(self.snd_una, ack) && seq_le(ack, self.snd_nxt)
    }

    /// Accepts an application buffer for later segmentation.
    pub fn enqueue_bytes(&mut self, mut buf: Vec<u8>)
        ensures
            final(self).unsent@ == old(self).unsent@ + buf@,
            final(self).snd_una == old(self).snd_una,
            final(self).snd_nxt == old(self).snd_nxt,
            final(self).snd_wnd == old(self).snd_wnd,
            final(self).unacked@ == old(self).unacked@,
    {
        self.unsent.append(&mut buf);
    }

    /// Processes an acknowledgment number from a received segment.
    ///
    /// `SND.UNA` is monotonic non-decreasing: when `ack` lies in
    /// `(SND.UNA, SND.NXT]` it advances to exactly `ack` and the acknowledged
    /// bytes leave the un-ACK queue from the front; otherwise nothing
    /// changes. Returns the transmission timestamp of the leftmost segment
    /// when `ack` fully covers it and it was never retransmitted — the only
    /// case in which a round-trip-time sample may be taken.
    pub fn process_ack(&mut self, ack: u32) -> (sample: Option<u64>)
        requires
            old(self).wf(),
        ensures
            final(self).wf(),
            final(self).snd_nxt == old(self).snd_nxt,
            final(self).snd_wnd == old(self).snd_wnd,
            final(self).unsent@ == old(self).unsent@,
            seq_le(old(self).snd_una, final(self).snd_una),
            old(self).ack_in_range(ack) ==> {
                &&& final(self).snd_una == ack
                &&& seg_bytes(final(self).unacked@)
                    == seg_bytes(old(self).unacked@).skip(seq_sub(ack, old(self).snd_una) as int)
            },
            !old(self).ack_in_range(ack) ==> *final(self) == *old(self),
            sample == (if old(self).ack_in_range(ack) && old(self).unacked@.len() > 0
                    && old(self).unacked@[0].data@.len() <= seq_sub(ack, old(self).snd_una)
                    && !old(self).unacked@[0].retransmitted {
                Some(old(self).unacked@[0].sent_at)
            } else {
                None::<u64>
            }),
    {
        if !(seq_number_lt(self.snd_una, ack) && seq_number_le(ack, self.snd_nxt)) {
            return None;
        }
        proof {
            lemma_ack_bound(self.snd_una, self.snd_nxt, ack);
        }
        let total: u32 = seq_number_sub(ack, self.snd_una);
        let sample: Option<u64> = if self.unacked.len() > 0
            && self.unacked[0].data.len() <= total as usize
            && !self.unacked[0].retransmitted {
            Some(self.unacked[0].sent_at)
        } else {
            None
        };

        let ghost orig = *self;
        proof {
            assert(seg_bytes(orig.unacked@).skip(0) =~= seg_bytes(orig.unacked@));
        }
        let mut remaining: usize = total as usize;
        while remaining > 0
            invariant
                remaining <= seg_bytes(self.unacked@).len(),
                total as int - remaining >= 0,
                seg_bytes(self.unacked@)
                    == seg_bytes(orig.unacked@).skip(total - remaining),
                forall|i: int| 0 <= i < self.unacked@.len()
                    ==> self.unacked@[i].data@.len() > 0,
                self.snd_una == orig.snd_una,
                self.snd_nxt == orig.snd_nxt,
                self.snd_wnd == orig.snd_wnd,
                self.unsent@ == orig.unsent@,
                total <= seg_bytes(orig.unacked@).len(),
            decreases remaining,
        {
            let ghost pre = self.unacked@;
            let ghost flat_pre = seg_bytes(pre);
            let first_len = self.unacked[0].data.len();
            if first_len <= remaining {
                let _ = self.unacked.remove(0);
                proof {
                    assert(self.unacked@ =~= pre.skip(1));
                    assert(seg_bytes(self.unacked@) =~= flat_pre.skip(first_len as int));
                    lemma_skip_skip(
                        seg_bytes(orig.unacked@),
                        total - remaining,
                        first_len as int,
                    );
                    assert(seg_bytes(self.unacked@)
                        == seg_bytes(orig.unacked@).skip(
                            total - (remaining - first_len)));
                }
                remaining = remaining - first_len;
            } else {
                let head = self.unacked.remove(0);
                let tail_data = copy_range(head.data.as_slice(), remaining, first_len);
                let new_head = UnackedSegment {
                    data: tail_data,
                    sent_at: head.sent_at,
                    retransmitted: head.retransmitted,
                };
                self.unacked.insert(0, new_head);
                proof {
                    assert(self.unacked@.skip(1) =~= pre.skip(1));
                    assert(seg_bytes(self.unacked@)
                        == new_head.data@ + seg_bytes(pre.skip(1)));
                    assert(seg_bytes(self.unacked@) =~= flat_pre.skip(remaining as int));
                    lemma_skip_skip(
                        seg_bytes(orig.unacked@),
                        total - remaining,
                        remaining as int,
                    );
                    assert(seg_bytes(self.unacked@)
                        == seg_bytes(orig.unacked@).skip(total as int));
                }
                remaining = 0;
            }
        }
        self.snd_una = ack;
        proof {
            lemma_ack_bound(orig.snd_una, orig.snd_nxt, ack);
            assert(seg_bytes(self.unacked@)
                =~= seg_bytes(orig.unacked@).skip(seq_sub(ack, orig.snd_una) as int));
        }
        sample
    }

    /// Room left in the peer's window given what is already in flight.
    pub open spec fn window_room(self) -> nat {
        if self.snd_wnd > self.inflight() {
            (self.snd_wnd - self.inflight()) as nat
        } else {
            0
        }
    }

    /// The size of the next segment to emit: bounded by the maximum segment
    /// size, the window room, and the bytes on hand.
    pub open spec fn next_emit_size(self, mss: usize) -> nat {
        vstd::math::min(
            mss as int,
            vstd::math::min(self.window_room() as int, self.unsent@.len() as int),
        ) as nat
    }

    /// Emits the next segment, if the window and the unsent queue allow one:
    /// takes `next_emit_size` bytes off the front of the unsent queue,
    /// appends them to the un-ACK queue stamped with `now`, advances
    /// `SND.NXT` by their length, and returns the starting sequence number
    /// with the bytes.
    pub fn emit_segment(&mut self, mss: usize, now: u64) -> (r: Option<(u32, Vec<u8>)>)
        requires
            old(self).wf(),
            mss > 0,
        ensures
            final(self).wf(),
            final(self).snd_una == old(self).snd_una,
            final(self).snd_wnd == old(self).snd_wnd,
            old(self).next_emit_size(mss) == 0 ==> {
                &&& r is None
                &&& *final(self) == *old(self)
            },
            old(self).next_emit_size(mss) > 0 ==> {
                let size = old(self).next_emit_size(mss) as int;
                &&& (r matches Some((seq, data)) && seq == old(self).snd_nxt
                    && data@ == old(self).unsent@.take(size))
                &&& final(self).unacked@.len() == old(self).unacked@.len() + 1
                &&& final(self).unacked@.take(old(self).unacked@.len() as int)
                    == old(self).unacked@
                &&& final(self).unacked@.last().data@ == old(self).unsent@.take(size)
                &&& final(self).unacked@.last().sent_at == now
                &&& !final(self).unacked@.last().retransmitted
                &&& final(self).unsent@ == old(self).unsent@.skip(size)
                &&& final(self).snd_nxt == seq_add(old(self).snd_nxt, size as u32)
                &&& seg_bytes(final(self).unacked@)
                    == seg_bytes(old(self).unacked@) + old(self).unsent@.take(size)
            },
    {
        let inflight_now: usize = self.snd_nxt.wrapping_sub(self.snd_una) as usize;
        proof {
            assert(inflight_now == self.inflight());
        }
        let room: usize = if self.snd_wnd as usize > inflight_now {
            self.snd_wnd as usize - inflight_now
        } else {
            0
        };
        let mut size: usize = mss;
        if room < size {
            size = room;
        }
        if self.unsent.len() < size {
            size = self.unsent.len();
        }
        proof {
            assert(size == self.next_emit_size(mss));
        }
        if size == 0 {
            return None;
        }

        let ghost orig = *self;
        let mut rest = self.unsent.split_off(size);
        core::mem::swap(&mut self.unsent, &mut rest);
        let data = rest;
        proof {
            assert(data@ =~= orig.unsent@.take(size as int));
            assert(self.unsent@ =~= orig.unsent@.skip(size as int));
        }
        let data_copy = copy_range(data.as_slice(), 0, data.len());
        let seg = UnackedSegment { data: data_copy, sent_at: now, retransmitted: false };
        self.unacked.push(seg);
        let seq = self.snd_nxt;
        self.snd_nxt = seq_number_add(self.snd_nxt, size as u32);
        proof {
            lemma_seg_bytes_push(orig.unacked@, self.unacked@.last());
            assert(self.unacked@.last().data@ =~= orig.unsent@.take(size as int));
            lemma_seq_add_grows(orig.snd_una, orig.snd_nxt, size as u32);
            assert(seg_bytes(self.unacked@).len()
                == seq_sub(self.snd_nxt, self.snd_una));
        }
        Some((seq, data))
    }

    /// The payload of the leftmost unacknowledged segment, for
    /// retransmission; marks it retransmitted so that no round-trip-time
    /// sample is ever taken from it. Returns the starting sequence number
    /// (which is `SND.UNA`) and a copy of the bytes.
    pub fn retransmit_head(&mut self) -> (r: Option<(u32, Vec<u8>)>)
        requires
            old(self).wf(),
        ensures
            final(self).wf(),
            final(self).snd_una == old(self).snd_una,
            final(self).snd_nxt == old(self).snd_nxt,
            final(self).snd_wnd == old(self).snd_wnd,
            final(self).unsent@ == old(self).unsent@,
            old(self).unacked@.len() == 0 ==> r is None && *final(self) == *old(self),
            old(self).unacked@.len() > 0 ==> {
                &&& r matches Some((seq, data)) && seq == old(self).snd_una
                    && data@ == old(self).unacked@[0].data@
                &&& final(self).unacked@.len() == old(self).unacked@.len()
                &&& final(self).unacked@[0].data@ == old(self).unacked@[0].data@
                &&& final(self).unacked@[0].retransmitted
                &&& forall|i: int| 1 <= i < old(self).unacked@.len()
                    ==> final(self).unacked@[i] == old(self).unacked@[i]
                &&& seg_bytes(final(self).unacked@) == seg_bytes(old(self).unacked@)
            },
    {
        if self.unacked.len() == 0 {
            return None;
        }
        let ghost orig = *self;
        let head = self.unacked.remove(0);
        let data = copy_range(head.data.as_slice(), 0, head.data.len());
        let new_head = UnackedSegment {
            data: copy_range(head.data.as_slice(), 0, head.data.len()),
            sent_at: head.sent_at,
            retransmitted: true,
        };
        self.unacked.insert(0, new_head);
        proof {
            assert(data@ =~= orig.unacked@[0].data@);
            assert(self.unacked@.len() == orig.unacked@.len());
            assert(forall|i: int| 1 <= i < orig.unacked@.len()
                ==> self.unacked@[i] == orig.unacked@[i]);
            assert(self.unacked@[0].data@ =~= orig.unacked@[0].data@);
            lemma_seg_bytes_congruent(self.unacked@, orig.unacked@);
        }
        Some((self.snd_una, data))
    }

    /// Applies the window granted by a received segment: the advertised
    /// 16-bit window scaled up by the negotiated shift.
    pub fn update_window(&mut self, advertised: u16, scale: u8)
        requires
            old(self).wf(),
            scale <= 14,
        ensures
            final(self).wf(),
            final(self).snd_wnd == advertised * pow2(scale as nat),
            final(self).snd_una == old(self).snd_una,
            final(self).snd_nxt == old(self).snd_nxt,
            final(self).unacked@ == old(self).unacked@,
            final(self).unsent@ == old(self).unsent@,
    {
        let factor = pow2_u32(scale);
        proof {
            lemma_pow2_le_14(scale as nat);
            assert(advertised * pow2(scale as nat) <= 0xffff * 0x4000) by (nonlinear_arith)
                requires pow2(scale as nat) <= 0x4000, advertised <= 0xffff;
        }
        self.snd_wnd = (advertised as u32) * factor;
    }
}

/// Two to the `n`-th power.
pub open spec fn pow2(n: nat) -> nat
    decreases n,
{
    if n == 0 {
        1
    } else {
        2 * pow2((n - 1) as nat)
    }
}

/// Powers of two are positive and grow with the exponent.
pub proof fn lemma_pow2_mono(a: nat, b: nat)
    requires
        a <= b,
    ensures
        1 <= pow2(a) <= pow2(b),
    decreases b,
{
    if a < b {
        lemma_pow2_mono(a, (b - 1) as nat);
    } else if a > 0 {
        lemma_pow2_mono((a - 1) as nat, (b - 1) as nat);
    }
}

/// Powers of two up to the largest window shift stay at or below 2^14.
pub proof fn lemma_pow2_le_14(n: nat)
    requires
        n <= 14,
    ensures
        1 <= pow2(n) <= 0x4000,
{
    lemma_pow2_mono(n, 14);
    reveal_with_fuel(pow2, 16);
    assert(pow2(14) == 0x4000);
}

/// Two to the `scale`-th power, for window scaling.
pub fn pow2_u32(scale: u8) -> (r: u32)
    requires
        scale <= 14,
    ensures
        r == pow2(scale as nat),
        1 <= r <= 0x4000,
{
    proof {
        lemma_pow2_le_14(scale as nat);
    }
    let mut r: u32 = 1;
    let mut i: u8 = 0;
    while i < scale
        invariant
            i <= scale <= 14,
            r == pow2(i as nat),
            r <= 0x4000,
        decreases scale - i,
    {
        proof {
            lemma_pow2_le_14((i + 1) as nat);
        }
        r = r * 2;
        i = i + 1;
    }
    r
}

/// The un-ACK queue's total byte length always equals `SND.NXT − SND.UNA`
/// (in wrapped sequence arithmetic): it is part of the sender's
/// well-formedness, which every operation preserves.
pub proof fn lemma_unacked_covers_window(s: Sender)
    requires
        s.wf(),
    ensures
        seg_bytes(s.unacked@).len() == seq_sub(s.snd_nxt, s.snd_una),
{
}

} // verus!
