//! The receive side of a TCP control block: `RCV.NXT`, the reassembled
//! byte queue handed to the application, and the out-of-order segment queue.
//!
//! Ghost bookkeeping records every payload byte the receiver has kept, at
//! its position in the connection's byte stream (position 0 is the first
//! byte after the initial `RCV.NXT`). The well-formedness invariant ties the
//! delivered stream to that record: the bytes handed to the application are
//! exactly the received payload bytes, in sequence order, up to the first
//! gap.

use vstd::prelude::*;
use crate::seqnum::{
    seq_add, seq_sub, seq_add_nat, seq_number_add, seq_number_sub,
    lemma_seq_add_nat_step, lemma_seq_sub_shift, lemma_seq_sub_cases, SEQ_SPACE, SEQ_HALF,
};
use crate::sender::MAX_WINDOW;
use crate::bytes::{copy_range, append_bytes};

verus! {

/// A segment parked above `RCV.NXT`, waiting for the gap below it to fill.
pub struct OooSegment {
    /// Sequence number of the first byte.
    pub seq: u32,
    /// The payload bytes; never empty.
    pub data: Vec<u8>,
}

/// What the receiver did with a segment.
#[derive(Clone, Copy, Debug, PartialEq, Eq, Structural)]
pub enum Disposition {
    /// The segment began at `RCV.NXT`; bytes were delivered in order.
    Delivered,
    /// The segment was parked in the out-of-order queue.
    Stored,
    /// The segment was dropped: in the past, outside the window, or
    /// entirely covered by bytes already on hand.
    Dropped,
}

/// The receive side of one connection.
pub struct Receiver {
    /// The next sequence number expected in order.
    pub rcv_nxt: u32,
    /// The receive window, bytes.
    pub rcv_wnd: u32,
    /// In-order bytes awaiting `pop`.
    pub reassembled: Vec<u8>,
    /// Segments received above `RCV.NXT`: sorted, pairwise disjoint, all
    /// starting strictly above `RCV.NXT`.
    pub out_of_order: Vec<OooSegment>,
    /// The initial `RCV.NXT` (ghost).
    pub base: Ghost<u32>,
    /// Bytes already handed to the application (ghost).
    pub popped: Ghost<Seq<u8>>,
    /// Every payload byte kept so far, by stream position (ghost).
    pub seen: Ghost<Map<int, u8>>,
}

impl Receiver {
    /// All in-order bytes the connection has produced: those already popped
    /// and those still queued.
    pub open spec fn stream(self) -> Seq<u8> {
        self.popped@ + self.reassembled@
    }

    /// The offset of out-of-order segment `i` above `RCV.NXT`.
    pub open spec fn ooo_off(self, i: int) -> int {
        seq_sub(self.out_of_order@[i].seq, self.rcv_nxt) as int
    }

    /// The end offset (exclusive) of out-of-order segment `i`.
    pub open spec fn ooo_end(self, i: int) -> int {
        self.ooo_off(i) + self.out_of_order@[i].data@.len()
    }

    /// The stream position of the first byte of out-of-order segment `i`.
    pub open spec fn ooo_pos(self, i: int) -> int {
        self.stream().len() + self.ooo_off(i)
    }

    /// Delivered byte `i` is the payload byte recorded for its position.
    pub open spec fn stream_byte_ok(self, i: int) -> bool {
        self.seen@.contains_key(i) && self.stream()[i] == self.seen@[i]
    }

    /// Byte `k` of out-of-order segment `i` is recorded at its position.
    pub open spec fn ooo_byte_ok(self, i: int, k: int) -> bool {
        self.seen@.contains_key(self.ooo_pos(i) + k)
            && self.out_of_order@[i].data@[k] == self.seen@[self.ooo_pos(i) + k]
    }

    /// Out-of-order segment `i` is non-empty and lies inside the window.
    pub open spec fn ooo_seg_ok(self, i: int) -> bool {
        0 <= self.ooo_off(i) && self.ooo_end(i) <= self.rcv_wnd
            && self.out_of_order@[i].data@.len() > 0
    }

    /// Out-of-order segments `i` and `j` (`i` first) do not overlap.
    pub open spec fn ooo_disjoint(self, i: int, j: int) -> bool {
        self.ooo_end(i) <= self.ooo_off(j)
    }

    /// Well-formedness, except that an out-of-order segment may sit exactly
    /// at `RCV.NXT`: the intermediate shape while contiguous segments are
    /// being drained.
    pub open spec fn wf_draining(self) -> bool {
        // RCV.NXT is the base advanced by the stream produced so far.
        &&& self.rcv_nxt == seq_add_nat(self.base@, self.stream().len() as nat)
        &&& self.rcv_wnd <= MAX_WINDOW
        // Every delivered byte is the payload byte received for its position.
        &&& forall|i: int| 0 <= i < self.stream().len() ==> #[trigger] self.stream_byte_ok(i)
        // Out-of-order segments fit in the window, are non-empty, and are
        // sorted and pairwise disjoint.
        &&& forall|i: int| 0 <= i < self.out_of_order@.len() ==> #[trigger] self.ooo_seg_ok(i)
        &&& forall|i: int, j: int| 0 <= i < j < self.out_of_order@.len()
            ==> #[trigger] self.ooo_disjoint(i, j)
        // Parked bytes are also recorded at their positions.
        &&& forall|i: int, k: int| 0 <= i < self.out_of_order@.len()
                && 0 <= k < self.out_of_order@[i].data@.len()
            ==> #[trigger] self.ooo_byte_ok(i, k)
    }

    /// Well-formedness: as while draining, and every out-of-order segment
    /// starts strictly above `RCV.NXT`.
    pub open spec fn wf(self) -> bool {
        &&& self.wf_draining()
        &&& forall|i: int| 0 <= i < self.out_of_order@.len() ==> 1 <= #[trigger] self.ooo_off(i)
    }

    /// A fresh receive side expecting `rcv_nxt`.
    pub fn new(rcv_nxt: u32, rcv_wnd: u32) -> (r: Receiver)
        requires
            rcv_wnd <= MAX_WINDOW,
        ensures
            r.wf(),
            r.rcv_nxt == rcv_nxt,
            r.rcv_wnd == rcv_wnd,
            r.reassembled@.len() == 0,
            r.out_of_order@.len() == 0,
            r.base@ == rcv_nxt,
            r.popped@.len() == 0,
            r.stream().len() == 0,
    {
        let r = Receiver {
            rcv_nxt,
            rcv_wnd,
            reassembled: Vec::new(),
            out_of_order: Vec::new(),
            base: Ghost(rcv_nxt),
            popped: Ghost(Seq::empty()),
            seen: Ghost(Map::empty()),
        };
        proof {
            assert(r.stream() =~= Seq::<u8>::empty());
            vstd::arithmetic::div_mod::lemma_small_mod(rcv_nxt as nat, SEQ_SPACE as nat);
        }
        r
    }

    /// How much of an in-order payload of length `len` is kept: everything
    /// up to the first parked segment (the rest duplicates parked bytes).
    pub open spec fn in_order_keep(self, len: int) -> int {
        if self.out_of_order@.len() == 0 {
            len
        } else {
            vstd::math::min(len, self.ooo_off(0))
        }
    }

    /// Accepts one segment: `data` starting at sequence number `seq`.
    ///
    /// A segment in the past or reaching beyond the receive window is
    /// dropped. A segment at `RCV.NXT` is delivered: its bytes (trimmed at
    /// the first parked segment) extend the stream, `RCV.NXT` advances, and
    /// parked segments that have become contiguous are drained after it. Any
    /// other segment inside the window is parked in the out-of-order queue,
    /// trimmed against the bytes already on hand (dropped when nothing
    /// remains). Bytes recorded for a stream position never change: whatever
    /// arrives, the stream only ever grows by appending, and every new byte
    /// comes from this payload at its own offset.
    pub fn receive(&mut self, seq: u32, data: Vec<u8>) -> (r: Disposition)
        requires
            old(self).wf(),
            0 < data@.len() <= MAX_WINDOW,
        ensures
            final(self).wf(),
            final(self).rcv_wnd == old(self).rcv_wnd,
            final(self).base == old(self).base,
            final(self).popped == old(self).popped,
            old(self).stream().len() <= final(self).stream().len(),
            forall|i: int| 0 <= i < old(self).stream().len()
                ==> final(self).stream()[i] == old(self).stream()[i],
            forall|p: int| #[trigger] final(self).seen@.contains_key(p)
                ==> (old(self).seen@.contains_key(p)
                        && final(self).seen@[p] == old(self).seen@[p])
                    || (old(self).stream().len() + seq_sub(seq, old(self).rcv_nxt) <= p
                        < old(self).stream().len() + seq_sub(seq, old(self).rcv_nxt)
                            + data@.len()
                        && final(self).seen@[p] == data@[
                            p - old(self).stream().len()
                                - seq_sub(seq, old(self).rcv_nxt)]),
            (seq_sub(seq, old(self).rcv_nxt) >= SEQ_HALF
                || seq_sub(seq, old(self).rcv_nxt) + data@.len() > old(self).rcv_wnd)
                ==> r is Dropped && *final(self) == *old(self),
            (seq == old(self).rcv_nxt && data@.len() <= old(self).rcv_wnd) ==> {
                let kept = old(self).in_order_keep(data@.len() as int);
                &&& r is Delivered
                &&& final(self).stream().len() >= old(self).stream().len() + kept
                &&& forall|t: int| 0 <= t < kept
                    ==> final(self).stream()[old(self).stream().len() + t] == data@[t]
            },
            (1 <= seq_sub(seq, old(self).rcv_nxt) < SEQ_HALF
                && seq_sub(seq, old(self).rcv_nxt) + data@.len() <= old(self).rcv_wnd) ==> {
                &&& (r is Stored || r is Dropped)
                &&& final(self).rcv_nxt == old(self).rcv_nxt
                &&& final(self).reassembled@ == old(self).reassembled@
            },
    {
        let ghost pre = *self;
        let ghost d = data@;
        let len = data.len();
        let off32 = seq_number_sub(seq, self.rcv_nxt);
        proof {
            lemma_seq_sub_cases(seq, self.rcv_nxt);
        }
        if off32 >= 0x8000_0000 {
            return Disposition::Dropped;
        }
        if off32 as u64 + len as u64 > self.rcv_wnd as u64 {
            return Disposition::Dropped;
        }
        if off32 == 0 {
            self.deliver_in_order(data);
            proof {
                assert(self.base == pre.base);
                assert(forall|p: int| self.seen@.contains_key(p)
                    ==> (pre.seen@.contains_key(p) && self.seen@[p] == pre.seen@[p])
                        || (pre.stream().len() <= p < pre.stream().len() + d.len()
                            && self.seen@[p] == d[p - pre.stream().len()]));
                assert forall|p: int| self.seen@.contains_key(p)
                        && !(pre.seen@.contains_key(p) && self.seen@[p] == pre.seen@[p])
                    implies pre.stream().len() + seq_sub(seq, pre.rcv_nxt) <= p
                        < pre.stream().len() + seq_sub(seq, pre.rcv_nxt) + d.len()
                        && self.seen@[p]
                            == d[p - pre.stream().len() - seq_sub(seq, pre.rcv_nxt)] by {
                    assert((pre.seen@.contains_key(p) && self.seen@[p] == pre.seen@[p])
                        || (pre.stream().len() <= p < pre.stream().len() + d.len()
                            && self.seen@[p] == d[p - pre.stream().len()]));
                    assert(pre.stream().len() <= p < pre.stream().len() + d.len());
                }
            }
            Disposition::Delivered
        } else {
            let r = self.park_out_of_order(off32, data);
            proof {
                assert forall|p: int| self.seen@.contains_key(p)
                        && !(pre.seen@.contains_key(p) && self.seen@[p] == pre.seen@[p])
                    implies pre.stream().len() + seq_sub(seq, pre.rcv_nxt) <= p
                        < pre.stream().len() + seq_sub(seq, pre.rcv_nxt) + d.len()
                        && self.seen@[p]
                            == d[p - pre.stream().len() - seq_sub(seq, pre.rcv_nxt)] by {
                    assert(pre.stream().len() + off32 <= p
                        < pre.stream().len() + off32 + d.len());
                }
            }
            r
        }
    }

    /// Delivers a payload that begins exactly at `RCV.NXT`: appends it
    /// (trimmed at the first parked segment) to the reassembled queue,
    /// advances `RCV.NXT`, and drains newly contiguous parked segments.
    #[verifier::rlimit(100)]
    fn deliver_in_order(&mut self, data: Vec<u8>)
        requires
            old(self).wf(),
            0 < data@.len() <= old(self).rcv_wnd,
        ensures
            final(self).wf(),
            final(self).rcv_wnd == old(self).rcv_wnd,
            final(self).base == old(self).base,
            final(self).popped == old(self).popped,
            old(self).stream().len() <= final(self).stream().len(),
            forall|i: int| 0 <= i < old(self).stream().len()
                ==> final(self).stream()[i] == old(self).stream()[i],
            final(self).stream().len()
                >= old(self).stream().len() + old(self).in_order_keep(data@.len() as int),
            forall|t: int| 0 <= t < old(self).in_order_keep(data@.len() as int)
                ==> final(self).stream()[old(self).stream().len() + t] == data@[t],
            forall|p: int| #[trigger] final(self).seen@.contains_key(p)
                ==> (old(self).seen@.contains_key(p)
                        && final(self).seen@[p] == old(self).seen@[p])
                    || (old(self).stream().len() <= p
                        < old(self).stream().len() + data@.len()
                        && final(self).seen@[p] == data@[p - old(self).stream().len()]),
    {
        let ghost orig = *self;
        let ghost gl = self.stream().len() as int;
        let len = data.len();
        let kept: usize = if self.out_of_order.len() > 0 {
            let g32 = seq_number_sub(self.out_of_order[0].seq, self.rcv_nxt);
            proof {
                assert(orig.ooo_seg_ok(0) && 1 <= orig.ooo_off(0));
            }
            let g = g32 as usize;
            if g < len { g } else { len }
        } else {
            len
        };
        proof {
            assert(kept == orig.in_order_keep(len as int));
            assert(kept >= 1);
        }

        let head = copy_range(data.as_slice(), 0, kept);
        append_bytes(&mut self.reassembled, head.as_slice());
        self.seen = Ghost(self.seen@.union_prefer_right(
            Map::new(|p: int| gl <= p < gl + kept, |p: int| data@[p - gl]),
        ));
        self.rcv_nxt = seq_number_add(self.rcv_nxt, kept as u32);
        proof {
            lemma_seq_add_nat_step(orig.base@, gl as nat, kept as u32);
            assert(self.stream() =~= orig.stream() + data@.take(kept as int));
            assert forall|i: int| 0 <= i < self.stream().len()
                implies #[trigger] self.stream_byte_ok(i) by {
                if i < gl {
                    assert(orig.stream_byte_ok(i));
                    assert(self.stream()[i] == orig.stream()[i]);
                    assert(!(gl <= i < gl + kept));
                } else {
                    assert(self.seen@[i] == data@[i - gl]);
                }
            }
            assert forall|i: int| 0 <= i < self.out_of_order@.len()
                implies #[trigger] self.ooo_seg_ok(i) && self.ooo_off(i) == orig.ooo_off(i) - kept
                    && self.ooo_pos(i) == orig.ooo_pos(i) by {
                assert(orig.ooo_seg_ok(i) && 1 <= orig.ooo_off(i));
                if i > 0 {
                    assert(orig.ooo_disjoint(0, i));
                }
                lemma_seq_sub_shift(
                    self.out_of_order@[i].seq, orig.rcv_nxt, kept as u32);
            }
            assert forall|i: int, j: int| 0 <= i < j < self.out_of_order@.len()
                implies #[trigger] self.ooo_disjoint(i, j) by {
                assert(orig.ooo_disjoint(i, j));
                assert(self.ooo_seg_ok(i) && self.ooo_seg_ok(j));
            }
            assert forall|i: int, k: int| 0 <= i < self.out_of_order@.len()
                    && 0 <= k < self.out_of_order@[i].data@.len()
                implies #[trigger] self.ooo_byte_ok(i, k) by {
                assert(orig.ooo_byte_ok(i, k));
                assert(self.ooo_seg_ok(i));
                assert(self.ooo_pos(i) == orig.ooo_pos(i));
                if i > 0 {
                    assert(orig.ooo_disjoint(0, i));
                    assert(orig.ooo_seg_ok(0));
                }
                assert(orig.ooo_pos(i) + k >= gl + orig.ooo_off(0));
                assert(!(gl <= orig.ooo_pos(i) + k < gl + kept));
            }
            assert(self.wf_draining());
        }

        let ghost base_stream = orig.stream() + data@.take(kept as int);
        self.drain_contiguous();
        proof {
            assert forall|t: int| 0 <= t < kept
                implies self.stream()[gl + t] == data@[t] by {
                assert(self.stream()[gl + t] == base_stream[gl + t]);
            }
        }
    }

    /// Drains parked segments that sit exactly at `RCV.NXT` into the
    /// reassembled queue, advancing `RCV.NXT` past each.
    #[verifier::rlimit(100)]
    fn drain_contiguous(&mut self)
        requires
            old(self).wf_draining(),
        ensures
            final(self).wf(),
            final(self).rcv_wnd == old(self).rcv_wnd,
            final(self).base == old(self).base,
            final(self).popped == old(self).popped,
            final(self).seen@ == old(self).seen@,
            old(self).stream().len() <= final(self).stream().len(),
            forall|i: int| 0 <= i < old(self).stream().len()
                ==> final(self).stream()[i] == old(self).stream()[i],
    {
        let ghost orig = *self;
        let ghost seen1 = self.seen@;
        let ghost base_stream = orig.stream();
        while self.out_of_order.len() > 0
            && seq_number_sub(self.out_of_order[0].seq, self.rcv_nxt) == 0
            invariant
                self.wf_draining(),
                self.rcv_wnd == orig.rcv_wnd,
                self.base == orig.base,
                self.popped == orig.popped,
                self.seen@ == seen1,
                base_stream.len() <= self.stream().len(),
                forall|i: int| 0 <= i < base_stream.len()
                    ==> self.stream()[i] == base_stream[i],
            decreases self.out_of_order@.len(),
        {
            let ghost pre = *self;
            let ghost pl = self.stream().len() as int;
            let seg = self.out_of_order.remove(0);
            append_bytes(&mut self.reassembled, seg.data.as_slice());
            self.rcv_nxt = seq_number_add(self.rcv_nxt, seg.data.len() as u32);
            proof {
                assert(pre.ooo_seg_ok(0));
                lemma_seq_add_nat_step(pre.base@, pl as nat, seg.data@.len() as u32);
                assert(self.stream() =~= pre.stream() + seg.data@);
                assert forall|i: int| 0 <= i < self.stream().len()
                    implies #[trigger] self.stream_byte_ok(i) by {
                    if i < pl {
                        assert(pre.stream_byte_ok(i));
                        assert(self.stream()[i] == pre.stream()[i]);
                    } else {
                        assert(pre.ooo_byte_ok(0, i - pl));
                        assert(pre.ooo_pos(0) == pl);
                    }
                }
                assert forall|i: int| 0 <= i < self.out_of_order@.len()
                    implies #[trigger] self.ooo_seg_ok(i)
                        && self.ooo_pos(i) == pre.ooo_pos(i + 1) by {
                    assert(pre.ooo_seg_ok(i + 1));
                    assert(pre.ooo_disjoint(0, i + 1));
                    lemma_seq_sub_shift(
                        self.out_of_order@[i].seq, pre.rcv_nxt, seg.data@.len() as u32);
                }
                assert forall|i: int, j: int| 0 <= i < j < self.out_of_order@.len()
                    implies #[trigger] self.ooo_disjoint(i, j) by {
                    assert(pre.ooo_disjoint(i + 1, j + 1));
                    assert(self.ooo_seg_ok(i) && self.ooo_seg_ok(j));
                }
                assert forall|i: int, k: int| 0 <= i < self.out_of_order@.len()
                        && 0 <= k < self.out_of_order@[i].data@.len()
                    implies #[trigger] self.ooo_byte_ok(i, k) by {
                    assert(pre.ooo_byte_ok(i + 1, k));
                    assert(self.ooo_seg_ok(i));
                    assert(self.ooo_pos(i) == pre.ooo_pos(i + 1));
                }
            }
        }
        proof {
            assert forall|i: int| 0 <= i < self.out_of_order@.len()
                implies 1 <= #[trigger] self.ooo_off(i) by {
                assert(self.ooo_seg_ok(i));
                if i > 0 {
                    assert(self.ooo_seg_ok(0));
                    assert(self.ooo_disjoint(0, i));
                }
            }
        }
    }

    /// Parks a payload that begins above `RCV.NXT`: trims it against the
    /// bytes already delivered or parked, and inserts what remains into the
    /// out-of-order queue at its sorted position. Drops it when every byte
    /// is already on hand.
    #[verifier::rlimit(100)]
    fn park_out_of_order(&mut self, off: u32, data: Vec<u8>) -> (r: Disposition)
        requires
            old(self).wf(),
            0 < data@.len(),
            1 <= off,
            off + data@.len() <= old(self).rcv_wnd,
        ensures
            final(self).wf(),
            r is Stored || r is Dropped,
            final(self).rcv_wnd == old(self).rcv_wnd,
            final(self).base == old(self).base,
            final(self).popped == old(self).popped,
            final(self).reassembled@ == old(self).reassembled@,
            final(self).rcv_nxt == old(self).rcv_nxt,
            final(self).stream() == old(self).stream(),
            forall|p: int| #[trigger] final(self).seen@.contains_key(p)
                ==> (old(self).seen@.contains_key(p)
                        && final(self).seen@[p] == old(self).seen@[p])
                    || (old(self).stream().len() + off <= p
                        < old(self).stream().len() + off + data@.len()
                        && final(self).seen@[p]
                            == data@[p - old(self).stream().len() - off]),
    {
        let ghost orig = *self;
        let ghost gl = self.stream().len() as int;
        let len = data.len();
        let n = self.out_of_order.len();

        // Find the insertion point, pushing the lower trim bound past every
        // segment that covers bytes at or below it.
        let mut idx: usize = 0;
        let mut lower: u64 = off as u64;
        while idx < n
            && seq_number_sub(self.out_of_order[idx].seq, self.rcv_nxt) as u64 <= lower
            invariant
                *self == orig,
                old(self).wf(),
                n == self.out_of_order@.len(),
                idx <= n,
                off as u64 <= lower <= MAX_WINDOW,
                forall|i: int| 0 <= i < idx ==> #[trigger] self.ooo_end(i) <= lower,
            decreases n - idx,
        {
            proof {
                assert(orig.ooo_seg_ok(idx as int));
            }
            let e = seq_number_sub(self.out_of_order[idx].seq, self.rcv_nxt) as u64
                + self.out_of_order[idx].data.len() as u64;
            if e > lower {
                lower = e;
            }
            proof {
                assert forall|i: int| 0 <= i < idx + 1
                    implies #[trigger] self.ooo_end(i) <= lower by {
                    if i < idx {
                        assert(self.ooo_end(i) <= lower);
                    }
                }
            }
            idx = idx + 1;
        }
        proof {
            assert forall|j: int| idx <= j < n
                implies lower < #[trigger] self.ooo_off(j) by {
                assert(orig.ooo_seg_ok(idx as int));
                if j > idx {
                    assert(orig.ooo_disjoint(idx as int, j));
                }
            }
        }

        let mut upper: u64 = off as u64 + len as u64;
        if idx < n {
            let nxt_off = seq_number_sub(self.out_of_order[idx].seq, self.rcv_nxt) as u64;
            if nxt_off < upper {
                upper = nxt_off;
            }
        }
        proof {
            assert forall|j: int| idx <= j < n
                implies upper <= #[trigger] orig.ooo_off(j) by {
                assert(orig.ooo_seg_ok(idx as int));
                if j > idx {
                    assert(orig.ooo_disjoint(idx as int, j));
                }
            }
        }
        if lower >= upper {
            return Disposition::Dropped;
        }
        self.insert_trimmed(idx, lower, upper, off, data);
        Disposition::Stored
    }

    /// Inserts the still-uncovered part of a parked payload — its offsets
    /// `[lower, upper)` above `RCV.NXT` — at position `idx` of the
    /// out-of-order queue.
    #[verifier::rlimit(100)]
    fn insert_trimmed(&mut self, idx: usize, lower: u64, upper: u64, off: u32, data: Vec<u8>)
        requires
            old(self).wf(),
            0 < data@.len(),
            1 <= off,
            off + data@.len() <= old(self).rcv_wnd,
            idx <= old(self).out_of_order@.len(),
            off <= lower < upper <= off + data@.len(),
            forall|i: int| 0 <= i < idx ==> #[trigger] old(self).ooo_end(i) <= lower,
            forall|j: int| idx <= j < old(self).out_of_order@.len()
                ==> upper <= #[trigger] old(self).ooo_off(j),
        ensures
            final(self).wf(),
            final(self).rcv_wnd == old(self).rcv_wnd,
            final(self).base == old(self).base,
            final(self).popped == old(self).popped,
            final(self).reassembled@ == old(self).reassembled@,
            final(self).rcv_nxt == old(self).rcv_nxt,
            final(self).stream() == old(self).stream(),
            forall|p: int| #[trigger] final(self).seen@.contains_key(p)
                ==> (old(self).seen@.contains_key(p)
                        && final(self).seen@[p] == old(self).seen@[p])
                    || (old(self).stream().len() + off <= p
                        < old(self).stream().len() + off + data@.len()
                        && final(self).seen@[p]
                            == data@[p - old(self).stream().len() - off]),
    {
        let ghost orig = *self;
        let ghost gl = self.stream().len() as int;

        // What remains of the payload after trimming: offsets [lower, upper).
        let piece = copy_range(
            data.as_slice(),
            (lower - off as u64) as usize,
            (upper - off as u64) as usize,
        );
        let seg_seq = seq_number_add(self.rcv_nxt, lower as u32);
        let seg = OooSegment { seq: seg_seq, data: piece };
        self.out_of_order.insert(idx, seg);
        self.seen = Ghost(self.seen@.union_prefer_right(
            Map::new(
                |p: int| gl + lower <= p < gl + upper,
                |p: int| data@[p - gl - off],
            ),
        ));
        proof {
            crate::seqnum::lemma_seq_add_sub(orig.rcv_nxt, lower as u32);
            assert(self.ooo_off(idx as int) == lower);
            assert(self.stream() =~= orig.stream());
            assert forall|i: int| 0 <= i < self.stream().len()
                implies #[trigger] self.stream_byte_ok(i) by {
                assert(orig.stream_byte_ok(i));
                assert(!(gl + lower <= i < gl + upper));
            }
            assert forall|i: int| 0 <= i < self.out_of_order@.len()
                implies #[trigger] self.ooo_seg_ok(i) && 1 <= self.ooo_off(i) by {
                if i < idx {
                    assert(orig.ooo_seg_ok(i) && 1 <= orig.ooo_off(i));
                    assert(self.out_of_order@[i] == orig.out_of_order@[i]);
                } else if i == idx {
                    assert(self.ooo_off(i) == lower);
                } else {
                    assert(orig.ooo_seg_ok(i - 1) && 1 <= orig.ooo_off(i - 1));
                    assert(self.out_of_order@[i] == orig.out_of_order@[i - 1]);
                }
            }
            assert forall|i: int| 0 <= i < self.out_of_order@.len()
                implies 1 <= #[trigger] self.ooo_off(i) by {
                assert(self.ooo_seg_ok(i) && 1 <= self.ooo_off(i));
            }
            assert forall|i: int, j: int| 0 <= i < j < self.out_of_order@.len()
                implies #[trigger] self.ooo_disjoint(i, j) by {
                if j < idx {
                    assert(orig.ooo_disjoint(i, j));
                    assert(self.out_of_order@[i] == orig.out_of_order@[i]);
                    assert(self.out_of_order@[j] == orig.out_of_order@[j]);
                } else if j == idx {
                    assert(self.out_of_order@[i] == orig.out_of_order@[i]);
                    assert(orig.ooo_end(i) <= lower);
                } else if i < idx {
                    assert(self.out_of_order@[i] == orig.out_of_order@[i]);
                    assert(self.out_of_order@[j] == orig.out_of_order@[j - 1]);
                    assert(orig.ooo_disjoint(i, j - 1));
                } else if i == idx {
                    assert(self.out_of_order@[j] == orig.out_of_order@[j - 1]);
                    assert(orig.ooo_seg_ok(j - 1));
                    if j - 1 > idx {
                        assert(orig.ooo_disjoint(idx as int, j - 1));
                        assert(lower < orig.ooo_off(idx as int));
                    }
                } else {
                    assert(self.out_of_order@[i] == orig.out_of_order@[i - 1]);
                    assert(self.out_of_order@[j] == orig.out_of_order@[j - 1]);
                    assert(orig.ooo_disjoint(i - 1, j - 1));
                }
            }
            assert forall|i: int, k: int| 0 <= i < self.out_of_order@.len()
                    && 0 <= k < self.out_of_order@[i].data@.len()
                implies #[trigger] self.ooo_byte_ok(i, k) by {
                assert(self.stream().len() == gl);
                if i < idx {
                    assert(orig.ooo_byte_ok(i, k));
                    assert(self.out_of_order@[i] == orig.out_of_order@[i]);
                    assert(orig.ooo_end(i) <= lower);
                    assert(!(gl + lower <= orig.ooo_pos(i) + k < gl + upper));
                } else if i == idx {
                    assert(self.seen@[gl + lower + k] == data@[lower - off + k]);
                } else {
                    assert(orig.ooo_byte_ok(i - 1, k));
                    assert(self.out_of_order@[i] == orig.out_of_order@[i - 1]);
                    assert(orig.ooo_seg_ok(i - 1));
                    assert(upper <= orig.ooo_off(i - 1));
                    assert(!(gl + lower <= orig.ooo_pos(i - 1) + k < gl + upper));
                }
            }
        }
    }

    /// The byte stream handed out by successive pops equals the in-order
    /// sequence of received payload bytes, truncated at the first gap: every
    /// byte the receiver has produced (popped or poppable) is exactly the
    /// payload byte that arrived for its stream position, the stream covers
    /// the positions up to `RCV.NXT` and no further, and nothing parked in
    /// the out-of-order queue sits at or below `RCV.NXT`.
    pub proof fn lemma_stream_is_received_bytes(r: Receiver)
        requires
            r.wf(),
        ensures
            r.rcv_nxt == seq_add_nat(r.base@, r.stream().len() as nat),
            forall|i: int| 0 <= i < r.stream().len()
                ==> #[trigger] r.seen@.contains_key(i)
                    && (r.popped@ + r.reassembled@)[i] == r.seen@[i],
            forall|i: int| 0 <= i < r.out_of_order@.len()
                ==> seq_sub(#[trigger] r.out_of_order@[i].seq, r.rcv_nxt) >= 1,
    {
        assert forall|i: int| 0 <= i < r.stream().len()
            implies #[trigger] r.seen@.contains_key(i)
                && (r.popped@ + r.reassembled@)[i] == r.seen@[i] by {
            assert(r.stream_byte_ok(i));
        }
        assert forall|i: int| 0 <= i < r.out_of_order@.len()
            implies seq_sub(#[trigger] r.out_of_order@[i].seq, r.rcv_nxt) >= 1 by {
            assert(1 <= r.ooo_off(i));
        }
    }

    /// Reassembly-queue segments are pairwise disjoint, and each starts
    /// strictly above `RCV.NXT` in sequence order.
    pub proof fn lemma_reassembly_disjoint(r: Receiver)
        requires
            r.wf(),
        ensures
            forall|i: int| 0 <= i < r.out_of_order@.len()
                ==> crate::seqnum::seq_lt(r.rcv_nxt, #[trigger] r.out_of_order@[i].seq),
            forall|i: int, j: int| 0 <= i < j < r.out_of_order@.len()
                ==> #[trigger] r.ooo_end(i) <= #[trigger] r.ooo_off(j),
    {
        assert forall|i: int| 0 <= i < r.out_of_order@.len()
            implies crate::seqnum::seq_lt(r.rcv_nxt, #[trigger] r.out_of_order@[i].seq) by {
            assert(r.ooo_seg_ok(i) && 1 <= r.ooo_off(i));
            assert(r.ooo_end(i) <= r.rcv_wnd);
            assert(0 < seq_sub(r.out_of_order@[i].seq, r.rcv_nxt) < SEQ_HALF);
        }
        assert forall|i: int, j: int| 0 <= i < j < r.out_of_order@.len()
            implies #[trigger] r.ooo_end(i) <= #[trigger] r.ooo_off(j) by {
            assert(r.ooo_disjoint(i, j));
        }
    }

    /// Bytes available to pop.
    pub fn available(&self) -> (r: usize)
        ensures
            r == self.reassembled@.len(),
    {
        self.reassembled.len()
    }

    /// Hands up to `max` in-order bytes to the application (all of them if
    /// `max` is `None`): the front of the reassembled queue, in order.
    pub fn pop(&mut self, max: Option<usize>) -> (r: Option<Vec<u8>>)
        requires
            old(self).wf(),
        ensures
            final(self).wf(),
            final(self).rcv_nxt == old(self).rcv_nxt,
            final(self).rcv_wnd == old(self).rcv_wnd,
            final(self).base == old(self).base,
            final(self).seen == old(self).seen,
            final(self).out_of_order@ == old(self).out_of_order@,
            final(self).stream() == old(self).stream(),
            old(self).reassembled@.len() == 0 ==> r is None && *final(self) == *old(self),
            old(self).reassembled@.len() > 0 ==> {
                let k = (match max {
                    Some(m) => vstd::math::min(m as int, old(self).reassembled@.len() as int),
                    None => old(self).reassembled@.len() as int,
                });
                &&& (r matches Some(bytes) && bytes@ == old(self).reassembled@.take(k))
                &&& final(self).reassembled@ == old(self).reassembled@.skip(k)
                &&& final(self).popped@ == old(self).popped@ + old(self).reassembled@.take(k)
            },
    {
        if self.reassembled.len() == 0 {
            return None;
        }
        let avail = self.reassembled.len();
        let k: usize = match max {
            Some(m) => if m < avail { m } else { avail },
            None => avail,
        };
        let ghost orig = *self;
        let mut rest = self.reassembled.split_off(k);
        core::mem::swap(&mut self.reassembled, &mut rest);
        let taken = rest;
        proof {
            assert(taken@ =~= orig.reassembled@.take(k as int));
            assert(self.reassembled@ =~= orig.reassembled@.skip(k as int));
        }
        self.popped = Ghost(self.popped@ + taken@);
        proof {
            assert(self.stream() =~= orig.stream());
            assert forall|i: int| 0 <= i < self.stream().len()
                implies #[trigger] self.stream_byte_ok(i) by {
                assert(orig.stream_byte_ok(i));
            }
            assert forall|i: int| 0 <= i < self.out_of_order@.len()
                implies #[trigger] self.ooo_seg_ok(i) by {
                assert(orig.ooo_seg_ok(i));
                assert(self.ooo_off(i) == orig.ooo_off(i));
            }
            assert forall|i: int| 0 <= i < self.out_of_order@.len()
                implies 1 <= #[trigger] self.ooo_off(i) by {
                assert(1 <= orig.ooo_off(i));
                assert(self.ooo_off(i) == orig.ooo_off(i));
            }
            assert forall|i: int, j: int| 0 <= i < j < self.out_of_order@.len()
                implies #[trigger] self.ooo_disjoint(i, j) by {
                assert(orig.ooo_disjoint(i, j));
                assert(self.ooo_end(i) == orig.ooo_end(i) && self.ooo_off(j) == orig.ooo_off(j));
            }
            assert forall|i: int, k: int| 0 <= i < self.out_of_order@.len()
                    && 0 <= k < self.out_of_order@[i].data@.len()
                implies #[trigger] self.ooo_byte_ok(i, k) by {
                assert(orig.ooo_byte_ok(i, k));
                assert(self.ooo_pos(i) == orig.ooo_pos(i));
            }
        }
        Some(taken)
    }
}

} // verus!
