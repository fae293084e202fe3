//! Outbound frame assembly: the header stack is prepended to the body and
//! the frame padded with zeros up to the smallest Ethernet frame. The NIC
//! transmit call itself lives with the caller; this computes the bytes.

use vstd::prelude::*;
use crate::bytes::append_bytes;

verus! {

/// The smallest Ethernet frame this stack emits (header plus minimum
/// payload).
pub const MIN_FRAME_SIZE: usize = 60;

/// The frame for `header` over `body`: header, body, and zero padding up to
/// the minimum frame size.
pub open spec fn spec_frame(header: Seq<u8>, body: Seq<u8>) -> Seq<u8> {
    let content = header + body;
    if content.len() >= MIN_FRAME_SIZE {
        content
    } else {
        content + Seq::new((MIN_FRAME_SIZE - content.len()) as nat, |i: int| 0u8)
    }
}

/// Assembles the outbound frame: header bytes, body bytes, and zero padding
/// to the minimum frame size.
pub fn build_frame(header: &[u8], body: &[u8]) -> (r: Vec<u8>)
    requires
        header@.len() + body@.len() <= 0x1_0000,
    ensures
        r@ == spec_frame(header@, body@),
        r@.len() >= MIN_FRAME_SIZE,
        r@.subrange(0, header@.len() as int) == header@,
        r@.subrange(header@.len() as int, header@.len() + body@.len() as int) == body@,
{
    let mut out: Vec<u8> = Vec::new();
    append_bytes(&mut out, header);
    append_bytes(&mut out, body);
    let content_len = out.len();
    let mut i: usize = content_len;
    while i < MIN_FRAME_SIZE
        invariant
            content_len == header@.len() + body@.len(),
            content_len <= i,
            i == out@.len(),
            i <= MIN_FRAME_SIZE || i == content_len,
            out@ == (header@ + body@)
                + Seq::new((i - content_len) as nat, |j: int| 0u8),
        decreases MIN_FRAME_SIZE - i,
    {
        out.push(0);
        proof {
            assert(out@ =~= (header@ + body@)
                + Seq::new((i + 1 - content_len) as nat, |j: int| 0u8));
        }
        i = i + 1;
    }
    proof {
        assert(out@ =~= spec_frame(header@, body@));
        assert(out@.subrange(0, header@.len() as int) =~= header@);
        assert(out@.subrange(header@.len() as int, header@.len() + body@.len() as int)
            =~= body@);
    }
    out
}

} // verus!
