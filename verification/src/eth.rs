//! The Ethernet II frame header: destination and source MAC and the
//! ethertype, 14 bytes on the wire.

use vstd::prelude::*;
use crate::bytes::{spec_be16, be16, be16_hi, be16_lo, copy_range};
use crate::fail::{Fail, EBADMSG};

verus! {

/// The ethertype of IPv4.
pub const ETHERTYPE_IPV4: u16 = 0x0800;

/// Bytes in an Ethernet II header.
pub const ETHERNET2_HEADER_SIZE: usize = 14;

/// The smallest Ethernet payload; shorter frames are padded on transmit.
pub const MIN_PAYLOAD_SIZE: usize = 46;

/// An Ethernet II header in structured form.
#[derive(Clone, Copy, Debug)]
pub struct EthernetHeader {
    pub dst_addr: [u8; 6],
    pub src_addr: [u8; 6],
    pub ether_type: u16,
}

/// A buffer parses as an Ethernet II frame this stack accepts: long enough,
/// carrying IPv4.
pub open spec fn spec_eth_parse_ok(buf: Seq<u8>) -> bool {
    buf.len() >= 14 && spec_be16(buf[12], buf[13]) == ETHERTYPE_IPV4
}

/// The destination MAC of a frame.
pub open spec fn spec_eth_dst(buf: Seq<u8>) -> Seq<u8> {
    buf.subrange(0, 6)
}

/// The bytes after the Ethernet header.
pub open spec fn spec_eth_payload(buf: Seq<u8>) -> Seq<u8> {
    buf.skip(14)
}

/// The wire form of an Ethernet II header.
pub open spec fn spec_eth_bytes(h: EthernetHeader) -> Seq<u8> {
    h.dst_addr@ + h.src_addr@
        + seq![(h.ether_type / 0x100) as u8, (h.ether_type % 0x100) as u8]
}

impl EthernetHeader {
    pub fn new(dst_addr: [u8; 6], src_addr: [u8; 6], ether_type: u16) -> (r: EthernetHeader)
        ensures
            r.dst_addr@ == dst_addr@ && r.src_addr@ == src_addr@
                && r.ether_type == ether_type,
    {
        EthernetHeader { dst_addr, src_addr, ether_type }
    }

    /// Parses the first 14 bytes of a frame. Fails exactly when the buffer
    /// is too short or the ethertype is not IPv4 (the only one this stack
    /// speaks). Returns the header and the payload after it.
    pub fn parse(buf: &[u8]) -> (r: Result<(EthernetHeader, Vec<u8>), Fail>)
        ensures
            spec_eth_parse_ok(buf@) <==> r is Ok,
            r matches Ok((h, payload)) ==> {
                &&& h.dst_addr@ == spec_eth_dst(buf@)
                &&& h.src_addr@ == buf@.subrange(6, 12)
                &&& h.ether_type == spec_be16(buf@[12], buf@[13])
                &&& payload@ == spec_eth_payload(buf@)
            },
            r matches Err(e) ==> e.errno == EBADMSG,
    {
        if buf.len() < 14 {
            return Err(Fail::new(EBADMSG));
        }
        let ether_type = be16(buf[12], buf[13]);
        if ether_type != ETHERTYPE_IPV4 {
            return Err(Fail::new(EBADMSG));
        }
        let dst_addr: [u8; 6] = [buf[0], buf[1], buf[2], buf[3], buf[4], buf[5]];
        let src_addr: [u8; 6] = [buf[6], buf[7], buf[8], buf[9], buf[10], buf[11]];
        let payload = copy_range(buf, 14, buf.len());
        proof {
            assert(dst_addr@ =~= buf@.subrange(0, 6));
            assert(src_addr@ =~= buf@.subrange(6, 12));
            assert(buf@.subrange(14, buf@.len() as int) =~= buf@.skip(14));
        }
        Ok((EthernetHeader { dst_addr, src_addr, ether_type }, payload))
    }

    /// The wire form of this header.
    pub fn serialize(&self) -> (r: Vec<u8>)
        ensures
            r@ == spec_eth_bytes(*self),
            r@.len() == 14,
    {
        let mut out: Vec<u8> = Vec::new();
        let mut i: usize = 0;
        while i < 6
            invariant
                i <= 6,
                out@ == self.dst_addr@.take(i as int),
            decreases 6 - i,
        {
            out.push(self.dst_addr[i]);
            proof {
                assert(out@ =~= self.dst_addr@.take(i + 1));
            }
            i = i + 1;
        }
        let mut i: usize = 0;
        while i < 6
            invariant
                i <= 6,
                out@ == self.dst_addr@ + self.src_addr@.take(i as int),
            decreases 6 - i,
        {
            out.push(self.src_addr[i]);
            proof {
                assert(out@ =~= self.dst_addr@ + self.src_addr@.take(i + 1));
            }
            i = i + 1;
        }
        out.push(be16_hi(self.ether_type));
        out.push(be16_lo(self.ether_type));
        proof {
            assert(out@ =~= spec_eth_bytes(*self));
        }
        out
    }
}

/// Encoding an Ethernet header and decoding the result returns the original
/// structured form, with the bytes after it intact.
pub proof fn lemma_eth_roundtrip(h: EthernetHeader, rest: Seq<u8>)
    requires
        h.ether_type == ETHERTYPE_IPV4,
    ensures
        ({
            let b = spec_eth_bytes(h) + rest;
            &&& b.len() >= 14
            &&& spec_be16(b[12], b[13]) == h.ether_type
            &&& b.subrange(0, 6) == h.dst_addr@
            &&& b.subrange(6, 12) == h.src_addr@
            &&& b.skip(14) == rest
        }),
{
    let b = spec_eth_bytes(h) + rest;
    assert(b.subrange(0, 6) =~= h.dst_addr@);
    assert(b.subrange(6, 12) =~= h.src_addr@);
    assert(b.skip(14) =~= rest);
    crate::bytes::lemma_be16_roundtrip(h.ether_type);
}

} // verus!
