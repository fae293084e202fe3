//! The IPv4 header, without options: 20 bytes on the wire. Parsing checks
//! the version, the header length and — when the NIC has not already done
//! so — the header checksum.

use vstd::prelude::*;
use crate::bytes::{spec_be16, spec_be32, be16, be32, be16_hi, be16_lo, be32_bytes, copy_range};
use crate::checksum::{spec_checksum, internet_checksum};
use crate::fail::{Fail, EBADMSG};

verus! {

/// Bytes in an IPv4 header without options.
pub const IPV4_HEADER_SIZE: usize = 20;

/// The protocol number of TCP.
pub const IPPROTO_TCP: u8 = 6;

/// An IPv4 header in structured form. The total length is not stored: it is
/// derived from the payload on serialization and bounds the payload on
/// parsing. The checksum is not stored either: it is computed on
/// serialization (zero under transmit offload) and checked on parsing
/// (skipped under receive offload).
#[derive(Clone, Copy, Debug)]
pub struct Ipv4Header {
    pub src_addr: u32,
    pub dst_addr: u32,
    pub protocol: u8,
    pub ttl: u8,
}

impl Ipv4Header {
    pub fn new(src_addr: u32, dst_addr: u32, protocol: u8) -> (r: Ipv4Header)
        ensures
            r.src_addr == src_addr && r.dst_addr == dst_addr
                && r.protocol == protocol && r.ttl == 64,
    {
        Ipv4Header { src_addr, dst_addr, protocol, ttl: 64 }
    }

    pub fn get_src_addr(&self) -> (r: u32)
        ensures
            r == self.src_addr,
    {
        self.src_addr
    }

    pub fn get_dest_addr(&self) -> (r: u32)
        ensures
            r == self.dst_addr,
    {
        self.dst_addr
    }
}

/// The wire form of an IPv4 header over a payload of `payload_len` bytes,
/// with `cksum` in the checksum field.
pub open spec fn spec_ipv4_bytes(h: Ipv4Header, payload_len: int, cksum: u16) -> Seq<u8> {
    seq![
        0x45u8,
        0u8,
        ((20 + payload_len) / 0x100) as u8,
        ((20 + payload_len) % 0x100) as u8,
        0u8, 0u8, 0u8, 0u8,
        h.ttl,
        h.protocol,
        (cksum / 0x100) as u8,
        (cksum % 0x100) as u8,
        (h.src_addr / 0x100_0000) as u8,
        ((h.src_addr / 0x1_0000) % 0x100) as u8,
        ((h.src_addr / 0x100) % 0x100) as u8,
        (h.src_addr % 0x100) as u8,
        (h.dst_addr / 0x100_0000) as u8,
        ((h.dst_addr / 0x1_0000) % 0x100) as u8,
        ((h.dst_addr / 0x100) % 0x100) as u8,
        (h.dst_addr % 0x100) as u8,
    ]
}

/// The total length an IPv4 header claims.
pub open spec fn spec_ipv4_total_len(buf: Seq<u8>) -> int {
    spec_be16(buf[2], buf[3]) as int
}

/// A buffer parses as an IPv4 packet: long enough, version 4 without
/// options, the total length inside the buffer, and — when the NIC has not
/// verified it — the header checksum good.
pub open spec fn spec_ipv4_parse_ok(buf: Seq<u8>, rx_checksum_offload: bool) -> bool {
    &&& buf.len() >= 20
    &&& buf[0] == 0x45
    &&& 20 <= spec_ipv4_total_len(buf) <= buf.len()
    &&& (!rx_checksum_offload
        ==> spec_checksum(buf.subrange(0, 20).update(10, 0).update(11, 0))
            == spec_be16(buf[10], buf[11]))
}

/// The structured header a valid IPv4 buffer parses to.
pub open spec fn spec_parsed_ipv4_header(buf: Seq<u8>) -> Ipv4Header {
    Ipv4Header {
        src_addr: spec_be32(buf[12], buf[13], buf[14], buf[15]),
        dst_addr: spec_be32(buf[16], buf[17], buf[18], buf[19]),
        protocol: buf[9],
        ttl: buf[8],
    }
}

/// The payload the total length delimits.
pub open spec fn spec_ipv4_payload(buf: Seq<u8>) -> Seq<u8> {
    buf.subrange(20, spec_ipv4_total_len(buf))
}

/// Parses an IPv4 header from the front of `buf`. Fails exactly when the
/// buffer is shorter than a header, the version is not 4, the header
/// carries options, the total length disagrees with the buffer, or — with
/// `rx_checksum_offload` off — the checksum does not verify. Returns the
/// header and the payload the total length delimits.
pub fn ipv4_parse(buf: &[u8], rx_checksum_offload: bool)
    -> (r: Result<(Ipv4Header, Vec<u8>), Fail>)
    ensures
        r is Ok <==> spec_ipv4_parse_ok(buf@, rx_checksum_offload),
        r matches Ok((h, payload)) ==> h == spec_parsed_ipv4_header(buf@)
            && payload@ == spec_ipv4_payload(buf@),
        r matches Err(e) ==> e.errno == EBADMSG,
{
    if buf.len() < 20 {
        return Err(Fail::new(EBADMSG));
    }
    // Version 4, header length 5 words: no options.
    if buf[0] != 0x45 {
        return Err(Fail::new(EBADMSG));
    }
    let total_len = be16(buf[2], buf[3]) as usize;
    if total_len < 20 || total_len > buf.len() {
        return Err(Fail::new(EBADMSG));
    }
    if !rx_checksum_offload {
        // The checksum is computed with its own field zeroed.
        let mut header = copy_range(buf, 0, 20);
        header.set(10, 0);
        header.set(11, 0);
        let computed = internet_checksum(header.as_slice());
        let stored = be16(buf[10], buf[11]);
        if computed != stored {
            return Err(Fail::new(EBADMSG));
        }
        proof {
            assert(header@ =~= buf@.subrange(0, 20).update(10, 0).update(11, 0));
        }
    }
    let h = Ipv4Header {
        src_addr: be32(buf[12], buf[13], buf[14], buf[15]),
        dst_addr: be32(buf[16], buf[17], buf[18], buf[19]),
        protocol: buf[9],
        ttl: buf[8],
    };
    let payload = copy_range(buf, 20, total_len);
    Ok((h, payload))
}

/// The wire form of `h` over a payload of `payload_len` bytes. With
/// `tx_checksum_offload` the checksum field is left zero for the NIC;
/// otherwise it is the Internet checksum of the header.
pub fn ipv4_serialize(h: &Ipv4Header, payload_len: usize, tx_checksum_offload: bool)
    -> (r: Vec<u8>)
    requires
        payload_len <= 0xffff - 20,
    ensures
        r@.len() == 20,
        ({
            let cksum = (if tx_checksum_offload { 0u16 } else {
                spec_checksum(spec_ipv4_bytes(*h, payload_len as int, 0))
            });
            r@ == spec_ipv4_bytes(*h, payload_len as int, cksum)
        }),
{
    let total_len: u16 = 20 + (payload_len as u16);
    let mut out: Vec<u8> = Vec::new();
    out.push(0x45);
    out.push(0);
    out.push(be16_hi(total_len));
    out.push(be16_lo(total_len));
    out.push(0);
    out.push(0);
    out.push(0);
    out.push(0);
    out.push(h.ttl);
    out.push(h.protocol);
    out.push(0);
    out.push(0);
    let (s0, s1, s2, s3) = be32_bytes(h.src_addr);
    out.push(s0);
    out.push(s1);
    out.push(s2);
    out.push(s3);
    let (d0, d1, d2, d3) = be32_bytes(h.dst_addr);
    out.push(d0);
    out.push(d1);
    out.push(d2);
    out.push(d3);
    proof {
        assert(out@ =~= spec_ipv4_bytes(*h, payload_len as int, 0));
    }
    if !tx_checksum_offload {
        let cksum = internet_checksum(out.as_slice());
        let ghost zeroed = out@;
        out.set(10, be16_hi(cksum));
        out.set(11, be16_lo(cksum));
        proof {
            assert(out@ =~= spec_ipv4_bytes(*h, payload_len as int,
                spec_checksum(zeroed)));
        }
    }
    out
}

/// Encoding an IPv4 header over a payload and decoding the result returns
/// the original structured form and the payload, independent of checksum
/// offload (the parse bounds expressed over the serialized bytes).
#[verifier::rlimit(100)]
pub proof fn lemma_ipv4_roundtrip(h: Ipv4Header, payload: Seq<u8>, cksum: u16)
    requires
        payload.len() <= 0xffff - 20,
    ensures
        ({
            let b = spec_ipv4_bytes(h, payload.len() as int, cksum) + payload;
            &&& b.len() >= 20
            &&& b[0] == 0x45
            &&& spec_be32(b[12], b[13], b[14], b[15]) == h.src_addr
            &&& spec_be32(b[16], b[17], b[18], b[19]) == h.dst_addr
            &&& b[9] == h.protocol
            &&& b[8] == h.ttl
            &&& spec_be16(b[2], b[3]) == 20 + payload.len()
            &&& b.subrange(20, spec_be16(b[2], b[3]) as int) == payload
        }),
{
    let w = spec_ipv4_bytes(h, payload.len() as int, cksum);
    let b = w + payload;
    assert(b[0] == w[0] && b[2] == w[2] && b[3] == w[3] && b[8] == w[8] && b[9] == w[9]);
    assert(b[12] == w[12] && b[13] == w[13] && b[14] == w[14] && b[15] == w[15]);
    assert(b[16] == w[16] && b[17] == w[17] && b[18] == w[18] && b[19] == w[19]);
    assert(spec_be16(b[2], b[3]) == 20 + payload.len());
    assert(b.subrange(20, 20 + payload.len() as int) =~= payload);
}

} // verus!
