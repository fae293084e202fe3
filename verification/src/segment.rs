//! The TCP header on the wire: the 20 fixed bytes, the encoded options
//! (padded to 32-bit words), and the checksum over the IPv4 pseudo-header
//! when the NIC does not handle it.

use vstd::prelude::*;
use crate::bytes::{
    spec_be16, spec_be32, be16, be32, be16_hi, be16_lo, be32_bytes, copy_range, append_bytes,
    lemma_be16_roundtrip, lemma_be32_roundtrip,
};
use crate::checksum::{spec_checksum, internet_checksum};
use crate::fail::{Fail, EBADMSG};
use crate::ipv4::IPPROTO_TCP;
use crate::tcp_header::{TcpHeader, TcpOption};

verus! {

/// Bytes in a TCP header with no options.
pub const MIN_TCP_HEADER_SIZE: usize = 20;

/// Bytes in a TCP header with a full option block.
pub const MAX_TCP_HEADER_SIZE: usize = 60;

/// The wire form of one TCP option.
pub open spec fn spec_option_bytes(o: TcpOption) -> Seq<u8> {
    match o {
        TcpOption::EndOfList => seq![0u8],
        TcpOption::NoOperation => seq![1u8],
        TcpOption::MaximumSegmentSize(m) =>
            seq![2u8, 4u8, (m / 0x100) as u8, (m % 0x100) as u8],
        TcpOption::WindowScale(w) => seq![3u8, 3u8, w],
        TcpOption::SackPermitted => seq![4u8, 2u8],
        TcpOption::Timestamp(a, b) => seq![8u8, 10u8,
            (a / 0x100_0000) as u8, ((a / 0x1_0000) % 0x100) as u8,
            ((a / 0x100) % 0x100) as u8, (a % 0x100) as u8,
            (b / 0x100_0000) as u8, ((b / 0x1_0000) % 0x100) as u8,
            ((b / 0x100) % 0x100) as u8, (b % 0x100) as u8],
    }
}

/// The wire form of an option list, in order.
pub open spec fn spec_options_bytes(opts: Seq<TcpOption>) -> Seq<u8>
    decreases opts.len(),
{
    if opts.len() == 0 {
        Seq::empty()
    } else {
        spec_option_bytes(opts[0]) + spec_options_bytes(opts.skip(1))
    }
}

/// Decodes an option block: end-of-list stops it, no-operations vanish, and
/// a malformed option fails the whole block.
pub open spec fn spec_parse_options(s: Seq<u8>) -> Option<Seq<TcpOption>>
    decreases s.len(),
{
    if s.len() == 0 {
        Some(Seq::empty())
    } else if s[0] == 0 {
        Some(Seq::empty())
    } else if s[0] == 1 {
        spec_parse_options(s.skip(1))
    } else if s[0] == 2 {
        if s.len() >= 4 && s[1] == 4 {
            match spec_parse_options(s.skip(4)) {
                Some(rest) => Some(
                    seq![TcpOption::MaximumSegmentSize(spec_be16(s[2], s[3]))] + rest),
                None => None,
            }
        } else {
            None
        }
    } else if s[0] == 3 {
        if s.len() >= 3 && s[1] == 3 {
            match spec_parse_options(s.skip(3)) {
                Some(rest) => Some(seq![TcpOption::WindowScale(s[2])] + rest),
                None => None,
            }
        } else {
            None
        }
    } else if s[0] == 4 {
        if s.len() >= 2 && s[1] == 2 {
            match spec_parse_options(s.skip(2)) {
                Some(rest) => Some(seq![TcpOption::SackPermitted] + rest),
                None => None,
            }
        } else {
            None
        }
    } else if s[0] == 8 {
        if s.len() >= 10 && s[1] == 10 {
            match spec_parse_options(s.skip(10)) {
                Some(rest) => Some(seq![TcpOption::Timestamp(
                    spec_be32(s[2], s[3], s[4], s[5]),
                    spec_be32(s[6], s[7], s[8], s[9]))] + rest),
                None => None,
            }
        } else {
            None
        }
    } else {
        None
    }
}

/// The flag byte of a TCP header.
pub open spec fn spec_flag_byte(h: TcpHeader) -> u8 {
    ((if h.fin { 1int } else { 0int })
        + (if h.syn { 2int } else { 0int })
        + (if h.rst { 4int } else { 0int })
        + (if h.psh { 8int } else { 0int })
        + (if h.ack { 16int } else { 0int })
        + (if h.urg { 32int } else { 0int })) as u8
}

/// The fixed 20 bytes of a TCP header, given the data offset in words and
/// the checksum field value.
pub open spec fn spec_tcp_fixed_bytes(h: TcpHeader, data_off_words: int, cksum: u16)
    -> Seq<u8> {
    seq![
        (h.src_port / 0x100) as u8, (h.src_port % 0x100) as u8,
        (h.dst_port / 0x100) as u8, (h.dst_port % 0x100) as u8,
        (h.seq_num / 0x100_0000) as u8, ((h.seq_num / 0x1_0000) % 0x100) as u8,
        ((h.seq_num / 0x100) % 0x100) as u8, (h.seq_num % 0x100) as u8,
        (h.ack_num / 0x100_0000) as u8, ((h.ack_num / 0x1_0000) % 0x100) as u8,
        ((h.ack_num / 0x100) % 0x100) as u8, (h.ack_num % 0x100) as u8,
        (data_off_words * 16) as u8,
        spec_flag_byte(h),
        (h.window_size / 0x100) as u8, (h.window_size % 0x100) as u8,
        (cksum / 0x100) as u8, (cksum % 0x100) as u8,
        (h.urgent_pointer / 0x100) as u8, (h.urgent_pointer % 0x100) as u8,
    ]
}

/// The IPv4 pseudo-header that guards a TCP segment of `seg_len` bytes.
pub open spec fn spec_pseudo_bytes(src_addr: u32, dst_addr: u32, seg_len: int) -> Seq<u8> {
    seq![
        (src_addr / 0x100_0000) as u8, ((src_addr / 0x1_0000) % 0x100) as u8,
        ((src_addr / 0x100) % 0x100) as u8, (src_addr % 0x100) as u8,
        (dst_addr / 0x100_0000) as u8, ((dst_addr / 0x1_0000) % 0x100) as u8,
        ((dst_addr / 0x100) % 0x100) as u8, (dst_addr % 0x100) as u8,
        0u8, IPPROTO_TCP,
        (seg_len / 0x100) as u8, (seg_len % 0x100) as u8,
    ]
}

/// Builds the pseudo-header for a segment of `seg_len` bytes.
fn pseudo_header(src_addr: u32, dst_addr: u32, seg_len: u16) -> (r: Vec<u8>)
    ensures
        r@ == spec_pseudo_bytes(src_addr, dst_addr, seg_len as int),
{
    let mut out: Vec<u8> = Vec::new();
    let (s0, s1, s2, s3) = be32_bytes(src_addr);
    out.push(s0); out.push(s1); out.push(s2); out.push(s3);
    let (d0, d1, d2, d3) = be32_bytes(dst_addr);
    out.push(d0); out.push(d1); out.push(d2); out.push(d3);
    out.push(0);
    out.push(IPPROTO_TCP);
    out.push(be16_hi(seg_len));
    out.push(be16_lo(seg_len));
    proof {
        assert(out@ =~= spec_pseudo_bytes(src_addr, dst_addr, seg_len as int));
    }
    out
}

/// Appends the wire form of the option list to `out`.
fn write_options(out: &mut Vec<u8>, options: &Vec<TcpOption>)
    ensures
        final(out)@ == old(out)@ + spec_options_bytes(options@),
{
    let n = options.len();
    proof {
        assert(options@.skip(0) =~= options@);
        assert(old(out)@ + spec_options_bytes(options@.take(0))
            =~= old(out)@);
    }
    for i in 0..n
        invariant
            n == options@.len(),
            out@ == old(out)@ + spec_options_bytes(options@.take(i as int)),
    {
        let ghost pre = out@;
        let ghost taken = options@.take(i as int);
        match options[i] {
            TcpOption::EndOfList => {
                out.push(0);
            },
            TcpOption::NoOperation => {
                out.push(1);
            },
            TcpOption::MaximumSegmentSize(m) => {
                out.push(2);
                out.push(4);
                out.push(be16_hi(m));
                out.push(be16_lo(m));
            },
            TcpOption::WindowScale(w) => {
                out.push(3);
                out.push(3);
                out.push(w);
            },
            TcpOption::SackPermitted => {
                out.push(4);
                out.push(2);
            },
            TcpOption::Timestamp(a, b) => {
                out.push(8);
                out.push(10);
                let (a0, a1, a2, a3) = be32_bytes(a);
                out.push(a0); out.push(a1); out.push(a2); out.push(a3);
                let (b0, b1, b2, b3) = be32_bytes(b);
                out.push(b0); out.push(b1); out.push(b2); out.push(b3);
            },
        }
        proof {
            assert(out@ =~= pre + spec_option_bytes(options@[i as int]));
            lemma_options_bytes_push(taken, options@[i as int]);
            assert(options@.take(i + 1) =~= taken.push(options@[i as int]));
        }
    }
    proof {
        assert(options@.take(n as int) =~= options@);
    }
}

/// Appending an option appends its bytes.
pub proof fn lemma_options_bytes_push(opts: Seq<TcpOption>, o: TcpOption)
    ensures
        spec_options_bytes(opts.push(o)) == spec_options_bytes(opts) + spec_option_bytes(o),
    decreases opts.len(),
{
    let p = opts.push(o);
    if opts.len() == 0 {
        assert(p.skip(1) =~= Seq::<TcpOption>::empty());
        assert(spec_options_bytes(p)
            == spec_option_bytes(p[0]) + spec_options_bytes(p.skip(1)));
        assert(p[0] == o);
        assert(spec_options_bytes(p) =~= spec_options_bytes(opts) + spec_option_bytes(o));
    } else {
        assert(p.skip(1) =~= opts.skip(1).push(o));
        lemma_options_bytes_push(opts.skip(1), o);
        assert(spec_options_bytes(p)
            == spec_option_bytes(p[0]) + spec_options_bytes(p.skip(1)));
        assert(p[0] == opts[0]);
        assert(spec_options_bytes(p) =~= spec_options_bytes(opts) + spec_option_bytes(o));
    }
}

/// The wire form of a whole TCP segment — fixed header, options padded to a
/// word boundary with end-of-list bytes, payload — with `cksum` in the
/// checksum field.
pub open spec fn spec_tcp_segment_bytes(
    h: TcpHeader,
    pad: int,
    cksum: u16,
    payload: Seq<u8>,
) -> Seq<u8> {
    let ob = spec_options_bytes(h.options@) + Seq::new(pad as nat, |i: int| 0u8);
    spec_tcp_fixed_bytes(h, 5 + ob.len() as int / 4, cksum) + ob + payload
}

/// Serializes a TCP segment. The option block is padded with end-of-list
/// bytes to a 32-bit boundary. With `tx_checksum_offload` the checksum
/// field is left zero for the NIC; otherwise it is the Internet checksum
/// over the pseudo-header and the segment.
#[verifier::rlimit(100)]
pub fn tcp_serialize(
    h: &TcpHeader,
    src_addr: u32,
    dst_addr: u32,
    payload: &[u8],
    tx_checksum_offload: bool,
) -> (r: Vec<u8>)
    requires
        spec_options_bytes(h.options@).len() <= 36,
        payload@.len() + 100 <= 0xffff,
    ensures
        ({
            let opt_len = spec_options_bytes(h.options@).len() as int;
            let pad = (4 - opt_len % 4) % 4;
            let zeroed = spec_tcp_segment_bytes(*h, pad, 0, payload@);
            let cksum = (if tx_checksum_offload { 0u16 } else {
                spec_checksum(spec_pseudo_bytes(src_addr, dst_addr, zeroed.len() as int)
                    + zeroed)
            });
            r@ == spec_tcp_segment_bytes(*h, pad, cksum, payload@)
        }),
{
    let mut opts: Vec<u8> = Vec::new();
    write_options(&mut opts, &h.options);
    let opt_len = opts.len();
    let pad: usize = (4 - opt_len % 4) % 4;
    let mut i: usize = 0;
    while i < pad
        invariant
            i <= pad,
            opts@ == spec_options_bytes(h.options@) + Seq::new(i as nat, |j: int| 0u8),
        decreases pad - i,
    {
        opts.push(0);
        proof {
            assert(opts@ =~= spec_options_bytes(h.options@)
                + Seq::new((i + 1) as nat, |j: int| 0u8));
        }
        i = i + 1;
    }
    let ghost ob = spec_options_bytes(h.options@) + Seq::new(pad as nat, |j: int| 0u8);
    proof {
        assert(opts@ =~= ob);
        assert(opts@.len() % 4 == 0);
        assert(opts@.len() <= 40);
    }

    let data_off_words: u8 = 5 + (opts.len() / 4) as u8;
    let seg_len: u16 = (20 + opts.len() + payload.len()) as u16;

    let mut out: Vec<u8> = Vec::new();
    out.push(be16_hi(h.src_port));
    out.push(be16_lo(h.src_port));
    out.push(be16_hi(h.dst_port));
    out.push(be16_lo(h.dst_port));
    let (q0, q1, q2, q3) = be32_bytes(h.seq_num);
    out.push(q0); out.push(q1); out.push(q2); out.push(q3);
    let (a0, a1, a2, a3) = be32_bytes(h.ack_num);
    out.push(a0); out.push(a1); out.push(a2); out.push(a3);
    out.push(data_off_words * 16);
    let flags: u8 = (if h.fin { 1u8 } else { 0u8 })
        + (if h.syn { 2u8 } else { 0u8 })
        + (if h.rst { 4u8 } else { 0u8 })
        + (if h.psh { 8u8 } else { 0u8 })
        + (if h.ack { 16u8 } else { 0u8 })
        + (if h.urg { 32u8 } else { 0u8 });
    out.push(flags);
    out.push(be16_hi(h.window_size));
    out.push(be16_lo(h.window_size));
    out.push(0);
    out.push(0);
    out.push(be16_hi(h.urgent_pointer));
    out.push(be16_lo(h.urgent_pointer));
    append_bytes(&mut out, opts.as_slice());
    append_bytes(&mut out, payload);
    proof {
        assert(out@ =~= spec_tcp_segment_bytes(*h,
            (ob.len() - spec_options_bytes(h.options@).len()) as int, 0, payload@));
    }
    if !tx_checksum_offload {
        let pseudo = pseudo_header(src_addr, dst_addr, seg_len);
        let ghost zeroed = out@;
        let mut whole = pseudo;
        append_bytes(&mut whole, out.as_slice());
        let cksum = internet_checksum(whole.as_slice());
        out.set(16, be16_hi(cksum));
        out.set(17, be16_lo(cksum));
        proof {
            assert(whole@ == spec_pseudo_bytes(src_addr, dst_addr, zeroed.len() as int)
                + zeroed);
            assert(out@ =~= spec_tcp_segment_bytes(*h,
                (ob.len() - spec_options_bytes(h.options@).len()) as int,
                spec_checksum(whole@), payload@));
        }
    }
    out
}

/// The data offset a TCP header claims, in bytes.
pub open spec fn spec_tcp_doff(buf: Seq<u8>) -> int {
    4 * (buf[12] / 16)
}

/// A buffer parses as a TCP segment: long enough, the data offset inside
/// it, the option block well formed, and — when the NIC has not verified
/// it — the checksum over the pseudo-header of `src_addr`/`dst_addr` good.
pub open spec fn spec_tcp_parse_ok(
    buf: Seq<u8>,
    src_addr: u32,
    dst_addr: u32,
    rx_checksum_offload: bool,
) -> bool {
    &&& buf.len() >= 20
    &&& 20 <= spec_tcp_doff(buf) <= buf.len()
    &&& spec_parse_options(buf.subrange(20, spec_tcp_doff(buf))) is Some
    &&& (!rx_checksum_offload ==> spec_checksum(
        spec_pseudo_bytes(src_addr, dst_addr, buf.len() as int) + buf) == 0)
}

/// The structured header a valid TCP buffer parses to.
pub open spec fn spec_parsed_tcp_header(buf: Seq<u8>) -> crate::tcp_header::TcpHeaderV {
    crate::tcp_header::TcpHeaderV {
        src_port: spec_be16(buf[0], buf[1]),
        dst_port: spec_be16(buf[2], buf[3]),
        seq_num: spec_be32(buf[4], buf[5], buf[6], buf[7]),
        ack_num: spec_be32(buf[8], buf[9], buf[10], buf[11]),
        fin: buf[13] % 2 == 1,
        syn: (buf[13] / 2) % 2 == 1,
        rst: (buf[13] / 4) % 2 == 1,
        psh: (buf[13] / 8) % 2 == 1,
        ack: (buf[13] / 16) % 2 == 1,
        urg: (buf[13] / 32) % 2 == 1,
        window_size: spec_be16(buf[14], buf[15]),
        urgent_pointer: spec_be16(buf[18], buf[19]),
        options: (match spec_parse_options(buf.subrange(20, spec_tcp_doff(buf))) {
            Some(opts) => opts,
            None => Seq::empty(),
        }),
    }
}

/// The payload after the header of a valid TCP buffer.
pub open spec fn spec_tcp_payload(buf: Seq<u8>) -> Seq<u8> {
    buf.skip(spec_tcp_doff(buf))
}

/// Joins a decoded prefix with the outcome for the remaining bytes.
pub open spec fn spec_join_options(done: Seq<TcpOption>, rest: Option<Seq<TcpOption>>)
    -> Option<Seq<TcpOption>> {
    match rest {
        Some(r) => Some(done + r),
        None => None,
    }
}

/// Parses a TCP segment: the fixed header, the option block the data offset
/// delimits, and the payload after it. Fails exactly when the buffer is
/// shorter than a header, the data offset is outside `[5, 15]` or overruns
/// the buffer, the option block is malformed, or — with
/// `rx_checksum_offload` off — the checksum over the pseudo-header does not
/// verify.
#[verifier::rlimit(100)]
pub fn tcp_parse(buf: &[u8], src_addr: u32, dst_addr: u32, rx_checksum_offload: bool)
    -> (r: Result<(TcpHeader, Vec<u8>), Fail>)
    requires
        buf@.len() <= 0xffff,
    ensures
        r is Ok <==> spec_tcp_parse_ok(buf@, src_addr, dst_addr, rx_checksum_offload),
        r matches Ok((h, payload)) ==> h@ == spec_parsed_tcp_header(buf@)
            && payload@ == spec_tcp_payload(buf@),
        r matches Err(e) ==> e.errno == EBADMSG,
{
    if buf.len() < 20 {
        return Err(Fail::new(EBADMSG));
    }
    let doff: usize = 4 * ((buf[12] / 16) as usize);
    if doff < 20 || doff > buf.len() {
        return Err(Fail::new(EBADMSG));
    }
    if !rx_checksum_offload {
        let mut whole = pseudo_header(src_addr, dst_addr, buf.len() as u16);
        append_bytes(&mut whole, buf);
        let computed = internet_checksum(whole.as_slice());
        if computed != 0 {
            return Err(Fail::new(EBADMSG));
        }
    }

    let ghost region = buf@.subrange(20, doff as int);
    let mut options: Vec<TcpOption> = Vec::new();
    let mut idx: usize = 20;
    let mut saw_end = false;
    proof {
        assert(region.skip(0) =~= region);
    }
    while idx < doff && !saw_end
        invariant
            20 <= idx <= doff <= buf@.len() <= 0xffff,
            doff == 4 * (buf@[12] / 16),
            region == buf@.subrange(20, doff as int),
            !saw_end ==> spec_parse_options(region)
                == spec_join_options(options@, spec_parse_options(region.skip(idx - 20))),
            saw_end ==> spec_parse_options(region) == Some(options@),
        decreases doff - idx,
    {
        let ghost sfx = region.skip(idx - 20);
        let ghost done = options@;
        let kind = buf[idx];
        proof {
            assert(sfx.len() == doff - idx);
            assert(sfx[0] == buf@[idx as int]);
            assert forall|k: int| 0 <= k < sfx.len()
                implies sfx[k] == buf@[idx + k] by {}
        }
        if kind == 0 {
            saw_end = true;
            proof {
                assert(spec_parse_options(sfx) == Some(Seq::<TcpOption>::empty()));
                assert(done + Seq::<TcpOption>::empty() =~= done);
            }
            idx = doff;
        } else if kind == 1 {
            proof {
                assert(sfx.skip(1) =~= region.skip(idx + 1 - 20));
            }
            idx = idx + 1;
        } else if kind == 2 {
            if doff - idx < 4 || buf[idx + 1] != 4 {
                proof {
                    assert(spec_parse_options(sfx) is None);
                    assert(spec_parse_options(region) is None);
                }
                return Err(Fail::new(EBADMSG));
            }
            let m = be16(buf[idx + 2], buf[idx + 3]);
            options.push(TcpOption::MaximumSegmentSize(m));
            proof {
                assert(sfx.skip(4) =~= region.skip(idx + 4 - 20));
                lemma_join_step(done, TcpOption::MaximumSegmentSize(m),
                    spec_parse_options(region.skip(idx + 4 - 20)));
            }
            idx = idx + 4;
        } else if kind == 3 {
            if doff - idx < 3 || buf[idx + 1] != 3 {
                proof {
                    assert(spec_parse_options(sfx) is None);
                    assert(spec_parse_options(region) is None);
                }
                return Err(Fail::new(EBADMSG));
            }
            let w = buf[idx + 2];
            options.push(TcpOption::WindowScale(w));
            proof {
                assert(sfx.skip(3) =~= region.skip(idx + 3 - 20));
                lemma_join_step(done, TcpOption::WindowScale(w),
                    spec_parse_options(region.skip(idx + 3 - 20)));
            }
            idx = idx + 3;
        } else if kind == 4 {
            if doff - idx < 2 || buf[idx + 1] != 2 {
                proof {
                    assert(spec_parse_options(sfx) is None);
                    assert(spec_parse_options(region) is None);
                }
                return Err(Fail::new(EBADMSG));
            }
            options.push(TcpOption::SackPermitted);
            proof {
                assert(sfx.skip(2) =~= region.skip(idx + 2 - 20));
                lemma_join_step(done, TcpOption::SackPermitted,
                    spec_parse_options(region.skip(idx + 2 - 20)));
            }
            idx = idx + 2;
        } else if kind == 8 {
            if doff - idx < 10 || buf[idx + 1] != 10 {
                proof {
                    assert(spec_parse_options(sfx) is None);
                    assert(spec_parse_options(region) is None);
                }
                return Err(Fail::new(EBADMSG));
            }
            let a = be32(buf[idx + 2], buf[idx + 3], buf[idx + 4], buf[idx + 5]);
            let b = be32(buf[idx + 6], buf[idx + 7], buf[idx + 8], buf[idx + 9]);
            options.push(TcpOption::Timestamp(a, b));
            proof {
                assert(sfx.skip(10) =~= region.skip(idx + 10 - 20));
                lemma_join_step(done, TcpOption::Timestamp(a, b),
                    spec_parse_options(region.skip(idx + 10 - 20)));
            }
            idx = idx + 10;
        } else {
            proof {
                assert(spec_parse_options(sfx) is None);
                assert(spec_parse_options(region) is None);
            }
            return Err(Fail::new(EBADMSG));
        }
    }
    proof {
        if !saw_end {
            assert(region.skip(idx - 20).len() == 0);
            assert(options@ + Seq::<TcpOption>::empty() =~= options@);
        }
        assert(spec_parse_options(region) == Some(options@));
    }

    let flags = buf[13];
    let h = TcpHeader {
        src_port: be16(buf[0], buf[1]),
        dst_port: be16(buf[2], buf[3]),
        seq_num: be32(buf[4], buf[5], buf[6], buf[7]),
        ack_num: be32(buf[8], buf[9], buf[10], buf[11]),
        fin: flags % 2 == 1,
        syn: (flags / 2) % 2 == 1,
        rst: (flags / 4) % 2 == 1,
        psh: (flags / 8) % 2 == 1,
        ack: (flags / 16) % 2 == 1,
        urg: (flags / 32) % 2 == 1,
        window_size: be16(buf[14], buf[15]),
        urgent_pointer: be16(buf[18], buf[19]),
        options,
    };
    let payload = copy_range(buf, doff, buf.len());
    proof {
        assert(buf@.subrange(doff as int, buf@.len() as int) =~= buf@.skip(doff as int));
    }
    Ok((h, payload))
}

/// One decoded option moves from the remainder to the prefix.
pub proof fn lemma_join_step(done: Seq<TcpOption>, o: TcpOption, rest: Option<Seq<TcpOption>>)
    ensures
        spec_join_options(done.push(o),
            rest) == spec_join_options(done,
                (match rest { Some(r) => Some(seq![o] + r), None => None })),
{
    match rest {
        Some(r) => {
            assert(done.push(o) + r =~= done + (seq![o] + r));
        },
        None => {},
    }
}

/// An option list with no end-of-list or no-operation entries (the only
/// kinds this stack ever emits carry data, so its own lists are clean).
pub open spec fn spec_opts_clean(opts: Seq<TcpOption>) -> bool {
    forall|i: int| 0 <= i < opts.len()
        ==> !((#[trigger] opts[i]) is EndOfList) && !(opts[i] is NoOperation)
}

/// Decoding an encoded option list returns the original list, whatever
/// end-of-list padding follows it.
pub proof fn lemma_options_roundtrip(opts: Seq<TcpOption>, pad: Seq<u8>)
    requires
        spec_opts_clean(opts),
        pad.len() > 0 ==> pad[0] == 0,
    ensures
        spec_parse_options(spec_options_bytes(opts) + pad) == Some(opts),
    decreases opts.len(),
{
    let s = spec_options_bytes(opts) + pad;
    if opts.len() == 0 {
        assert(s =~= pad);
        assert(spec_parse_options(s) == Some(Seq::<TcpOption>::empty()));
        assert(Seq::<TcpOption>::empty() =~= opts);
    } else {
        let o = opts[0];
        let rest = opts.skip(1);
        assert(spec_opts_clean(rest)) by {
            assert forall|i: int| 0 <= i < rest.len()
                implies !((#[trigger] rest[i]) is EndOfList)
                    && !(rest[i] is NoOperation) by {
                assert(rest[i] == opts[i + 1]);
            }
        }
        lemma_options_roundtrip(rest, pad);
        let k = spec_option_bytes(o).len() as int;
        assert(s.skip(k) =~= spec_options_bytes(rest) + pad);
        match o {
            TcpOption::MaximumSegmentSize(m) => {
                assert(s[0] == 2 && s[1] == 4 && s.len() >= 4);
                lemma_be16_roundtrip(m);
                assert(spec_be16(s[2], s[3]) == m);
                assert(seq![o] + rest =~= opts);
            },
            TcpOption::WindowScale(w) => {
                assert(s[0] == 3 && s[1] == 3 && s.len() >= 3);
                assert(s[2] == w);
                assert(seq![o] + rest =~= opts);
            },
            TcpOption::SackPermitted => {
                assert(s[0] == 4 && s[1] == 2 && s.len() >= 2);
                assert(seq![o] + rest =~= opts);
            },
            TcpOption::Timestamp(a, b) => {
                assert(s[0] == 8 && s[1] == 10 && s.len() >= 10);
                lemma_be32_roundtrip(a);
                lemma_be32_roundtrip(b);
                assert(spec_be32(s[2], s[3], s[4], s[5]) == a);
                assert(spec_be32(s[6], s[7], s[8], s[9]) == b);
                assert(seq![o] + rest =~= opts);
            },
            TcpOption::EndOfList => {},
            TcpOption::NoOperation => {},
        }
    }
}

/// Encode-then-decode of a TCP header returns the original structured form,
/// modulo the checksum field: every fixed field of the serialized segment
/// reads back as the field that went in, the option block decodes to the
/// original option list, and the payload follows intact.
#[verifier::rlimit(100)]
pub proof fn lemma_tcp_roundtrip(h: TcpHeader, pad: int, cksum: u16, payload: Seq<u8>)
    requires
        spec_opts_clean(h.options@),
        0 <= pad <= 3,
        (spec_options_bytes(h.options@).len() + pad) % 4 == 0,
        spec_options_bytes(h.options@).len() + pad <= 40,
    ensures
        ({
            let b = spec_tcp_segment_bytes(h, pad, cksum, payload);
            let doff = 4 * (b[12] / 16);
            &&& b.len() >= 20
            &&& doff == 20 + spec_options_bytes(h.options@).len() + pad
            &&& spec_be16(b[0], b[1]) == h.src_port
            &&& spec_be16(b[2], b[3]) == h.dst_port
            &&& spec_be32(b[4], b[5], b[6], b[7]) == h.seq_num
            &&& spec_be32(b[8], b[9], b[10], b[11]) == h.ack_num
            &&& (b[13] % 2 == 1) == h.fin
            &&& ((b[13] / 2) % 2 == 1) == h.syn
            &&& ((b[13] / 4) % 2 == 1) == h.rst
            &&& ((b[13] / 8) % 2 == 1) == h.psh
            &&& ((b[13] / 16) % 2 == 1) == h.ack
            &&& ((b[13] / 32) % 2 == 1) == h.urg
            &&& spec_be16(b[14], b[15]) == h.window_size
            &&& spec_be16(b[18], b[19]) == h.urgent_pointer
            &&& spec_parse_options(b.subrange(20, doff)) == Some(h.options@)
            &&& b.skip(doff) == payload
        }),
{
    let ob = spec_options_bytes(h.options@) + Seq::new(pad as nat, |i: int| 0u8);
    let b = spec_tcp_segment_bytes(h, pad, cksum, payload);
    let words = 5 + ob.len() as int / 4;
    assert(b[12] == words * 16);
    assert(b[12] / 16 == words) by (nonlinear_arith)
        requires b[12] == words * 16, 5 <= words <= 15;
    let doff = 4 * (b[12] / 16);
    assert(doff == 20 + ob.len());
    lemma_be16_roundtrip(h.src_port);
    lemma_be16_roundtrip(h.dst_port);
    lemma_be16_roundtrip(h.window_size);
    lemma_be16_roundtrip(h.urgent_pointer);
    lemma_be32_roundtrip(h.seq_num);
    lemma_be32_roundtrip(h.ack_num);
    assert(b[13] == spec_flag_byte(h));
    lemma_flag_byte_fields(h);
    assert(b.subrange(20, doff) =~= ob);
    lemma_options_roundtrip(h.options@, Seq::new(pad as nat, |i: int| 0u8));
    assert(b.skip(doff) =~= payload);
}

/// The six flag bits read back from the flag byte.
pub proof fn lemma_flag_byte_fields(h: TcpHeader)
    ensures
        (spec_flag_byte(h) % 2 == 1) == h.fin,
        ((spec_flag_byte(h) / 2) % 2 == 1) == h.syn,
        ((spec_flag_byte(h) / 4) % 2 == 1) == h.rst,
        ((spec_flag_byte(h) / 8) % 2 == 1) == h.psh,
        ((spec_flag_byte(h) / 16) % 2 == 1) == h.ack,
        ((spec_flag_byte(h) / 32) % 2 == 1) == h.urg,
{
}

/// Each option encodes to at most 10 bytes, so a short list stays short.
pub proof fn lemma_options_bytes_len(opts: Seq<TcpOption>)
    requires
        forall|i: int| 0 <= i < opts.len()
            ==> spec_option_bytes(#[trigger] opts[i]).len() <= 10,
    ensures
        spec_options_bytes(opts).len() <= 10 * opts.len(),
    decreases opts.len(),
{
    if opts.len() > 0 {
        assert(spec_option_bytes(opts[0]).len() <= 10);
        assert forall|i: int| 0 <= i < opts.skip(1).len()
            implies spec_option_bytes(#[trigger] opts.skip(1)[i]).len() <= 10 by {
            assert(opts.skip(1)[i] == opts[i + 1]);
        }
        lemma_options_bytes_len(opts.skip(1));
    }
}

} // verus!
