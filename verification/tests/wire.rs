//! Round trips and exact values for the Ethernet, IPv4 and TCP codecs.

use catnip_echo::checksum::internet_checksum;
use catnip_echo::eth::{EthernetHeader, ETHERTYPE_IPV4};
use catnip_echo::ipv4::{ipv4_parse, ipv4_serialize, Ipv4Header, IPPROTO_TCP};
use catnip_echo::segment::{tcp_parse, tcp_serialize};
use catnip_echo::tcp_header::{TcpHeader, TcpOption};

#[test]
fn checksum_known_values() {
    // An empty sum folds to zero; its complement is all ones.
    assert_eq!(internet_checksum(&[]), 0xffff);
    // One word of value 1.
    assert_eq!(internet_checksum(&[0x00, 0x01]), 0xfffe);
    // Carry folding: 0xffff + 0x0001 wraps to 1, complement 0xfffe.
    assert_eq!(internet_checksum(&[0xff, 0xff, 0x00, 0x01]), 0xfffe);
    // An odd trailing byte counts as the high half of a word.
    assert_eq!(internet_checksum(&[0x12]), 0xffff - 0x1200);
}

#[test]
fn eth_roundtrip() {
    let h = EthernetHeader::new(
        [0x02, 0x00, 0x00, 0x00, 0x00, 0x01],
        [0x02, 0x00, 0x00, 0x00, 0x00, 0x02],
        ETHERTYPE_IPV4,
    );
    let mut frame = h.serialize();
    frame.push(0xab);
    frame.push(0xcd);
    let (parsed, payload) = EthernetHeader::parse(frame.as_slice()).unwrap();
    assert_eq!(parsed.dst_addr, h.dst_addr);
    assert_eq!(parsed.src_addr, h.src_addr);
    assert_eq!(parsed.ether_type, ETHERTYPE_IPV4);
    assert_eq!(payload, vec![0xab, 0xcd]);
}

#[test]
fn eth_rejects_short_and_foreign() {
    assert!(EthernetHeader::parse(&[0u8; 10]).is_err());
    // A frame with a non-IPv4 ethertype is refused.
    let h = EthernetHeader::new([0; 6], [0; 6], 0x0806);
    let frame = h.serialize();
    assert!(EthernetHeader::parse(frame.as_slice()).is_err());
}

#[test]
fn ipv4_roundtrip_with_checksum() {
    let h = Ipv4Header::new(0x0a000001, 0x0a000002, IPPROTO_TCP);
    let payload = vec![1u8, 2, 3, 4, 5];
    let mut wire = ipv4_serialize(&h, payload.len(), false);
    for b in &payload {
        wire.push(*b);
    }
    let (parsed, body) = ipv4_parse(wire.as_slice(), false).unwrap();
    assert_eq!(parsed.src_addr, h.src_addr);
    assert_eq!(parsed.dst_addr, h.dst_addr);
    assert_eq!(parsed.protocol, IPPROTO_TCP);
    assert_eq!(parsed.ttl, h.ttl);
    assert_eq!(body, payload);
}

#[test]
fn ipv4_rejects_corruption() {
    let h = Ipv4Header::new(0x0a000001, 0x0a000002, IPPROTO_TCP);
    let mut wire = ipv4_serialize(&h, 0, false);
    // Flip one source-address bit: the checksum no longer verifies.
    let b = wire[12];
    wire[12] = b ^ 0x01;
    assert!(ipv4_parse(wire.as_slice(), false).is_err());
    // With receive offload the stack trusts the NIC and accepts it.
    assert!(ipv4_parse(wire.as_slice(), true).is_ok());
    // A non-IPv4 version byte is refused either way.
    wire[12] = b;
    wire[0] = 0x55;
    assert!(ipv4_parse(wire.as_slice(), true).is_err());
}

fn sample_header() -> TcpHeader {
    let mut h = TcpHeader::new(12345, 80);
    h.seq_num = 0xdead_beef;
    h.ack_num = 0x0102_0304;
    h.syn = true;
    h.ack = true;
    h.window_size = 0xffff;
    h.push_option(TcpOption::MaximumSegmentSize(1450));
    h.push_option(TcpOption::WindowScale(7));
    h
}

#[test]
fn tcp_roundtrip_with_options() {
    let h = sample_header();
    let payload = vec![9u8, 8, 7, 6];
    let src = 0x0a000001;
    let dst = 0x0a000002;
    let wire = tcp_serialize(&h, src, dst, payload.as_slice(), false);
    let (parsed, body) = tcp_parse(wire.as_slice(), src, dst, false).unwrap();
    assert_eq!(parsed.src_port, h.src_port);
    assert_eq!(parsed.dst_port, h.dst_port);
    assert_eq!(parsed.seq_num, h.seq_num);
    assert_eq!(parsed.ack_num, h.ack_num);
    assert_eq!(parsed.syn, h.syn);
    assert_eq!(parsed.ack, h.ack);
    assert_eq!(parsed.fin, h.fin);
    assert_eq!(parsed.rst, h.rst);
    assert_eq!(parsed.window_size, h.window_size);
    assert_eq!(parsed.options, h.options);
    assert_eq!(body, payload);
}

#[test]
fn tcp_roundtrip_under_offload() {
    // With transmit offload the checksum field is zeroed for the NIC; the
    // structured form still reads back intact under receive offload.
    let h = sample_header();
    let src = 0x0a000001;
    let dst = 0x0a000002;
    let wire = tcp_serialize(&h, src, dst, &[], true);
    assert_eq!(wire[16], 0);
    assert_eq!(wire[17], 0);
    let (parsed, body) = tcp_parse(wire.as_slice(), src, dst, true).unwrap();
    assert_eq!(parsed.seq_num, h.seq_num);
    assert_eq!(parsed.options, h.options);
    assert!(body.is_empty());
}

#[test]
fn tcp_rejects_bad_checksum() {
    let h = sample_header();
    let src = 0x0a000001;
    let dst = 0x0a000002;
    let mut wire = tcp_serialize(&h, src, dst, &[1, 2, 3], false);
    let last = wire.len() - 1;
    wire[last] ^= 0xff;
    assert!(tcp_parse(wire.as_slice(), src, dst, false).is_err());
}
