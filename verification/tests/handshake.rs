//! The passive-open handshake: SYN in, SYN+ACK out, final ACK to a working
//! control block; rejection of bare ACKs and of SYNs beyond the backlog.

use catnip_echo::config::TcpConfig;
use catnip_echo::ctrlblk::State;
use catnip_echo::endpoint::Endpoint;
use catnip_echo::fail::{EBADMSG, ECONNREFUSED};
use catnip_echo::passive_open::{PassiveOutput, PassiveSocket};
use catnip_echo::tcp_header::{TcpHeader, TcpOption};

const LOCAL_MAC: [u8; 6] = [0x02, 0, 0, 0, 0, 1];
const REMOTE_MAC: [u8; 6] = [0x02, 0, 0, 0, 0, 2];

fn listener(backlog: usize) -> PassiveSocket {
    PassiveSocket::new(
        Endpoint::new(0x0a000001, 8080),
        backlog,
        TcpConfig::new(1450, false, false),
        7,
    )
}

fn syn_from(port: u16, isn: u32) -> (Endpoint, TcpHeader) {
    let remote = Endpoint::new(0x0a000002, port);
    let mut h = TcpHeader::new(port, 8080);
    h.syn = true;
    h.seq_num = isn;
    h.window_size = 4096;
    h.push_option(TcpOption::MaximumSegmentSize(500));
    h.push_option(TcpOption::WindowScale(2));
    (remote, h)
}

#[test]
fn syn_gets_syn_ack() {
    let mut sock = listener(16);
    let (remote, syn) = syn_from(40000, 1234);
    let out = sock.receive(1, LOCAL_MAC, REMOTE_MAC, remote, &syn).unwrap();
    match out {
        PassiveOutput::SynAck(reply) => {
            assert_eq!(reply.src_port, 8080);
            assert_eq!(reply.dst_port, 40000);
            assert!(reply.syn && reply.ack && !reply.rst);
            assert_eq!(reply.ack_num, 1235);
            assert_eq!(reply.window_size, 0xffff);
            assert!(reply.options.contains(&TcpOption::MaximumSegmentSize(1450)));
            assert!(reply.options.contains(&TcpOption::WindowScale(0)));
        },
        _ => panic!("a clean SYN must produce a SYN+ACK"),
    }
    assert_eq!(sock.inflight.len(), 1);
}

#[test]
fn handshake_completes_with_negotiated_values() {
    let mut sock = listener(16);
    let (remote, syn) = syn_from(40000, 1234);
    let local_isn = match sock.receive(1, LOCAL_MAC, REMOTE_MAC, remote, &syn).unwrap() {
        PassiveOutput::SynAck(reply) => reply.seq_num,
        _ => panic!("expected a SYN+ACK"),
    };

    let mut ack = TcpHeader::new(40000, 8080);
    ack.ack = true;
    ack.ack_num = local_isn.wrapping_add(1);
    ack.seq_num = 1235;
    let out = sock.receive(2, LOCAL_MAC, REMOTE_MAC, remote, &ack).unwrap();
    match out {
        PassiveOutput::Completed(cb) => {
            assert_eq!(cb.state, State::Established);
            assert_eq!(cb.qd, 2);
            assert_eq!(cb.remote, remote);
            assert_eq!(cb.receiver.rcv_nxt, 1235);
            assert_eq!(cb.sender.snd_una, local_isn.wrapping_add(1));
            assert_eq!(cb.sender.snd_nxt, local_isn.wrapping_add(1));
            // The advertised scale of 2 applies to the peer's window; the
            // advertised segment size is capped at the fallback.
            assert_eq!(cb.sender.snd_wnd, 4096 << 2);
            assert_eq!(cb.mss, 500);
            assert_eq!(cb.snd_scale, 2);
        },
        _ => panic!("the final ACK must complete the handshake"),
    }
    assert_eq!(sock.inflight.len(), 0);
}

#[test]
fn handshake_rejection() {
    // A bare ACK with no prior SYN: a protocol error, no reply, no
    // connection state created.
    let mut sock = listener(16);
    let remote = Endpoint::new(0x0a000002, 40000);
    let mut ack = TcpHeader::new(40000, 8080);
    ack.ack = true;
    ack.ack_num = 99;
    let out = sock.receive(1, LOCAL_MAC, REMOTE_MAC, remote, &ack);
    match out {
        Err(e) => assert_eq!(e.errno, EBADMSG),
        Ok(_) => panic!("a bare ACK must be refused"),
    }
    assert_eq!(sock.inflight.len(), 0);
    assert_eq!(sock.ready.len(), 0);
}

#[test]
fn wrong_final_ack_is_refused() {
    let mut sock = listener(16);
    let (remote, syn) = syn_from(40000, 1234);
    sock.receive(1, LOCAL_MAC, REMOTE_MAC, remote, &syn).unwrap();
    let mut ack = TcpHeader::new(40000, 8080);
    ack.ack = true;
    ack.ack_num = 1; // not our ISN + 1
    let out = sock.receive(2, LOCAL_MAC, REMOTE_MAC, remote, &ack);
    match out {
        Err(e) => assert_eq!(e.errno, EBADMSG),
        Ok(_) => panic!("a wrong final ACK must be refused"),
    }
    assert_eq!(sock.inflight.len(), 1);
}

#[test]
fn backlog_saturation() {
    // With a backlog of 2, the first two SYNs complete their first step;
    // the third is refused and no SYN+ACK is emitted for it.
    let mut sock = listener(2);
    for port in 1..=2u16 {
        let (remote, syn) = syn_from(port, 100 * port as u32);
        let out = sock.receive(1, LOCAL_MAC, REMOTE_MAC, remote, &syn).unwrap();
        assert!(matches!(out, PassiveOutput::SynAck(_)));
    }
    let (remote, syn) = syn_from(3, 300);
    let out = sock.receive(1, LOCAL_MAC, REMOTE_MAC, remote, &syn);
    match out {
        Err(e) => assert_eq!(e.errno, ECONNREFUSED),
        Ok(_) => panic!("a SYN beyond the backlog must be refused"),
    }
    assert_eq!(sock.inflight.len(), 2);
}

#[test]
fn distinct_remotes_get_distinct_isns() {
    let mut sock = listener(16);
    let (r1, s1) = syn_from(40000, 10);
    let (r2, s2) = syn_from(40001, 20);
    let isn1 = match sock.receive(1, LOCAL_MAC, REMOTE_MAC, r1, &s1).unwrap() {
        PassiveOutput::SynAck(h) => h.seq_num,
        _ => panic!("expected a SYN+ACK"),
    };
    let isn2 = match sock.receive(1, LOCAL_MAC, REMOTE_MAC, r2, &s2).unwrap() {
        PassiveOutput::SynAck(h) => h.seq_num,
        _ => panic!("expected a SYN+ACK"),
    };
    assert_ne!(isn1, isn2);
}
