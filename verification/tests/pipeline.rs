//! The whole receive pipeline: a raw frame through Ethernet, IPv4 and TCP
//! into a connection, and the dispatcher's listening path from SYN to an
//! established directory entry.

use catnip_echo::config::TcpConfig;
use catnip_echo::ctrlblk::ControlBlock;
use catnip_echo::dispatch::{Dispatcher, ListenOutcome};
use catnip_echo::endpoint::Endpoint;
use catnip_echo::eth::{EthernetHeader, ETHERTYPE_IPV4};
use catnip_echo::ipv4::{ipv4_serialize, Ipv4Header, IPPROTO_TCP};
use catnip_echo::peer::{InetQueue, Socket, SocketId};
use catnip_echo::segment::tcp_serialize;
use catnip_echo::stack::InetStack;
use catnip_echo::tcp_header::TcpHeader;

const LOCAL_MAC: [u8; 6] = [0x02, 0, 0, 0, 0, 1];
const REMOTE_MAC: [u8; 6] = [0x02, 0, 0, 0, 0, 2];
const LOCAL_IP: u32 = 0x0a000001;
const REMOTE_IP: u32 = 0x0a000002;

fn frame(tcp: &TcpHeader, payload: &[u8], dst_mac: [u8; 6]) -> Vec<u8> {
    let seg = tcp_serialize(tcp, REMOTE_IP, LOCAL_IP, payload, false);
    let ip = ipv4_serialize(&Ipv4Header::new(REMOTE_IP, LOCAL_IP, IPPROTO_TCP),
        seg.len(), false);
    let eth = EthernetHeader::new(dst_mac, REMOTE_MAC, ETHERTYPE_IPV4);
    let mut out = eth.serialize();
    out.extend_from_slice(&ip);
    out.extend_from_slice(&seg);
    out
}

#[test]
fn frame_reaches_the_connection() {
    let stack = InetStack::new(LOCAL_MAC, LOCAL_IP, TcpConfig::new(1450, false, false))
        .unwrap();
    let mut cb = ControlBlock::new(
        1,
        Endpoint::new(LOCAL_IP, 8080),
        Endpoint::new(REMOTE_IP, 40000),
        LOCAL_MAC,
        REMOTE_MAC,
        TcpConfig::new(1450, false, false),
        500,
        0xffff,
        900,
        0xffff,
        0,
        1450,
    );
    let mut tcp = TcpHeader::new(40000, 8080);
    tcp.seq_num = 500;
    tcp.ack = true;
    tcp.ack_num = 900;
    tcp.window_size = 0xffff;
    let payload = vec![5u8; 16];
    let wire = frame(&tcp, &payload, LOCAL_MAC);

    let out = stack.do_receive(&mut cb, wire.as_slice(), 0).unwrap();
    assert!(!out.reset);
    assert_eq!(cb.receiver.rcv_nxt, 516);
    assert_eq!(cb.poll_recv(None).unwrap().unwrap(), payload);

    // A frame for another station is dropped before any parsing of its
    // network layers.
    let foreign = frame(&tcp, &payload, [0x02, 9, 9, 9, 9, 9]);
    assert!(stack.do_receive(&mut cb, foreign.as_slice(), 0).is_err());
}

#[test]
fn listening_path_builds_a_connection() {
    let local = Endpoint::new(LOCAL_IP, 8080);
    let remote = Endpoint::new(REMOTE_IP, 40000);
    let mut d = Dispatcher::new(2);
    let listen_qd = d.prepare(local, 128, TcpConfig::new(1450, false, false), 7);

    // The SYN asks for a SYN+ACK.
    let mut syn = TcpHeader::new(40000, 8080);
    syn.syn = true;
    syn.seq_num = 1000;
    syn.window_size = 2048;
    let out = d.handle_listening(listen_qd, LOCAL_MAC, REMOTE_MAC, local, remote, &syn)
        .unwrap();
    let local_isn = match out {
        ListenOutcome::Reply(reply) => {
            assert!(reply.syn && reply.ack);
            assert_eq!(reply.ack_num, 1001);
            reply.seq_num
        },
        _ => panic!("a SYN must ask for a SYN+ACK"),
    };

    // The final ACK completes the handshake: a fresh descriptor appears in
    // the table and the flow directory routes the 5-tuple to it.
    let mut ack = TcpHeader::new(40000, 8080);
    ack.ack = true;
    ack.ack_num = local_isn.wrapping_add(1);
    ack.seq_num = 1001;
    let out = d.handle_listening(listen_qd, LOCAL_MAC, REMOTE_MAC, local, remote, &ack)
        .unwrap();
    let new_qd = match out {
        ListenOutcome::Accepted(qd) => qd,
        _ => panic!("the final ACK must complete the handshake"),
    };
    assert_ne!(new_qd, listen_qd);
    assert_eq!(d.get_qd(local, remote), Some(new_qd));
    // An unknown remote still routes to the listener.
    assert_eq!(d.get_qd(local, Endpoint::new(REMOTE_IP, 40001)), Some(listen_qd));
    match &d.qtable[new_qd as usize] {
        InetQueue::Tcp(q) => match &q.socket {
            Socket::Established(e) => {
                assert_eq!(e.endpoints(), (local, remote));
                assert_eq!(e.cb.receiver.rcv_nxt, 1001);
            },
            _ => panic!("the new descriptor must hold an established socket"),
        },
    }
    // The directory keeps both identities apart.
    assert!(d.addresses.iter().any(|(id, _)| *id == SocketId::Passive(local)));
    assert!(d.addresses.iter().any(|(id, _)| *id == SocketId::Active(local, remote)));
}

#[test]
fn echo_makes_it_back_onto_the_wire() {
    // The transmit side end to end: the echoed bytes leave through the TCP,
    // IPv4 and Ethernet serializers and a padded frame, and the peer's view
    // of that frame parses back to the same payload at the right sequence
    // number.
    let mut cb = ControlBlock::new(
        1,
        Endpoint::new(LOCAL_IP, 8080),
        Endpoint::new(REMOTE_IP, 40000),
        LOCAL_MAC,
        REMOTE_MAC,
        TcpConfig::new(1450, false, false),
        500,
        0xffff,
        900,
        0xffff,
        0,
        1450,
    );
    let payload = vec![7u8; 64];
    cb.send(payload.clone()).unwrap();
    let (seq, data) = cb.emit_segment(0).unwrap();
    assert_eq!(seq, 900);

    let tcp_hdr = cb.make_data_header(seq);
    let seg = tcp_serialize(&tcp_hdr, LOCAL_IP, REMOTE_IP, &data, false);
    let ip = ipv4_serialize(&Ipv4Header::new(LOCAL_IP, REMOTE_IP, IPPROTO_TCP),
        seg.len(), false);
    let eth = EthernetHeader::new(REMOTE_MAC, LOCAL_MAC, ETHERTYPE_IPV4);
    let mut headers = eth.serialize();
    headers.extend_from_slice(&ip);
    let wire = catnip_echo::frame::build_frame(&headers, &seg);
    assert!(wire.len() >= 60);

    // The peer parses the frame back.
    let (_, ip_payload) = EthernetHeader::parse(&wire).unwrap();
    let (ip_parsed, tcp_bytes) = catnip_echo::ipv4::ipv4_parse(&ip_payload, false).unwrap();
    assert_eq!(ip_parsed.src_addr, LOCAL_IP);
    let (tcp_parsed, body) =
        catnip_echo::segment::tcp_parse(&tcp_bytes, LOCAL_IP, REMOTE_IP, false).unwrap();
    assert_eq!(tcp_parsed.seq_num, 900);
    assert_eq!(tcp_parsed.ack_num, 500);
    assert!(tcp_parsed.ack && tcp_parsed.psh);
    assert_eq!(body, payload);
}

#[test]
fn listener_keeps_its_nonce_and_config() {
    let local = Endpoint::new(LOCAL_IP, 8080);
    let mut d = Dispatcher::new(1);
    let config = TcpConfig::new(1450, false, false);
    let listen_qd = d.prepare(local, 128, config, 7);
    match &d.qtable[listen_qd as usize] {
        InetQueue::Tcp(q) => match &q.socket {
            Socket::Listening(s) => {
                assert_eq!(s.local, local);
                assert_eq!(s.max_backlog, 128);
                assert_eq!(s.nonce, 7);
                assert_eq!(s.isn_count, 0);
                assert_eq!(s.tcp_config.mss, 1450);
                assert!(!s.tcp_config.rx_checksum_offload);
            },
            _ => panic!("the listening descriptor must hold the passive socket"),
        },
    }
}

#[test]
fn teardown_drops_the_directory_entry() {
    // Once a connection closes, it leaves the flow directory and its queue
    // slot is retired; packets for its 5-tuple route to the listener again.
    let local = Endpoint::new(LOCAL_IP, 8080);
    let remote = Endpoint::new(REMOTE_IP, 40000);
    let mut d = Dispatcher::new(1);
    let listen_qd = d.prepare(local, 128, TcpConfig::new(1450, false, false), 7);

    let mut syn = TcpHeader::new(40000, 8080);
    syn.syn = true;
    syn.seq_num = 1000;
    let local_isn = match d
        .handle_listening(listen_qd, LOCAL_MAC, REMOTE_MAC, local, remote, &syn)
        .unwrap()
    {
        ListenOutcome::Reply(reply) => reply.seq_num,
        _ => panic!("expected a SYN+ACK"),
    };
    let mut ack = TcpHeader::new(40000, 8080);
    ack.ack = true;
    ack.ack_num = local_isn.wrapping_add(1);
    ack.seq_num = 1001;
    let new_qd = match d
        .handle_listening(listen_qd, LOCAL_MAC, REMOTE_MAC, local, remote, &ack)
        .unwrap()
    {
        ListenOutcome::Accepted(qd) => qd,
        _ => panic!("expected completion"),
    };
    assert_eq!(d.get_qd(local, remote), Some(new_qd));

    assert!(d.remove_connection(local, remote));
    assert_eq!(d.get_qd(local, remote), Some(listen_qd));
    match &d.qtable[new_qd as usize] {
        InetQueue::Tcp(q) => assert!(matches!(q.socket, Socket::Inactive(None))),
    }
    // A second teardown finds nothing.
    assert!(!d.remove_connection(local, remote));
}
