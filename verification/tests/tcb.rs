//! The control block end to end: in-order delivery and reassembly, the
//! acknowledgment rules, echo, retransmission, and close.

use catnip_echo::config::TcpConfig;
use catnip_echo::ctrlblk::{AckPlan, ControlBlock, RtoAction, State};
use catnip_echo::endpoint::Endpoint;
use catnip_echo::receiver::{Disposition, Receiver};
use catnip_echo::sender::Sender;
use catnip_echo::tcp_header::TcpHeader;
use catnip_echo::worker::{Worker, WorkerArg};

const LOCAL_MAC: [u8; 6] = [0x02, 0, 0, 0, 0, 1];
const REMOTE_MAC: [u8; 6] = [0x02, 0, 0, 0, 0, 2];

fn established(local_isn: u32, remote_isn: u32) -> ControlBlock {
    ControlBlock::new(
        1,
        Endpoint::new(0x0a000001, 8080),
        Endpoint::new(0x0a000002, 40000),
        LOCAL_MAC,
        REMOTE_MAC,
        TcpConfig::new(1450, false, false),
        remote_isn.wrapping_add(1),
        0xffff,
        local_isn.wrapping_add(1),
        0xffff,
        0,
        1450,
    )
}

fn data_header(cb: &ControlBlock, seq: u32) -> TcpHeader {
    let mut h = TcpHeader::new(cb.remote.port, cb.local.port);
    h.seq_num = seq;
    h.ack = true;
    h.ack_num = cb.sender.snd_nxt;
    h.window_size = 0xffff;
    h
}

#[test]
fn receiver_delivers_in_order() {
    let mut r = Receiver::new(1000, 65535);
    assert_eq!(r.receive(1000, vec![1, 2, 3]), Disposition::Delivered);
    assert_eq!(r.receive(1003, vec![4, 5]), Disposition::Delivered);
    assert_eq!(r.rcv_nxt, 1005);
    assert_eq!(r.pop(None).unwrap(), vec![1, 2, 3, 4, 5]);
    assert!(r.pop(None).is_none());
}

#[test]
fn receiver_reassembles_out_of_order() {
    let mut r = Receiver::new(0, 65535);
    // The middle and tail arrive first and wait above RCV.NXT.
    assert_eq!(r.receive(3, vec![13, 14, 15]), Disposition::Stored);
    assert_eq!(r.receive(6, vec![16, 17]), Disposition::Stored);
    assert_eq!(r.rcv_nxt, 0);
    // The parked segments sit strictly above RCV.NXT, sorted and disjoint.
    assert_eq!(r.out_of_order.len(), 2);
    for seg in &r.out_of_order {
        assert!(seg.seq.wrapping_sub(r.rcv_nxt) >= 1);
    }
    for pair in r.out_of_order.windows(2) {
        assert!(pair[0].seq.wrapping_add(pair[0].data.len() as u32) <= pair[1].seq);
    }
    // The head arrives: everything contiguous drains at once.
    assert_eq!(r.receive(0, vec![10, 11, 12]), Disposition::Delivered);
    assert_eq!(r.rcv_nxt, 8);
    assert_eq!(r.pop(None).unwrap(), vec![10, 11, 12, 13, 14, 15, 16, 17]);
}

#[test]
fn receiver_trims_overlap_and_drops_duplicates() {
    let mut r = Receiver::new(0, 65535);
    assert_eq!(r.receive(2, vec![102, 103]), Disposition::Stored);
    // Fully covered by the parked segment: nothing new to keep.
    assert_eq!(r.receive(2, vec![102, 103]), Disposition::Dropped);
    // An in-order payload that overlaps the parked bytes is trimmed there.
    assert_eq!(r.receive(0, vec![100, 101, 200, 201]), Disposition::Delivered);
    assert_eq!(r.rcv_nxt, 4);
    assert_eq!(r.pop(None).unwrap(), vec![100, 101, 102, 103]);
    // A stale retransmission from the past is dropped.
    assert_eq!(r.receive(0, vec![100, 101]), Disposition::Dropped);
}

#[test]
fn receiver_respects_window() {
    let mut r = Receiver::new(0, 8);
    assert_eq!(r.receive(6, vec![1, 2, 3]), Disposition::Dropped);
    assert_eq!(r.receive(4, vec![1, 2, 3]), Disposition::Stored);
}

#[test]
fn receiver_pop_takes_prefix() {
    let mut r = Receiver::new(0, 65535);
    r.receive(0, vec![1, 2, 3, 4, 5]);
    assert_eq!(r.pop(Some(2)).unwrap(), vec![1, 2]);
    assert_eq!(r.pop(Some(10)).unwrap(), vec![3, 4, 5]);
}

#[test]
fn sender_ack_advances_exactly() {
    let mut s = Sender::new(5000, 0xffff);
    s.enqueue_bytes(vec![1, 2, 3, 4, 5, 6]);
    let (seq, data) = s.emit_segment(4, 0).unwrap();
    assert_eq!(seq, 5000);
    assert_eq!(data, vec![1, 2, 3, 4]);
    assert_eq!(s.snd_nxt, 5004);
    // An acknowledgment outside (SND.UNA, SND.NXT] changes nothing.
    assert!(s.process_ack(5000).is_none());
    assert_eq!(s.snd_una, 5000);
    assert!(s.process_ack(5010).is_none());
    assert_eq!(s.snd_una, 5000);
    // One inside advances SND.UNA to exactly the acknowledged number.
    s.process_ack(5002);
    assert_eq!(s.snd_una, 5002);
    s.process_ack(5004);
    assert_eq!(s.snd_una, 5004);
    assert_eq!(s.unacked.len(), 0);
}

#[test]
fn sender_window_limits_emission() {
    let mut s = Sender::new(0, 3);
    s.enqueue_bytes(vec![1, 2, 3, 4, 5]);
    let (_, data) = s.emit_segment(1450, 0).unwrap();
    assert_eq!(data.len(), 3);
    // The window is full: nothing more may leave until an acknowledgment.
    assert!(s.emit_segment(1450, 0).is_none());
    s.process_ack(3);
    let (seq, data) = s.emit_segment(1450, 0).unwrap();
    assert_eq!(seq, 3);
    assert_eq!(data, vec![4, 5]);
}

#[test]
fn unacked_length_matches_window_gap() {
    let mut s = Sender::new(100, 0xffff);
    s.enqueue_bytes(vec![0; 10]);
    s.emit_segment(4, 0);
    s.emit_segment(4, 0);
    let inflight: usize = s.unacked.iter().map(|seg| seg.data.len()).sum();
    assert_eq!(inflight as u32, s.snd_nxt.wrapping_sub(s.snd_una));
    s.process_ack(105);
    let inflight: usize = s.unacked.iter().map(|seg| seg.data.len()).sum();
    assert_eq!(inflight as u32, s.snd_nxt.wrapping_sub(s.snd_una));
}

#[test]
fn single_echo() {
    // A client sends 64 bytes with zero iterations and zero randomness at
    // offsets 32 and 40; the server echoes the identical 64 bytes, and the
    // push produces exactly one segment to acknowledge.
    let mut cb = established(7000, 9000);
    let payload = vec![0u8; 64];
    let hdr = data_header(&cb, cb.receiver.rcv_nxt);
    let out = cb.receive(&hdr, payload.clone(), 10);
    assert!(!out.reset);
    assert_eq!(out.payload, Some(Disposition::Delivered));
    assert_eq!(out.ack, AckPlan::Delayed);

    let got = cb.poll_recv(None).unwrap().unwrap();
    assert_eq!(got, payload);

    let worker = Worker::new(&WorkerArg { worker_id: 0, spec: b"sqrt".to_vec() }).unwrap();
    let digest = worker.process_payload(&mut cb, got).unwrap();
    assert_eq!(digest, 0);

    let (seq, echoed) = cb.emit_segment(20).unwrap();
    assert_eq!(seq, 7001);
    assert_eq!(echoed, payload);
    // Exactly one segment: nothing else is pending.
    assert!(cb.emit_segment(20).is_none());
}

#[test]
fn echo_with_work() {
    // 100 bytes carrying iterations 10 and randomness 42: the worker spends
    // its deterministic compute and then echoes the payload unchanged.
    let mut payload = vec![0u8; 100];
    payload[32] = 10; // iterations, little-endian
    payload[40] = 42; // randomness, little-endian
    let mut cb = established(1, 2);
    let hdr = data_header(&cb, cb.receiver.rcv_nxt);
    cb.receive(&hdr, payload.clone(), 0);
    let got = cb.poll_recv(None).unwrap().unwrap();

    let worker = Worker::new(&WorkerArg {
        worker_id: 0,
        spec: b"multiplication".to_vec(),
    }).unwrap();
    let digest = worker.process_payload(&mut cb, got).unwrap();
    // The digest is a function of (iterations, randomness) alone: the sum
    // of 42 * i for i below 10.
    assert_eq!(digest, (0..10u64).map(|i| 42 * i).sum::<u64>());

    let (_, echoed) = cb.emit_segment(0).unwrap();
    assert_eq!(echoed, payload);
}

#[test]
fn retransmission_after_timeout() {
    // The first data segment is lost; after the timer fires the server
    // re-sends it, and the eventual acknowledgment advances SND.UNA.
    let mut cb = established(100, 200);
    cb.send(vec![1, 2, 3, 4]).unwrap();
    let (seq, data) = cb.emit_segment(1_000).unwrap();
    assert_eq!(seq, 101);
    let deadline = cb.rto_deadline_ns.unwrap();

    // Before the deadline, nothing happens.
    assert!(matches!(cb.on_rto_timer(deadline - 1), RtoAction::Idle));

    match cb.on_rto_timer(deadline) {
        RtoAction::Retransmit(rseq, rdata) => {
            assert_eq!(rseq, seq);
            assert_eq!(rdata, data);
        },
        _ => panic!("expected a retransmission"),
    }
    assert_eq!(cb.retries, 1);

    // The client finally acknowledges: SND.UNA advances past the segment.
    let mut ack = TcpHeader::new(cb.remote.port, cb.local.port);
    ack.ack = true;
    ack.ack_num = 105;
    ack.window_size = 0xffff;
    ack.seq_num = cb.receiver.rcv_nxt;
    cb.receive(&ack, Vec::new(), 2_000);
    assert_eq!(cb.sender.snd_una, 105);
    assert!(cb.rto_deadline_ns.is_none());
}

#[test]
fn retransmission_gives_up_after_budget() {
    let mut cb = established(0, 0);
    cb.send(vec![9]).unwrap();
    cb.emit_segment(0).unwrap();
    let mut now = cb.rto_deadline_ns.unwrap();
    loop {
        match cb.on_rto_timer(now) {
            RtoAction::Retransmit(_, _) => {
                now = cb.rto_deadline_ns.unwrap();
            },
            RtoAction::Abort => break,
            RtoAction::Idle => panic!("timer should be due"),
        }
    }
    assert_eq!(cb.state, State::Closed);
    assert_eq!(cb.timeout_error().errno, catnip_echo::fail::ETIMEDOUT);
}

#[test]
fn close_twice_is_idempotent() {
    let mut cb = established(0, 0);
    let first = cb.close();
    assert!(first.is_ok());
    assert_eq!(cb.state, State::FinWait1);
    let state_after_first = cb.state;
    // The second close returns immediately with the same result and
    // changes nothing.
    let second = cb.close();
    assert!(second.is_ok());
    assert_eq!(cb.state, state_after_first);
    assert!(!cb.poll_close());
}

#[test]
fn close_diagram_half_close() {
    let mut cb = established(0, 0);
    // The peer closes first: FIN moves us to CloseWait.
    let mut fin = data_header(&cb, cb.receiver.rcv_nxt);
    fin.fin = true;
    let out = cb.receive(&fin, Vec::new(), 0);
    assert_eq!(out.ack, AckPlan::Immediate);
    assert_eq!(cb.state, State::CloseWait);
    // Our close then goes to LastAck; the peer's acknowledgment of our FIN
    // finishes it.
    cb.close().unwrap();
    assert_eq!(cb.state, State::LastAck);
    let mut ack = data_header(&cb, cb.receiver.rcv_nxt);
    ack.ack = true;
    ack.ack_num = cb.sender.snd_nxt.wrapping_add(1);
    cb.receive(&ack, Vec::new(), 0);
    assert_eq!(cb.state, State::Closed);
    assert!(cb.poll_close());
}

#[test]
fn reset_closes_at_once() {
    let mut cb = established(0, 0);
    let mut rst = data_header(&cb, cb.receiver.rcv_nxt);
    rst.rst = true;
    let out = cb.receive(&rst, Vec::new(), 0);
    assert!(out.reset);
    assert_eq!(cb.state, State::Closed);
    // A pending read now reports the reset.
    match cb.poll_recv(None) {
        Some(Err(e)) => assert_eq!(e.errno, catnip_echo::fail::ECONNRESET),
        _ => panic!("expected a connection-reset error"),
    }
}

#[test]
fn out_of_order_receipt_acks_immediately() {
    let mut cb = established(0, 0);
    let mut hdr = data_header(&cb, cb.receiver.rcv_nxt.wrapping_add(10));
    hdr.ack = false;
    let out = cb.receive(&hdr, vec![1, 2], 0);
    assert_eq!(out.payload, Some(Disposition::Stored));
    assert_eq!(out.ack, AckPlan::Immediate);
}

#[test]
fn send_after_close_is_refused() {
    let mut cb = established(0, 0);
    cb.close().unwrap();
    match cb.send(vec![1]) {
        Err(e) => assert_eq!(e.errno, catnip_echo::fail::ENOTCONN),
        Ok(()) => panic!("a closing connection must refuse new sends"),
    }
}

#[test]
fn sequence_numbers_wrap() {
    // Delivery and acknowledgment work across the top of the sequence
    // space.
    let mut r = Receiver::new(u32::MAX - 1, 65535);
    assert_eq!(r.receive(u32::MAX - 1, vec![1, 2, 3, 4]), Disposition::Delivered);
    assert_eq!(r.rcv_nxt, 2);
    assert_eq!(r.receive(2, vec![5]), Disposition::Delivered);
    assert_eq!(r.pop(None).unwrap(), vec![1, 2, 3, 4, 5]);

    let mut s = Sender::new(u32::MAX - 1, 0xffff);
    s.enqueue_bytes(vec![9, 9, 9, 9]);
    let (seq, _) = s.emit_segment(1450, 0).unwrap();
    assert_eq!(seq, u32::MAX - 1);
    assert_eq!(s.snd_nxt, 2);
    s.process_ack(2);
    assert_eq!(s.snd_una, 2);
    assert_eq!(s.unacked.len(), 0);
}

#[test]
fn backoff_compounds_per_retry() {
    // Each retransmission of the same segment waits twice as long as the
    // one before, up to the ceiling.
    let mut cb = established(0, 0);
    cb.send(vec![1, 2, 3]).unwrap();
    cb.emit_segment(0).unwrap();
    let rto = cb.rto();
    let d1 = cb.rto_deadline_ns.unwrap();

    assert!(matches!(cb.on_rto_timer(d1), RtoAction::Retransmit(_, _)));
    let d2 = cb.rto_deadline_ns.unwrap();
    assert_eq!(d2 - d1, 2 * rto);

    assert!(matches!(cb.on_rto_timer(d2), RtoAction::Retransmit(_, _)));
    let d3 = cb.rto_deadline_ns.unwrap();
    assert_eq!(d3 - d2, 4 * rto);

    assert!(matches!(cb.on_rto_timer(d3), RtoAction::Retransmit(_, _)));
    let d4 = cb.rto_deadline_ns.unwrap();
    assert_eq!(d4 - d3, 8 * rto);
}
