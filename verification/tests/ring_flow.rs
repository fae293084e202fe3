//! The dispatcher side: the work ring's ordering and backpressure, flow
//! steering affinity, the 5-tuple fast path, and routing with overflow.

use catnip_echo::dispatch::{Dispatcher, RouteDecision, WorkerState, MAX_WORK_QUEUE};
use catnip_echo::endpoint::Endpoint;
use catnip_echo::eth::{EthernetHeader, ETHERTYPE_IPV4};
use catnip_echo::flow::{build_flow_rules, worker_for_port, FLOW_RULE_COUNT};
use catnip_echo::ipv4::{ipv4_serialize, Ipv4Header, IPPROTO_TCP};
use catnip_echo::ring::Ring;
use catnip_echo::segment::tcp_serialize;
use catnip_echo::tcp_header::TcpHeader;

#[test]
fn ring_is_fifo() {
    let mut ring = Ring::new(4);
    assert!(ring.is_empty());
    ring.try_enqueue((10, 1)).unwrap();
    ring.try_enqueue((20, 2)).unwrap();
    ring.try_enqueue((30, 3)).unwrap();
    assert_eq!(ring.try_dequeue(), Some((10, 1)));
    ring.try_enqueue((40, 4)).unwrap();
    assert_eq!(ring.try_dequeue(), Some((20, 2)));
    assert_eq!(ring.try_dequeue(), Some((30, 3)));
    assert_eq!(ring.try_dequeue(), Some((40, 4)));
    assert_eq!(ring.try_dequeue(), None);
}

#[test]
fn ring_reports_full_only_at_capacity() {
    // The rings between dispatcher and worker run at capacity 2 for tight
    // backpressure.
    let mut ring = Ring::new(2);
    assert!(ring.try_enqueue((1, 1)).is_ok());
    assert!(ring.try_enqueue((2, 2)).is_ok());
    assert_eq!(ring.try_enqueue((3, 3)), Err((3, 3)));
    ring.try_dequeue();
    assert!(ring.try_enqueue((3, 3)).is_ok());
}

#[test]
fn ring_wraps_many_times() {
    let mut ring = Ring::new(2);
    for i in 0..100u64 {
        ring.try_enqueue((i, i as u32)).unwrap();
        assert_eq!(ring.try_dequeue(), Some((i, i as u32)));
    }
    assert!(ring.is_empty());
}

#[test]
fn flow_rules_cover_ports() {
    let rules = build_flow_rules(4);
    assert_eq!(rules.len(), FLOW_RULE_COUNT as usize);
    for (i, rule) in rules.iter().enumerate() {
        assert_eq!(rule.src_port as usize, i + 1);
        assert_eq!(rule.queue as usize, i % 4);
    }
}

#[test]
fn flow_affinity_distribution() {
    // With N workers and source ports 1 through N+1, ports 1 and N+1 both
    // land on worker 0: the distribution is [2, 1, ..., 1].
    let n: u16 = 4;
    let mut counts = vec![0u32; n as usize];
    for p in 1..=(n + 1) {
        counts[worker_for_port(p, n) as usize] += 1;
    }
    assert_eq!(counts, vec![2, 1, 1, 1]);
}

fn frame_for(src_port: u16, dst_port: u16) -> Vec<u8> {
    let src_ip = 0x0a000002;
    let dst_ip = 0x0a000001;
    let mut tcp = TcpHeader::new(src_port, dst_port);
    tcp.seq_num = 1;
    let seg = tcp_serialize(&tcp, src_ip, dst_ip, &[], false);
    let ip = ipv4_serialize(&Ipv4Header::new(src_ip, dst_ip, IPPROTO_TCP), seg.len(), false);
    let eth = EthernetHeader::new([2, 0, 0, 0, 0, 1], [2, 0, 0, 0, 0, 2], ETHERTYPE_IPV4);
    let mut frame = eth.serialize();
    frame.extend_from_slice(&ip);
    frame.extend_from_slice(&seg);
    frame
}

#[test]
fn five_tuple_from_fixed_offsets() {
    let frame = frame_for(40000, 8080);
    let (local, remote) = Dispatcher::get_5tuple(frame.as_slice()).unwrap();
    assert_eq!(local, Endpoint::new(0x0a000001, 8080));
    assert_eq!(remote, Endpoint::new(0x0a000002, 40000));
    assert!(Dispatcher::get_5tuple(&frame[..40]).is_none());
}

#[test]
fn routing_prefers_idle_workers_in_order() {
    let mut d = Dispatcher::new(2);
    let mut rings = vec![Ring::new(2), Ring::new(2)];
    let mut flags = vec![WorkerState::AlreadyIdle, WorkerState::AlreadyIdle];
    // The two idle workers are taken oldest-first.
    match d.route_established((100, 0), &mut rings, &mut flags) {
        RouteDecision::ToWorker(w) => assert_eq!(w, 0),
        _ => panic!("an idle worker was available"),
    }
    assert_eq!(flags[0], WorkerState::Busy);
    match d.route_established((101, 1), &mut rings, &mut flags) {
        RouteDecision::ToWorker(w) => assert_eq!(w, 1),
        _ => panic!("an idle worker was available"),
    }
    // No idle worker left: work parks in the overflow queue.
    assert!(matches!(
        d.route_established((102, 2), &mut rings, &mut flags),
        RouteDecision::Queued
    ));
    assert_eq!(rings[0].try_dequeue(), Some((100, 0)));
    assert_eq!(rings[1].try_dequeue(), Some((101, 1)));
}

#[test]
fn overflow_fills_then_drops_with_counter() {
    let mut d = Dispatcher::new(1);
    let mut rings = vec![Ring::new(2)];
    let mut flags = vec![WorkerState::Busy];
    // Use up the single idle slot.
    d.route_established((0, 0), &mut rings, &mut flags);
    // Fill the overflow queue to its capacity with distinct connections.
    for i in 0..MAX_WORK_QUEUE as u64 {
        assert!(matches!(
            d.route_established((i + 1, i as u32 + 1), &mut rings, &mut flags),
            RouteDecision::Queued
        ));
    }
    // Now even the overflow queue is full: the packet is dropped, counted.
    assert_eq!(d.dropped, 0);
    assert!(matches!(
        d.route_established((9999, 9999), &mut rings, &mut flags),
        RouteDecision::Dropped
    ));
    assert_eq!(d.dropped, 1);
}

#[test]
fn packets_of_one_connection_follow_its_worker() {
    // Two packets of one connection go to the worker that holds its
    // control block, in arrival order — never to a second worker while the
    // first still has it.
    let mut d = Dispatcher::new(2);
    let mut rings = vec![Ring::new(2), Ring::new(2)];
    let mut flags = vec![WorkerState::AlreadyIdle, WorkerState::AlreadyIdle];
    assert!(matches!(
        d.route_established((1, 7), &mut rings, &mut flags),
        RouteDecision::ToWorker(0)
    ));
    assert!(matches!(
        d.route_established((2, 7), &mut rings, &mut flags),
        RouteDecision::ToWorker(0)
    ));
    assert_eq!(rings[0].try_dequeue(), Some((1, 7)));
    assert_eq!(rings[0].try_dequeue(), Some((2, 7)));
    assert!(rings[1].is_empty());
    // Once the worker reports idle, the connection is released and new
    // packets may go to whichever worker has been idle longest.
    flags[0] = WorkerState::Idle;
    d.collect_idle_workers(&mut flags);
    assert!(matches!(
        d.route_established((3, 7), &mut rings, &mut flags),
        RouteDecision::ToWorker(1)
    ));
}

#[test]
fn idle_scan_collects_each_worker_once() {
    let mut d = Dispatcher::new(3);
    let mut rings = vec![Ring::new(2), Ring::new(2), Ring::new(2)];
    let mut flags = vec![WorkerState::Busy, WorkerState::Busy, WorkerState::Busy];
    // Drain the initial idle list with three distinct connections.
    for c in 0..3u32 {
        d.route_established((c as u64, c), &mut rings, &mut flags);
    }
    flags[1] = WorkerState::Idle;
    d.collect_idle_workers(&mut flags);
    assert_eq!(flags[1], WorkerState::AlreadyIdle);
    // A second scan finds nothing new.
    d.collect_idle_workers(&mut flags);
    assert_eq!(flags, vec![
        WorkerState::Busy,
        WorkerState::AlreadyIdle,
        WorkerState::Busy,
    ]);
}

#[test]
fn drain_moves_parked_work_to_idle_workers() {
    let mut d = Dispatcher::new(1);
    let mut rings = vec![Ring::new(2)];
    let mut flags = vec![WorkerState::Busy];
    // The single worker takes one connection; a second connection parks.
    d.route_established((1, 5), &mut rings, &mut flags);
    assert!(matches!(
        d.route_established((2, 6), &mut rings, &mut flags),
        RouteDecision::Queued
    ));
    // The worker reports idle; the parked item is handed over.
    flags[0] = WorkerState::Idle;
    d.collect_idle_workers(&mut flags);
    d.drain_queue_work(&mut rings, &mut flags);
    assert_eq!(rings[0].try_dequeue(), Some((1, 5)));
    assert_eq!(rings[0].try_dequeue(), Some((2, 6)));
}
