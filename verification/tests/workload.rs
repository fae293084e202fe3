//! The synthetic workload, the spec-string grammar, the worker plumbing,
//! the scheduler table, the handshake flag, and the small edge helpers.

use catnip_echo::catnap::{close_step, CloseAction};
use catnip_echo::fail::{EAGAIN, ENOTSUP};
use catnip_echo::mbuf::MbufPool;
use catnip_echo::fakework::FakeWorker;
use catnip_echo::fail::EINTR;
use catnip_echo::frame::build_frame;
use catnip_echo::sched::{Scheduler, TaskKind};
use catnip_echo::stack::{InetStack, TIMER_RESOLUTION};
use catnip_echo::config::TcpConfig;
use catnip_echo::taslock::TASLock;
use catnip_echo::worker::parse_work_params;

#[test]
fn fakework_grammar() {
    assert!(FakeWorker::create(b"sqrt").is_ok());
    assert!(FakeWorker::create(b"multiplication").is_ok());
    assert!(FakeWorker::create(b"stridedmem:1024:7").is_ok());
    assert!(FakeWorker::create(b"randmem:1024").is_ok());
    assert!(FakeWorker::create(b"memstream:1024").is_ok());
    assert!(FakeWorker::create(b"pointerchase:1024:7").is_ok());
    // Outside the grammar, or missing parameters: refused.
    assert!(FakeWorker::create(b"noise").is_err());
    assert!(FakeWorker::create(b"stridedmem").is_err());
    assert!(FakeWorker::create(b"stridedmem:1024").is_err());
    assert!(FakeWorker::create(b"randmem:0").is_err());
    assert!(FakeWorker::create(b"randmem:12a").is_err());
    // A stride beyond the buffer would walk out of it.
    assert!(FakeWorker::create(b"stridedmem:8:9").is_err());
}

#[test]
fn work_is_deterministic_per_spec() {
    for spec in [
        &b"multiplication"[..],
        &b"stridedmem:256:3"[..],
        &b"randmem:256"[..],
        &b"memstream:256"[..],
        &b"pointerchase:256:5"[..],
    ] {
        let w1 = FakeWorker::create(spec).unwrap();
        let w2 = FakeWorker::create(spec).unwrap();
        assert_eq!(w1.work(100, 42), w2.work(100, 42));
        assert_eq!(w1.work(100, 42), w1.work(100, 42));
    }
}

#[test]
fn multiplication_digest_exact() {
    let w = FakeWorker::create(b"multiplication").unwrap();
    // The digest sums rnd * i for i below the iteration count.
    assert_eq!(w.work(3, 5), 0 + 5 + 10);
    assert_eq!(w.work(0, 5), 0);
}

#[test]
fn payload_parameters_at_fixed_offsets() {
    let mut payload = vec![0u8; 64];
    payload[32] = 7;
    payload[33] = 1; // little-endian: 7 + 256
    payload[40] = 42;
    let (iters, rnd) = parse_work_params(&payload).unwrap();
    assert_eq!(iters, 263);
    assert_eq!(rnd, 42);
    // Too short to carry parameters.
    assert!(parse_work_params(&payload[..47]).is_none());
}

#[test]
fn scheduler_handles_are_stable() {
    let mut s = Scheduler::new();
    let h1 = s.insert(TaskKind::Pop(3)).unwrap();
    let h2 = s.insert(TaskKind::Push(4)).unwrap();
    assert_ne!(h1.id, h2.id);
    assert_eq!(s.from_task_id(h1.id), Some(TaskKind::Pop(3)));
    assert_eq!(s.from_task_id(h2.id), Some(TaskKind::Push(4)));
    assert_eq!(s.remove(h1), Some(TaskKind::Pop(3)));
    assert_eq!(s.from_task_id(h1.id), None);
    assert_eq!(s.remove(h1), None);
    assert_eq!(s.len(), 1);
}

#[test]
fn taslock_handshake() {
    let lock = TASLock::new();
    assert!(!lock.test());
    lock.set();
    assert!(lock.check());
    lock.unlock();
    assert!(!lock.test());
    lock.lock();
    assert!(lock.test());
    lock.unlock();
}

#[test]
fn close_retry_discipline() {
    assert_eq!(close_step(0, 0), CloseAction::Done);
    assert_eq!(close_step(-1, EINTR), CloseAction::Retry);
    assert_eq!(close_step(-1, 9), CloseAction::Failed(9));
}

#[test]
fn frames_are_padded_to_minimum() {
    let header = vec![1u8; 14];
    let body = vec![2u8; 10];
    let frame = build_frame(&header, &body);
    assert_eq!(frame.len(), 60);
    assert_eq!(&frame[..14], &header[..]);
    assert_eq!(&frame[14..24], &body[..]);
    assert!(frame[24..].iter().all(|b| *b == 0));
    // A large frame is not padded.
    let big = build_frame(&header, &vec![3u8; 100]);
    assert_eq!(big.len(), 114);
}

#[test]
fn clock_ticks_once_per_resolution() {
    let mut stack = InetStack::new(
        [2, 0, 0, 0, 0, 1],
        0x0a000001,
        TcpConfig::new(1450, false, false),
    ).unwrap();
    let mut due_count = 0;
    for _ in 0..(2 * TIMER_RESOLUTION) {
        if stack.advance_clock_due() {
            due_count += 1;
        }
    }
    assert_eq!(due_count, 2);
}

#[test]
fn buffer_pool_accounting() {
    let mut pool = MbufPool::new(2, 128);
    assert_eq!(pool.available(), 2);
    let a = pool.alloc_mbuf().unwrap();
    let b = pool.alloc_mbuf().unwrap();
    assert_ne!(a, b);
    // Exhaustion is an error, not a wait.
    match pool.alloc_mbuf() {
        Err(e) => assert_eq!(e.errno, EAGAIN),
        Ok(_) => panic!("an exhausted pool must refuse"),
    }
    // Release is idempotent per handle.
    pool.release(a).unwrap();
    pool.release(a).unwrap();
    assert_eq!(pool.available(), 1);
    assert!(pool.release(7).is_err());
    pool.release(b).unwrap();
    assert_eq!(pool.available(), 2);
}

#[test]
fn unsupported_calls_say_so() {
    let mut stack = InetStack::new(
        [2, 0, 0, 0, 0, 1],
        0x0a000001,
        TcpConfig::new(1450, false, false),
    ).unwrap();
    match stack.socket(0, 0, 0) {
        Err(e) => assert_eq!(e.errno, ENOTSUP),
        Ok(_) => panic!("per-call socket management is not served"),
    }
    match stack.pop(0, None) {
        Err(e) => assert_eq!(e.errno, ENOTSUP),
        Ok(_) => panic!("per-call socket management is not served"),
    }
}

#[test]
fn create_builds_the_named_variant() {
    assert!(matches!(
        FakeWorker::create(b"multiplication").unwrap(),
        FakeWorker::Multiplication
    ));
    match FakeWorker::create(b"stridedmem:16:3").unwrap() {
        FakeWorker::StridedMem(buf, stride) => {
            assert_eq!(buf.len(), 16);
            assert_eq!(stride, 3);
        },
        _ => panic!("the strided spec must build the strided workload"),
    }
    match FakeWorker::create(b"randmem:32").unwrap() {
        FakeWorker::RandomMem(buf, sched) => {
            assert_eq!(buf.len(), 32);
            assert_eq!(sched.len(), 32);
        },
        _ => panic!("the random-read spec must build the random-read workload"),
    }
    match FakeWorker::create(b"memstream:24").unwrap() {
        FakeWorker::StreamingMem(buf) => assert_eq!(buf.len(), 24),
        _ => panic!("the streaming spec must build the streaming workload"),
    }
    match FakeWorker::create(b"pointerchase:64:5").unwrap() {
        FakeWorker::PointerChase(buf) => assert_eq!(buf.len(), 8),
        _ => panic!("the chase spec must build the chase workload"),
    }
}
