//! Core of a kernel-bypass TCP echo server: wire-format codecs, a
//! single-producer/single-consumer ring, the TCP control block with its
//! send and receive machinery, the passive-open handshake, the dispatcher
//! that routes packets to worker cores, and the synthetic compute workload.
//!
//! Everything here is polled: no kernel sockets, no interrupts. The
//! hardware poll-mode driver itself is an external collaborator; this
//! library holds the logic that decides what to send, where to route,
//! and what state each connection is in.

pub mod bytes;
pub mod catnap;
pub mod checksum;
pub mod config;
pub mod ctrlblk;
pub mod dispatch;
pub mod endpoint;
pub mod ensure;
pub mod eth;
pub mod fail;
pub mod fakework;
pub mod flow;
pub mod frame;
pub mod ipv4;
pub mod mbuf;
pub mod passive_open;
pub mod peer;
pub mod receiver;
pub mod ring;
pub mod rto;
pub mod sched;
pub mod segment;
pub mod sender;
pub mod seqnum;
pub mod stack;
pub mod taslock;
pub mod tcp_header;
pub mod worker;
