//! A layered reliable-broadcast stack over an unreliable datagram network.
//!
//! The crate holds the decision logic of the stack and proves it: the wire
//! codec, the delivery ledger with its quorum and per-sender ordering rules,
//! the broadcast primitives, and the steps of the send, receive and
//! retransmission loops. Sockets, threads and channels live with the caller.
//!
//! - [`udp`] is the payload of a datagram, [`codec`] its bytes on the wire.
//! - [`ledger`] defines the delivery ledger as a state machine, [`delivered`]
//!   is the ledger that runs, and [`laws`] proves what it guarantees over
//!   every history of arrivals.
//! - [`tcp`] is the perfect link, [`broadcast`] the primitives on top of it,
//!   and [`enqueue`] the workload of a process.
//! - [`hosts`], [`log`] and [`text`] read the host list and write the log.

pub mod broadcast;
pub mod codec;
pub mod delivered;
pub mod enqueue;
pub mod hosts;
pub mod laws;
pub mod ledger;
pub mod log;
mod tables;
pub mod tcp;
pub mod text;
pub mod udp;
