//! A lightweight overlay-networking node: typed addresses and message
//! envelopes, a bounded in-memory queue, an address-typed message router,
//! a worker registry, a stream-framing transport worker, a secure-channel
//! handshake state machine, and the cooperative scheduler that ties them
//! together.

pub mod channel;
pub mod codec;
pub mod error;
pub mod message;
pub mod node;
pub mod queue;
pub mod router;
pub mod tcp_worker;
pub mod topic;
pub mod traits;
pub mod vault;
pub mod worker_manager;
