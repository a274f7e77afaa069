//! Core of a payment dispatch cluster: a gateway fans payment frames out to
//! dispatcher instances over line-delimited sockets, dispatchers submit each
//! payment to one of two external providers with retry and failover, and a
//! store daemon keeps the outcomes in two ordered partitions keyed by
//! RFC 3339 timestamp, serving inclusive range summaries and purges.
//!
//! Amounts travel as JSON number tokens on the wire and live in the store as
//! the eight big-endian bytes of the 64-bit value; this crate handles them in
//! those two forms and leaves floating-point arithmetic to its callers.

pub mod bytes;
pub mod codec;
pub mod dispatch;
pub mod gateway;
pub mod ingress;
pub mod pool;
pub mod provider;
pub mod store;
pub mod summary_store;
pub mod text;
pub mod types;
