//! Idempotent newsletter publishing with reliable fan-out delivery.
//!
//! The crate models the core of a newsletter service: an idempotency guard
//! that resolves every (actor, key) pair to a single recorded response, a
//! publish command handler that persists an issue together with one delivery
//! task per confirmed subscriber in a single atomic step, and a delivery
//! worker that drains the resulting outbox queue under retry and drop
//! policies.  The durable store is modelled as an explicit in-memory value;
//! every publicly visible transition of that value carries a contract, and
//! the idempotence and delivery laws are proved over those transitions.

pub mod errors;
pub mod flash;
pub mod payload;
pub mod response;
pub mod idempotency;
pub mod laws;
pub mod publish;
pub mod store;
pub mod subscribers;
pub mod worker;
