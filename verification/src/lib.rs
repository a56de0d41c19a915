//! A synchronization and notification-dedup engine for a roster of tracked
//! players: an in-memory transactional store for the four entity kinds, the
//! idempotent upsert / insert-if-absent rules that make re-fetches safe, and
//! the per-cycle worker logic that marks each newly observed event notified
//! exactly once.

#![verifier::loop_isolation(false)]

pub mod dtos;
pub mod facade;
pub mod keyed;
pub mod seq_util;
pub mod store;
pub mod text;
pub mod watchers;
