//! A replicated key-value store whose durability rests on a write-ahead log.
//!
//! The log is a sequence of checksummed frames; leaders ship frames to
//! followers, and a controller picks a new leader when the current one fails.
pub mod error;
pub mod wal;
pub mod store;
pub mod replication;
