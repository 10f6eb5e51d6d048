//! An embedded key-value store: a framed write-ahead log, the index that
//! replaying the log yields, and transactions that stage writes in memory.
//!
//! The library works on plain bytes. Whoever embeds it owns the log file:
//! it hands the file's bytes to `Database::open`, writes the frames that the
//! encoders produce, and reports to each mutating call whether the log took
//! the frame.

pub mod codec;
pub mod index;
pub mod laws;
pub mod models;
pub mod prelude;
pub mod store;
pub mod txn;
pub mod wal;

pub use store::{Config, Database};
pub use wal::Error;
