//! The names that most users of the store need.

pub use crate::store::{Config, Database};
pub use crate::wal::Error;
