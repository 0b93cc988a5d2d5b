//! An embedded, log-structured key/value store in the Bitcask style.
//!
//! Every write appends one record to the active data file; an in-memory key
//! directory maps each live key to the byte range of its latest record. This
//! crate holds the engine's rules: the record format, the key directory, the
//! per-file statistics, recovery, and the reader cache. It performs no file
//! I/O itself: callers append the bytes it produces and hand it the bytes
//! they read.

pub mod bufio;
pub mod context;
pub mod entry;
pub mod error;
pub mod handle;
pub mod index;
pub mod laws;
pub mod log;
pub mod logdir;
pub mod memory;
pub mod reader;
pub mod recovery;
pub mod store;
pub mod utils;
pub mod writer;

pub use error::Error;
pub use handle::{Bitcask, Handle, KeyValueStorage};
pub use log::{LogIndex, LogStatistics};
pub use memory::MemoryStore;
