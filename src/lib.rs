//! A log-structured key-value storage engine.
//!
//! The library holds the engine's logic: the on-disk record format, the
//! in-memory index that maps each live key to its latest record, replay of a
//! log on open, and compaction. Reading and writing files is left to the
//! caller, which hands the library the bytes it read and writes the bytes the
//! library produces.
use vstd::prelude::*;

pub mod engine;
pub mod error;
pub mod index;
pub mod laws;
pub mod meta;
pub mod network;
pub mod record;

pub use crate::engine::KvStore;
pub use crate::error::{KvStoreError, Result};

verus! {

/// A storage engine as the server drives it: handles can be cloned and used
/// from several threads.
pub trait KvsEngine: Clone + Send + 'static {
    /// Binds `key` to `value`.
    fn set(&self, key: String, value: String) -> Result<()>;

    /// The value bound to `key`, if any.
    fn get(&self, key: String) -> Result<Option<String>>;

    /// Removes the binding of `key`; fails with `KeyNotFound` where there is none.
    fn remove(&self, key: String) -> Result<()>;
}

/// A pool of threads that runs jobs.
pub trait ThreadPool {
    /// A pool of `threads` threads.
    fn new(threads: u32) -> Result<Self> where Self: Sized;

    /// Runs `job` on a thread of the pool.
    fn spawn<F>(&self, job: F) where F: FnOnce() + Send + 'static;
}

} // verus!
