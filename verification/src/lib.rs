//! Synchronization core of a blockchain node.
//!
//! The library reconciles a local, append-only block store with a remote
//! peer's chain. Blocks old enough to be irreversible are merged into
//! immutable per-epoch pack archives; blocks too recent to trust are kept as
//! individual loose blocks. The whole process is resumable after a crash
//! from durable checkpoint tags.
//!
//! The wire protocol and the physical persistence layer are collaborators
//! outside this crate: the network's block stream is handed in as a value,
//! and durable storage is modeled by [`store::Store`], an observable journal
//! of the writes the core performs.

pub mod chain;
pub mod config;
pub mod digest;
pub mod errors;
pub mod peers;
pub mod props;
pub mod store;
pub mod sync;
pub mod timefmt;
