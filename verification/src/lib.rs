//! Caching and transfer engine of a filesystem bridge to a remote object store.
//!
//! The crate is the decision-making core of the bridge. It performs no I/O of
//! its own: every operation takes the state of a cache slot, a pool or a
//! stream together with an event, updates the state and answers with the
//! action that the surrounding program has to carry out (read a range of the
//! cache file, wait for the download, start an upload, ...).
//!
//! - [`slot`]: the state machine of one cache slot.
//! - [`cache_file`]: what resizing, writing and reading do to the bytes of a
//!   cache file.
//! - [`disk_cache`]: the slots under a byte budget, evicted in the order of
//!   their last use.
//! - [`file`]: the pool of open files, which hands out handles on slots and
//!   streams.
//! - [`stream`]: sequential reads straight from a download.
//! - [`download`]: which range a download asks for, and when it gives up.
//! - [`inode`]: inode numbers for remote items, counted by reference.
//! - [`chunk`], [`lru`], [`handles`]: what the engine takes from the crates
//!   `bytes`, `lru-cache` and `sharded-slab`.

pub mod error;
pub mod cache_file;
pub mod chunk;
pub mod file;
pub mod slot;
pub mod stream;
pub mod download;
pub mod lru;
pub mod disk_cache;
pub mod handles;
pub mod inode;
