//! The node: its write-ahead log, key-value store, cluster topology and the
//! handling of requests.

pub mod args;
pub mod wal;
pub mod kv;
pub mod serialize;
pub mod cluster;
pub mod sync;
pub mod handler;
