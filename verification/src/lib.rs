//! The request layer of a client for the raw key-value interface of a
//! partitioned key-value cluster.
//!
//! A [`raw::Client`] makes requests: gets, puts, deletes and scans, one key at
//! a time or in batches, each against one partition of the cluster. A request
//! is a plain value that holds its parameters. It does no I/O: carrying it to
//! the cluster is the work of a dispatcher outside this crate.
//!
//! What each request resolves to is stated over an abstract cluster:
//!
//! - [`order`]: the byte-wise order of keys;
//! - [`kv`], [`range`], [`config`], [`errors`]: keys, values, pairs, ranges, the
//!   configuration and the failures;
//! - [`model`]: the cluster as a map of partitions, and the meaning of every
//!   operation as a function of it;
//! - [`laws`]: what follows from that meaning, whatever the cluster holds;
//! - [`memory`]: a cluster in memory that answers as the model says;
//! - [`raw`]: the client and its requests;
//! - [`convert`]: what two conversions of std return.

pub mod config;
pub mod convert;
pub mod errors;
pub mod kv;
pub mod laws;
pub mod memory;
pub mod model;
pub mod order;
pub mod range;
pub mod raw;
mod sorted;

pub use config::Config;
pub use errors::Error;
pub use kv::{Key, KeyRef, KvPair, Value};
