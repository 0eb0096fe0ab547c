//! Coordination core for an exhaustive distributed search over a
//! 128-bit "tweak" axis crossed with a 128-bit key-offset axis.
//!
//! The crate partitions the tweak axis into fixed ranges, leases
//! contiguous slices of key-offset work ("jobs") to callers, recovers
//! leases abandoned by crashed workers, recycles job identifiers and
//! reports aggregate progress.  All durable state lives in an embedded
//! transactional table store; every mutating operation runs as one
//! all-or-nothing write transaction.

pub mod num_utils;
pub mod client_config;
pub mod randsrc;
pub mod records;
pub mod state;
pub mod store;
pub mod database;
pub mod laws;
