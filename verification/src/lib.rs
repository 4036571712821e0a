//! A verified core for an IP-intelligence service: a size-accounted,
//! TTL-expiring key/value cache with an atomic snapshot format, and the
//! decision logic of the lookup pipeline that merges a required geo lookup
//! with optional WHOIS, BGP and RPKI enrichments.

use vstd::prelude::*;

pub mod api;
pub mod bgp_api;
pub mod bgptools;
pub mod cloning;
pub mod codec;
pub mod decode;
pub mod config;
pub mod ip;
pub mod ip_cache;
pub mod kv_store;
pub mod pipeline;
pub mod record;
pub mod rpki;
pub mod sched;
pub mod text;
pub mod whois;

verus! {

/// Seconds an entry stays visible after insertion.
pub const ENTRY_TTL_SECS: u64 = 60 * 60 * 24;

/// Upper bound on the bytes the store may account for.
pub const MAX_MEMORY_BYTES: usize = 1024 * 1024 * 1024;

/// Seconds between two snapshots of the store.
pub const PERSIST_INTERVAL_SECS: u64 = 60 * 10;

/// Fixed per-entry overhead added to the measured size of key and value.
pub const ENTRY_OVERHEAD_BYTES: usize = 64;

} // verus!
