//! Core of a small social-network backend: a friendship state machine over a
//! relationship store, a post store serving reverse-chronological feeds, and a
//! strictly advisory feed cache (per-viewer ordered index, denormalized post
//! bodies, TTL-bounded materialization markers) populated by fan-out-on-write
//! and rebuilt on demand.
//!
//! The stores are executable models of the authoritative backing services: a
//! store carries a `fault` flag standing for connectivity or pool failure, and
//! the cache an `available` flag, so that the error-propagation policy is part
//! of every contract. Store errors always propagate; cache faults never do —
//! every cache-dependent path degrades to the authoritative store.

use vstd::prelude::*;

pub mod cache_aside;
pub mod codec;
pub mod feed_cache;
pub mod feed_service;
pub mod post;
pub mod post_store;
pub mod relationship;

verus! {

/// Seconds a cache entry lives: materialization markers and cached post
/// bodies both expire this long after they are written.
pub const CACHE_TTL_SECS: u64 = 3600;

/// Page size used when a feed request does not give a limit.
pub const DEFAULT_FEED_SIZE: u64 = 100;

/// How a backing store call fails: a connectivity or query failure, or
/// exhaustion of the connection pool. Both always propagate to the caller.
#[derive(Clone, Copy, Debug, PartialEq, Eq, Structural)]
pub enum StoreFault {
    Storage,
    Pool,
}

/// Expiry instant for a cache entry written at `now`: one TTL later,
/// saturating at the end of time.
pub open spec fn expiry_at(now: u64) -> u64 {
    if now + CACHE_TTL_SECS <= u64::MAX {
        (now + CACHE_TTL_SECS) as u64
    } else {
        u64::MAX
    }
}

/// Computes `expiry_at(now)`.
pub fn expiry_of(now: u64) -> (r: u64)
    ensures
        r == expiry_at(now),
{
    now.saturating_add(CACHE_TTL_SECS)
}

} // verus!
