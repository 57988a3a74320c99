//! The defaults of the discovery cadence and of the service searched for.

use vstd::prelude::*;

verus! {

/// The service type whose announcements are collected.
pub const SERVICE_TYPE: &'static str = "_prometheus-http._tcp.local";

/// Milliseconds between two aggregation cycles, and between two queries.
pub const POLL_INTERVAL_MS: u64 = 15000;

/// Milliseconds after its last observation at which an entry expires.
pub const LIVENESS_TIMEOUT_MS: u64 = 60000;

} // verus!
