//! URL shortener with a Redis cache in front of a database and a per-user
//! fixed-window rate limit kept in Redis. The network calls are made by the
//! caller; this module holds the keys, the decisions and the in-memory store.
use vstd::prelude::*;

pub mod db;
pub mod handler;
pub mod model;

verus! {

/// Seconds a cached URL stays in Redis.
pub const URL_CACHE_TTL_SECONDS: u64 = 3600;

/// Length of a rate-limit window, in seconds.
pub const RATE_LIMIT_SECONDS: i64 = 60;

/// Requests a user may make in one rate-limit window.
pub const RATE_LIMIT_MAX_REQUESTS: i64 = 10;

} // verus!
