//! Request and response bodies of the shortener's HTTP API.
use vstd::prelude::*;

verus! {

pub struct CreateShortUrlRequest {
    pub long_url: String,
}

pub struct CreateShortUrlResponse {
    pub code: String,
    pub short_url: String,
}

pub struct ResolveUrlResponse {
    pub code: String,
    pub long_url: String,
    pub source: &'static str,
}

pub struct HealthResponse {
    pub status: &'static str,
}

pub struct ErrorResponse {
    pub error: &'static str,
}

pub struct RateLimitDecision {
    pub allowed: bool,
    pub remaining: i64,
}

} // verus!
