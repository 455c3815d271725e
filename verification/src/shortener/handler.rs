//! The decisions of the shortener's request handlers: validation, short
//! codes, Redis keys, and what to answer after each cache or database step.
use crate::ids::{is_v4_uuid, lemma_hex_digits_len, new_uuid_v4, uuid_simple, uuid_simple_string};
use crate::shortener::model::{
    CreateShortUrlRequest, CreateShortUrlResponse, ErrorResponse, HealthResponse, RateLimitDecision,
    ResolveUrlResponse,
};
use crate::shortener::RATE_LIMIT_MAX_REQUESTS;
use crate::text::{concat, has_prefix};
use vstd::prelude::*;

verus! {

/// Redis key of the cached URL of a short code: `cache:url:{code}`.
pub fn cache_key(code: &str) -> (key: String)
    ensures
        key@ == "cache:url:"@ + code@,
{
    concat("cache:url:", code)
}

/// Redis key of the redirect counter of a short code: `counter:redirects:{code}`.
pub fn counter_key(code: &str) -> (key: String)
    ensures
        key@ == "counter:redirects:"@ + code@,
{
    concat("counter:redirects:", code)
}

/// Redis key of a user's rate-limit counter: `rate:user:{identity}:fixed-window`.
pub fn rate_key(identity: &str) -> (key: String)
    ensures
        key@ == "rate:user:"@ + identity@ + ":fixed-window"@,
{
    let mut key = concat("rate:user:", identity);
    key.append(":fixed-window");
    key
}

/// A long URL is accepted when it starts with `http://` or `https://`.
pub fn is_valid_long_url(long_url: &str) -> (ok: bool)
    ensures
        ok == ("http://"@.is_prefix_of(long_url@) || "https://"@.is_prefix_of(long_url@)),
{
    has_prefix(long_url, "http://") || has_prefix(long_url, "https://")
}

/// Checks a shortening request; the error is what the API answers with 400.
pub fn validate_create_request(request: &CreateShortUrlRequest) -> (r: Result<(), ErrorResponse>)
    ensures
        r is Ok <==> ("http://"@.is_prefix_of(request.long_url@) || "https://"@.is_prefix_of(
            request.long_url@,
        )),
        r matches Err(e) ==> e.error@ == "long_url must start with http:// or https://"@,
{
    if !is_valid_long_url(request.long_url.as_str()) {
        return Err(ErrorResponse { error: "long_url must start with http:// or https://" });
    }
    Ok(())
}

/// The short code taken from a UUID: the first 8 digits of its simple form.
pub fn short_code_for(id: u128) -> (code: String)
    ensures
        code@ == uuid_simple(id).subrange(0, 8),
{
    let simple = uuid_simple_string(id);
    proof {
        lemma_hex_digits_len(id as nat, 32);
    }
    let prefix = simple.as_str().substring_char(0, 8);
    String::from_str(prefix)
}

/// A fresh short code: the first 8 digits of a random version-4 UUID.
pub fn new_short_code() -> (code: String)
    ensures
        code@.len() == 8,
        exists|id: u128| is_v4_uuid(id) && code@ == #[trigger] uuid_simple(id).subrange(0, 8),
{
    let id = new_uuid_v4();
    let code = short_code_for(id);
    proof {
        lemma_hex_digits_len(id as nat, 32);
        assert(is_v4_uuid(id));
        assert(code@ == uuid_simple(id).subrange(0, 8));
    }
    code
}

/// The public link of a short code: `http://localhost:8080/r/{code}`.
pub fn short_url_for(code: &str) -> (url: String)
    ensures
        url@ == "http://localhost:8080/r/"@ + code@,
{
    concat("http://localhost:8080/r/", code)
}

/// The answer to a successful shortening.
pub fn create_response(code: String) -> (r: CreateShortUrlResponse)
    ensures
        r.code@ == code@,
        r.short_url@ == "http://localhost:8080/r/"@ + code@,
{
    let short_url = short_url_for(code.as_str());
    CreateShortUrlResponse { code, short_url }
}

/// The rate-limit decision once Redis has counted this request as the
/// `count`-th of its window: allowed while `count <= RATE_LIMIT_MAX_REQUESTS`,
/// with the requests left in the window, never below zero.
pub fn rate_limit_decision(count: i64) -> (d: RateLimitDecision)
    requires
        RATE_LIMIT_MAX_REQUESTS - count <= i64::MAX,
    ensures
        d.allowed == (count <= RATE_LIMIT_MAX_REQUESTS),
        d.remaining == (if RATE_LIMIT_MAX_REQUESTS - count > 0 {
            RATE_LIMIT_MAX_REQUESTS - count
        } else {
            0
        }),
{
    let left = RATE_LIMIT_MAX_REQUESTS - count;
    RateLimitDecision {
        allowed: count <= RATE_LIMIT_MAX_REQUESTS,
        remaining: if left > 0 { left } else { 0 },
    }
}

/// How many of the requests counted `1, 2, ..., n` in one window are allowed.
pub open spec fn allowed_in_window(n: nat) -> nat
    decreases n,
{
    if n == 0 {
        0
    } else {
        allowed_in_window((n - 1) as nat) + (if n <= RATE_LIMIT_MAX_REQUESTS { 1nat } else { 0nat })
    }
}

/// A window lets through exactly its first `RATE_LIMIT_MAX_REQUESTS`
/// requests: of `n` requests, `min(n, RATE_LIMIT_MAX_REQUESTS)` are allowed.
pub proof fn lemma_window_allows_at_most_max(n: nat)
    ensures
        allowed_in_window(n) == (if n <= RATE_LIMIT_MAX_REQUESTS {
            n
        } else {
            RATE_LIMIT_MAX_REQUESTS as nat
        }),
    decreases n,
{
    if n > 0 {
        lemma_window_allows_at_most_max((n - 1) as nat);
    }
}

/// The first request of a window starts the window's expiry clock.
pub fn needs_expiry(count: i64) -> (r: bool)
    ensures
        r == (count == 1),
{
    count == 1
}

/// What the Redis cache answered for a short code.
pub enum CacheLookup {
    Hit(String),
    Miss,
    /// Redis could not be read; the lookup falls through to the database.
    Failed,
}

/// The next step of resolving a short code.
pub enum ResolveAction {
    /// Look the code up in the database.
    QueryDatabase,
    /// Count the redirect, re-cache the URL when `refresh_cache`, and answer 200.
    Redirect { response: ResolveUrlResponse, refresh_cache: bool },
    /// Answer 404.
    NotFound(ErrorResponse),
}

/// After the cache lookup: a hit is answered from the cache; a miss or a
/// cache failure goes on to the database.
pub fn resolve_after_cache(code: String, cache: CacheLookup) -> (a: ResolveAction)
    ensures
        match cache {
            CacheLookup::Hit(u) => a matches ResolveAction::Redirect { response, refresh_cache }
                && response.code@ == code@ && response.long_url@ == u@ && response.source@
                == "redis-cache"@ && !refresh_cache,
            _ => a is QueryDatabase,
        },
{
    match cache {
        CacheLookup::Hit(long_url) => ResolveAction::Redirect {
            response: ResolveUrlResponse { code, long_url, source: "redis-cache" },
            refresh_cache: false,
        },
        _ => ResolveAction::QueryDatabase,
    }
}

/// After the database lookup: a found URL is answered and re-cached; an
/// unknown code is answered with 404.
pub fn resolve_after_database(code: String, found: Option<String>) -> (a: ResolveAction)
    ensures
        match found {
            Some(u) => a matches ResolveAction::Redirect { response, refresh_cache }
                && response.code@ == code@ && response.long_url@ == u@ && response.source@
                == "database"@ && refresh_cache,
            None => a matches ResolveAction::NotFound(e) && e.error@ == "short code not found"@,
        },
{
    match found {
        Some(long_url) => ResolveAction::Redirect {
            response: ResolveUrlResponse { code, long_url, source: "database" },
            refresh_cache: true,
        },
        None => ResolveAction::NotFound(ErrorResponse { error: "short code not found" }),
    }
}

/// The answer of the rate-limited endpoint.
pub enum LimitedReply {
    /// 200, with the requests left in the `X-RateLimit-Remaining` header.
    Allowed { remaining: i64 },
    /// 429.
    TooManyRequests(ErrorResponse),
    /// 503: the limiter could not be reached.
    Unavailable(ErrorResponse),
}

/// Maps the limiter's decision (`None` when Redis failed) to the reply.
pub fn limited_reply(decision: Option<RateLimitDecision>) -> (r: LimitedReply)
    ensures
        match decision {
            Some(d) => if d.allowed {
                r == LimitedReply::Allowed { remaining: d.remaining }
            } else {
                r matches LimitedReply::TooManyRequests(e) && e.error@ == "rate limit exceeded"@
            },
            None => r matches LimitedReply::Unavailable(e) && e.error@
                == "rate limiter unavailable"@,
        },
{
    match decision {
        Some(d) => if d.allowed {
            LimitedReply::Allowed { remaining: d.remaining }
        } else {
            LimitedReply::TooManyRequests(ErrorResponse { error: "rate limit exceeded" })
        },
        None => LimitedReply::Unavailable(ErrorResponse { error: "rate limiter unavailable" }),
    }
}

/// The health-check body.
pub fn health() -> (r: HealthResponse)
    ensures
        r.status@ == "up"@,
{
    HealthResponse { status: "up" }
}

} // verus!
