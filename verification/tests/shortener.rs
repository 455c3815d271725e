use system_design::shortener::db::FakeDatabase;
use system_design::shortener::handler::{
    cache_key, counter_key, create_response, health, is_valid_long_url, limited_reply, needs_expiry,
    new_short_code, rate_key, rate_limit_decision, resolve_after_cache, resolve_after_database,
    short_code_for, short_url_for, validate_create_request, CacheLookup, LimitedReply, ResolveAction,
};
use system_design::shortener::model::{CreateShortUrlRequest, RateLimitDecision};
use system_design::shortener::{RATE_LIMIT_MAX_REQUESTS, RATE_LIMIT_SECONDS, URL_CACHE_TTL_SECONDS};

#[test]
fn redis_keys() {
    assert_eq!(cache_key("ab12cd34"), "cache:url:ab12cd34");
    assert_eq!(counter_key("ab12cd34"), "counter:redirects:ab12cd34");
    assert_eq!(rate_key("u-1"), "rate:user:u-1:fixed-window");
}

#[test]
fn settings() {
    assert_eq!(URL_CACHE_TTL_SECONDS, 3600);
    assert_eq!(RATE_LIMIT_SECONDS, 60);
    assert_eq!(RATE_LIMIT_MAX_REQUESTS, 10);
}

#[test]
fn long_url_validation() {
    assert!(is_valid_long_url("http://example.com"));
    assert!(is_valid_long_url("https://example.com/a?b=c"));
    assert!(!is_valid_long_url("ftp://example.com"));
    assert!(!is_valid_long_url("example.com"));
    assert!(!is_valid_long_url("http:/"));
    assert!(!is_valid_long_url(""));
    let ok = CreateShortUrlRequest { long_url: "https://rust-lang.org".to_string() };
    assert!(validate_create_request(&ok).is_ok());
    let bad = CreateShortUrlRequest { long_url: "mailto:x@y".to_string() };
    match validate_create_request(&bad) {
        Err(e) => assert_eq!(e.error, "long_url must start with http:// or https://"),
        Ok(()) => panic!("expected rejection"),
    }
}

#[test]
fn short_codes() {
    assert_eq!(short_code_for(0x0123_4567_89ab_cdef_0011_2233_4455_6677), "01234567");
    assert_eq!(short_code_for(0xfedc_ba98_0000_0000_0000_0000_0000_0000), "fedcba98");
    assert_eq!(short_code_for(0), "00000000");
    let code = new_short_code();
    assert_eq!(code.len(), 8);
    assert!(code.chars().all(|c| c.is_ascii_hexdigit() && !c.is_ascii_uppercase()));
}

#[test]
fn short_url_and_response() {
    assert_eq!(short_url_for("abc"), "http://localhost:8080/r/abc");
    let r = create_response("abc".to_string());
    assert_eq!(r.code, "abc");
    assert_eq!(r.short_url, "http://localhost:8080/r/abc");
}

#[test]
fn rate_limit_decisions() {
    let d = rate_limit_decision(1);
    assert!(d.allowed);
    assert_eq!(d.remaining, 9);
    let d = rate_limit_decision(10);
    assert!(d.allowed);
    assert_eq!(d.remaining, 0);
    let d = rate_limit_decision(11);
    assert!(!d.allowed);
    assert_eq!(d.remaining, 0);
    assert!(needs_expiry(1));
    assert!(!needs_expiry(2));
}

#[test]
fn rate_limit_admits_exactly_max_per_window() {
    let allowed = (1..=25i64).filter(|c| rate_limit_decision(*c).allowed).count();
    assert_eq!(allowed as i64, RATE_LIMIT_MAX_REQUESTS);
}

#[test]
fn resolve_from_cache() {
    match resolve_after_cache("c1".to_string(), CacheLookup::Hit("https://a.b".to_string())) {
        ResolveAction::Redirect { response, refresh_cache } => {
            assert_eq!(response.code, "c1");
            assert_eq!(response.long_url, "https://a.b");
            assert_eq!(response.source, "redis-cache");
            assert!(!refresh_cache);
        }
        _ => panic!("expected redirect"),
    }
    assert!(matches!(resolve_after_cache("c1".to_string(), CacheLookup::Miss), ResolveAction::QueryDatabase));
    assert!(matches!(resolve_after_cache("c1".to_string(), CacheLookup::Failed), ResolveAction::QueryDatabase));
}

#[test]
fn resolve_from_database() {
    match resolve_after_database("c2".to_string(), Some("http://x".to_string())) {
        ResolveAction::Redirect { response, refresh_cache } => {
            assert_eq!(response.code, "c2");
            assert_eq!(response.long_url, "http://x");
            assert_eq!(response.source, "database");
            assert!(refresh_cache);
        }
        _ => panic!("expected redirect"),
    }
    match resolve_after_database("c3".to_string(), None) {
        ResolveAction::NotFound(e) => assert_eq!(e.error, "short code not found"),
        _ => panic!("expected not found"),
    }
}

#[test]
fn limited_endpoint_replies() {
    match limited_reply(Some(RateLimitDecision { allowed: true, remaining: 4 })) {
        LimitedReply::Allowed { remaining } => assert_eq!(remaining, 4),
        _ => panic!(),
    }
    match limited_reply(Some(RateLimitDecision { allowed: false, remaining: 0 })) {
        LimitedReply::TooManyRequests(e) => assert_eq!(e.error, "rate limit exceeded"),
        _ => panic!(),
    }
    match limited_reply(None) {
        LimitedReply::Unavailable(e) => assert_eq!(e.error, "rate limiter unavailable"),
        _ => panic!(),
    }
    assert_eq!(health().status, "up");
}

#[test]
fn database_reads_back_writes() {
    let mut db = FakeDatabase::default();
    assert_eq!(db.find("a"), None);
    db.insert("a".to_string(), "http://one".to_string());
    db.insert("b".to_string(), "http://two".to_string());
    assert_eq!(db.find("a"), Some("http://one".to_string()));
    db.insert("a".to_string(), "http://three".to_string());
    assert_eq!(db.find("a"), Some("http://three".to_string()));
    assert_eq!(db.find("b"), Some("http://two".to_string()));
}
