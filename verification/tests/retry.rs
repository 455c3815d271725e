use system_design::retry::{
    capped_backoff_ms, AppError, AttemptOutcome, RetryAction, RetryConfig, RetryState,
};

#[test]
fn retryable_errors() {
    assert!(AppError::Timeout.is_retryable());
    assert!(AppError::NetworkError.is_retryable());
    assert!(AppError::ServiceUnavailable.is_retryable());
    assert!(!AppError::ValidationError.is_retryable());
}

#[test]
fn default_config() {
    let c = RetryConfig::default();
    assert_eq!(c.max_retries, 5);
    assert_eq!(c.base_delay_ms, 200);
    assert_eq!(c.max_backoff_ms, 5000);
    assert_eq!(c.timeout_per_attempt_ms, 2000);
    assert_eq!(c.jitter_ms, 250);
}

#[test]
fn backoff_doubles_then_caps() {
    let c = RetryConfig::default();
    let got: Vec<u64> = (0..8).map(|a| capped_backoff_ms(&c, a)).collect();
    assert_eq!(got, vec![200, 400, 800, 1600, 3200, 5000, 5000, 5000]);
}

#[test]
fn success_finishes_at_once() {
    let mut s = RetryState::new(RetryConfig::default());
    match s.on_outcome(AttemptOutcome::Succeeded("ok")) {
        RetryAction::Finish(Ok(v)) => assert_eq!(v, "ok"),
        _ => panic!("expected success"),
    }
    assert_eq!(s.attempt(), 0);
}

#[test]
fn non_retryable_error_fails_fast() {
    let mut s = RetryState::new(RetryConfig::default());
    match s.on_outcome(AttemptOutcome::<u8>::Failed(AppError::ValidationError)) {
        RetryAction::Finish(Err(e)) => assert_eq!(e, AppError::ValidationError),
        _ => panic!("expected failure"),
    }
    assert_eq!(s.attempt(), 0);
}

#[test]
fn retryable_errors_sleep_with_jitter_then_give_up() {
    let c = RetryConfig::default();
    let mut s = RetryState::new(c);
    let mut sleeps = Vec::new();
    loop {
        match s.on_outcome(AttemptOutcome::<u8>::Failed(AppError::ServiceUnavailable)) {
            RetryAction::Sleep(d) => sleeps.push(d),
            RetryAction::Finish(r) => {
                assert_eq!(r, Err(AppError::ServiceUnavailable));
                break;
            }
        }
    }
    assert_eq!(sleeps.len(), 5);
    let base = [200u64, 400, 800, 1600, 3200];
    for i in 0..5 {
        assert!(sleeps[i] >= base[i] && sleeps[i] < base[i] + 250, "{:?}", sleeps);
    }
    assert_eq!(s.attempt(), 5);
}

#[test]
fn timeouts_give_up_with_timeout() {
    let mut c = RetryConfig::default();
    c.max_retries = 1;
    let mut s = RetryState::new(c);
    assert!(matches!(s.on_outcome(AttemptOutcome::<u8>::TimedOut), RetryAction::Sleep(_)));
    match s.on_outcome(AttemptOutcome::<u8>::TimedOut) {
        RetryAction::Finish(r) => assert_eq!(r, Err(AppError::Timeout)),
        _ => panic!("expected to give up"),
    }
}

#[test]
fn zero_retries_means_single_attempt() {
    let mut c = RetryConfig::default();
    c.max_retries = 0;
    let mut s = RetryState::new(c);
    match s.on_outcome(AttemptOutcome::<u8>::Failed(AppError::NetworkError)) {
        RetryAction::Finish(r) => assert_eq!(r, Err(AppError::NetworkError)),
        _ => panic!("expected to give up"),
    }
}

#[test]
fn retry_delay_is_backoff_plus_given_jitter() {
    let mut s = RetryState::new(RetryConfig::default());
    match s.on_outcome_with_jitter(AttemptOutcome::<u8>::Failed(AppError::NetworkError), 17) {
        RetryAction::Sleep(d) => assert_eq!(d, 217),
        _ => panic!("expected a retry"),
    }
    match s.on_outcome_with_jitter(AttemptOutcome::<u8>::TimedOut, 249) {
        RetryAction::Sleep(d) => assert_eq!(d, 649),
        _ => panic!("expected a retry"),
    }
    assert_eq!(s.attempt(), 2);
    let j = s.draw_jitter();
    assert!(j < 250);
    assert!(s.backoff_fits_now());
    assert!(s.delay_fits_with_now(249));
    assert!(!s.delay_fits_with_now(250));
}

#[test]
fn backoff_overflow_is_detected() {
    let mut c = RetryConfig::default();
    c.max_retries = 100;
    c.base_delay_ms = u64::MAX / 2 + 1;
    let s = RetryState::new(c);
    assert!(s.backoff_fits_now());
    let mut s2 = RetryState::new(c);
    let _ = s2.on_outcome_with_jitter(AttemptOutcome::<u8>::TimedOut, 0);
    assert!(!s2.backoff_fits_now());
}
