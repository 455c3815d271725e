//! Retry with capped exponential backoff and jitter, as a state machine:
//! the caller runs each attempt (with its timeout) and sleeps; the machine
//! decides after each outcome whether to finish or to wait and retry.
use rand::Rng;
use vstd::arithmetic::power2::pow2;
use vstd::prelude::*;

verus! {

#[derive(Debug, Clone, Copy, PartialEq, Eq)]
pub enum AppError {
    Timeout,
    NetworkError,
    ServiceUnavailable,
    ValidationError,
}

impl AppError {
    pub open spec fn spec_is_retryable(self) -> bool {
        !(self is ValidationError)
    }

    /// Timeouts, network errors and an unavailable service are worth retrying.
    pub fn is_retryable(&self) -> (r: bool)
        ensures
            r == self.spec_is_retryable(),
    {
        match self {
            AppError::Timeout | AppError::NetworkError | AppError::ServiceUnavailable => true,
            AppError::ValidationError => false,
        }
    }
}

/// Retry settings; durations are whole milliseconds.
#[derive(Debug, Clone, Copy, PartialEq, Eq)]
pub struct RetryConfig {
    pub max_retries: u32,
    pub base_delay_ms: u64,
    pub max_backoff_ms: u64,
    pub timeout_per_attempt_ms: u64,
    pub jitter_ms: u64,
}

impl Default for RetryConfig {
    fn default() -> (c: Self)
        ensures
            c.max_retries == 5,
            c.base_delay_ms == 200,
            c.max_backoff_ms == 5000,
            c.timeout_per_attempt_ms == 2000,
            c.jitter_ms == 250,
    {
        RetryConfig {
            max_retries: 5,
            base_delay_ms: 200,
            max_backoff_ms: 5000,
            timeout_per_attempt_ms: 2000,
            jitter_ms: 250,
        }
    }
}

/// `base_delay * 2^attempt`, in milliseconds.
pub open spec fn exponential_delay_ms(c: RetryConfig, attempt: nat) -> nat {
    c.base_delay_ms as nat * pow2(attempt)
}

/// The exponential delay, capped at `max_backoff`.
pub open spec fn capped_delay_ms(c: RetryConfig, attempt: nat) -> nat {
    let e = exponential_delay_ms(c, attempt);
    if e <= c.max_backoff_ms { e } else { c.max_backoff_ms as nat }
}

/// The delay before the retry that follows attempt `attempt` can be
/// computed in `u64` without overflow and with a non-empty jitter range.
pub open spec fn delay_fits(c: RetryConfig, attempt: nat) -> bool {
    &&& pow2(attempt) <= u64::MAX
    &&& exponential_delay_ms(c, attempt) <= u64::MAX
    &&& c.jitter_ms > 0
    &&& capped_delay_ms(c, attempt) + c.jitter_ms - 1 <= u64::MAX
}

/// The delay before the retry that follows attempt `attempt`, with the drawn jitter.
pub open spec fn delay_with_jitter(c: RetryConfig, attempt: nat, jitter: nat) -> nat {
    capped_delay_ms(c, attempt) + jitter
}

/// The exponential backoff after attempt `attempt` can be computed in `u64`.
pub open spec fn backoff_fits(c: RetryConfig, attempt: nat) -> bool {
    &&& pow2(attempt) <= u64::MAX
    &&& exponential_delay_ms(c, attempt) <= u64::MAX
}

/// With the drawn `jitter`, the delay after attempt `attempt` can be
/// computed in `u64`, and the jitter lies in the configured range.
pub open spec fn delay_fits_with(c: RetryConfig, attempt: nat, jitter: nat) -> bool {
    &&& backoff_fits(c, attempt)
    &&& jitter < c.jitter_ms
    &&& capped_delay_ms(c, attempt) + jitter <= u64::MAX
}

/// A uniformly drawn jitter in `0..bound` milliseconds.
///
/// Trusted: calls `rand::thread_rng().gen_range(0..bound)`; the contract
/// states only the range that `gen_range` documents for a half-open range
/// (which it requires to be non-empty), not which value is drawn.
#[verifier::external_body]
fn random_jitter_ms(bound: u64) -> (jitter: u64)
    requires
        bound > 0,
    ensures
        jitter < bound,
{
    rand::thread_rng().gen_range(0..bound)
}

/// `2^e` in `u64`.
fn pow2_u64(e: u32) -> (p: u64)
    requires
        pow2(e as nat) <= u64::MAX,
    ensures
        p as nat == pow2(e as nat),
{
    let mut p: u64 = 1;
    let mut i: u32 = 0;
    proof {
        vstd::arithmetic::power2::lemma2_to64();
    }
    while i < e
        invariant
            i <= e,
            p as nat == pow2(i as nat),
            pow2(e as nat) <= u64::MAX,
        decreases e - i,
    {
        proof {
            vstd::arithmetic::power2::lemma_pow2_unfold((i + 1) as nat);
            if i + 1 < e {
                vstd::arithmetic::power2::lemma_pow2_strictly_increases((i + 1) as nat, e as nat);
            }
        }
        p = p * 2;
        i = i + 1;
    }
    p
}

/// The backoff before the retry that follows attempt `attempt`, without jitter.
pub fn capped_backoff_ms(config: &RetryConfig, attempt: u32) -> (delay: u64)
    requires
        pow2(attempt as nat) <= u64::MAX,
        exponential_delay_ms(*config, attempt as nat) <= u64::MAX,
    ensures
        delay as nat == capped_delay_ms(*config, attempt as nat),
{
    let exponential = config.base_delay_ms * pow2_u64(attempt);
    if exponential <= config.max_backoff_ms {
        exponential
    } else {
        config.max_backoff_ms
    }
}

/// The backoff grows with the attempt number until it reaches the cap.
pub proof fn lemma_backoff_monotone(c: RetryConfig, a: nat, b: nat)
    requires
        a <= b,
    ensures
        capped_delay_ms(c, a) <= capped_delay_ms(c, b),
        capped_delay_ms(c, b) <= c.max_backoff_ms,
{
    if a < b {
        vstd::arithmetic::power2::lemma_pow2_strictly_increases(a, b);
        vstd::arithmetic::mul::lemma_mul_inequality(
            pow2(a) as int,
            pow2(b) as int,
            c.base_delay_ms as int,
        );
        vstd::arithmetic::mul::lemma_mul_is_commutative(pow2(a) as int, c.base_delay_ms as int);
        vstd::arithmetic::mul::lemma_mul_is_commutative(pow2(b) as int, c.base_delay_ms as int);
    }
}

/// What happened to one attempt.
pub enum AttemptOutcome<T> {
    Succeeded(T),
    Failed(AppError),
    TimedOut,
}

/// What the caller does next.
pub enum RetryAction<T> {
    /// Stop and hand back this result.
    Finish(Result<T, AppError>),
    /// Sleep this many milliseconds, then run the next attempt.
    Sleep(u64),
}

/// Whether the machine retries after this outcome of attempt `attempt`.
pub open spec fn retries_after<T>(c: RetryConfig, attempt: nat, outcome: AttemptOutcome<T>) -> bool {
    match outcome {
        AttemptOutcome::Succeeded(_) => false,
        AttemptOutcome::Failed(e) => e.spec_is_retryable() && attempt < c.max_retries,
        AttemptOutcome::TimedOut => attempt < c.max_retries,
    }
}

/// Which errors are retried: timeouts, network errors and an unavailable
/// service are; validation errors are not.
pub proof fn lemma_retryable_errors(e: AppError)
    ensures
        e.spec_is_retryable() <==> (e == AppError::Timeout || e == AppError::NetworkError || e
            == AppError::ServiceUnavailable),
{
}

/// After a failed attempt the machine retries exactly when the error is a
/// timeout, a network error or an unavailable service and fewer than
/// `max_retries` retries were made; a timed-out attempt is retried exactly
/// while fewer than `max_retries` retries were made; a success is never retried.
pub proof fn lemma_when_retried<T>(c: RetryConfig, attempt: nat, e: AppError, v: T)
    ensures
        retries_after(c, attempt, AttemptOutcome::<T>::Failed(e)) <==> ((e == AppError::Timeout || e
            == AppError::NetworkError || e == AppError::ServiceUnavailable) && attempt
            < c.max_retries),
        retries_after(c, attempt, AttemptOutcome::<T>::TimedOut) <==> attempt < c.max_retries,
        !retries_after(c, attempt, AttemptOutcome::<T>::Succeeded(v)),
{
}

/// How many retries follow, from attempt `attempt`, when the attempts have
/// the given outcomes in turn (stopping at the first outcome that finishes).
pub open spec fn retries_before_finish<T>(
    c: RetryConfig,
    attempt: nat,
    outcomes: Seq<AttemptOutcome<T>>,
) -> nat
    decreases outcomes.len(),
{
    if outcomes.len() == 0 {
        0
    } else if retries_after(c, attempt, outcomes[0]) {
        1 + retries_before_finish(c, attempt + 1, outcomes.drop_first())
    } else {
        0
    }
}

/// Whatever the outcomes, no more than `max_retries` retries are made in all,
/// so an operation runs at most `max_retries + 1` times.
pub proof fn lemma_retries_bounded<T>(c: RetryConfig, attempt: nat, outcomes: Seq<AttemptOutcome<T>>)
    requires
        attempt <= c.max_retries,
    ensures
        attempt + retries_before_finish(c, attempt, outcomes) <= c.max_retries,
    decreases outcomes.len(),
{
    if outcomes.len() > 0 && retries_after(c, attempt, outcomes[0]) {
        lemma_retries_bounded(c, attempt + 1, outcomes.drop_first());
    }
}

pub struct RetryStateView {
    pub config: RetryConfig,
    pub attempt: nat,
}

pub struct RetryState {
    config: RetryConfig,
    attempt: u32,
}

impl View for RetryState {
    type V = RetryStateView;

    closed spec fn view(&self) -> RetryStateView {
        RetryStateView { config: self.config, attempt: self.attempt as nat }
    }
}

impl RetryState {
    /// Well-formedness: the attempt number never passes `max_retries`, so at
    /// most `max_retries + 1` attempts are ever made.
    pub open spec fn well_formed(&self) -> bool {
        self@.attempt <= self@.config.max_retries
    }

    pub fn new(config: RetryConfig) -> (s: Self)
        ensures
            s@ == (RetryStateView { config, attempt: 0 }),
            s.well_formed(),
    {
        RetryState { config, attempt: 0 }
    }

    /// The number of the current attempt, counting from zero.
    pub fn attempt(&self) -> (a: u32)
        ensures
            a as nat == self@.attempt,
    {
        self.attempt
    }

    pub fn config(&self) -> (c: RetryConfig)
        ensures
            c == self@.config,
    {
        self.config
    }

    /// Whether `on_outcome` would retry after this outcome.
    pub fn would_retry<T>(&self, outcome: &AttemptOutcome<T>) -> (r: bool)
        ensures
            r == retries_after(self@.config, self@.attempt, *outcome),
    {
        match outcome {
            AttemptOutcome::Succeeded(_) => false,
            AttemptOutcome::Failed(e) => e.is_retryable() && self.attempt < self.config.max_retries,
            AttemptOutcome::TimedOut => self.attempt < self.config.max_retries,
        }
    }

    /// Whether the exponential backoff after the current attempt can be
    /// computed in `u64`.
    pub fn backoff_fits_now(&self) -> (r: bool)
        ensures
            r == backoff_fits(self@.config, self@.attempt),
    {
        proof {
            vstd::arithmetic::power2::lemma2_to64();
            if self.attempt >= 64 {
                if self.attempt > 64 {
                    vstd::arithmetic::power2::lemma_pow2_strictly_increases(64, self.attempt as nat);
                }
            } else {
                vstd::arithmetic::power2::lemma_pow2_strictly_increases(self.attempt as nat, 64);
            }
        }
        if self.attempt >= 64 {
            return false;
        }
        let p = pow2_u64(self.attempt);
        self.config.base_delay_ms.checked_mul(p).is_some()
    }

    /// Whether, with the drawn `jitter`, the delay after the current attempt
    /// can be computed in `u64`.
    pub fn delay_fits_with_now(&self, jitter: u64) -> (r: bool)
        ensures
            r == delay_fits_with(self@.config, self@.attempt, jitter as nat),
    {
        if !self.backoff_fits_now() {
            return false;
        }
        if jitter >= self.config.jitter_ms {
            return false;
        }
        let capped = capped_backoff_ms(&self.config, self.attempt);
        capped.checked_add(jitter).is_some()
    }

    /// Draws the jitter for the next delay: a random number of milliseconds
    /// below `jitter_ms`.
    pub fn draw_jitter(&self) -> (jitter: u64)
        requires
            self@.config.jitter_ms > 0,
        ensures
            jitter < self@.config.jitter_ms,
    {
        random_jitter_ms(self.config.jitter_ms)
    }

    /// Decides after an attempt, given the jitter drawn for a retry: a
    /// success finishes with its value; an error that is not retryable, or
    /// any failure once `max_retries` retries were made, finishes with that
    /// error (`Timeout` for a timeout); otherwise the caller sleeps the capped
    /// exponential backoff plus `jitter`, and the attempt number goes up by one.
    pub fn on_outcome_with_jitter<T>(&mut self, outcome: AttemptOutcome<T>, jitter: u64) -> (action:
        RetryAction<T>)
        requires
            old(self).well_formed(),
            retries_after(old(self)@.config, old(self)@.attempt, outcome) ==> delay_fits_with(
                old(self)@.config,
                old(self)@.attempt,
                jitter as nat,
            ),
        ensures
            final(self).well_formed(),
            final(self)@.config == old(self)@.config,
            match outcome {
                AttemptOutcome::Succeeded(v) => action == RetryAction::<T>::Finish(Ok(v)),
                AttemptOutcome::Failed(e) => !retries_after(old(self)@.config, old(self)@.attempt, outcome)
                    ==> action == RetryAction::<T>::Finish(Err(e)),
                AttemptOutcome::TimedOut => !retries_after(old(self)@.config, old(self)@.attempt, outcome)
                    ==> action == RetryAction::<T>::Finish(Err(AppError::Timeout)),
            },
            retries_after(old(self)@.config, old(self)@.attempt, outcome) ==> {
                &&& final(self)@.attempt == old(self)@.attempt + 1
                &&& action == RetryAction::<T>::Sleep(
                    delay_with_jitter(old(self)@.config, old(self)@.attempt, jitter as nat) as u64,
                )
            },
            !retries_after(old(self)@.config, old(self)@.attempt, outcome) ==> final(self)@.attempt
                == old(self)@.attempt,
    {
        match outcome {
            AttemptOutcome::Succeeded(v) => {
                return RetryAction::Finish(Ok(v));
            },
            AttemptOutcome::Failed(e) => {
                if !e.is_retryable() {
                    return RetryAction::Finish(Err(e));
                }
                if self.attempt >= self.config.max_retries {
                    return RetryAction::Finish(Err(e));
                }
            },
            AttemptOutcome::TimedOut => {
                if self.attempt >= self.config.max_retries {
                    return RetryAction::Finish(Err(AppError::Timeout));
                }
            },
        }
        let capped = capped_backoff_ms(&self.config, self.attempt);
        let delay = capped + jitter;
        self.attempt = self.attempt + 1;
        RetryAction::Sleep(delay)
    }

    /// Decides after an attempt as `on_outcome_with_jitter` does, drawing
    /// the jitter at random below `jitter_ms` when it retries.
    pub fn on_outcome<T>(&mut self, outcome: AttemptOutcome<T>) -> (action: RetryAction<T>)
        requires
            old(self).well_formed(),
            retries_after(old(self)@.config, old(self)@.attempt, outcome) ==> delay_fits(
                old(self)@.config,
                old(self)@.attempt,
            ),
        ensures
            final(self).well_formed(),
            final(self)@.config == old(self)@.config,
            match outcome {
                AttemptOutcome::Succeeded(v) => action == RetryAction::<T>::Finish(Ok(v)),
                AttemptOutcome::Failed(e) => !retries_after(old(self)@.config, old(self)@.attempt, outcome)
                    ==> action == RetryAction::<T>::Finish(Err(e)),
                AttemptOutcome::TimedOut => !retries_after(old(self)@.config, old(self)@.attempt, outcome)
                    ==> action == RetryAction::<T>::Finish(Err(AppError::Timeout)),
            },
            retries_after(old(self)@.config, old(self)@.attempt, outcome) ==> {
                &&& final(self)@.attempt == old(self)@.attempt + 1
                &&& exists|jitter: nat|
                    jitter < old(self)@.config.jitter_ms && action == RetryAction::<T>::Sleep(
                        #[trigger] delay_with_jitter(old(self)@.config, old(self)@.attempt, jitter)
                            as u64,
                    )
            },
            !retries_after(old(self)@.config, old(self)@.attempt, outcome) ==> final(self)@.attempt
                == old(self)@.attempt,
    {
        let jitter = if self.would_retry(&outcome) {
            self.draw_jitter()
        } else {
            0
        };
        let action = self.on_outcome_with_jitter(outcome, jitter);
        proof {
            if retries_after(old(self)@.config, old(self)@.attempt, outcome) {
                assert((jitter as nat) < old(self)@.config.jitter_ms);
                assert(action == RetryAction::<T>::Sleep(
                    delay_with_jitter(old(self)@.config, old(self)@.attempt, jitter as nat) as u64,
                ));
            }
        }
        action
    }
}

} // verus!
