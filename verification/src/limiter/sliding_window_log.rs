//! Sliding-window log: remembers the timestamps of admitted requests and
//! admits a new one while fewer than `limit` of them are inside the window.
use std::collections::VecDeque;
use vstd::prelude::*;

verus! {

/// Abstract state of a sliding-window-log limiter.
pub struct SlidingWindowLogState {
    pub limit: nat,
    pub window_size: nat,
    pub log: Seq<u64>,
}

/// `now - t`, saturating at zero, has reached the window size.
pub open spec fn expired(now: u64, t: u64, window_size: nat) -> bool {
    (if now >= t { (now - t) as nat } else { 0nat }) >= window_size
}

/// Drops expired timestamps from the front of the log, stopping at the
/// first one still inside the window.
pub open spec fn prune(log: Seq<u64>, now: u64, window_size: nat) -> Seq<u64>
    decreases log.len(),
{
    if log.len() > 0 && expired(now, log[0], window_size) {
        prune(log.drop_first(), now, window_size)
    } else {
        log
    }
}

/// One call of `allow`: the new state and whether the request passes.
pub open spec fn log_step(s: SlidingWindowLogState, now: u64) -> (SlidingWindowLogState, bool) {
    let p = prune(s.log, now, s.window_size);
    if p.len() < s.limit {
        (SlidingWindowLogState { log: p.push(now), ..s }, true)
    } else {
        (SlidingWindowLogState { log: p, ..s }, false)
    }
}

/// The limiter state after feeding the requests at `times`, in order.
pub open spec fn log_run(s: SlidingWindowLogState, times: Seq<u64>) -> SlidingWindowLogState
    decreases times.len(),
{
    if times.len() == 0 {
        s
    } else {
        log_step(log_run(s, times.drop_last()), times.last()).0
    }
}

/// The timestamps of the requests among `times` that were admitted, in order.
pub open spec fn log_admitted(s: SlidingWindowLogState, times: Seq<u64>) -> Seq<u64>
    decreases times.len(),
{
    if times.len() == 0 {
        Seq::empty()
    } else {
        let prev = log_admitted(s, times.drop_last());
        if log_step(log_run(s, times.drop_last()), times.last()).1 {
            prev.push(times.last())
        } else {
            prev
        }
    }
}

/// The predicate "still inside the window that ends at `now`".
pub open spec fn in_window(now: u64, window_size: nat) -> spec_fn(u64) -> bool {
    |t: u64| !expired(now, t, window_size)
}

pub open spec fn nondecreasing(times: Seq<u64>) -> bool {
    forall|i: int, j: int| 0 <= i <= j < times.len() ==> times[i] <= times[j]
}

/// Sliding-window guarantee: when requests arrive in time order at a fresh
/// limiter, the admitted requests inside the window that ends at the latest
/// request never number more than `limit`.
pub proof fn lemma_window_admits_at_most_limit(s: SlidingWindowLogState, times: Seq<u64>)
    requires
        s.log.len() == 0,
        s.window_size > 0,
        times.len() > 0,
        nondecreasing(times),
    ensures
        log_admitted(s, times).filter(in_window(times.last(), s.window_size)).len() <= s.limit,
{
    lemma_log_is_admitted_in_window(s, times);
}

/// The predicate "inside the interval `[start, start + window_size)`".
pub open spec fn in_interval(start: int, window_size: nat) -> spec_fn(u64) -> bool {
    |t: u64| start <= t < start + window_size
}

/// Sliding-window guarantee for any interval: when requests arrive in time
/// order at a fresh limiter, at most `limit` of the admitted requests fall in
/// any interval `[start, start + window_size)` (an empty one when the window
/// size is zero).
pub proof fn lemma_any_interval_admits_at_most_limit(
    s: SlidingWindowLogState,
    times: Seq<u64>,
    start: int,
)
    requires
        s.log.len() == 0,
        nondecreasing(times),
    ensures
        log_admitted(s, times).filter(in_interval(start, s.window_size)).len() <= s.limit,
    decreases times.len(),
{
    let size = s.window_size;
    let iv = in_interval(start, size);
    if size == 0 {
        // the interval is empty
        assert forall|i: int| 0 <= i < log_admitted(s, times).len() implies !iv(
            log_admitted(s, times)[i],
        ) by {}
        log_admitted(s, times).lemma_all_neg_filter_empty(iv);
        return;
    }
    if times.len() == 0 {
        reveal(Seq::filter);
        return;
    }
    let t = times.last();
    let prev = times.drop_last();
    assert forall|i: int, j: int| 0 <= i <= j < prev.len() implies prev[i] <= prev[j] by {
        assert(prev[i] == times[i] && prev[j] == times[j]);
    }
    lemma_any_interval_admits_at_most_limit(s, prev, start);
    let adm = log_admitted(s, prev);
    let run = log_run(s, prev);
    let in_t = in_window(t, size);
    adm.lemma_filter_push(t, iv);
    if log_step(run, t).1 && iv(t) {
        // the new request is admitted inside the interval: the admitted ones
        // already inside it are all in the window of `t`, where fewer than
        // `limit` were
        if prev.len() == 0 {
            reveal(Seq::filter);
            assert(adm == Seq::<u64>::empty());
            assert(adm.filter(iv).len() == 0);
        } else {
            lemma_log_is_admitted_in_window(s, prev);
            let tp = prev.last();
            assert(tp <= t) by {
                assert(tp == times[times.len() - 2]);
            }
            let in_tp = in_window(tp, size);
            lemma_filter_sorted_nondecreasing(adm, in_tp);
            lemma_prune_sorted(adm.filter(in_tp), t, size);
            assert forall|i: int| 0 <= i < adm.len() && in_t(adm[i]) implies in_tp(adm[i]) by {
                assert(adm[i] <= tp);
            }
            lemma_filter_narrower(adm, in_tp, in_t);
            assert(prune(run.log, t, size) == adm.filter(in_t));
            assert forall|i: int| 0 <= i < adm.len() && iv(adm[i]) implies in_t(adm[i]) by {
                assert(adm[i] <= tp);
            }
            lemma_filter_narrower(adm, in_t, iv);
            adm.filter(in_t).lemma_filter_len(iv);
        }
    }
}

/// With requests in time order, the log is exactly the admitted timestamps
/// that are still inside the window of the latest request.
pub proof fn lemma_log_is_admitted_in_window(s: SlidingWindowLogState, times: Seq<u64>)
    requires
        s.log.len() == 0,
        s.window_size > 0,
        times.len() > 0,
        nondecreasing(times),
    ensures
        log_run(s, times).log == log_admitted(s, times).filter(
            in_window(times.last(), s.window_size),
        ),
        log_run(s, times).limit == s.limit,
        log_run(s, times).window_size == s.window_size,
        log_run(s, times).log.len() <= s.limit,
        nondecreasing(log_admitted(s, times)),
        forall|i: int|
            0 <= i < log_admitted(s, times).len() ==> #[trigger] log_admitted(s, times)[i]
                <= times.last(),
    decreases times.len(),
{
    let size = s.window_size;
    let t = times.last();
    let prev = times.drop_last();
    let in_t = in_window(t, size);
    if prev.len() == 0 {
        reveal_with_fuel(Seq::filter, 2);
        assert(log_run(s, prev) == s);
        assert(prune(s.log, t, size) == s.log);
        assert(in_t(t));
        if 0 < s.limit {
            assert(log_admitted(s, times) == seq![t]);
            assert(seq![t].drop_last() =~= Seq::<u64>::empty());
        } else {
            assert(log_admitted(s, times) == Seq::<u64>::empty());
        }
    } else {
        assert forall|i: int, j: int| 0 <= i <= j < prev.len() implies prev[i] <= prev[j] by {
            assert(prev[i] == times[i] && prev[j] == times[j]);
        }
        lemma_log_is_admitted_in_window(s, prev);
        let tp = prev.last();
        assert(tp <= t) by {
            assert(tp == times[times.len() - 2]);
        }
        let adm = log_admitted(s, prev);
        let run = log_run(s, prev);
        let in_tp = in_window(tp, size);
        // the previous log, pruned at the new time, is the admitted ones inside the new window
        lemma_filter_sorted_nondecreasing(adm, in_tp);
        lemma_prune_sorted(adm.filter(in_tp), t, size);
        assert forall|i: int| 0 <= i < adm.len() && in_t(adm[i]) implies in_tp(adm[i]) by {
            assert(adm[i] <= tp);
        }
        lemma_filter_narrower(adm, in_tp, in_t);
        let p = prune(run.log, t, size);
        assert(p == adm.filter(in_t));
        lemma_prune_len(run.log, t, size);
        assert(in_t(t));
        adm.lemma_filter_push(t, in_t);
        let adm2 = log_admitted(s, times);
        assert forall|i: int, j: int| 0 <= i <= j < adm2.len() implies adm2[i] <= adm2[j] by {
            if j == adm.len() {
                if i < adm.len() {
                    assert(adm2[i] == adm[i]);
                    assert(adm[i] <= tp);
                }
            } else {
                assert(adm2[i] == adm[i] && adm2[j] == adm[j]);
            }
        }
        assert forall|i: int| 0 <= i < adm2.len() implies #[trigger] adm2[i] <= t by {
            if i < adm.len() {
                assert(adm2[i] == adm[i]);
                assert(adm[i] <= tp);
            }
        }
    }
}

/// Expiry is monotone: an older timestamp expires no later than a newer one.
proof fn lemma_expired_monotone(now: u64, x: u64, y: u64, size: nat)
    requires
        x <= y,
        expired(now, y, size),
    ensures
        expired(now, x, size),
{
}

/// Pruning never lengthens the log.
pub proof fn lemma_prune_len(log: Seq<u64>, now: u64, size: nat)
    ensures
        prune(log, now, size).len() <= log.len(),
    decreases log.len(),
{
    if log.len() > 0 && expired(now, log[0], size) {
        lemma_prune_len(log.drop_first(), now, size);
    }
}

/// On a log in time order, pruning keeps exactly the timestamps inside the window.
pub proof fn lemma_prune_sorted(log: Seq<u64>, now: u64, size: nat)
    requires
        nondecreasing(log),
    ensures
        prune(log, now, size) == log.filter(in_window(now, size)),
    decreases log.len(),
{
    let p = in_window(now, size);
    if log.len() > 0 {
        let rest = log.drop_first();
        assert(log == seq![log[0]] + rest);
        rest.lemma_filter_prepend(log[0], p);
        if expired(now, log[0], size) {
            assert forall|i: int, j: int| 0 <= i <= j < rest.len() implies rest[i] <= rest[j] by {
                assert(rest[i] == log[i + 1] && rest[j] == log[j + 1]);
            }
            lemma_prune_sorted(rest, now, size);
            assert(seq![log[0]] + rest == log);
        } else {
            assert forall|i: int| 0 <= i < rest.len() implies #[trigger] p(rest[i]) by {
                assert(rest[i] == log[i + 1]);
                if expired(now, rest[i], size) {
                    lemma_expired_monotone(now, log[0], rest[i], size);
                }
            }
            lemma_filter_all(rest, p);
            assert(seq![log[0]] + rest == log);
        }
    } else {
        reveal(Seq::filter);
    }
}

/// Filtering by a predicate that holds everywhere changes nothing.
proof fn lemma_filter_all(s: Seq<u64>, p: spec_fn(u64) -> bool)
    requires
        forall|i: int| 0 <= i < s.len() ==> #[trigger] p(s[i]),
    ensures
        s.filter(p) == s,
    decreases s.len(),
{
    reveal(Seq::filter);
    if s.len() > 0 {
        assert forall|i: int| 0 <= i < s.drop_last().len() implies #[trigger] p(
            s.drop_last()[i],
        ) by {
            assert(s.drop_last()[i] == s[i]);
        }
        lemma_filter_all(s.drop_last(), p);
        assert(p(s.last()));
        assert(s.drop_last().push(s.last()) == s);
    }
}

/// Filtering twice, by a wider and then a narrower predicate, is filtering by
/// the narrower one.
proof fn lemma_filter_narrower(s: Seq<u64>, wide: spec_fn(u64) -> bool, narrow: spec_fn(u64) -> bool)
    requires
        forall|i: int| 0 <= i < s.len() && narrow(s[i]) ==> wide(s[i]),
    ensures
        s.filter(wide).filter(narrow) == s.filter(narrow),
    decreases s.len(),
{
    reveal(Seq::filter);
    if s.len() > 0 {
        let d = s.drop_last();
        assert forall|i: int| 0 <= i < d.len() && narrow(d[i]) implies wide(d[i]) by {
            assert(d[i] == s[i]);
        }
        lemma_filter_narrower(d, wide, narrow);
        if wide(s.last()) {
            d.filter(wide).lemma_filter_push(s.last(), narrow);
        }
    }
}

/// A filtered sequence in time order stays in time order.
proof fn lemma_filter_sorted_nondecreasing(s: Seq<u64>, p: spec_fn(u64) -> bool)
    requires
        nondecreasing(s),
    ensures
        nondecreasing(s.filter(p)),
        forall|i: int| 0 <= i < s.filter(p).len() ==> s.contains(#[trigger] s.filter(p)[i]),
    decreases s.len(),
{
    reveal(Seq::filter);
    if s.len() > 0 {
        let d = s.drop_last();
        assert forall|i: int, j: int| 0 <= i <= j < d.len() implies d[i] <= d[j] by {
            assert(d[i] == s[i] && d[j] == s[j]);
        }
        lemma_filter_sorted_nondecreasing(d, p);
        let f = d.filter(p);
        assert forall|i: int| 0 <= i < f.len() implies f[i] <= s.last() by {
            assert(d.contains(f[i]));
            let k = choose|k: int| 0 <= k < d.len() && d[k] == f[i];
            assert(s[k] == d[k]);
        }
        assert forall|i: int| 0 <= i < f.len() implies s.contains(#[trigger] f[i]) by {
            assert(d.contains(f[i]));
            let k = choose|k: int| 0 <= k < d.len() && d[k] == f[i];
            assert(s[k] == d[k]);
        }
        if p(s.last()) {
            assert(s.contains(s.last())) by {
                assert(s[s.len() - 1] == s.last());
            }
        }
    }
}

pub struct SlidingWindowLogLimiter {
    limit: usize,
    window_size_secs: u64,
    request_timestamps: VecDeque<u64>,
}

impl View for SlidingWindowLogLimiter {
    type V = SlidingWindowLogState;

    closed spec fn view(&self) -> SlidingWindowLogState {
        SlidingWindowLogState {
            limit: self.limit as nat,
            window_size: self.window_size_secs as nat,
            log: self.request_timestamps@,
        }
    }
}

impl SlidingWindowLogLimiter {
    /// Well-formedness: the log never holds more than `limit` timestamps.
    pub open spec fn well_formed(&self) -> bool {
        self@.log.len() <= self@.limit
    }

    pub fn new(limit: usize, window_size_secs: u64) -> (s: Self)
        ensures
            s@ == (SlidingWindowLogState {
                limit: limit as nat,
                window_size: window_size_secs as nat,
                log: Seq::empty(),
            }),
            s.well_formed(),
    {
        Self { limit, window_size_secs, request_timestamps: VecDeque::new() }
    }

    /// Decides whether a request at `now_secs` passes, first forgetting the
    /// timestamps that have left the window.
    pub fn allow(&mut self, now_secs: u64) -> (allowed: bool)
        requires
            old(self).well_formed(),
        ensures
            (final(self)@, allowed) == log_step(old(self)@, now_secs),
            final(self).well_formed(),
    {
        let ghost size = self.window_size_secs as nat;
        let ghost target = prune(self@.log, now_secs, size);
        while self.request_timestamps.len() > 0
            invariant
                self.limit == old(self).limit,
                self.window_size_secs == old(self).window_size_secs,
                size == self.window_size_secs as nat,
                target == prune(old(self)@.log, now_secs, size),
                prune(self@.log, now_secs, size) == target,
                self@.log.len() <= old(self)@.log.len(),
            ensures
                self.limit == old(self).limit,
                self.window_size_secs == old(self).window_size_secs,
                self@.log == target,
            decreases self@.log.len(),
        {
            let front = self.request_timestamps[0];
            if now_secs.saturating_sub(front) >= self.window_size_secs {
                proof {
                    assert(self@.log.drop_first() == self@.log.subrange(1, self@.log.len() as int));
                }
                self.request_timestamps.pop_front();
            } else {
                break;
            }
        }
        assert(self@.log == target);
        if self.request_timestamps.len() < self.limit {
            self.request_timestamps.push_back(now_secs);
            true
        } else {
            false
        }
    }

    /// The timestamps currently held, oldest first.
    pub fn snapshot(&self) -> (timestamps: Vec<u64>)
        ensures
            timestamps@ == self@.log,
    {
        let mut out: Vec<u64> = Vec::new();
        let n = self.request_timestamps.len();
        let mut i: usize = 0;
        while i < n
            invariant
                n == self@.log.len(),
                i <= n,
                out@ == self@.log.take(i as int),
            decreases n - i,
        {
            out.push(self.request_timestamps[i]);
            i = i + 1;
            assert(out@ == self@.log.take(i as int));
        }
        assert(self@.log.take(n as int) == self@.log);
        out
    }
}

} // verus!
