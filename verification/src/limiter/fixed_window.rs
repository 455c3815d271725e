//! Fixed-window counter: at most `limit` requests per aligned window.
use vstd::prelude::*;

verus! {

/// Abstract state of a fixed-window limiter.
pub struct FixedWindowState {
    pub limit: nat,
    pub window_size: nat,
    pub window_start: nat,
    pub count: nat,
}

/// The window that a call at `now` belongs to, after the limiter rolls over.
pub open spec fn rolled(s: FixedWindowState, now: nat) -> FixedWindowState {
    if now >= s.window_start + s.window_size {
        FixedWindowState { window_start: (now / s.window_size) * s.window_size, count: 0, ..s }
    } else {
        s
    }
}

/// One call of `allow`: the new state and whether the request passes.
pub open spec fn fixed_window_step(s: FixedWindowState, now: nat) -> (FixedWindowState, bool) {
    let r = rolled(s, now);
    if r.count < r.limit {
        (FixedWindowState { count: r.count + 1, ..r }, true)
    } else {
        (r, false)
    }
}

/// `(n / d) * d` is the largest multiple of `d` not above `n`.
pub proof fn lemma_floor_multiple(n: nat, d: nat)
    requires
        d > 0,
    ensures
        (n / d) * d <= n,
        n < (n / d) * d + d,
        ((n / d) * d) % d == 0,
{
    vstd::arithmetic::div_mod::lemma_fundamental_div_mod(n as int, d as int);
    vstd::arithmetic::mul::lemma_mul_is_commutative((n / d) as int, d as int);
    vstd::arithmetic::div_mod::lemma_mod_bound(n as int, d as int);
    vstd::arithmetic::div_mod::lemma_mod_multiples_basic((n / d) as int, d as int);
}

/// How many of the requests at `times`, fed in order from state `s`, pass.
pub open spec fn allowed_count(s: FixedWindowState, times: Seq<nat>) -> nat
    decreases times.len(),
{
    if times.len() == 0 {
        0
    } else {
        let (next, ok) = fixed_window_step(s, times[0]);
        (if ok { 1nat } else { 0nat }) + allowed_count(next, times.drop_first())
    }
}

/// Within one aligned window `[w, w + window_size)` at most `limit` requests
/// pass, counting those the limiter already admitted in that window.
pub proof fn lemma_window_admits_at_most_limit(s: FixedWindowState, times: Seq<nat>, w: nat)
    requires
        s.window_size > 0,
        s.count <= s.limit,
        s.window_start % s.window_size == 0,
        w % s.window_size == 0,
        s.window_start <= w,
        forall|i: int| 0 <= i < times.len() ==> w <= #[trigger] times[i] < w + s.window_size,
    ensures
        allowed_count(s, times) + (if s.window_start == w { s.count } else { 0 }) <= s.limit,
    decreases times.len(),
{
    if times.len() > 0 {
        let t = times[0];
        let (next, ok) = fixed_window_step(s, t);
        if s.window_start != w {
            lemma_aligned_gap(s.window_start, w, s.window_size);
            lemma_floor_multiple(t, s.window_size);
            lemma_aligned_floor(t, w, s.window_size);
        }
        assert forall|i: int| 0 <= i < times.drop_first().len() implies w <= #[trigger] times.drop_first()[i]
            < w + next.window_size by {
            assert(times.drop_first()[i] == times[i + 1]);
        }
        lemma_window_admits_at_most_limit(next, times.drop_first(), w);
    }
}

/// The limiter state after feeding the requests at `times`, in order.
pub open spec fn fixed_window_run(s: FixedWindowState, times: Seq<nat>) -> FixedWindowState
    decreases times.len(),
{
    if times.len() == 0 {
        s
    } else {
        fixed_window_step(fixed_window_run(s, times.drop_last()), times.last()).0
    }
}

/// The times of the requests among `times` that were admitted, in order.
pub open spec fn fixed_window_admitted(s: FixedWindowState, times: Seq<nat>) -> Seq<nat>
    decreases times.len(),
{
    if times.len() == 0 {
        Seq::empty()
    } else {
        let prev = fixed_window_admitted(s, times.drop_last());
        if fixed_window_step(fixed_window_run(s, times.drop_last()), times.last()).1 {
            prev.push(times.last())
        } else {
            prev
        }
    }
}

/// The predicate "inside the window `[start, start + size)`".
pub open spec fn in_window(start: nat, size: nat) -> spec_fn(nat) -> bool {
    |t: nat| start <= t < start + size
}

pub open spec fn in_time_order(times: Seq<nat>) -> bool {
    forall|i: int, j: int| 0 <= i <= j < times.len() ==> times[i] <= times[j]
}

/// When requests arrive in time order at a fresh limiter, its window is the
/// aligned window of the latest request and its count is the number of
/// admitted requests inside that window, never above `limit`.
pub proof fn lemma_count_is_admitted_in_current_window(s: FixedWindowState, times: Seq<nat>)
    requires
        s.window_size > 0,
        s.window_start == 0,
        s.count == 0,
        in_time_order(times),
        times.len() > 0,
    ensures
        fixed_window_run(s, times).window_start == (times.last() / s.window_size) * s.window_size,
        fixed_window_run(s, times).window_size == s.window_size,
        fixed_window_run(s, times).limit == s.limit,
        fixed_window_run(s, times).count == fixed_window_admitted(s, times).filter(
            in_window(fixed_window_run(s, times).window_start, s.window_size),
        ).len(),
        fixed_window_run(s, times).count <= s.limit,
        forall|i: int|
            0 <= i < fixed_window_admitted(s, times).len() ==> #[trigger] fixed_window_admitted(
                s,
                times,
            )[i] <= times.last(),
    decreases times.len(),
{
    let size = s.window_size;
    let t = times.last();
    let prev = times.drop_last();
    lemma_floor_multiple(t, size);
    let w = (t / size) * size;
    let win = in_window(w, size);
    if prev.len() == 0 {
        reveal_with_fuel(Seq::filter, 2);
        assert(fixed_window_run(s, prev) == s);
        assert(fixed_window_admitted(s, prev) == Seq::<nat>::empty());
        if t < size {
            lemma_aligned_floor(t, 0, size);
        }
        assert(win(t));
        let adm = fixed_window_admitted(s, times);
        if 0 < s.limit {
            assert(adm == seq![t]);
            assert(seq![t].drop_last() =~= Seq::<nat>::empty());
        } else {
            assert(adm == Seq::<nat>::empty());
        }
    } else {
        assert forall|i: int, j: int| 0 <= i <= j < prev.len() implies prev[i] <= prev[j] by {
            assert(prev[i] == times[i] && prev[j] == times[j]);
        }
        lemma_count_is_admitted_in_current_window(s, prev);
        let tp = prev.last();
        assert(tp <= t) by {
            assert(tp == times[times.len() - 2]);
        }
        let r = fixed_window_run(s, prev);
        let adm = fixed_window_admitted(s, prev);
        let start = r.window_start;
        lemma_floor_multiple(tp, size);
        assert(win(t));
        adm.lemma_filter_push(t, win);
        if t >= start + size {
            // the limiter moves to a later window, which holds none of the
            // earlier admitted requests
            if w <= start {
                assert(false);
            }
            lemma_aligned_gap(start, w, size);
            assert forall|i: int| 0 <= i < adm.len() implies !win(adm[i]) by {
                assert(adm[i] <= tp);
            }
            adm.lemma_all_neg_filter_empty(win);
        } else {
            lemma_aligned_floor(t, start, size);
        }
        let adm2 = fixed_window_admitted(s, times);
        assert forall|i: int| 0 <= i < adm2.len() implies #[trigger] adm2[i] <= t by {
            if i < adm.len() {
                assert(adm2[i] == adm[i]);
                assert(adm[i] <= tp);
            }
        }
    }
}

/// Two distinct aligned window starts are at least a window apart.
proof fn lemma_aligned_gap(a: nat, b: nat, d: nat)
    requires
        d > 0,
        a % d == 0,
        b % d == 0,
        a < b,
    ensures
        a + d <= b,
{
    vstd::arithmetic::div_mod::lemma_fundamental_div_mod(a as int, d as int);
    vstd::arithmetic::div_mod::lemma_fundamental_div_mod(b as int, d as int);
    assert(a == d * (a / d));
    assert(b == d * (b / d));
    if a / d >= b / d {
        vstd::arithmetic::mul::lemma_mul_inequality((b / d) as int, (a / d) as int, d as int);
        vstd::arithmetic::mul::lemma_mul_is_commutative((b / d) as int, d as int);
        vstd::arithmetic::mul::lemma_mul_is_commutative((a / d) as int, d as int);
    } else {
        vstd::arithmetic::mul::lemma_mul_inequality((a / d + 1) as int, (b / d) as int, d as int);
        vstd::arithmetic::mul::lemma_mul_is_commutative((a / d + 1) as int, d as int);
        vstd::arithmetic::mul::lemma_mul_is_commutative((b / d) as int, d as int);
        vstd::arithmetic::mul::lemma_mul_is_distributive_add(d as int, (a / d) as int, 1);
    }
}

/// A time inside the aligned window starting at `w` rounds down to `w`.
proof fn lemma_aligned_floor(t: nat, w: nat, d: nat)
    requires
        d > 0,
        w % d == 0,
        w <= t < w + d,
    ensures
        (t / d) * d == w,
{
    lemma_floor_multiple(t, d);
    let f = (t / d) * d;
    if f < w {
        lemma_aligned_gap(f, w, d);
    } else if f > w {
        lemma_aligned_gap(w, f, d);
    }
}

pub struct FixedWindowLimiter {
    limit: usize,
    window_size_secs: u64,
    window_start_secs: u64,
    count: usize,
}

impl View for FixedWindowLimiter {
    type V = FixedWindowState;

    closed spec fn view(&self) -> FixedWindowState {
        FixedWindowState {
            limit: self.limit as nat,
            window_size: self.window_size_secs as nat,
            window_start: self.window_start_secs as nat,
            count: self.count as nat,
        }
    }
}

impl FixedWindowLimiter {
    /// Well-formedness: the count never exceeds the limit and the window
    /// start is aligned to the window size.
    pub open spec fn well_formed(&self) -> bool {
        &&& self@.count <= self@.limit
        &&& self@.window_size > 0 ==> self@.window_start % self@.window_size == 0
    }

    pub fn new(limit: usize, window_size_secs: u64) -> (s: Self)
        ensures
            s@ == (FixedWindowState {
                limit: limit as nat,
                window_size: window_size_secs as nat,
                window_start: 0,
                count: 0,
            }),
            s.well_formed(),
    {
        Self { limit, window_size_secs, window_start_secs: 0, count: 0 }
    }

    /// Decides whether a request at `now_secs` passes.
    pub fn allow(&mut self, now_secs: u64) -> (allowed: bool)
        requires
            old(self).well_formed(),
            old(self)@.window_size > 0,
            old(self)@.window_start + old(self)@.window_size <= u64::MAX,
        ensures
            (final(self)@, allowed) == fixed_window_step(old(self)@, now_secs as nat),
            final(self).well_formed(),
    {
        if now_secs >= self.window_start_secs + self.window_size_secs {
            proof {
                lemma_floor_multiple(now_secs as nat, self.window_size_secs as nat);
            }
            let start = (now_secs / self.window_size_secs) * self.window_size_secs;
            self.window_start_secs = start;
            self.count = 0;
        }
        if self.count < self.limit {
            self.count = self.count + 1;
            true
        } else {
            false
        }
    }

    pub fn current_count(&self) -> (count: usize)
        ensures
            count as nat == self@.count,
    {
        self.count
    }

    pub fn window_start_secs(&self) -> (start: u64)
        ensures
            start as nat == self@.window_start,
    {
        self.window_start_secs
    }

    pub fn window_size_secs(&self) -> (size: u64)
        ensures
            size as nat == self@.window_size,
    {
        self.window_size_secs
    }
}

} // verus!
