//! Integer bookkeeping of the sliding-window-counter limiter: the counts of
//! the current and of the previous aligned window.
use vstd::prelude::*;
use crate::limiter::fixed_window::lemma_floor_multiple;

verus! {

/// Abstract state of the window counters.
pub struct WindowCountsState {
    pub window_size: nat,
    pub current_window_start: nat,
    pub current_count: nat,
    pub previous_count: nat,
}

/// Moves the counters to the window that holds `now`: the count of the
/// window just left becomes the previous count when it is the window
/// immediately before; otherwise the previous count is zero.
pub open spec fn roll_window_spec(s: WindowCountsState, now: nat) -> WindowCountsState {
    let window_start = (now / s.window_size) * s.window_size;
    if window_start == s.current_window_start {
        s
    } else {
        WindowCountsState {
            previous_count: if window_start == s.current_window_start + s.window_size {
                s.current_count
            } else {
                0
            },
            current_window_start: window_start,
            current_count: 0,
            ..s
        }
    }
}

/// Seconds of the previous window that still overlap the sliding window
/// ending at `now`: `window_size - (now - current_window_start)`, both
/// subtractions saturating at zero.
pub open spec fn overlap_spec(s: WindowCountsState, now: nat) -> nat {
    let elapsed = if now >= s.current_window_start {
        (now - s.current_window_start) as nat
    } else {
        0nat
    };
    if s.window_size >= elapsed {
        (s.window_size - elapsed) as nat
    } else {
        0nat
    }
}

/// After rolling, the current window is the aligned window that holds `now`.
pub proof fn lemma_roll_window_holds_now(s: WindowCountsState, now: nat)
    requires
        s.window_size > 0,
    ensures
        roll_window_spec(s, now).current_window_start <= now < roll_window_spec(
            s,
            now,
        ).current_window_start + s.window_size,
        roll_window_spec(s, now).current_window_start % s.window_size == 0,
        roll_window_spec(s, now).window_size == s.window_size,
{
    lemma_floor_multiple(now, s.window_size);
}

/// What rolling keeps: within the same window nothing changes; moving to the
/// window right after the current one makes the requests recorded in the
/// window just left the previous count, whatever the previous count was
/// before; moving further ahead (or back) leaves no previous count. In every
/// move the new window starts with no requests.
pub proof fn lemma_roll_window_counts(s: WindowCountsState, now: nat)
    requires
        s.window_size > 0,
    ensures
        now / s.window_size * s.window_size == s.current_window_start ==> roll_window_spec(s, now)
            == s,
        now / s.window_size * s.window_size == s.current_window_start + s.window_size ==> {
            &&& roll_window_spec(s, now).previous_count == s.current_count
            &&& roll_window_spec(s, now).current_count == 0
            &&& roll_window_spec(s, now).current_window_start == s.current_window_start + s.window_size
        },
        now / s.window_size * s.window_size != s.current_window_start && now / s.window_size
            * s.window_size != s.current_window_start + s.window_size ==> {
            &&& roll_window_spec(s, now).previous_count == 0
            &&& roll_window_spec(s, now).current_count == 0
        },
{
}

pub struct SlidingWindowCounts {
    window_size_secs: u64,
    current_window_start: u64,
    current_count: u64,
    previous_count: u64,
}

impl View for SlidingWindowCounts {
    type V = WindowCountsState;

    closed spec fn view(&self) -> WindowCountsState {
        WindowCountsState {
            window_size: self.window_size_secs as nat,
            current_window_start: self.current_window_start as nat,
            current_count: self.current_count as nat,
            previous_count: self.previous_count as nat,
        }
    }
}

impl SlidingWindowCounts {
    pub fn new(window_size_secs: u64) -> (s: Self)
        ensures
            s@ == (WindowCountsState {
                window_size: window_size_secs as nat,
                current_window_start: 0,
                current_count: 0,
                previous_count: 0,
            }),
    {
        Self { window_size_secs, current_window_start: 0, current_count: 0, previous_count: 0 }
    }

    /// Moves to the window that holds `now_secs`.
    pub fn roll_window(&mut self, now_secs: u64)
        requires
            old(self)@.window_size > 0,
            (now_secs as nat / old(self)@.window_size) * old(self)@.window_size
                != old(self)@.current_window_start ==> old(self)@.current_window_start
                + old(self)@.window_size <= u64::MAX,
        ensures
            final(self)@ == roll_window_spec(old(self)@, now_secs as nat),
    {
        proof {
            lemma_floor_multiple(now_secs as nat, self.window_size_secs as nat);
        }
        let window_start = (now_secs / self.window_size_secs) * self.window_size_secs;
        if window_start == self.current_window_start {
            return;
        }
        if window_start == self.current_window_start + self.window_size_secs {
            self.previous_count = self.current_count;
        } else {
            self.previous_count = 0;
        }
        self.current_window_start = window_start;
        self.current_count = 0;
    }

    /// Counts one admitted request in the current window.
    pub fn record_request(&mut self)
        requires
            old(self)@.current_count < u64::MAX,
        ensures
            final(self)@ == (WindowCountsState {
                current_count: old(self)@.current_count + 1,
                ..old(self)@
            }),
    {
        self.current_count = self.current_count + 1;
    }

    /// Seconds of the previous window still inside the sliding window at `now_secs`.
    pub fn overlap_secs(&self, now_secs: u64) -> (overlap: u64)
        ensures
            overlap as nat == overlap_spec(self@, now_secs as nat),
    {
        let elapsed = now_secs.saturating_sub(self.current_window_start);
        self.window_size_secs.saturating_sub(elapsed)
    }

    pub fn current_count(&self) -> (count: u64)
        ensures
            count as nat == self@.current_count,
    {
        self.current_count
    }

    pub fn previous_count(&self) -> (count: u64)
        ensures
            count as nat == self@.previous_count,
    {
        self.previous_count
    }

    pub fn window_size_secs(&self) -> (size: u64)
        ensures
            size as nat == self@.window_size,
    {
        self.window_size_secs
    }

    pub fn current_window_start(&self) -> (start: u64)
        ensures
            start as nat == self@.current_window_start,
    {
        self.current_window_start
    }
}

} // verus!
