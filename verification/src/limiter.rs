//! Rate-limiting algorithms driven by caller-supplied timestamps in seconds.
use vstd::prelude::*;

pub mod fixed_window;
pub mod sliding_window_counter;
pub mod sliding_window_log;

verus! {

/// The word printed for a limiter decision.
pub fn verdict(allowed: bool) -> (word: &'static str)
    ensures
        word@ == (if allowed { "allow"@ } else { "block"@ }),
{
    if allowed {
        "allow"
    } else {
        "block"
    }
}

} // verus!
