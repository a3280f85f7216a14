//! Time as the library sees it: milliseconds on a clock that does not run
//! backwards, read by the program around the library and handed in.
use vstd::prelude::*;

verus! {

/// The time that has passed since `then`; none if `then` lies ahead.
pub open spec fn age(now: u64, then: u64) -> int {
    if now >= then {
        now - then
    } else {
        0
    }
}

/// Whether `then` lies at least `span` before `now`.
pub fn has_aged(now: u64, then: u64, span: u64) -> (aged: bool)
    ensures
        aged == (age(now, then) >= span),
{
    if now >= then {
        now - then >= span
    } else {
        span == 0
    }
}

} // verus!
