//! Points in time, in nanoseconds on a clock that never goes back.

use vstd::prelude::*;

verus! {

/// A millisecond, in nanoseconds.
pub const MILLISECOND: u64 = 1_000_000;

/// A second, in nanoseconds.
pub const SECOND: u64 = 1_000_000_000;

/// The time from `then` to `now`; none where `then` lies later.
pub open spec fn since(now: int, then: int) -> int {
    if now >= then {
        now - then
    } else {
        0
    }
}

/// The time from `then` to `now`; none where `then` lies later.
pub fn elapsed(now: u64, then: u64) -> (r: u64)
    ensures
        r == since(now as int, then as int),
{
    if now >= then {
        now - then
    } else {
        0
    }
}

/// Time passes: what is left of it once it is counted from `then` is added to `then`.
pub proof fn law_elapsed_adds_up(now: int, then: int)
    ensures
        now >= then ==> then + since(now, then) == now,
        now < then ==> since(now, then) == 0,
{
}

}
