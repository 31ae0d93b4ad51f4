//! The wall clock.

use vstd::prelude::*;

verus! {

/// A reading of the wall clock: seconds since the Unix epoch, and the
/// nanoseconds into that second.
#[derive(Debug, Clone, Copy, PartialEq, Eq)]
pub struct Instant {
    pub sec: i64,
    pub nsec: i32,
}

/// The nanoseconds in one second.
pub const NANOS_PER_SEC: i32 = 1_000_000_000;

/// Reads the clock with `time::now_utc` and hands the reading on as
/// `Tm::to_timespec` gives it: seconds, then nanoseconds.
///
/// Trusted: that the nanoseconds lie within one second. `to_timespec` builds
/// its result with `Timespec::new`, which asserts just that, and the
/// nanoseconds it is given are those of the reading that `now_utc` took,
/// built the same way. No clause says what the clock shows, and two readings
/// need not be in order.
#[verifier::external_body]
fn read_clock() -> (reading: (i64, i32))
    ensures
        0 <= reading.1 < NANOS_PER_SEC,
{
    let at = time::now_utc().to_timespec();
    (at.sec, at.nsec)
}

/// The milliseconds from `start` to `end`, fractions dropped, so that a
/// span of less than a millisecond is none, forwards or backwards; `None`
/// where `end` is a millisecond or more before `start`.
pub open spec fn millis_between(start: Instant, end: Instant) -> Option<int> {
    let nanos = (end.sec - start.sec) * 1_000_000_000 + (end.nsec - start.nsec);
    if nanos <= -1_000_000 {
        None
    } else if nanos < 0 {
        Some(0)
    } else {
        Some(nanos / 1_000_000)
    }
}

/// The time that a cycle took, as the scheduler counts it: the milliseconds
/// from `start` to `end`. A clock that went back by a millisecond or more,
/// or a span that does not fit, counts as the longest span there is, so that
/// the scheduler takes the cycle for an overrun.
pub open spec fn elapsed_of(start: Instant, end: Instant) -> u64 {
    match millis_between(start, end) {
        Some(ms) if ms <= u64::MAX => ms as u64,
        _ => u64::MAX,
    }
}

impl Instant {
    /// Whether the nanoseconds lie within one second, so that the instant is
    /// written in one way only.
    pub open spec fn is_normal(self) -> bool {
        0 <= self.nsec < NANOS_PER_SEC
    }

    /// The present reading of the clock. Whatever the clock shows, the
    /// reading is normal.
    pub fn now() -> (at: Instant)
        ensures
            at.is_normal(),
    {
        let (sec, nsec) = read_clock();
        Instant { sec, nsec }
    }

    /// The time from `self` to `end`, in milliseconds.
    pub fn elapsed_until(&self, end: &Instant) -> (ms: u64)
        ensures
            ms == elapsed_of(*self, *end),
    {
        let nanos: i128 = (end.sec as i128 - self.sec as i128) * 1_000_000_000 + (end.nsec as i128
            - self.nsec as i128);
        if nanos <= -1_000_000 {
            return u64::MAX;
        }
        if nanos < 0 {
            return 0;
        }
        let ms: i128 = nanos / 1_000_000;
        if ms > u64::MAX as i128 {
            u64::MAX
        } else {
            ms as u64
        }
    }
}

} // verus!
