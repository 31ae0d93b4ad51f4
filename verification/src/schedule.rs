//! Pacing of the routing cycles: how long to rest after a cycle, in naps
//! short enough that a request to stop is seen soon.

use crate::clock::{elapsed_of, Instant};
use vstd::prelude::*;

verus! {

/// The length of one nap, in milliseconds, and the shortest rest between two
/// cycles.
pub const REST_TIME: u64 = 10;

/// The rest after a cycle that took `elapsed` milliseconds, with a target
/// period of `scan_period` milliseconds: what is left of the period, and at
/// least [`REST_TIME`], also where the cycle overran the period.
pub open spec fn rest_of(scan_period: u64, elapsed: u64) -> u64 {
    if elapsed > scan_period {
        REST_TIME
    } else if scan_period - elapsed > REST_TIME {
        (scan_period - elapsed) as u64
    } else {
        REST_TIME
    }
}

/// The number of naps that make up the rest: whole naps only.
pub open spec fn naps_of(scan_period: u64, elapsed: u64) -> u64 {
    rest_of(scan_period, elapsed) / REST_TIME
}

/// Computes [`rest_of`].
pub fn rest(scan_period: u64, elapsed: u64) -> (ms: u64)
    ensures
        ms == rest_of(scan_period, elapsed),
        ms >= REST_TIME,
        ms <= scan_period || ms == REST_TIME,
{
    if elapsed > scan_period {
        REST_TIME
    } else if scan_period - elapsed > REST_TIME {
        scan_period - elapsed
    } else {
        REST_TIME
    }
}

/// Computes [`naps_of`].
pub fn naps(scan_period: u64, elapsed: u64) -> (n: u64)
    ensures
        n == naps_of(scan_period, elapsed),
        n >= 1,
{
    rest(scan_period, elapsed) / REST_TIME
}

/// The naps to take after a cycle that started at `start`, by the clock as
/// it stands now.
pub fn naps_since(scan_period: u64, start: &Instant) -> (n: u64)
    ensures
        n >= 1,
        exists|end: Instant| n == naps_of(scan_period, elapsed_of(*start, end)),
{
    let end = Instant::now();
    naps(scan_period, start.elapsed_until(&end))
}

/// What the scheduler does next.
#[derive(Debug, Clone, Copy, PartialEq, Eq)]
pub enum Step {
    /// Run a routing cycle.
    Route,
    /// Sleep for [`REST_TIME`] milliseconds.
    Nap,
    /// Return: a stop was requested.
    Stop,
}

/// The scheduler's state: the naps still to take before the next cycle.
///
/// A cycle is followed by at least one nap, and a request to stop is looked
/// at after each nap and at no other time: none is seen while a cycle runs.
pub struct Pacer {
    scan_period: u64,
    left: u64,
}

impl Pacer {
    /// The target period, in milliseconds.
    pub closed spec fn period(self) -> u64 {
        self.scan_period
    }

    /// The naps still to take before the next cycle.
    pub closed spec fn pending(self) -> u64 {
        self.left
    }

    /// A scheduler that has not started yet.
    pub fn new(scan_period: u64) -> (pacer: Pacer)
        ensures
            pacer.period() == scan_period,
            pacer.pending() == 0,
    {
        Pacer { scan_period, left: 0 }
    }

    /// Starts the scheduler. The first step is a cycle: no nap comes before
    /// it, and no request to stop is looked at before it has run.
    pub fn start(&mut self) -> (step: Step)
        ensures
            step == Step::Route,
            final(self).period() == old(self).period(),
            final(self).pending() == 0,
    {
        self.left = 0;
        Step::Route
    }

    /// Records that a cycle has ended which took `elapsed` milliseconds,
    /// whether it failed or not. The next step is a nap.
    pub fn routed(&mut self, elapsed: u64) -> (step: Step)
        ensures
            step == Step::Nap,
            final(self).period() == old(self).period(),
            final(self).pending() == naps_of(old(self).period(), elapsed),
            final(self).pending() >= 1,
    {
        self.left = naps(self.scan_period, elapsed);
        Step::Nap
    }

    /// Records that a nap has ended, and whether a stop had been requested
    /// by then.
    pub fn napped(&mut self, stop: bool) -> (step: Step)
        ensures
            final(self).period() == old(self).period(),
            stop ==> step == Step::Stop && final(self).pending() == old(self).pending(),
            !stop && old(self).pending() > 1 ==> step == Step::Nap && final(self).pending()
                == old(self).pending() - 1,
            !stop && old(self).pending() <= 1 ==> step == Step::Route && final(self).pending()
                == 0,
    {
        if stop {
            Step::Stop
        } else if self.left > 1 {
            self.left = self.left - 1;
            Step::Nap
        } else {
            self.left = 0;
            Step::Route
        }
    }
}

/// The rest is never shorter than one nap, never longer than the period
/// where the period is at least a nap, and the naps never add up to more
/// than the rest.
pub proof fn lemma_rest_bounds(scan_period: u64, elapsed: u64)
    ensures
        rest_of(scan_period, elapsed) >= REST_TIME,
        scan_period >= REST_TIME ==> rest_of(scan_period, elapsed) <= scan_period,
        naps_of(scan_period, elapsed) >= 1,
        naps_of(scan_period, elapsed) * REST_TIME <= rest_of(scan_period, elapsed),
        rest_of(scan_period, elapsed) - naps_of(scan_period, elapsed) * REST_TIME < REST_TIME,
{
}

/// A cycle that runs longer rests no longer.
pub proof fn lemma_rest_monotone(scan_period: u64, fast: u64, slow: u64)
    requires
        fast <= slow,
    ensures
        rest_of(scan_period, slow) <= rest_of(scan_period, fast),
        naps_of(scan_period, slow) <= naps_of(scan_period, fast),
{
}

} // verus!
