//! How long the game loop takes from one turn to the next.

use crate::ratio::Ratio;
use std::time::{Duration, Instant};
use vstd::prelude::*;

verus! {

/// `std::time::Instant`: a reading of the monotonic clock. Nothing is known
/// of what it holds.
#[verifier::external_type_specification]
#[verifier::external_body]
pub struct ExInstant(Instant);

/// The instant of the call, read by `Instant::now`. Nothing is claimed of
/// it.
#[verifier::external_body]
fn instant_now() -> Instant {
    Instant::now()
}

/// The time since `origin`, read by `Instant::elapsed`. Nothing is claimed
/// of it.
#[verifier::external_body]
fn elapsed_since(origin: &Instant) -> Duration {
    origin.elapsed()
}

/// The whole nanoseconds of a duration, by `Duration::as_nanos`. Nothing is
/// claimed of them.
#[verifier::external_body]
fn whole_nanos(d: &Duration) -> u128 {
    d.as_nanos()
}

/// How many readings the meter keeps.
pub const WINDOW: usize = 100;

/// The readings after one more: the new one is the last, and of more than
/// [`WINDOW`] the first is dropped.
pub open spec fn recorded(ticks: Seq<u64>, now: u64) -> Seq<u64> {
    if ticks.len() >= WINDOW {
        ticks.push(now).drop_first()
    } else {
        ticks.push(now)
    }
}

/// The mean time between the readings, in milliseconds: the time from the
/// first to the last over the number of readings, and zero where there are
/// fewer than two or the last is before the first.
pub open spec fn mean_latency(ticks: Seq<u64>) -> Ratio {
    if ticks.len() < 2 || ticks.last() < ticks[0] {
        Ratio { num: 0, den: 1 }
    } else {
        Ratio { num: (ticks.last() - ticks[0]) as i128, den: (ticks.len() * 1_000_000) as i128 }
    }
}

/// Measures the mean time between the turns of a loop over its last turns.
pub struct LatencyMeter {
    count: u64,
    origin: Instant,
    ticks: Vec<u64>,
}

impl LatencyMeter {
    /// The readings that are kept, in nanoseconds since the meter was made.
    pub closed spec fn spec_ticks(&self) -> Seq<u64> {
        self.ticks@
    }

    /// How many readings were taken, as far as a `u64` counts.
    pub closed spec fn spec_count(&self) -> u64 {
        self.count
    }

    /// What every meter keeps: no more than [`WINDOW`] readings.
    pub open spec fn wf(&self) -> bool {
        self.spec_ticks().len() <= WINDOW
    }

    pub fn new() -> (r: Self)
        ensures
            r.wf(),
            r.spec_ticks().len() == 0,
            r.spec_count() == 0,
    {
        LatencyMeter { count: 0, origin: instant_now(), ticks: Vec::new() }
    }

    /// Takes the reading `now`.
    pub fn record(&mut self, now: u64)
        requires
            old(self).wf(),
        ensures
            final(self).wf(),
            final(self).spec_ticks() == recorded(old(self).spec_ticks(), now),
            final(self).spec_count() == if old(self).spec_count() < u64::MAX {
                (old(self).spec_count() + 1) as u64
            } else {
                u64::MAX
            },
    {
        if self.count < u64::MAX {
            self.count += 1;
        }
        self.ticks.push(now);
        if self.ticks.len() > WINDOW {
            self.ticks.remove(0);
            proof {
                assert(self.ticks@ =~= old(self).ticks@.push(now).drop_first());
            }
        }
    }

    /// Takes a reading of the clock: the whole nanoseconds since the meter
    /// was made, as far as a `u64` counts. Whatever the clock says, the
    /// readings are those of before and the new one, as [`recorded`] says.
    pub fn tick(&mut self)
        requires
            old(self).wf(),
        ensures
            final(self).wf(),
            exists|now: u64| final(self).spec_ticks() == recorded(old(self).spec_ticks(), now),
            final(self).spec_count() == if old(self).spec_count() < u64::MAX {
                (old(self).spec_count() + 1) as u64
            } else {
                u64::MAX
            },
    {
        let passed = elapsed_since(&self.origin);
        let nanos: u128 = whole_nanos(&passed);
        let now: u64 = if nanos > u64::MAX as u128 {
            u64::MAX
        } else {
            nanos as u64
        };
        self.record(now);
    }

    /// The readings that are kept.
    pub fn ticks(&self) -> (r: &Vec<u64>)
        ensures
            r@ == self.spec_ticks(),
    {
        &self.ticks
    }

    /// The mean time between the readings, in milliseconds.
    pub fn latency_ms(&self) -> (r: Ratio)
        requires
            self.wf(),
        ensures
            r == mean_latency(self.spec_ticks()),
            r.wf(),
    {
        let n: usize = self.ticks.len();
        if n < 2 {
            return Ratio { num: 0, den: 1 };
        }
        let first: u64 = self.ticks[0];
        let last: u64 = self.ticks[n - 1];
        if last < first {
            Ratio { num: 0, den: 1 }
        } else {
            Ratio { num: (last - first) as i128, den: (n as i128) * 1_000_000 }
        }
    }
}

} // verus!
