//! Latency statistics: the sum of the samples and their count.

use vstd::prelude::*;

verus! {

/// The total and the number of latency samples, in microseconds.
pub struct TimingStats {
    total_time_micros: u128,
    count: u64,
}

impl TimingStats {
    /// The sum of the samples.
    pub closed spec fn total(&self) -> nat {
        self.total_time_micros as nat
    }

    /// The number of samples.
    pub closed spec fn samples(&self) -> nat {
        self.count as nat
    }

    /// No sample yet.
    pub fn new() -> (s: TimingStats)
        ensures
            s.total() == 0,
            s.samples() == 0,
    {
        TimingStats { total_time_micros: 0, count: 0 }
    }

    /// Whether one more sample of `elapsed_micros` keeps both counters in
    /// range.
    pub fn can_add(&self, elapsed_micros: u128) -> (r: bool)
        ensures
            r == (self.total() + elapsed_micros <= u128::MAX && self.samples() < u64::MAX),
    {
        elapsed_micros <= u128::MAX - self.total_time_micros && self.count < u64::MAX
    }

    /// Records one sample.
    pub fn add_sample(&mut self, elapsed_micros: u128)
        requires
            old(self).total() + elapsed_micros <= u128::MAX,
            old(self).samples() < u64::MAX,
        ensures
            final(self).total() == old(self).total() + elapsed_micros,
            final(self).samples() == old(self).samples() + 1,
    {
        self.total_time_micros += elapsed_micros;
        self.count += 1;
    }

    /// The sum of the samples.
    pub fn total_time_micros(&self) -> (t: u128)
        ensures
            t == self.total(),
    {
        self.total_time_micros
    }

    /// The number of samples.
    pub fn count(&self) -> (c: u64)
        ensures
            c == self.samples(),
    {
        self.count
    }

    /// The dividend and divisor of the mean sample: `None` before the first
    /// sample, the total and the count after.
    pub fn average_parts(&self) -> (r: Option<(u128, u64)>)
        ensures
            r == (if self.samples() == 0 {
                None
            } else {
                Some((self.total() as u128, self.samples() as u64))
            }),
    {
        if self.count == 0 {
            None
        } else {
            Some((self.total_time_micros, self.count))
        }
    }
}

} // verus!
