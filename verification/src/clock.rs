use vstd::prelude::*;

verus! {

/// A clock measuring time in samples.
///
/// Every clock has a sampling rate; [SampleClock::tick] advances it by one sample.  Clocks cannot go
/// backward.
#[derive(Debug)]
pub struct SampleClock {
    /// Samples elapsed since the clock was made.
    pub sample_time: u64,
    /// The clock's sampling rate, in samples per second.
    pub sr: u64,
}

/// A timestamp in samples.  Timestamps do not keep the sampling rate, and are ordered by sample index.
#[derive(Clone, Copy, Debug, PartialEq, Eq, PartialOrd, Ord, Hash, Structural)]
pub struct SampleTimestamp {
    sample_time: u64,
}

impl SampleTimestamp {
    /// The sample index.
    pub closed spec fn sample(self) -> u64 {
        self.sample_time
    }

    /// The sample index of this timestamp.
    pub fn get_sample(&self) -> (r: u64)
        ensures
            r == self.sample(),
    {
        self.sample_time
    }
}

impl SampleClock {
    /// A clock at time zero for the sampling rate `sr`.
    pub fn new(sr: u64) -> (r: SampleClock)
        ensures
            r.sample_time == 0,
            r.sr == sr,
    {
        SampleClock { sample_time: 0, sr }
    }

    /// The current time.
    pub fn now(&self) -> (r: SampleTimestamp)
        ensures
            r.sample() == self.sample_time,
    {
        SampleTimestamp { sample_time: self.sample_time }
    }

    /// Advance this clock by one sample.
    pub fn tick(&mut self)
        requires
            old(self).sample_time < u64::MAX,
        ensures
            final(self).sample_time == old(self).sample_time + 1,
            final(self).sr == old(self).sr,
    {
        self.sample_time = self.sample_time + 1;
    }

    /// Advance this clock by `increment` samples, which must not be zero.
    pub fn tick_multiple(&mut self, increment: u64)
        requires
            increment != 0,
            old(self).sample_time + increment <= u64::MAX,
        ensures
            final(self).sample_time == old(self).sample_time + increment,
            final(self).sr == old(self).sr,
    {
        self.sample_time = self.sample_time + increment;
    }

    /// A clock at the same time and rate as this one, which advances separately.
    pub fn fork(&self) -> (r: SampleClock)
        ensures
            r.sample_time == self.sample_time,
            r.sr == self.sr,
    {
        SampleClock { sample_time: self.sample_time, sr: self.sr }
    }

    /// The next `count` timestamps, from now on, advancing the clock past them: the first is now, and the clock
    /// ends one past the last.
    pub fn iter(&mut self, count: usize) -> (r: Vec<SampleTimestamp>)
        requires
            old(self).sample_time + count <= u64::MAX,
        ensures
            r@.len() == count,
            forall|i: int| 0 <= i < count ==> #[trigger] r@[i].sample() == old(self).sample_time + i,
            final(self).sample_time == old(self).sample_time + count,
            final(self).sr == old(self).sr,
    {
        let mut r: Vec<SampleTimestamp> = Vec::new();
        let mut i: usize = 0;
        while i < count
            invariant
                i <= count,
                r@.len() == i,
                self.sample_time == old(self).sample_time + i,
                self.sr == old(self).sr,
                old(self).sample_time + count <= u64::MAX,
                forall|j: int| 0 <= j < i ==> #[trigger] r@[j].sample() == old(self).sample_time + j,
            decreases count - i,
        {
            r.push(self.now());
            self.tick();
            i = i + 1;
        }
        r
    }

    /// The indices `start..end`, advancing the clock by one sample for each.
    pub fn iter_usize(&mut self, start: usize, end: usize) -> (r: Vec<usize>)
        requires
            start <= end ==> old(self).sample_time + (end - start) <= u64::MAX,
        ensures
            r@.len() == if start <= end { end - start } else { 0 },
            forall|i: int| 0 <= i < r@.len() ==> #[trigger] r@[i] == start + i,
            final(self).sample_time == old(self).sample_time + r@.len(),
            final(self).sr == old(self).sr,
    {
        let mut r: Vec<usize> = Vec::new();
        if start >= end {
            return r;
        }
        let mut x: usize = start;
        while x < end
            invariant
                start <= x <= end,
                r@.len() == x - start,
                self.sample_time == old(self).sample_time + (x - start),
                self.sr == old(self).sr,
                old(self).sample_time + (end - start) <= u64::MAX,
                forall|i: int| 0 <= i < r@.len() ==> #[trigger] r@[i] == start + i,
            decreases end - x,
        {
            r.push(x);
            self.tick();
            x = x + 1;
        }
        r
    }

    /// Hand back `items` unchanged, advancing the clock by one sample for each.
    pub fn tie_iter<T>(&mut self, items: Vec<T>) -> (r: Vec<T>)
        requires
            old(self).sample_time + items@.len() <= u64::MAX,
        ensures
            r@ == items@,
            final(self).sample_time == old(self).sample_time + items@.len(),
            final(self).sr == old(self).sr,
    {
        let n = items.len();
        let mut i: usize = 0;
        while i < n
            invariant
                i <= n,
                n == items@.len(),
                self.sample_time == old(self).sample_time + i,
                self.sr == old(self).sr,
                old(self).sample_time + n <= u64::MAX,
            decreases n - i,
        {
            self.tick();
            i = i + 1;
        }
        items
    }
}

} // verus!
