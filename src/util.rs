use vstd::prelude::*;

verus! {

/// `x` limited to the closed range `[min, max]`; `min` wins when the range is empty.
pub open spec fn clamp_spec(x: int, min: int, max: int) -> int {
    if x < min {
        min
    } else if x > max {
        max
    } else {
        x
    }
}

/// Limits `x` to `[min, max]`.
pub fn clamp(x: i64, min: i64, max: i64) -> (r: i64)
    ensures
        r == clamp_spec(x as int, min as int, max as int),
        min <= max ==> min <= r <= max,
{
    if x < min {
        min
    } else if x > max {
        max
    } else {
        x
    }
}

/// Measures the time between successive frames. Times are microseconds on a
/// monotonic clock whose origin the caller chooses.
pub struct Timer {
    pub last: u64,
}

impl Default for Timer {
    fn default() -> (r: Self)
        ensures
            r.last == 0,
    {
        Timer { last: 0 }
    }
}

impl Timer {
    /// A timer whose last reading is `now`.
    pub fn new(now: u64) -> (r: Self)
        ensures
            r.last == now,
    {
        Timer { last: now }
    }

    /// Time elapsed since the previous reading (zero if the clock went
    /// backwards); `now` becomes the new reading.
    pub fn dt(&mut self, now: u64) -> (r: u64)
        ensures
            r == if now >= old(self).last { now - old(self).last } else { 0 },
            final(self).last == now,
    {
        let d: u64 = if now >= self.last { now - self.last } else { 0 };
        self.last = now;
        d
    }
}

} // verus!
