use vstd::prelude::*;

verus! {

/// A non-negative span of simulated time `t`, held as its whole seconds
/// (`whole <= t < whole + 1`) and whether anything is left over past them
/// (`t == whole` exactly when `has_fraction` is false).
///
/// That is all a comparison of `t` with a whole number of seconds needs, and
/// every limit of the challenges is a whole number of seconds.
#[derive(Clone, Copy, Debug, PartialEq, Eq)]
pub struct Seconds {
    pub whole: u32,
    pub has_fraction: bool,
}

impl Seconds {
    /// `t >= limit`.
    pub open spec fn reaches(self, limit: u32) -> bool {
        self.whole >= limit
    }

    /// `t <= limit`.
    pub open spec fn stays_within(self, limit: u32) -> bool {
        self.whole < limit || (self.whole == limit && !self.has_fraction)
    }

    pub fn new(whole: u32, has_fraction: bool) -> (s: Seconds)
        ensures
            s == (Seconds { whole, has_fraction }),
    {
        Seconds { whole, has_fraction }
    }

    /// Whether `t >= limit`.
    pub fn at_least(&self, limit: u32) -> (r: bool)
        ensures
            r == self.reaches(limit),
    {
        self.whole >= limit
    }

    /// Whether `t <= limit`.
    pub fn at_most(&self, limit: u32) -> (r: bool)
        ensures
            r == self.stays_within(limit),
    {
        self.whole < limit || (self.whole == limit && !self.has_fraction)
    }
}

/// A span of time is always at least or at most a whole number of seconds,
/// and both exactly when it is that number.
pub proof fn seconds_compare_totally(t: Seconds, limit: u32)
    ensures
        t.reaches(limit) || t.stays_within(limit),
        (t.reaches(limit) && t.stays_within(limit)) <==> (t.whole == limit && !t.has_fraction),
{
}

/// What the end conditions of a challenge look at.
#[derive(Clone, Copy, Debug)]
pub struct Stats {
    pub transported_count: u32,
    pub move_count: u32,
    pub elapsed_time: Seconds,
    pub max_wait_time: Seconds,
}

} // verus!
