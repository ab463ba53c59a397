//! Wall-clock instants as plain integers.

use vstd::prelude::*;

verus! {

/// Nanoseconds in one second.
pub const NANOS_PER_SECOND: i128 = 1_000_000_000;

/// Nanoseconds in one minute.
pub const NANOS_PER_MINUTE: i128 = 60_000_000_000;

/// Bound on the distance of a representable instant from the Unix epoch,
/// in nanoseconds (a whole number of hours, roughly 114 million years).
pub const MOMENT_LIMIT: i128 = 3_600_000_000_000_000_000_000_000;

/// An instant of wall-clock time in UTC, as nanoseconds since the Unix epoch.
#[derive(Clone, Copy, Debug, PartialEq, Eq, Structural)]
pub struct Moment {
    pub unix_nanos: i128,
}

impl Moment {
    /// The instant lies within the representable range.
    pub open spec fn wf(self) -> bool {
        -MOMENT_LIMIT <= self.unix_nanos <= MOMENT_LIMIT
    }

    /// Minute within the hour (0 to 59) at this instant, in UTC.
    pub open spec fn minute_spec(self) -> int {
        (self.unix_nanos as int / NANOS_PER_MINUTE as int) % 60
    }

    /// Whole seconds from `self` until `later`, rounded toward zero.
    pub open spec fn whole_seconds_until(self, later: Moment) -> int {
        (later.unix_nanos - self.unix_nanos) as int / NANOS_PER_SECOND as int
    }

    pub fn from_unix_nanos(unix_nanos: i128) -> (m: Option<Moment>)
        ensures
            match m {
                Some(m) => m.unix_nanos == unix_nanos && m.wf(),
                None => !(-MOMENT_LIMIT <= unix_nanos <= MOMENT_LIMIT),
            },
    {
        if -MOMENT_LIMIT <= unix_nanos && unix_nanos <= MOMENT_LIMIT {
            Some(Moment { unix_nanos })
        } else {
            None
        }
    }

    /// Minute within the hour at this instant, in UTC.
    pub fn minute(&self) -> (m: u8)
        requires
            self.wf(),
        ensures
            m as int == self.minute_spec(),
            m < 60,
    {
        let shifted: u128 = (self.unix_nanos + MOMENT_LIMIT) as u128;
        let r: u128 = (shifted / (NANOS_PER_MINUTE as u128)) % 60;
        proof {
            let n = self.unix_nanos as int;
            let d = NANOS_PER_MINUTE as int;
            let k: int = 60_000_000_000_000int;
            assert(MOMENT_LIMIT as int == k * d);
            vstd::arithmetic::div_mod::lemma_hoist_over_denominator(n, k, d as nat);
            vstd::arithmetic::div_mod::lemma_mod_multiples_vanish(1_000_000_000_000, n / d, 60);
        }
        r as u8
    }
}

} // verus!
