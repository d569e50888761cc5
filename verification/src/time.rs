//! Spans of time as whole seconds and nanoseconds.

use vstd::prelude::*;

verus! {

/// A span of time. `nanos` is below one second.
#[derive(Clone, Copy, Debug, PartialEq, Eq, PartialOrd, Ord, Hash, Structural)]
pub struct Duration {
    pub secs: u64,
    pub nanos: u32,
}

/// Nanoseconds in a second.
pub const NANOS_PER_SEC: u32 = 1_000_000_000;

impl Duration {
    /// The nanoseconds are below one second.
    pub open spec fn wf(self) -> bool {
        self.nanos < NANOS_PER_SEC
    }

    /// The span in nanoseconds.
    pub open spec fn spec_nanos(self) -> nat {
        self.secs as nat * 1_000_000_000 + self.nanos as nat
    }

    /// The span of that many nanoseconds, where the seconds fit 64 bits.
    pub open spec fn spec_of_nanos(n: nat) -> Duration {
        Duration { secs: (n / 1_000_000_000) as u64, nanos: (n % 1_000_000_000) as u32 }
    }

    /// The span of that many seconds.
    pub fn from_secs(secs: u64) -> (d: Duration)
        ensures
            d == (Duration { secs, nanos: 0 }),
            d.wf(),
            d.spec_nanos() == secs as nat * 1_000_000_000,
    {
        Duration { secs, nanos: 0 }
    }

    /// The span of that many nanoseconds.
    pub fn from_nanos(nanos: u64) -> (d: Duration)
        ensures
            d.wf(),
            d.spec_nanos() == nanos as nat,
            d == Self::spec_of_nanos(nanos as nat),
    {
        Duration { secs: nanos / 1_000_000_000, nanos: (nanos % 1_000_000_000) as u32 }
    }

    /// Whether the span is empty.
    pub fn is_zero(&self) -> (r: bool)
        ensures
            r == (self.secs == 0 && self.nanos == 0),
    {
        self.secs == 0 && self.nanos == 0
    }

    /// The sum, or `None` where its seconds do not fit 64 bits.
    pub fn checked_add(&self, other: &Duration) -> (sum: Option<Duration>)
        requires
            self.wf(),
            other.wf(),
        ensures
            match sum {
                Some(d) => d.wf() && d.spec_nanos() == self.spec_nanos() + other.spec_nanos(),
                None => self.spec_nanos() + other.spec_nanos() >= 0x1_0000_0000_0000_0000
                    * 1_000_000_000,
            },
    {
        let mut nanos: u32 = self.nanos + other.nanos;
        let carry: u64 = if nanos >= NANOS_PER_SEC {
            nanos = nanos - NANOS_PER_SEC;
            1
        } else {
            0
        };
        let wide: u128 = self.secs as u128 + other.secs as u128 + carry as u128;
        if wide > u64::MAX as u128 {
            None
        } else {
            Some(Duration { secs: wide as u64, nanos })
        }
    }

    /// The difference, or `None` where `other` is the longer span.
    pub fn checked_sub(&self, other: &Duration) -> (diff: Option<Duration>)
        requires
            self.wf(),
            other.wf(),
        ensures
            match diff {
                Some(d) => d.wf() && d.spec_nanos() + other.spec_nanos() == self.spec_nanos(),
                None => self.spec_nanos() < other.spec_nanos(),
            },
    {
        if self.secs < other.secs || (self.secs == other.secs && self.nanos < other.nanos) {
            None
        } else if self.nanos >= other.nanos {
            Some(Duration { secs: self.secs - other.secs, nanos: self.nanos - other.nanos })
        } else {
            Some(
                Duration {
                    secs: self.secs - other.secs - 1,
                    nanos: self.nanos + NANOS_PER_SEC - other.nanos,
                },
            )
        }
    }

}

/// Two well-formed spans of the same length are the same span.
pub proof fn lemma_duration_by_nanos(a: Duration, b: Duration)
    requires
        a.wf(),
        b.wf(),
        a.spec_nanos() == b.spec_nanos(),
    ensures
        a == b,
{
}

} // verus!
