//! Points in time and spans between them.

use vstd::prelude::*;

verus! {

/// Nanoseconds in a millisecond.
pub const NANOS_PER_MILLI: u128 = 1_000_000;

/// First number of nanoseconds that a span cannot hold: 2^64 seconds.
pub const SPAN_BOUND: u128 = 18_446_744_073_709_551_616_000_000_000;

/// A span of time.
#[derive(Debug, Clone, Copy, PartialEq, Eq, Hash, Structural)]
pub struct Duration {
    nanos: u128,
}

/// A point in time, counted from an origin that all points share.
#[derive(Debug, Clone, Copy, PartialEq, Eq, Hash, Structural)]
pub struct Instant {
    /// Nanoseconds since the origin.
    pub nanos: u128,
}

impl Duration {
    #[verifier::type_invariant]
    spec fn below_bound(self) -> bool {
        self.nanos < SPAN_BOUND
    }

    /// The length in nanoseconds.
    pub closed spec fn spec_nanos(self) -> nat {
        self.nanos as nat
    }

    /// The span of the given number of nanoseconds.
    pub closed spec fn of_nanos(nanos: nat) -> Duration {
        Duration { nanos: nanos as u128 }
    }

    /// `of_nanos` and `spec_nanos` undo each other.
    pub broadcast proof fn lemma_of_nanos(nanos: nat)
        ensures
            nanos < SPAN_BOUND ==> (#[trigger] Duration::of_nanos(nanos)).spec_nanos() == nanos,
    {
    }

    /// `of_nanos` and `spec_nanos` undo each other.
    pub broadcast proof fn lemma_nanos_of(self)
        ensures
            Duration::of_nanos(#[trigger] self.spec_nanos()) == self,
    {
    }

    /// A span of whole seconds.
    pub fn from_secs(secs: u64) -> (d: Duration)
        ensures
            d.spec_nanos() == secs * 1_000_000_000,
    {
        Duration { nanos: secs as u128 * 1_000_000_000 }
    }

    /// A span of whole milliseconds.
    pub fn from_millis(millis: u64) -> (d: Duration)
        ensures
            d == Duration::of_nanos(millis as nat * NANOS_PER_MILLI as nat),
            d.spec_nanos() == millis * NANOS_PER_MILLI,
    {
        Duration { nanos: millis as u128 * NANOS_PER_MILLI }
    }

    /// A span of nanoseconds, unless it would reach 2^64 seconds.
    pub fn from_nanos(nanos: u128) -> (d: Option<Duration>)
        ensures
            nanos < SPAN_BOUND ==> d == Some(Duration::of_nanos(nanos as nat)),
            nanos >= SPAN_BOUND ==> d is None,
    {
        if nanos < SPAN_BOUND {
            Some(Duration { nanos })
        } else {
            None
        }
    }

    /// The length in nanoseconds.
    pub fn as_nanos(self) -> (n: u128)
        ensures
            n == self.spec_nanos(),
            n < SPAN_BOUND,
    {
        proof {
            use_type_invariant(&self);
        }
        self.nanos
    }

    /// The length in whole milliseconds.
    pub fn as_millis(self) -> (n: u128)
        ensures
            n == self.spec_nanos() / NANOS_PER_MILLI as nat,
    {
        self.nanos / NANOS_PER_MILLI
    }

    /// A third of the span, rounded down to whole nanoseconds.
    pub fn third(self) -> (d: Duration)
        ensures
            d == Duration::of_nanos(self.spec_nanos() / 3),
    {
        proof {
            use_type_invariant(&self);
        }
        Duration { nanos: self.nanos / 3 }
    }
}

impl Instant {
    /// Every span added to this point yields a point.
    pub open spec fn in_range(self) -> bool {
        self.nanos <= u128::MAX - SPAN_BOUND
    }

    /// The point that lies `d` later.
    pub open spec fn spec_after(self, d: Duration) -> Instant {
        Instant { nanos: (self.nanos + d.spec_nanos()) as u128 }
    }

    /// The point that lies `d` later.
    pub fn after(self, d: Duration) -> (t: Instant)
        requires
            self.in_range(),
        ensures
            t == self.spec_after(d),
            t.nanos == self.nanos + d.spec_nanos(),
    {
        let span: u128 = d.as_nanos();
        Instant { nanos: self.nanos + span }
    }
}

pub broadcast group group_time {
    Duration::lemma_of_nanos,
    Duration::lemma_nanos_of,
}

} // verus!
