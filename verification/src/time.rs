//! Points in time and spans of time, to the nanosecond.
use vstd::prelude::*;

verus! {

/// The number of nanoseconds in a second.
pub const NANOS_PER_SEC: u32 = 1_000_000_000;

/// A span of time, as whole seconds and a part of a second in nanoseconds.
#[derive(Clone, Copy, Debug, PartialEq, Eq, Structural)]
pub struct Duration {
    secs: u64,
    nanos: u32,
}

/// A point in time on the Unix time scale, before or after the epoch.
#[derive(Clone, Copy, Debug, PartialEq, Eq, Structural)]
pub struct Timestamp {
    secs: i64,
    nanos: u32,
}

impl View for Duration {
    type V = int;

    /// The span in nanoseconds.
    closed spec fn view(&self) -> int {
        self.secs * NANOS_PER_SEC + self.nanos
    }
}

impl View for Timestamp {
    type V = int;

    /// The nanoseconds between the epoch and this point, negative before it.
    closed spec fn view(&self) -> int {
        self.secs * NANOS_PER_SEC + self.nanos
    }
}

/// How long `then` lies before `now`; nothing where it does not.
pub open spec fn age_at(now: int, then: int) -> int {
    if now > then {
        now - then
    } else {
        0
    }
}

impl Duration {
    #[verifier::type_invariant]
    spec fn is_normal(self) -> bool {
        self.nanos < NANOS_PER_SEC
    }

    /// The span of `secs` seconds and `nanos` nanoseconds, where the latter are
    /// less than a second.
    pub fn new(secs: u64, nanos: u32) -> (r: Option<Duration>)
        ensures
            match r {
                Some(d) => nanos < NANOS_PER_SEC && d@ == secs * NANOS_PER_SEC + nanos,
                None => nanos >= NANOS_PER_SEC,
            },
    {
        if nanos < NANOS_PER_SEC {
            Some(Duration { secs, nanos })
        } else {
            None
        }
    }

    /// The empty span.
    pub fn zero() -> (r: Duration)
        ensures
            r@ == 0,
    {
        Duration { secs: 0, nanos: 0 }
    }

    /// The span of `secs` seconds.
    pub fn from_secs(secs: u64) -> (r: Duration)
        ensures
            r@ == secs * NANOS_PER_SEC,
    {
        Duration { secs, nanos: 0 }
    }

    /// The span of `millis` milliseconds.
    pub fn from_millis(millis: u64) -> (r: Duration)
        ensures
            r@ == millis * 1_000_000,
    {
        Duration { secs: millis / 1000, nanos: (millis % 1000) as u32 * 1_000_000 }
    }

    /// Whether this span is at least as long as `other`.
    pub fn at_least(&self, other: &Duration) -> (r: bool)
        ensures
            r == (self@ >= other@),
    {
        proof {
            use_type_invariant(self);
            use_type_invariant(other);
        }
        self.secs > other.secs || (self.secs == other.secs && self.nanos >= other.nanos)
    }
}

impl Timestamp {
    #[verifier::type_invariant]
    spec fn is_normal(self) -> bool {
        self.nanos < NANOS_PER_SEC
    }

    /// The point that lies `secs` seconds, which may be negative, and then
    /// `nanos` nanoseconds behind the epoch, where the latter are less than a
    /// second.
    pub fn new(secs: i64, nanos: u32) -> (r: Option<Timestamp>)
        ensures
            match r {
                Some(t) => nanos < NANOS_PER_SEC && t@ == secs * NANOS_PER_SEC + nanos,
                None => nanos >= NANOS_PER_SEC,
            },
    {
        if nanos < NANOS_PER_SEC {
            Some(Timestamp { secs, nanos })
        } else {
            None
        }
    }

    /// The epoch.
    pub fn unix_epoch() -> (r: Timestamp)
        ensures
            r@ == 0,
    {
        Timestamp { secs: 0, nanos: 0 }
    }

    /// The whole seconds between the epoch and this point, rounded down.
    pub fn secs(&self) -> (r: i64)
        ensures
            r == self@ / (NANOS_PER_SEC as int),
    {
        proof {
            use_type_invariant(self);
        }
        self.secs
    }

    /// The nanoseconds of this point behind its whole second.
    pub fn subsec_nanos(&self) -> (r: u32)
        ensures
            r == self@ % (NANOS_PER_SEC as int),
    {
        proof {
            use_type_invariant(self);
        }
        self.nanos
    }

    /// Whether this point lies before `other`.
    pub fn is_before(&self, other: &Timestamp) -> (r: bool)
        ensures
            r == (self@ < other@),
    {
        proof {
            use_type_invariant(self);
            use_type_invariant(other);
        }
        self.secs < other.secs || (self.secs == other.secs && self.nanos < other.nanos)
    }

    /// How long `earlier` lies before this point; the empty span where it does
    /// not.
    pub fn duration_since(&self, earlier: &Timestamp) -> (r: Duration)
        ensures
            r@ == age_at(self@, earlier@),
            self@ > earlier@ ==> r@ == self@ - earlier@,
            self@ <= earlier@ ==> r@ == 0,
    {
        proof {
            use_type_invariant(self);
            use_type_invariant(earlier);
        }
        if !earlier.is_before(self) {
            return Duration::zero();
        }
        let secs: i128 = self.secs as i128 - earlier.secs as i128;
        if self.nanos >= earlier.nanos {
            Duration { secs: secs as u64, nanos: self.nanos - earlier.nanos }
        } else {
            Duration {
                secs: (secs - 1) as u64,
                nanos: NANOS_PER_SEC - (earlier.nanos - self.nanos),
            }
        }
    }
}

}
