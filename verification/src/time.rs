//! Points in time and spans of time, as whole nanoseconds.
//!
//! The library never reads a clock: whoever drives it passes the current [`Instant`] in.

use vstd::prelude::*;

verus! {

/// Nanoseconds in a millisecond.
pub const NANOS_PER_MILLI: u128 = 1_000_000;

/// Nanoseconds in a second.
pub const NANOS_PER_SEC: u128 = 1_000_000_000;

/// A span of time.
#[derive(Clone, Copy, Debug, PartialEq, Eq, Structural)]
pub struct Duration {
    /// Its length in nanoseconds.
    pub nanos: u128,
}

impl Duration {
    /// The empty span.
    pub fn zero() -> (span: Self)
        ensures
            span.nanos == 0,
    {
        Duration { nanos: 0 }
    }

    /// A span of whole milliseconds.
    pub fn from_millis(millis: u64) -> (span: Self)
        ensures
            span.nanos == millis * NANOS_PER_MILLI,
            span.nanos == millis * 1_000_000,
    {
        Duration { nanos: millis as u128 * NANOS_PER_MILLI }
    }

    /// A span of whole seconds.
    pub fn from_secs(secs: u64) -> (span: Self)
        ensures
            span.nanos == secs * NANOS_PER_SEC,
            span.nanos == secs * 1_000_000_000,
    {
        Duration { nanos: secs as u128 * NANOS_PER_SEC }
    }

    /// Whether the span is empty.
    pub fn is_zero(&self) -> (empty: bool)
        ensures
            empty == (self.nanos == 0),
    {
        self.nanos == 0
    }
}

/// A point on a monotonic clock, counted from an origin the caller chose.
#[derive(Clone, Copy, Debug, PartialEq, Eq, Structural)]
pub struct Instant {
    /// Nanoseconds since the origin.
    pub nanos: u128,
}

impl View for Instant {
    type V = Instant;

    open spec fn view(&self) -> Instant {
        *self
    }
}

/// How long before `now` the instant `earlier` was; zero when it is not before `now` at all.
pub open spec fn since(earlier: Instant, now: Instant) -> nat {
    if earlier.nanos <= now.nanos {
        (now.nanos - earlier.nanos) as nat
    } else {
        0
    }
}

impl Instant {
    /// The span from `earlier` to this instant, or the empty span when `earlier` is later.
    pub fn saturating_duration_since(&self, earlier: Instant) -> (span: Duration)
        ensures
            span.nanos == since(earlier, *self),
    {
        if earlier.nanos <= self.nanos {
            Duration { nanos: self.nanos - earlier.nanos }
        } else {
            Duration { nanos: 0 }
        }
    }

    /// The instant `span` earlier, or `None` when that lies before the origin.
    pub fn checked_sub(&self, span: Duration) -> (earlier: Option<Instant>)
        ensures
            earlier is Some <==> span.nanos <= self.nanos,
            earlier matches Some(at) ==> at.nanos == self.nanos - span.nanos,
    {
        if span.nanos <= self.nanos {
            Some(Instant { nanos: self.nanos - span.nanos })
        } else {
            None
        }
    }

    /// The instant `span` later.
    pub fn plus(&self, span: Duration) -> (later: Instant)
        requires
            self.nanos + span.nanos <= u128::MAX,
        ensures
            later.nanos == self.nanos + span.nanos,
    {
        Instant { nanos: self.nanos + span.nanos }
    }
}

/// The time since an instant, added to it, gives the present; an instant yet to come is no time ago.
pub proof fn elapsed_time_leads_to_the_present(earlier: Instant, now: Instant)
    ensures
        earlier.nanos <= now.nanos ==> earlier.nanos + since(earlier, now) == now.nanos,
        earlier.nanos > now.nanos ==> since(earlier, now) == 0,
{
}

} // verus!
