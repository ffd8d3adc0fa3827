//! Spans of time and moments on a monotonic clock, as whole nanoseconds.
//!
//! The router measures idleness and ages with a monotonic clock. What it
//! decides from them is arithmetic on two numbers, so the decisions take the
//! numbers: a moment is how long after the clock's own origin something
//! happened, and a span is how long something lasts.

use vstd::prelude::*;

verus! {

/// Nanoseconds in one second.
pub const NANOS_PER_SECOND: u64 = 1_000_000_000;

/// How long something lasts: whole seconds and the nanoseconds beyond them.
#[derive(Debug, Clone, Copy, PartialEq, Eq)]
pub struct Span {
    secs: u64,
    nanos: u32,
}

impl Span {
    /// The span in nanoseconds.
    pub closed spec fn total(self) -> nat {
        self.secs as nat * 1_000_000_000 + self.nanos as nat
    }

    /// The span in whole seconds, any part of a second dropped.
    pub closed spec fn whole_secs(self) -> nat {
        self.secs as nat
    }

    /// A span's nanoseconds beyond its seconds are less than a second.
    pub closed spec fn well_formed(self) -> bool {
        self.nanos < 1_000_000_000
    }

    /// A span is at most every second a `u64` counts, and a `u32` of
    /// nanoseconds more.
    pub proof fn lemma_total_bound(self)
        ensures
            self.total() <= u64::MAX as nat * 1_000_000_000 + u32::MAX as nat,
    {
    }

    /// No time at all.
    pub fn zero() -> (s: Self)
        ensures
            s.total() == 0,
            s.whole_secs() == 0,
            s.well_formed(),
    {
        Span { secs: 0, nanos: 0 }
    }

    /// A span of whole seconds.
    pub fn from_secs(secs: u64) -> (s: Self)
        ensures
            s.total() == secs as nat * 1_000_000_000,
            s.whole_secs() == secs,
            s.well_formed(),
    {
        Span { secs, nanos: 0 }
    }

    /// A span of whole milliseconds.
    pub fn from_millis(millis: u64) -> (s: Self)
        ensures
            s.total() == millis as nat * 1_000_000,
            s.whole_secs() == millis as nat / 1000,
            s.well_formed(),
    {
        let s = Span { secs: millis / 1000, nanos: ((millis % 1000) * 1_000_000) as u32 };
        assert(s.total() == millis as nat * 1_000_000) by (nonlinear_arith)
            requires
                s.secs == millis / 1000,
                s.nanos == (millis % 1000) * 1_000_000,
                s.total() == s.secs as nat * 1_000_000_000 + s.nanos as nat,
        ;
        s
    }

    /// The longest span there is: every second a `u64` counts, and all but
    /// the last nanosecond of one more.
    pub fn longest() -> (s: Self)
        ensures
            s.whole_secs() == u64::MAX,
            s.total() == u64::MAX as nat * 1_000_000_000 + 999_999_999,
            s.well_formed(),
    {
        Span { secs: u64::MAX, nanos: 999_999_999 }
    }

    /// A span of this many nanoseconds.
    pub fn from_nanos(nanos: u128) -> (s: Self)
        requires
            nanos < (u64::MAX as nat + 1) * 1_000_000_000,
        ensures
            s.total() == nanos,
            s.well_formed(),
    {
        let secs = nanos / 1_000_000_000;
        let rest = nanos % 1_000_000_000;
        assert(secs <= u64::MAX) by (nonlinear_arith)
            requires
                nanos < (u64::MAX as nat + 1) * 1_000_000_000,
                secs == nanos / 1_000_000_000,
        ;
        let s = Span { secs: secs as u64, nanos: rest as u32 };
        assert(s.total() == nanos) by (nonlinear_arith)
            requires
                secs == nanos / 1_000_000_000,
                rest == nanos % 1_000_000_000,
                s.secs == secs,
                s.nanos == rest,
        ;
        s
    }

    /// The whole seconds this span lasts.
    pub fn as_secs(&self) -> (s: u64)
        ensures
            s == self.whole_secs(),
    {
        self.secs
    }

    /// Whether the span is no time at all.
    pub fn is_zero(&self) -> (b: bool)
        ensures
            b == (self.total() == 0),
    {
        self.secs == 0 && self.nanos == 0
    }

    /// The span in nanoseconds.
    pub fn as_nanos(&self) -> (n: u128)
        ensures
            n == self.total(),
    {
        self.secs as u128 * 1_000_000_000 + self.nanos as u128
    }
}

/// When something happened: nanoseconds after the clock's origin.
#[derive(Debug, Clone, Copy, PartialEq, Eq)]
pub struct Moment {
    pub nanos: u64,
}

impl Moment {
    /// The moment this many nanoseconds after the origin.
    pub fn from_nanos(nanos: u64) -> (m: Self)
        ensures
            m.nanos == nanos,
    {
        Moment { nanos }
    }

    /// How long after `earlier` this moment is, in nanoseconds, or zero when
    /// it is not after it at all -- as `Instant::duration_since` saturates.
    pub open spec fn since(self, earlier: Moment) -> nat {
        if self.nanos >= earlier.nanos {
            (self.nanos - earlier.nanos) as nat
        } else {
            0
        }
    }

    /// How long after `earlier` this moment is, in nanoseconds.
    pub fn elapsed_since(&self, earlier: &Moment) -> (n: u64)
        ensures
            n == self.since(*earlier),
    {
        if self.nanos >= earlier.nanos {
            self.nanos - earlier.nanos
        } else {
            0
        }
    }
}

} // verus!
