//! Spans and instants of time, as whole nanoseconds.

use vstd::prelude::*;

verus! {

/// Nanoseconds in one millisecond.
pub const NANOS_PER_MILLI: u128 = 1_000_000;

/// Nanoseconds in one second.
pub const NANOS_PER_SEC: u128 = 1_000_000_000;

/// The longest [`Duration`]: `u64::MAX` seconds and 999 999 999 nanoseconds.
pub const MAX_DURATION_NANOS: u128 = 18_446_744_073_709_551_615_999_999_999;

/// A span of time. It covers exactly the range of `std::time::Duration`.
#[derive(Debug, Clone, Copy)]
pub struct Duration {
    nanos: u128,
}

impl View for Duration {
    type V = nat;

    /// The length of the span in nanoseconds.
    closed spec fn view(&self) -> nat {
        self.nanos as nat
    }
}

impl Duration {
    #[verifier::type_invariant]
    spec fn well_formed(self) -> bool {
        self.nanos <= MAX_DURATION_NANOS
    }

    /// A span of `nanos` nanoseconds, or `None` past the longest span.
    pub fn from_nanos(nanos: u128) -> (r: Option<Self>)
        ensures
            match r {
                Some(d) => d@ == nanos && nanos <= MAX_DURATION_NANOS,
                None => nanos > MAX_DURATION_NANOS,
            },
    {
        if nanos <= MAX_DURATION_NANOS {
            Some(Duration { nanos })
        } else {
            None
        }
    }

    /// A span of `millis` milliseconds.
    pub fn from_millis(millis: u64) -> (r: Self)
        ensures
            r@ == millis * NANOS_PER_MILLI,
    {
        Duration { nanos: (millis as u128) * NANOS_PER_MILLI }
    }

    /// A span of `secs` seconds.
    pub fn from_secs(secs: u64) -> (r: Self)
        ensures
            r@ == secs * NANOS_PER_SEC,
    {
        Duration { nanos: (secs as u128) * NANOS_PER_SEC }
    }

    /// The length of the span in nanoseconds.
    pub fn as_nanos(&self) -> (r: u128)
        ensures
            r == self@,
            r <= MAX_DURATION_NANOS,
    {
        proof {
            use_type_invariant(self);
        }
        self.nanos
    }

    /// The sum of two spans.
    pub fn plus(self, other: Self) -> (r: Self)
        requires
            self@ + other@ <= MAX_DURATION_NANOS,
        ensures
            r@ == self@ + other@,
    {
        Duration { nanos: self.nanos + other.nanos }
    }

    /// The span taken `factor` times.
    pub fn times(self, factor: u32) -> (r: Self)
        requires
            self@ * factor <= MAX_DURATION_NANOS,
        ensures
            r@ == self@ * factor,
    {
        Duration { nanos: self.nanos * (factor as u128) }
    }

    /// The span cut into `divisor` parts, rounded down to the nanosecond.
    pub fn divided_by(self, divisor: u32) -> (r: Self)
        requires
            divisor != 0,
        ensures
            r@ == self@ / (divisor as nat),
    {
        proof {
            use_type_invariant(&self);
            vstd::arithmetic::div_mod::lemma_div_is_ordered_by_denominator(
                self.nanos as int, 1, divisor as int);
            vstd::arithmetic::div_mod::lemma_div_basics_2(self.nanos as int);
        }
        Duration { nanos: self.nanos / (divisor as u128) }
    }
}

/// The length of an optional span, in nanoseconds.
pub open spec fn span_of(span: Option<Duration>) -> Option<nat> {
    match span {
        Some(d) => Some(d@),
        None => None,
    }
}

/// An instant of wall-clock time.
#[derive(Debug, Clone, Copy, PartialEq, Eq, Structural)]
pub struct Timestamp {
    /// Nanoseconds since the Unix epoch; negative before it.
    pub unix_nanos: i128,
}

/// An optional span is as long as the span in it.
pub proof fn law_span_is_that_of_the_duration(span: Option<Duration>)
    ensures
        span is None ==> span_of(span) is None,
        span matches Some(d) ==> span_of(span) == Some(d@),
{
}

} // verus!
