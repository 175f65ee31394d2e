//! Points in time and lengths of time.
//!
//! Both are plain values: nothing in the library reads a clock. A
//! [`Timestamp`] is a whole number of nanoseconds either side of the Unix
//! epoch and a [`Span`] a whole number of nanoseconds, which is what their
//! views are. The ranges are those of the platform's own clock types, so every
//! reading of a real clock has a value here.

use vstd::prelude::*;

verus! {

/// Nanoseconds in one second.
pub const NANOS_PER_SEC: u32 = 1_000_000_000;

/// A length of time.
#[derive(Clone, Copy, Debug, PartialEq, Eq, PartialOrd, Ord, Hash)]
pub struct Span {
    secs: u64,
    nanos: u32,
}

impl View for Span {
    type V = int;

    closed spec fn view(&self) -> int {
        self.secs * 1_000_000_000 + self.nanos
    }
}

/// Whether a length in nanoseconds is one a [`Span`] can hold.
pub open spec fn span_fits(nanos: int) -> bool {
    0 <= nanos < 0x1_0000_0000_0000_0000 * 1_000_000_000
}

/// The first distance from the epoch, in nanoseconds, that a [`Timestamp`] is too
/// small for.
pub open spec fn end_of_time() -> int {
    0x8000_0000_0000_0000int * 1_000_000_000
}

/// The earliest point in time, in nanoseconds from the epoch.
pub open spec fn start_of_time() -> int {
    -0x8000_0000_0000_0000 * 1_000_000_000
}

/// A number of seconds, in nanoseconds.
pub open spec fn seconds(secs: int) -> int {
    secs * 1_000_000_000
}

impl Span {
    #[verifier::type_invariant]
    spec fn subsecond(self) -> bool {
        self.nanos < 1_000_000_000
    }

    /// A span of `secs` seconds and `nanos` nanoseconds.
    pub fn new(secs: u64, nanos: u32) -> (span: Span)
        requires
            nanos < 1_000_000_000,
        ensures
            span@ == seconds(secs as int) + nanos,
    {
        Span { secs, nanos }
    }

    /// The empty span.
    pub fn zero() -> (span: Span)
        ensures
            span@ == 0,
    {
        Span { secs: 0, nanos: 0 }
    }

    /// A span of whole seconds.
    pub fn from_secs(secs: u64) -> (span: Span)
        ensures
            span@ == seconds(secs as int),
    {
        Span { secs, nanos: 0 }
    }

    /// A span of whole milliseconds.
    pub fn from_millis(millis: u64) -> (span: Span)
        ensures
            span@ == millis * 1_000_000,
    {
        let rest: u32 = (millis % 1_000) as u32;
        Span { secs: millis / 1_000, nanos: rest * 1_000_000 }
    }

    /// The whole seconds in the span.
    pub fn as_secs(self) -> (secs: u64)
        ensures
            secs == self@ / 1_000_000_000,
            span_fits(self@),
    {
        proof {
            use_type_invariant(self);
        }
        self.secs
    }

    /// The nanoseconds past the last whole second.
    pub fn subsec_nanos(self) -> (nanos: u32)
        ensures
            nanos == self@ % 1_000_000_000,
            nanos < 1_000_000_000,
    {
        proof {
            use_type_invariant(self);
        }
        self.nanos
    }

    /// Whether this span is shorter than `other`.
    pub fn is_shorter_than(self, other: Span) -> (shorter: bool)
        ensures
            shorter == (self@ < other@),
    {
        proof {
            use_type_invariant(self);
            use_type_invariant(other);
        }
        self.secs < other.secs || (self.secs == other.secs && self.nanos < other.nanos)
    }

    /// The shorter of two spans.
    pub fn at_most(self, other: Span) -> (span: Span)
        ensures
            span@ == if self@ <= other@ { self@ } else { other@ },
    {
        if other.is_shorter_than(self) {
            other
        } else {
            self
        }
    }

    /// Two spans, one after the other.
    pub fn plus(self, other: Span) -> (span: Span)
        requires
            span_fits(self@ + other@),
        ensures
            span@ == self@ + other@,
    {
        proof {
            use_type_invariant(self);
            use_type_invariant(other);
        }
        let nanos: u32 = self.nanos + other.nanos;
        let carry: u128 = if nanos >= NANOS_PER_SEC { 1 } else { 0 };
        let left: u32 = if nanos >= NANOS_PER_SEC { nanos - NANOS_PER_SEC } else { nanos };
        let secs: u128 = self.secs as u128 + other.secs as u128 + carry;
        assert(secs * 1_000_000_000 + left == self@ + other@);
        Span { secs: secs as u64, nanos: left }
    }

    /// What is left of this span once `other` has passed, or nothing.
    pub fn saturating_minus(self, other: Span) -> (span: Span)
        ensures
            span@ == if other@ <= self@ { self@ - other@ } else { 0 },
    {
        proof {
            use_type_invariant(self);
            use_type_invariant(other);
        }
        if self.is_shorter_than(other) {
            return Span::zero();
        }
        let borrow: i128 = if self.nanos < other.nanos { 1 } else { 0 };
        let left: u32 = if self.nanos < other.nanos {
            (NANOS_PER_SEC - other.nanos) + self.nanos
        } else {
            self.nanos - other.nanos
        };
        let secs: i128 = self.secs as i128 - other.secs as i128 - borrow;
        assert(secs * 1_000_000_000 + left == self@ - other@);
        Span { secs: secs as u64, nanos: left }
    }

    /// The longer of two spans.
    pub fn at_least(self, other: Span) -> (span: Span)
        ensures
            span@ == if self@ >= other@ { self@ } else { other@ },
    {
        if self.is_shorter_than(other) {
            other
        } else {
            self
        }
    }
}

/// No span is negative.
pub proof fn lemma_span_is_not_negative(span: Span)
    ensures
        span@ >= 0,
{
}

/// A point in time.
#[derive(Clone, Copy, Debug, PartialEq, Eq, PartialOrd, Ord, Hash)]
pub struct Timestamp {
    secs: i64,
    nanos: u32,
}

impl View for Timestamp {
    type V = int;

    closed spec fn view(&self) -> int {
        self.secs * 1_000_000_000 + self.nanos
    }
}

/// The whole seconds since the epoch at a point in time; none before the epoch.
pub open spec fn seconds_since_epoch(nanos: int) -> int {
    if nanos < 0 {
        0
    } else {
        nanos / 1_000_000_000
    }
}

impl Timestamp {
    #[verifier::type_invariant]
    spec fn subsecond(self) -> bool {
        self.nanos < 1_000_000_000
    }

    /// The point `secs` seconds and `nanos` nanoseconds after the epoch.
    pub fn new(secs: i64, nanos: u32) -> (time: Timestamp)
        requires
            nanos < 1_000_000_000,
        ensures
            time@ == seconds(secs as int) + nanos,
    {
        Timestamp { secs, nanos }
    }

    /// The point `secs` seconds after the epoch.
    pub fn from_secs(secs: i64) -> (time: Timestamp)
        ensures
            time@ == seconds(secs as int),
    {
        Timestamp { secs, nanos: 0 }
    }

    /// The point `span` after this one.
    pub fn plus(self, span: Span) -> (time: Timestamp)
        requires
            self@ + span@ < end_of_time(),
        ensures
            time@ == self@ + span@,
    {
        proof {
            use_type_invariant(self);
            use_type_invariant(span);
        }
        let nanos: u32 = self.nanos + span.nanos;
        let carry: i128 = if nanos >= NANOS_PER_SEC { 1 } else { 0 };
        let left: u32 = if nanos >= NANOS_PER_SEC { nanos - NANOS_PER_SEC } else { nanos };
        let secs: i128 = self.secs as i128 + span.secs as i128 + carry;
        assert(secs * 1_000_000_000 + left == self@ + span@);
        Timestamp { secs: secs as i64, nanos: left }
    }

    /// The point `span` before this one.
    pub fn minus(self, span: Span) -> (time: Timestamp)
        requires
            self@ - span@ >= start_of_time(),
        ensures
            time@ == self@ - span@,
    {
        proof {
            use_type_invariant(self);
            use_type_invariant(span);
        }
        let borrow: i128 = if self.nanos < span.nanos { 1 } else { 0 };
        let left: u32 = if self.nanos < span.nanos {
            (NANOS_PER_SEC - span.nanos) + self.nanos
        } else {
            self.nanos - span.nanos
        };
        let secs: i128 = self.secs as i128 - span.secs as i128 - borrow;
        assert(secs * 1_000_000_000 + left == self@ - span@);
        Timestamp { secs: secs as i64, nanos: left }
    }

    /// How long after `earlier` this point is, or `None` when it is before it.
    pub fn since(self, earlier: Timestamp) -> (span: Option<Span>)
        ensures
            span is Some <==> earlier@ <= self@,
            span matches Some(s) ==> s@ == self@ - earlier@,
    {
        proof {
            use_type_invariant(self);
            use_type_invariant(earlier);
        }
        if self.is_before(earlier) {
            return None;
        }
        let borrow: i128 = if self.nanos < earlier.nanos { 1 } else { 0 };
        let left: u32 = if self.nanos < earlier.nanos {
            (NANOS_PER_SEC - earlier.nanos) + self.nanos
        } else {
            self.nanos - earlier.nanos
        };
        let secs: i128 = self.secs as i128 - earlier.secs as i128 - borrow;
        assert(secs * 1_000_000_000 + left == self@ - earlier@);
        Some(Span { secs: secs as u64, nanos: left })
    }

    /// How long after `earlier` this point is, or nothing when it is before it.
    pub fn saturating_since(self, earlier: Timestamp) -> (span: Span)
        ensures
            span@ == if earlier@ <= self@ { self@ - earlier@ } else { 0 },
    {
        match self.since(earlier) {
            Some(span) => span,
            None => Span::zero(),
        }
    }

    /// Whether this point comes before `other`.
    pub fn is_before(self, other: Timestamp) -> (before: bool)
        ensures
            before == (self@ < other@),
    {
        proof {
            use_type_invariant(self);
            use_type_invariant(other);
        }
        self.secs < other.secs || (self.secs == other.secs && self.nanos < other.nanos)
    }

    /// The whole seconds since the epoch; none before it.
    pub fn epoch_secs(self) -> (secs: u64)
        ensures
            secs == seconds_since_epoch(self@),
            secs <= i64::MAX,
    {
        proof {
            use_type_invariant(self);
        }
        if self.secs < 0 {
            0
        } else {
            self.secs as u64
        }
    }

    /// The nanoseconds past the last whole second.
    pub fn subsec_nanos(self) -> (nanos: u32)
        ensures
            nanos == self@ % 1_000_000_000,
            nanos < 1_000_000_000,
    {
        proof {
            use_type_invariant(self);
        }
        self.nanos
    }
}

} // verus!
