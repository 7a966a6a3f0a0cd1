//! Points in time and lengths of time, counted in nanoseconds.

use vstd::prelude::*;

verus! {

/// A point in time: the nanoseconds since the start of 1970, UTC. Before
/// that, the number is negative.
#[derive(Clone, Copy, Debug, PartialEq, Eq, PartialOrd, Ord, Hash, Structural)]
pub struct Timestamp {
    pub nanos: i128,
}

/// A length of time in nanoseconds.
#[derive(Clone, Copy, Debug, PartialEq, Eq, PartialOrd, Ord, Hash, Structural)]
pub struct Span {
    pub nanos: u128,
}

impl Timestamp {
    /// The point in time `nanos` nanoseconds after the start of 1970.
    pub fn from_nanos(nanos: i128) -> (t: Timestamp)
        ensures
            t.nanos == nanos,
    {
        Timestamp { nanos }
    }

    /// Whether `self` is not later than `other`.
    pub fn at_or_before(&self, other: &Timestamp) -> (r: bool)
        ensures
            r == (self.nanos <= other.nanos),
    {
        self.nanos <= other.nanos
    }

    /// Whether `self` is earlier than `other`.
    pub fn before(&self, other: &Timestamp) -> (r: bool)
        ensures
            r == (self.nanos < other.nanos),
    {
        self.nanos < other.nanos
    }

    /// The point in time that lies `span` behind `self`, where that can be
    /// told in 128 bits.
    pub fn checked_add(&self, span: Span) -> (r: Option<Timestamp>)
        ensures
            r == if self.nanos + span.nanos <= i128::MAX {
                Some(Timestamp { nanos: (self.nanos + span.nanos) as i128 })
            } else {
                None
            },
    {
        if span.nanos > i128::MAX as u128 {
            if self.nanos >= 0 {
                return None;
            }
            // self is negative: span - |self| may still fit.
            let back: u128 = if self.nanos == i128::MIN {
                i128::MAX as u128 + 1
            } else {
                (-self.nanos) as u128
            };
            let rest = span.nanos - back;
            if rest > i128::MAX as u128 {
                None
            } else {
                Some(Timestamp { nanos: rest as i128 })
            }
        } else {
            let add = span.nanos as i128;
            if self.nanos > i128::MAX - add {
                None
            } else {
                Some(Timestamp { nanos: self.nanos + add })
            }
        }
    }

    /// The point in time that lies `span` behind `self`.
    pub fn plus(&self, span: Span) -> (t: Timestamp)
        requires
            self.nanos + span.nanos <= i128::MAX,
        ensures
            t.nanos == self.nanos + span.nanos,
    {
        match self.checked_add(span) {
            Some(t) => t,
            None => *self,
        }
    }
}

impl Span {
    /// The length of `secs` seconds.
    pub fn from_secs(secs: u64) -> (s: Span)
        ensures
            s.nanos == secs * 1_000_000_000,
    {
        Span { nanos: secs as u128 * 1_000_000_000 }
    }

    /// The length of `nanos` nanoseconds.
    pub fn from_nanos(nanos: u128) -> (s: Span)
        ensures
            s.nanos == nanos,
    {
        Span { nanos }
    }
}

} // verus!
