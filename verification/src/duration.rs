//! Spans of time in whole nanoseconds, up to the greatest span that a count of
//! seconds in 64 bits and a fraction of a second can express.

use vstd::prelude::*;

verus! {

pub const NANOS_PER_SECOND: u128 = 1_000_000_000;

/// 2^64 seconds less one nanosecond.
pub const MAX_NANOS: u128 = 18_446_744_073_709_551_615_999_999_999;

#[derive(Clone, Copy, Debug, PartialEq, Eq, Structural)]
pub struct Duration {
    nanos: u128,
}

impl View for Duration {
    type V = nat;

    /// The span in nanoseconds.
    closed spec fn view(&self) -> nat {
        self.nanos as nat
    }
}

impl Duration {
    #[verifier::type_invariant]
    spec fn in_range(self) -> bool {
        self.nanos <= MAX_NANOS
    }

    pub fn zero() -> (r: Self)
        ensures
            r@ == 0,
    {
        Duration { nanos: 0 }
    }

    pub fn from_secs(secs: u64) -> (r: Self)
        ensures
            r@ == secs * NANOS_PER_SECOND,
    {
        Duration { nanos: (secs as u128) * NANOS_PER_SECOND }
    }

    pub fn from_millis(millis: u64) -> (r: Self)
        ensures
            r@ == millis * 1_000_000,
    {
        Duration { nanos: (millis as u128) * 1_000_000 }
    }

    pub fn from_nanos(nanos: u64) -> (r: Self)
        ensures
            r@ == nanos,
    {
        Duration { nanos: nanos as u128 }
    }

    pub fn as_nanos(&self) -> (r: u128)
        ensures
            r == self@,
            r <= MAX_NANOS,
    {
        proof {
            use_type_invariant(self);
        }
        self.nanos
    }

    pub fn is_zero(&self) -> (r: bool)
        ensures
            r == (self@ == 0),
    {
        self.nanos == 0
    }

    /// `true` when this span is no longer than `other`.
    pub fn at_most(&self, other: &Self) -> (r: bool)
        ensures
            r == (self@ <= other@),
    {
        self.nanos <= other.nanos
    }

    /// Twice this span, or the greatest span where twice is out of range.
    pub fn saturating_double(&self) -> (r: Self)
        ensures
            r@ == (if 2 * self@ <= MAX_NANOS {
                2 * self@
            } else {
                MAX_NANOS as nat
            }),
    {
        proof {
            use_type_invariant(self);
        }
        if self.nanos <= MAX_NANOS / 2 {
            Duration { nanos: self.nanos * 2 }
        } else {
            Duration { nanos: MAX_NANOS }
        }
    }

    pub fn shorter_of(self, other: Self) -> (r: Self)
        ensures
            r@ == (if self@ <= other@ {
                self@
            } else {
                other@
            }),
            r == self || r == other,
    {
        if self.nanos <= other.nanos {
            self
        } else {
            other
        }
    }

    /// The span of this many nanoseconds.
    pub closed spec fn of(nanos: nat) -> Self {
        Duration { nanos: nanos as u128 }
    }

    /// No span is longer than what its representation can count.
    pub proof fn lemma_bounded(self)
        ensures
            self@ <= u128::MAX,
    {
    }

    pub proof fn lemma_of(nanos: nat)
        requires
            nanos <= u128::MAX,
        ensures
            Self::of(nanos)@ == nanos,
    {
    }

    /// A span is determined by its length.
    pub proof fn lemma_determined(self)
        ensures
            self == Self::of(self@),
    {
    }
}

} // verus!
