//! Exact rational scores.
use vstd::prelude::*;

verus! {

/// A score expressed as an exact rational number: `num / den`.
///
/// The engine never reduces fractions, so the denominator records which
/// scale the score was measured on (256 byte values, 512 interval
/// buckets, or the largest frequency-table entry).
#[derive(Clone, Copy, Debug, PartialEq, Eq, Structural)]
pub struct Score {
    /// Numerator.
    pub num: u128,
    /// Denominator; always nonzero for a score the engine hands out.
    pub den: u128,
}

impl Score {
    /// The rational value is well defined.
    pub open spec fn is_fraction(self) -> bool {
        self.den > 0
    }

    /// The rational value lies in [0, 1]: it is a sub-score.
    pub open spec fn in_unit(self) -> bool {
        self.den > 0 && self.num <= self.den
    }

    /// The rational value lies in [0, 100]: it is a composite score.
    pub open spec fn in_composite_range(self) -> bool {
        self.den > 0 && self.num <= 100 * self.den
    }
}

/// The zero score, used for every score of an engine that has not yet
/// ingested a single byte.
pub open spec fn zero_score() -> Score {
    Score { num: 0, den: 1 }
}

} // verus!
