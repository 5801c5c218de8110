//! Scores: 64-bit IEEE 754 numbers, held by their bits and ordered by them.

use vstd::prelude::*;

verus! {

/// The weight of the sign bit.
pub const SIGN_BIT: u64 = 0x8000_0000_0000_0000;

/// The bits of positive infinity; greater magnitudes are not numbers.
pub const INFINITY_BITS: u64 = 0x7ff0_0000_0000_0000;

/// A 64-bit floating-point number, by its bits.
#[derive(Clone, Copy, Debug)]
pub struct Score {
    pub bits: u64,
}

/// The bits of zero.
pub const ZERO: u64 = 0;

/// The bits of one.
pub const ONE: u64 = 0x3ff0_0000_0000_0000;

/// The bits of one hundred.
pub const HUNDRED: u64 = 0x4059_0000_0000_0000;

/// The bits of sixty.
pub const SIXTY: u64 = 0x404e_0000_0000_0000;

/// The bits of eighty.
pub const EIGHTY: u64 = 0x4054_0000_0000_0000;

/// The bits of sixty-five.
pub const SIXTY_FIVE: u64 = 0x4050_4000_0000_0000;

/// The bits of fifty.
pub const FIFTY: u64 = 0x4049_0000_0000_0000;

impl Score {
    /// The number with the given bits.
    #[verifier::allow_in_spec]
    pub fn from_bits(bits: u64) -> (r: Score)
        returns
            (Score { bits }),
    {
        Score { bits }
    }

    /// The sign bit is set.
    pub open spec fn negative(self) -> bool {
        self.bits >= SIGN_BIT
    }

    /// The bits without the sign bit.
    pub open spec fn magnitude(self) -> int {
        if self.bits >= SIGN_BIT {
            self.bits - SIGN_BIT
        } else {
            self.bits as int
        }
    }

    /// The bits are those of a number, not of a NaN.
    pub open spec fn number(self) -> bool {
        self.magnitude() <= INFINITY_BITS
    }

    /// An integer that orders the numbers by value; both zeros have the same.
    pub open spec fn rank(self) -> int {
        if self.negative() {
            -self.magnitude()
        } else {
            self.magnitude()
        }
    }

    /// An integer that orders all values totally: below the numbers the NaNs with
    /// the sign bit, above them those without, and negative zero before zero.
    pub open spec fn total_rank(self) -> int {
        if self.negative() {
            -1 - self.magnitude()
        } else {
            self.magnitude()
        }
    }

    /// Both are numbers and the first has the lesser value.
    pub open spec fn less(self, other: Score) -> bool {
        self.number() && other.number() && self.rank() < other.rank()
    }

    /// Both are numbers and the first does not exceed the second.
    pub open spec fn at_most(self, other: Score) -> bool {
        self.number() && other.number() && self.rank() <= other.rank()
    }

    /// A number between two bounds, or at one of them.
    pub open spec fn within(self, low: Score, high: Score) -> bool {
        low.at_most(self) && self.at_most(high)
    }

    /// The greater of two values; where one is not a number, the other.
    pub open spec fn greater(self, other: Score) -> Score {
        if !self.number() || self.less(other) {
            other
        } else {
            self
        }
    }

    /// The value moved to the nearer bound where it lies outside them.
    pub open spec fn bounded(self, low: Score, high: Score) -> Score {
        if self.less(low) {
            low
        } else if high.less(self) {
            high
        } else {
            self
        }
    }

    /// Whether the value is a number.
    pub fn is_number(&self) -> (r: bool)
        ensures
            r == self.number(),
    {
        let magnitude: u64 = if self.bits >= SIGN_BIT {
            self.bits - SIGN_BIT
        } else {
            self.bits
        };
        magnitude <= INFINITY_BITS
    }

    /// Whether both are numbers and `self` has the lesser value.
    pub fn is_less(&self, other: &Score) -> (r: bool)
        ensures
            r == self.less(*other),
    {
        if !self.is_number() || !other.is_number() {
            return false;
        }
        if self.bits >= SIGN_BIT {
            if other.bits >= SIGN_BIT {
                self.bits > other.bits
            } else {
                self.bits > SIGN_BIT || other.bits > 0
            }
        } else {
            other.bits < SIGN_BIT && self.bits < other.bits
        }
    }

    /// Whether both are numbers and `self` does not exceed `other`.
    pub fn is_at_most(&self, other: &Score) -> (r: bool)
        ensures
            r == self.at_most(*other),
    {
        self.is_number() && other.is_number() && !other.is_less(self)
    }

    /// Whether the value is a number within the bounds.
    pub fn is_within(&self, low: &Score, high: &Score) -> (r: bool)
        ensures
            r == self.within(*low, *high),
    {
        low.is_at_most(self) && self.is_at_most(high)
    }

    /// Whether `self` precedes `other` in the total order.
    pub fn precedes(&self, other: &Score) -> (r: bool)
        ensures
            r == (self.total_rank() < other.total_rank()),
    {
        if self.bits >= SIGN_BIT {
            if other.bits >= SIGN_BIT {
                self.bits > other.bits
            } else {
                true
            }
        } else {
            other.bits < SIGN_BIT && self.bits < other.bits
        }
    }

    /// The greater of two values; where one is not a number, the other.
    pub fn max(&self, other: &Score) -> (r: Score)
        ensures
            r == self.greater(*other),
    {
        if !self.is_number() || self.is_less(other) {
            *other
        } else {
            *self
        }
    }

    /// The value moved to the nearer bound where it lies outside them.
    pub fn clamp(&self, low: &Score, high: &Score) -> (r: Score)
        ensures
            r == self.bounded(*low, *high),
    {
        if self.is_less(low) {
            *low
        } else if high.is_less(self) {
            *high
        } else {
            *self
        }
    }
}

/// A number moved between two bounds lies between them.
pub proof fn law_bounded_is_within(score: Score, low: Score, high: Score)
    requires
        low.at_most(high),
        score.number(),
    ensures
        score.bounded(low, high).within(low, high),
{
}

/// The total order agrees with the order by value, and tells all bits apart.
pub proof fn law_total_order(a: Score, b: Score)
    ensures
        a.less(b) ==> a.total_rank() < b.total_rank(),
        a.total_rank() == b.total_rank() ==> a == b,
{
}

} // verus!
