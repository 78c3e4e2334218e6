//! Real-valued scores without floating-point arithmetic.
//!
//! Distances and similarities are computed outside this crate.  They cross
//! its boundary as the bit pattern of an IEEE-754 double, and the crate only
//! ever compares them.  The sign bit and the magnitude of such a pattern
//! order the numbers they encode, so comparing is integer work.

use vstd::prelude::*;

verus! {

/// The sign bit of a double.
pub const SIGN_BIT: u64 = 0x8000_0000_0000_0000;

/// The pattern of positive infinity; a larger magnitude encodes no number.
pub const INFINITY_BITS: u64 = 0x7FF0_0000_0000_0000;

/// A double-precision number, held by its bit pattern.
#[derive(Clone, Copy, Debug, PartialEq, Eq, Structural)]
pub struct Score {
    pub bits: u64,
}

impl Score {
    /// The pattern with the sign bit cleared.
    pub open spec fn magnitude(self) -> int {
        if self.bits >= SIGN_BIT {
            self.bits - SIGN_BIT
        } else {
            self.bits as int
        }
    }

    /// Whether the pattern encodes no number.
    pub open spec fn is_nan(self) -> bool {
        self.magnitude() > INFINITY_BITS
    }

    /// An integer that orders the patterns as the numbers they encode are
    /// ordered: negative for negative numbers, zero for both zeros.
    pub open spec fn ordinal(self) -> int {
        if self.bits >= SIGN_BIT {
            -self.magnitude()
        } else {
            self.magnitude()
        }
    }

    /// `self > other` as IEEE-754 defines it: false when either side is
    /// not a number.
    pub open spec fn exceeds(self, other: Score) -> bool {
        !self.is_nan() && !other.is_nan() && self.ordinal() > other.ordinal()
    }

    /// Whether the score can stand for a distance: a number that is not
    /// negative.  Positive infinity and both zeros qualify.
    pub open spec fn is_distance(self) -> bool {
        !self.is_nan() && self.ordinal() >= 0
    }

    /// The key by which distances are ranked.  It is the ordinal of a
    /// number; what is not a number ranks after every number.
    pub open spec fn rank(self) -> int {
        if self.is_nan() {
            INFINITY_BITS + 1
        } else {
            self.ordinal()
        }
    }

    pub fn from_bits(bits: u64) -> (s: Score)
        ensures
            s.bits == bits,
    {
        Score { bits }
    }

    pub fn to_bits(&self) -> (bits: u64)
        ensures
            bits == self.bits,
    {
        self.bits
    }

    /// The score zero, the distance of a point from itself.
    pub fn zero() -> (s: Score)
        ensures
            s.bits == 0,
            s.is_distance(),
            s.ordinal() == 0,
    {
        Score { bits: 0 }
    }

    fn magnitude_bits(&self) -> (m: u64)
        ensures
            m == self.magnitude(),
    {
        if self.bits >= SIGN_BIT {
            self.bits - SIGN_BIT
        } else {
            self.bits
        }
    }

    pub fn nan(&self) -> (r: bool)
        ensures
            r == self.is_nan(),
    {
        self.magnitude_bits() > INFINITY_BITS
    }

    pub fn negative(&self) -> (r: bool)
        ensures
            r == (!self.is_nan() && self.ordinal() < 0),
    {
        let m: u64 = self.magnitude_bits();
        self.bits >= SIGN_BIT && 0 < m && m <= INFINITY_BITS
    }

    pub fn valid_distance(&self) -> (r: bool)
        ensures
            r == self.is_distance(),
    {
        let m: u64 = self.magnitude_bits();
        m <= INFINITY_BITS && (self.bits < SIGN_BIT || m == 0)
    }

    /// Decides `self > other`.
    pub fn gt(&self, other: &Score) -> (r: bool)
        ensures
            r == self.exceeds(*other),
    {
        let a: u64 = self.magnitude_bits();
        let b: u64 = other.magnitude_bits();
        if a > INFINITY_BITS || b > INFINITY_BITS {
            false
        } else if self.bits >= SIGN_BIT {
            other.bits >= SIGN_BIT && a < b
        } else if other.bits >= SIGN_BIT {
            a > 0 || b > 0
        } else {
            a > b
        }
    }

    /// Decides whether `self` ranks strictly before `other`.
    pub fn ranks_before(&self, other: &Score) -> (r: bool)
        ensures
            r == (self.rank() < other.rank()),
    {
        let a: u64 = self.magnitude_bits();
        let b: u64 = other.magnitude_bits();
        if a > INFINITY_BITS {
            false
        } else if b > INFINITY_BITS {
            true
        } else if self.bits >= SIGN_BIT {
            if other.bits >= SIGN_BIT {
                a > b
            } else {
                a > 0 || b > 0
            }
        } else if other.bits >= SIGN_BIT {
            false
        } else {
            a < b
        }
    }
}

} // verus!
