use vstd::prelude::*;

verus! {

/// The binary64 encoding of `100.0`.
pub const HUNDRED_BITS: u64 = 0x4059_0000_0000_0000;

/// The sign bit of a binary64 encoding, which alone encodes `-0.0`.
pub const SIGN_BIT: u64 = 0x8000_0000_0000_0000;

/// The encoding of positive infinity, the largest magnitude that is not a NaN.
pub const INFINITY_BITS: u64 = 0x7FF0_0000_0000_0000;

/// An availability percentage as the API reports it, held by its IEEE-754
/// binary64 encoding so that it is kept and compared without rounding.
#[derive(Clone, Copy, Debug, PartialEq, Eq, Structural)]
pub struct Percentage {
    pub bits: u64,
}

impl Percentage {
    /// The encoding is a NaN: all exponent bits set and a non-zero fraction.
    pub open spec fn is_nan(self) -> bool {
        self.bits % SIGN_BIT > INFINITY_BITS
    }

    /// The value is exactly `100.0`.
    pub open spec fn is_full(self) -> bool {
        self.bits == HUNDRED_BITS
    }

    /// A key whose integer order is the numeric order of the values that are
    /// not NaN: negatives are reflected below the sign bit, non-negatives are
    /// shifted above it, and `-0.0` shares the key of `+0.0`.
    pub open spec fn rank(self) -> int {
        if self.bits == SIGN_BIT {
            SIGN_BIT as int
        } else if self.bits > SIGN_BIT {
            u64::MAX - self.bits
        } else {
            self.bits + SIGN_BIT
        }
    }

    /// The value compares below `100.0`; a NaN compares below nothing.
    pub open spec fn below_hundred(self) -> bool {
        !self.is_nan() && self.rank() < (Percentage { bits: HUNDRED_BITS }).rank()
    }

    /// The zero percentage, `+0.0`.
    pub fn zero() -> (r: Percentage)
        ensures
            r.bits == 0,
    {
        Percentage { bits: 0 }
    }

    /// Whether the value is exactly `100.0`.
    pub fn full(&self) -> (r: bool)
        ensures
            r == self.is_full(),
    {
        self.bits == HUNDRED_BITS
    }

    /// Whether the encoding is a NaN.
    pub fn nan(&self) -> (r: bool)
        ensures
            r == self.is_nan(),
    {
        self.bits % SIGN_BIT > INFINITY_BITS
    }

    /// The order key of the value (see `rank`).
    pub fn order_key(&self) -> (r: u64)
        ensures
            r == self.rank(),
    {
        if self.bits == SIGN_BIT {
            SIGN_BIT
        } else if self.bits > SIGN_BIT {
            u64::MAX - self.bits
        } else {
            self.bits + SIGN_BIT
        }
    }

    /// Whether the value compares below `100.0`.
    pub fn less_than_hundred(&self) -> (r: bool)
        ensures
            r == self.below_hundred(),
    {
        let hundred = Percentage { bits: HUNDRED_BITS };
        !self.nan() && self.order_key() < hundred.order_key()
    }
}

} // verus!
