//! Coordinates.
//!
//! A coordinate is an IEEE-754 double. The library never computes with
//! doubles: it holds each one by its 64 bits and orders two of them by
//! integer comparison of those bits. For finite doubles that order is the
//! numeric one.

use vstd::prelude::*;

verus! {

/// The sign bit of a double.
pub const SIGN_BIT: u64 = 0x8000_0000_0000_0000;

/// The bits of positive infinity. A double is finite when its bits without
/// the sign are below this.
pub const INFINITY_BITS: u64 = 0x7ff0_0000_0000_0000;

/// The bits of a double without its sign.
pub open spec fn magnitude(bits: u64) -> int {
    if bits >= SIGN_BIT {
        bits - SIGN_BIT
    } else {
        bits as int
    }
}

/// Whether the bits stand for a finite double: neither an infinity nor a NaN.
pub open spec fn is_finite(bits: u64) -> bool {
    magnitude(bits) < INFINITY_BITS
}

/// The place of a double on the number line, as an integer.
///
/// Doubles are sign and magnitude, so among doubles of one sign the bits
/// grow with the absolute value. Both zeros have rank 0. For finite `a` and
/// `b`, `rank(a) <= rank(b)` holds exactly when the double `a` is less than
/// or equal to the double `b`.
pub open spec fn rank(bits: u64) -> int {
    if bits >= SIGN_BIT {
        -(bits - SIGN_BIT)
    } else {
        bits as int
    }
}

/// Tells whether the bits stand for a finite double.
pub fn finite(bits: u64) -> (r: bool)
    ensures
        r == is_finite(bits),
{
    if bits >= SIGN_BIT {
        bits - SIGN_BIT < INFINITY_BITS
    } else {
        bits < INFINITY_BITS
    }
}

/// Less than or equal, in the order of the number line.
pub fn le(a: u64, b: u64) -> (r: bool)
    ensures
        r == (rank(a) <= rank(b)),
{
    if a >= SIGN_BIT {
        if b >= SIGN_BIT {
            b <= a
        } else {
            true
        }
    } else if b >= SIGN_BIT {
        a == 0 && b == SIGN_BIT
    } else {
        a <= b
    }
}

/// Strictly less than, in the order of the number line.
pub fn lt(a: u64, b: u64) -> (r: bool)
    ensures
        r == (rank(a) < rank(b)),
{
    !le(b, a)
}

/// A position in the plane: `x` is the longitude and `y` the latitude, each
/// the bits of a double.
#[derive(Clone, Copy, Debug, PartialEq, Eq, Structural)]
pub struct Point {
    pub x: u64,
    pub y: u64,
}

impl Point {
    /// Both coordinates are finite doubles.
    pub open spec fn is_finite(self) -> bool {
        is_finite(self.x) && is_finite(self.y)
    }

    /// Tells whether both coordinates are finite doubles.
    pub fn finite(&self) -> (r: bool)
        ensures
            r == self.is_finite(),
    {
        finite(self.x) && finite(self.y)
    }
}

} // verus!
