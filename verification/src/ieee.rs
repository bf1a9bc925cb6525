//! Facts about IEEE-754 binary64 values that can be read off the bit pattern.

use vstd::prelude::*;

verus! {

/// The sign bit of a binary64 pattern.
pub const SIGN_BIT: u64 = 0x8000_0000_0000_0000;

/// Positive infinity; every larger magnitude is a NaN.
pub const INFINITY: u64 = 0x7FF0_0000_0000_0000;

/// One step of the biased exponent field.
pub const EXPONENT_STEP: u64 = 0x0010_0000_0000_0000;

/// The pattern of `0.0`.
pub const ZERO: u64 = 0;

/// The pattern of `1.0`.
pub const ONE: u64 = 0x3FF0_0000_0000_0000;

/// The pattern of `-1.0`.
pub const MINUS_ONE: u64 = 0xBFF0_0000_0000_0000;

/// The pattern of `100.0`.
pub const HUNDRED: u64 = 0x4059_0000_0000_0000;

/// The pattern with the sign bit cleared.
pub open spec fn magnitude(b: u64) -> u64 {
    if b >= SIGN_BIT {
        (b - SIGN_BIT) as u64
    } else {
        b
    }
}

/// The pattern carries a negative sign (holds of `-0.0` and of signed NaNs too).
pub open spec fn negative(b: u64) -> bool {
    b >= SIGN_BIT
}

/// Not a number: the exponent field is all ones and the fraction is not zero.
pub open spec fn nan(b: u64) -> bool {
    magnitude(b) > INFINITY
}

/// Neither infinite nor a NaN.
pub open spec fn finite(b: u64) -> bool {
    magnitude(b) < INFINITY
}

/// `0.0` or `-0.0`.
pub open spec fn zero(b: u64) -> bool {
    magnitude(b) == 0
}

/// Where a pattern that is no NaN stands on the number line, as an integer
/// that grows with the value. Both zeros stand at 0.
pub open spec fn rank(b: u64) -> int {
    if b >= SIGN_BIT {
        -(b - SIGN_BIT)
    } else {
        b as int
    }
}

/// The comparison `a < b` of the two values: false as soon as one is a NaN.
pub open spec fn below(a: u64, b: u64) -> bool {
    !nan(a) && !nan(b) && rank(a) < rank(b)
}

/// The comparison `a == b` of the two values: false as soon as one is a NaN,
/// true of `0.0` and `-0.0`.
pub open spec fn alike(a: u64, b: u64) -> bool {
    !nan(a) && !nan(b) && rank(a) == rank(b)
}

/// The pattern with the sign bit flipped.
pub open spec fn opposite(b: u64) -> u64 {
    if b >= SIGN_BIT {
        (b - SIGN_BIT) as u64
    } else {
        (b + SIGN_BIT) as u64
    }
}

/// A normal number whose half is normal as well, so that halving it is exact
/// and only lowers the exponent field by one.
pub open spec fn halvable(b: u64) -> bool {
    2 * EXPONENT_STEP <= magnitude(b) < INFINITY
}

/// The pattern of half the value, for a `halvable` pattern.
pub open spec fn half(b: u64) -> u64 {
    (b - EXPONENT_STEP) as u64
}

/// The pattern with the sign bit cleared: the absolute value.
pub fn abs_bits(b: u64) -> (r: u64)
    ensures
        r == magnitude(b),
        r < SIGN_BIT,
{
    if b >= SIGN_BIT {
        b - SIGN_BIT
    } else {
        b
    }
}

/// Tells whether the pattern is a NaN.
pub fn is_nan(b: u64) -> (r: bool)
    ensures
        r == nan(b),
{
    abs_bits(b) > INFINITY
}

/// Tells whether the pattern is neither infinite nor a NaN.
pub fn is_finite(b: u64) -> (r: bool)
    ensures
        r == finite(b),
{
    abs_bits(b) < INFINITY
}

/// Tells whether the pattern is `0.0` or `-0.0`.
pub fn is_zero(b: u64) -> (r: bool)
    ensures
        r == zero(b),
{
    abs_bits(b) == 0
}

/// Flips the sign: the pattern of `-x`.
pub fn negate(b: u64) -> (r: u64)
    ensures
        r == opposite(b),
        magnitude(r) == magnitude(b),
        negative(r) != negative(b),
{
    if b >= SIGN_BIT {
        b - SIGN_BIT
    } else {
        b + SIGN_BIT
    }
}

/// The comparison `a < b` of the two values.
pub fn less_than(a: u64, b: u64) -> (r: bool)
    ensures
        r == below(a, b),
{
    if is_nan(a) || is_nan(b) {
        false
    } else if a >= SIGN_BIT {
        if b >= SIGN_BIT {
            // both negative: the larger magnitude is the smaller value
            b < a
        } else {
            // negative against non-negative: below unless both are zero
            a > SIGN_BIT || b > 0
        }
    } else if b >= SIGN_BIT {
        false
    } else {
        a < b
    }
}

/// The comparison `a == b` of the two values.
pub fn equal(a: u64, b: u64) -> (r: bool)
    ensures
        r == alike(a, b),
{
    if is_nan(a) || is_nan(b) {
        false
    } else {
        a == b || (abs_bits(a) == 0 && abs_bits(b) == 0)
    }
}

/// Halves a normal number whose half is normal: the exponent field goes down
/// by one, sign and fraction stay.
pub fn halve(b: u64) -> (r: u64)
    requires
        halvable(b),
    ensures
        r == half(b),
        magnitude(r) == magnitude(b) - EXPONENT_STEP,
        negative(r) == negative(b),
{
    b - EXPONENT_STEP
}

} // verus!
