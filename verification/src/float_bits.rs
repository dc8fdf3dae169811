//! IEEE 754 binary64 numbers as bit patterns: the operations that are
//! decided by the pattern alone.

use vstd::prelude::*;

verus! {

/// The sign bit.
pub const SIGN_BIT: u64 = 0x8000_0000_0000_0000;

/// The pattern of positive infinity.
pub const INFINITY_BITS: u64 = 0x7ff0_0000_0000_0000;

/// The pattern without its sign.
pub open spec fn magnitude(x: u64) -> int {
    x as int % SIGN_BIT as int
}

/// Not a number.
pub open spec fn is_nan(x: u64) -> bool {
    magnitude(x) > INFINITY_BITS
}

/// Neither infinite nor not a number.
pub open spec fn is_finite(x: u64) -> bool {
    magnitude(x) < INFINITY_BITS
}

/// The position of a number in the order of numbers. Both zeros are at 0.
pub open spec fn rank(x: u64) -> int {
    if x < SIGN_BIT {
        magnitude(x)
    } else {
        -magnitude(x)
    }
}

/// Numeric equality: the zeros are equal, nothing equals a NaN.
pub open spec fn float_eq(x: u64, y: u64) -> bool {
    !is_nan(x) && !is_nan(y) && rank(x) == rank(y)
}

pub open spec fn float_lt(x: u64, y: u64) -> bool {
    !is_nan(x) && !is_nan(y) && rank(x) < rank(y)
}

pub open spec fn float_le(x: u64, y: u64) -> bool {
    !is_nan(x) && !is_nan(y) && rank(x) <= rank(y)
}

/// The number with the other sign.
pub open spec fn float_neg(x: u64) -> u64 {
    if x < SIGN_BIT {
        (x + SIGN_BIT) as u64
    } else {
        (x - SIGN_BIT) as u64
    }
}

fn rank_of(x: u64) -> (r: i128)
    ensures
        r == rank(x),
{
    let m: u64 = x % SIGN_BIT;
    if x < SIGN_BIT {
        m as i128
    } else {
        -(m as i128)
    }
}

pub fn nan(x: u64) -> (yes: bool)
    ensures
        yes == is_nan(x),
{
    x % SIGN_BIT > INFINITY_BITS
}

pub fn finite(x: u64) -> (yes: bool)
    ensures
        yes == is_finite(x),
{
    x % SIGN_BIT < INFINITY_BITS
}

pub fn eq(x: u64, y: u64) -> (yes: bool)
    ensures
        yes == float_eq(x, y),
{
    !nan(x) && !nan(y) && rank_of(x) == rank_of(y)
}

pub fn lt(x: u64, y: u64) -> (yes: bool)
    ensures
        yes == float_lt(x, y),
{
    !nan(x) && !nan(y) && rank_of(x) < rank_of(y)
}

pub fn le(x: u64, y: u64) -> (yes: bool)
    ensures
        yes == float_le(x, y),
{
    !nan(x) && !nan(y) && rank_of(x) <= rank_of(y)
}

pub fn neg(x: u64) -> (n: u64)
    ensures
        n == float_neg(x),
{
    if x < SIGN_BIT {
        x + SIGN_BIT
    } else {
        x - SIGN_BIT
    }
}

} // verus!
