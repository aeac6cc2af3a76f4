//! Numbers as bit patterns of IEEE-754 doubles: what can be told from the
//! bits alone. Bit 63 is the sign; the other bits, read as an integer, grow
//! with the magnitude, and beyond that of infinity they spell a NaN.
use vstd::prelude::*;

verus! {

/// The weight of the sign bit.
pub const SIGN: u64 = 0x8000_0000_0000_0000;

/// The magnitude bits of infinity.
pub const INFINITY: u64 = 0x7ff0_0000_0000_0000;

/// The bits without the sign.
pub open spec fn magnitude(bits: u64) -> u64 {
    (bits % SIGN) as u64
}

/// Whether the sign bit is set.
pub open spec fn is_negative(bits: u64) -> bool {
    bits >= SIGN
}

/// Whether the bits spell no number.
pub open spec fn is_nan(bits: u64) -> bool {
    magnitude(bits) > INFINITY
}

/// Whether the bits spell zero, of either sign.
pub open spec fn is_zero(bits: u64) -> bool {
    magnitude(bits) == 0
}

/// The place of a number on the line of integers by which numbers are
/// ordered: both zeros stand at 0.
pub open spec fn rank(bits: u64) -> int {
    if is_negative(bits) {
        -(magnitude(bits) as int)
    } else {
        magnitude(bits) as int
    }
}

/// The number with the other sign.
pub open spec fn negated(bits: u64) -> u64 {
    if is_negative(bits) {
        (bits - SIGN) as u64
    } else {
        (bits + SIGN) as u64
    }
}

/// Whether the first number is less than the second. A NaN is less than
/// nothing, and nothing is less than it.
pub open spec fn less(left: u64, right: u64) -> bool {
    !is_nan(left) && !is_nan(right) && rank(left) < rank(right)
}

/// Whether the numbers are equal. A NaN equals nothing; the zeros are equal.
pub open spec fn same(left: u64, right: u64) -> bool {
    !is_nan(left) && !is_nan(right) && rank(left) == rank(right)
}

/// Whether the bits spell zero, of either sign.
pub fn zero(bits: u64) -> (result: bool)
    ensures
        result == is_zero(bits),
{
    bits % SIGN == 0
}

/// The number with the other sign.
pub fn negate(bits: u64) -> (result: u64)
    ensures
        result == negated(bits),
{
    if bits >= SIGN {
        bits - SIGN
    } else {
        bits + SIGN
    }
}

/// Whether the first number is less than the second.
pub fn is_less(left: u64, right: u64) -> (result: bool)
    ensures
        result == less(left, right),
{
    let a = left % SIGN;
    let b = right % SIGN;
    if a > INFINITY || b > INFINITY {
        false
    } else if left >= SIGN {
        if right >= SIGN {
            a > b
        } else {
            a != 0 || b != 0
        }
    } else {
        right < SIGN && a < b
    }
}

/// Whether the numbers are equal.
pub fn is_same(left: u64, right: u64) -> (result: bool)
    ensures
        result == same(left, right),
{
    let a = left % SIGN;
    let b = right % SIGN;
    if a > INFINITY || b > INFINITY {
        false
    } else if (left >= SIGN) == (right >= SIGN) {
        a == b
    } else {
        a == 0 && b == 0
    }
}

} // verus!
