//! Numbers of the language, held as IEEE 754 binary64 bit patterns.
//!
//! The library compares and negates numbers on their bit patterns. The
//! other arithmetic, and the conversion between numbers and text, belong to
//! the host that drives the machine.

use vstd::prelude::*;

verus! {

pub const SIGN: u64 = 0x8000_0000_0000_0000;

pub const INFINITY: u64 = 0x7ff0_0000_0000_0000;

/// The bit pattern without its sign.
pub open spec fn magnitude(bits: u64) -> u64 {
    if bits >= SIGN {
        (bits - SIGN) as u64
    } else {
        bits
    }
}

/// The sign bit is set.
pub open spec fn negative(bits: u64) -> bool {
    bits >= SIGN
}

/// The pattern is not a number: every exponent bit set, and some bit of
/// the fraction.
pub open spec fn is_nan(bits: u64) -> bool {
    magnitude(bits) > INFINITY
}

/// The place of the number on the number line, up to scale: patterns of
/// one sign order as their magnitudes do, and both zeros sit at zero.
pub open spec fn rank(bits: u64) -> int {
    if negative(bits) {
        -(magnitude(bits) as int)
    } else {
        magnitude(bits) as int
    }
}

/// Numeric equality: no pattern that is not a number equals anything, and
/// the two zeros are equal.
pub open spec fn number_eq(a: u64, b: u64) -> bool {
    !is_nan(a) && !is_nan(b) && rank(a) == rank(b)
}

/// Numeric order: no pattern that is not a number is below or above
/// anything.
pub open spec fn number_lt(a: u64, b: u64) -> bool {
    !is_nan(a) && !is_nan(b) && rank(a) < rank(b)
}

/// The pattern with its sign flipped.
pub open spec fn negated(bits: u64) -> u64 {
    if bits >= SIGN {
        (bits - SIGN) as u64
    } else {
        (bits + SIGN) as u64
    }
}

fn magnitude_of(bits: u64) -> (m: u64)
    ensures
        m == magnitude(bits),
        m < SIGN,
{
    if bits >= SIGN {
        bits - SIGN
    } else {
        bits
    }
}

pub fn nan(bits: u64) -> (r: bool)
    ensures
        r == is_nan(bits),
{
    magnitude_of(bits) > INFINITY
}

pub fn equal(a: u64, b: u64) -> (r: bool)
    ensures
        r == number_eq(a, b),
{
    if nan(a) || nan(b) {
        false
    } else {
        a == b || (magnitude_of(a) == 0 && magnitude_of(b) == 0)
    }
}

pub fn less(a: u64, b: u64) -> (r: bool)
    ensures
        r == number_lt(a, b),
{
    if nan(a) || nan(b) {
        return false;
    }
    let ma = magnitude_of(a);
    let mb = magnitude_of(b);
    if a >= SIGN {
        if b >= SIGN {
            ma > mb
        } else {
            ma > 0 || mb > 0
        }
    } else {
        if b >= SIGN {
            false
        } else {
            ma < mb
        }
    }
}

pub fn negate(bits: u64) -> (r: u64)
    ensures
        r == negated(bits),
{
    if bits >= SIGN {
        bits - SIGN
    } else {
        bits + SIGN
    }
}

/// Negating twice gives the pattern back, and keeps what is not a number so.
pub proof fn negating_twice_gives_back(bits: u64)
    ensures
        negated(negated(bits)) == bits,
        is_nan(negated(bits)) == is_nan(bits),
{
}

/// Numeric equality is symmetric, and holds of every number with itself.
pub proof fn number_equality_is_symmetric(a: u64, b: u64)
    ensures
        number_eq(a, b) == number_eq(b, a),
        !is_nan(a) ==> number_eq(a, a),
{
}

} // verus!
