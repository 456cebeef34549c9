//! Double precision numbers as bit patterns.
//!
//! A number is the 64 bits of an IEEE 754 binary64 value: one sign bit, then
//! eleven exponent bits, then fifty-two fraction bits. Order, equality and
//! negation are decided here on the bits. Sums, products and quotients are
//! not: they are left to the host.

use vstd::prelude::*;

verus! {

/// The sign bit.
pub const SIGN: u64 = 0x8000_0000_0000_0000;

/// The bits of positive infinity: every exponent bit set, no fraction bit.
pub const INFINITY: u64 = 0x7ff0_0000_0000_0000;

/// The bits without the sign.
pub open spec fn magnitude(bits: u64) -> int {
    if bits >= SIGN {
        bits - SIGN
    } else {
        bits as int
    }
}

/// Not a number: the magnitude lies above infinity.
pub open spec fn is_nan(bits: u64) -> bool {
    magnitude(bits) > INFINITY
}

/// Where a number that is not NaN stands on the number line, as an integer
/// that grows with the number. Both zeros stand at 0.
pub open spec fn position(bits: u64) -> int {
    if bits >= SIGN {
        -magnitude(bits)
    } else {
        magnitude(bits)
    }
}

/// Numeric equality: NaN equals nothing, the two zeros are equal.
pub open spec fn equal(a: u64, b: u64) -> bool {
    !is_nan(a) && !is_nan(b) && position(a) == position(b)
}

/// Numeric order: NaN is below nothing and above nothing.
pub open spec fn less(a: u64, b: u64) -> bool {
    !is_nan(a) && !is_nan(b) && position(a) < position(b)
}

/// The number with the opposite sign.
pub open spec fn negated(bits: u64) -> u64 {
    if bits >= SIGN {
        (bits - SIGN) as u64
    } else {
        (bits + SIGN) as u64
    }
}

/// Tests [`is_nan`].
pub fn check_nan(bits: u64) -> (r: bool)
    ensures
        r == is_nan(bits),
{
    if bits >= SIGN {
        bits - SIGN > INFINITY
    } else {
        bits > INFINITY
    }
}

/// Tests [`equal`].
pub fn check_equal(a: u64, b: u64) -> (r: bool)
    ensures
        r == equal(a, b),
{
    if check_nan(a) || check_nan(b) {
        false
    } else if a == b {
        true
    } else {
        (a == 0 && b == SIGN) || (a == SIGN && b == 0)
    }
}

/// Tests [`less`].
pub fn check_less(a: u64, b: u64) -> (r: bool)
    ensures
        r == less(a, b),
{
    if check_nan(a) || check_nan(b) {
        false
    } else if a >= SIGN {
        if b >= SIGN {
            b < a
        } else {
            a > SIGN || b > 0
        }
    } else {
        b < SIGN && a < b
    }
}

/// Flips the sign bit.
pub fn negate(bits: u64) -> (r: u64)
    ensures
        r == negated(bits),
{
    if bits >= SIGN {
        bits - SIGN
    } else {
        bits + SIGN
    }
}

/// Negating twice gives the number back.
pub proof fn lemma_negate_twice(bits: u64)
    ensures
        negated(negated(bits)) == bits,
        is_nan(negated(bits)) == is_nan(bits),
        !is_nan(bits) ==> position(negated(bits)) == -position(bits),
{
}

/// Order and equality exclude each other, and a number that is not NaN
/// equals itself.
pub proof fn lemma_order(a: u64, b: u64)
    ensures
        !(less(a, b) && less(b, a)),
        !(less(a, b) && equal(a, b)),
        equal(a, b) == equal(b, a),
        !is_nan(a) && !is_nan(b) ==> less(a, b) || equal(a, b) || less(b, a),
        equal(a, a) == !is_nan(a),
{
}

} // verus!
