//! Reading observations from their IEEE-754 binary64 bit patterns.
//!
//! A double is a sign bit followed by 63 bits of biased exponent and
//! mantissa. Read as an unsigned integer, those 63 "magnitude" bits grow with
//! the absolute value of the number (zeros, subnormals, normals, infinity),
//! and a magnitude above that of infinity is a NaN. This module turns a bit
//! pattern into an unsigned key whose integer order is the numeric order of
//! the doubles, with both zeros sharing one key.
use vstd::prelude::*;

verus! {

/// The sign bit of a binary64 pattern.
pub const SIGN_BIT: u64 = 0x8000_0000_0000_0000;

/// The magnitude bits of positive infinity.
pub const INFINITY_MAGNITUDE: u64 = 0x7ff0_0000_0000_0000;

/// The pattern has its sign bit set.
pub open spec fn is_negative_bits(b: u64) -> bool {
    b >= SIGN_BIT
}

/// The 63 exponent and mantissa bits of a pattern, as an integer.
pub open spec fn magnitude(b: u64) -> int {
    (b % SIGN_BIT) as int
}

/// The pattern encodes a NaN: all exponent bits set and a non-zero mantissa.
pub open spec fn is_nan_bits(b: u64) -> bool {
    magnitude(b) > INFINITY_MAGNITUDE
}

/// The numeric order `a <= b` of the doubles encoded by two non-NaN patterns:
/// both zeros are equal; among non-negatives a larger magnitude is larger,
/// among negatives it is smaller, and every negative non-zero lies below
/// every non-negative.
pub open spec fn value_le(a: u64, b: u64) -> bool {
    if magnitude(a) == 0 && magnitude(b) == 0 {
        true
    } else if !is_negative_bits(a) && !is_negative_bits(b) {
        magnitude(a) <= magnitude(b)
    } else if is_negative_bits(a) && is_negative_bits(b) {
        magnitude(a) >= magnitude(b)
    } else {
        is_negative_bits(a)
    }
}

/// Floating-point equality `a == b` of two patterns: false when either is
/// a NaN, true for the two zeros, otherwise equality of the values.
pub open spec fn value_eq(a: u64, b: u64) -> bool {
    !is_nan_bits(a) && !is_nan_bits(b) && value_le(a, b) && value_le(b, a)
}

/// The order key of a pattern: negative numbers below `SIGN_BIT`, zeros at it,
/// positive numbers above it, ordered by magnitude away from it.
pub open spec fn key_of(b: u64) -> u64 {
    if is_negative_bits(b) {
        (SIGN_BIT - magnitude(b)) as u64
    } else {
        (SIGN_BIT + magnitude(b)) as u64
    }
}

/// The order key of an observation, or `None` when it is a NaN, which has no
/// place in the order.
pub fn order_key(bits: u64) -> (k: Option<u64>)
    ensures
        k == if is_nan_bits(bits) {
            None
        } else {
            Some(key_of(bits))
        },
{
    let mag = bits % SIGN_BIT;
    if mag > INFINITY_MAGNITUDE {
        None
    } else if bits >= SIGN_BIT {
        Some(SIGN_BIT - mag)
    } else {
        Some(SIGN_BIT + mag)
    }
}

/// Keys order observations as their values do: for any two non-NaN patterns,
/// the key of `a` is at most the key of `b` exactly when `a <= b` as numbers,
/// and the keys are equal exactly when the numbers are equal.
pub proof fn lemma_key_order_is_value_order(a: u64, b: u64)
    requires
        !is_nan_bits(a),
        !is_nan_bits(b),
    ensures
        (key_of(a) <= key_of(b)) == value_le(a, b),
        (key_of(a) == key_of(b)) == value_eq(a, b),
{
}

/// Two patterns share a key only when they are the same pattern or are the
/// two zeros.
pub proof fn lemma_key_identifies_pattern(a: u64, b: u64)
    requires
        key_of(a) == key_of(b),
    ensures
        a == b || (magnitude(a) == 0 && magnitude(b) == 0),
{
}

/// Law, on raw bit patterns: among non-negative doubles (sign bit clear)
/// keys follow the patterns' integer order, among negative doubles they
/// reverse it, every negative non-zero double lies below every non-negative
/// one, the two zeros share a key, and NaN patterns have no key.
pub proof fn lemma_key_order_on_bit_patterns(a: u64, b: u64)
    ensures
        a < 0x8000_0000_0000_0000 && b < 0x8000_0000_0000_0000 ==> (key_of(a) < key_of(b) <==> a
            < b),
        0x8000_0000_0000_0000 <= a && 0x8000_0000_0000_0000 <= b && a <= 0xfff0_0000_0000_0000
            && b <= 0xfff0_0000_0000_0000 ==> (key_of(a) < key_of(b) <==> a > b),
        0x8000_0000_0000_0000 < a <= 0xfff0_0000_0000_0000 && b < 0x8000_0000_0000_0000 ==> key_of(
            a,
        ) < key_of(b),
        key_of(0x8000_0000_0000_0000) == key_of(0),
        is_nan_bits(a) <==> (0x7ff0_0000_0000_0000 < a < 0x8000_0000_0000_0000 || 0xfff0_0000_0000_0000
            < a),
{
}

} // verus!
