//! A total order on IEEE-754 binary64 bit patterns.
//!
//! The magnitude index needs keys that compare consistently, whatever pattern
//! it is handed. The order used here extends the numeric one: negative and
//! positive zero are one key, every NaN is one key, and that key is greater
//! than every number, infinity included.

use vstd::prelude::*;

verus! {

/// The sign bit of a binary64 pattern.
pub const SIGN_BIT: u64 = 0x8000_0000_0000_0000;

/// The pattern of positive infinity: all exponent bits set, fraction zero.
pub const INFINITY_BITS: u64 = 0x7FF0_0000_0000_0000;

/// The key shared by all NaN patterns.
pub const NAN_KEY: u64 = 0xFFFF_FFFF_FFFF_FFFF;

/// Whether the sign bit of `bits` is set.
pub open spec fn is_negative(bits: u64) -> bool {
    bits >= SIGN_BIT
}

/// The pattern with its sign bit cleared: exponent and fraction, which order
/// numbers of one sign by absolute value.
pub open spec fn abs_bits(bits: u64) -> u64 {
    if bits >= SIGN_BIT {
        (bits - SIGN_BIT) as u64
    } else {
        bits
    }
}

/// Whether `bits` encodes a NaN: exponent all ones and a nonzero fraction.
pub open spec fn is_nan(bits: u64) -> bool {
    abs_bits(bits) > INFINITY_BITS
}

/// `a` is at most `b` in the total order: numerically, with the two zeros
/// equal, all NaNs equal, and NaN above everything else.
pub open spec fn total_le(a: u64, b: u64) -> bool {
    if is_nan(b) {
        true
    } else if is_nan(a) {
        false
    } else if is_negative(a) {
        is_negative(b) ==> abs_bits(a) >= abs_bits(b)
    } else if is_negative(b) {
        abs_bits(a) == 0 && abs_bits(b) == 0
    } else {
        abs_bits(a) <= abs_bits(b)
    }
}

/// `a` and `b` are the same point of the total order.
pub open spec fn total_eq(a: u64, b: u64) -> bool {
    total_le(a, b) && total_le(b, a)
}

/// The key of a pattern: negative numbers count down from the middle of the
/// range, the zeros sit in the middle, positive numbers count up from it, and
/// NaN takes the top.
pub open spec fn spec_order_key(bits: u64) -> u64 {
    if is_nan(bits) {
        NAN_KEY
    } else if is_negative(bits) {
        (SIGN_BIT - abs_bits(bits)) as u64
    } else {
        (SIGN_BIT + bits) as u64
    }
}

/// Maps a binary64 bit pattern to an integer that sorts as the pattern does in
/// the total order.
pub fn order_key(bits: u64) -> (key: u64)
    ensures
        key == spec_order_key(bits),
{
    let negative = bits >= SIGN_BIT;
    let abs: u64 = if negative {
        bits - SIGN_BIT
    } else {
        bits
    };
    if abs > INFINITY_BITS {
        NAN_KEY
    } else if negative {
        SIGN_BIT - abs
    } else {
        SIGN_BIT + abs
    }
}

/// Keys compare exactly as their patterns do in the total order.
pub proof fn lemma_order_key_monotone(a: u64, b: u64)
    ensures
        spec_order_key(a) <= spec_order_key(b) <==> total_le(a, b),
{
}

/// Two patterns share a key exactly when the total order does not tell them
/// apart: both are NaN, both are zero, or they are the same pattern.
pub proof fn lemma_order_key_equal(a: u64, b: u64)
    ensures
        spec_order_key(a) == spec_order_key(b) <==> total_eq(a, b),
        total_eq(a, b) <==> (is_nan(a) && is_nan(b)) || (abs_bits(a) == 0 && abs_bits(b) == 0)
            || a == b,
{
}

/// The order is total: it is reflexive and transitive, and any two patterns
/// are comparable.
pub proof fn lemma_total_order(a: u64, b: u64, c: u64)
    ensures
        total_le(a, a),
        total_le(a, b) || total_le(b, a),
        total_le(a, b) && total_le(b, c) ==> total_le(a, c),
{
}

} // verus!
