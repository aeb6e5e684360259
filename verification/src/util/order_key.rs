//! Total-order keys for single-precision values.
//!
//! The optimizer compares areas, densities and losses through a total order
//! (NaN greatest, `-0.0` equal to `+0.0`). The library never holds a float:
//! callers hand it the IEEE-754 bit pattern of a value, and `order_key` maps
//! that pattern to an unsigned key whose integer order is that total order.
//! For every non-NaN pattern, IEEE-754 orders values exactly as the integers
//! `sign_magnitude(bits)` are ordered.
use vstd::prelude::*;

verus! {

/// Bit of the sign in a single-precision pattern.
pub const SIGN_BIT: u32 = 0x8000_0000;

/// Largest magnitude (exponent and mantissa bits) of a non-NaN pattern: +inf.
pub const INFINITY_MAGNITUDE: u32 = 0x7f80_0000;

/// Key of `+0.0` and `-0.0`.
pub const ZERO_KEY: u64 = 0x8000_0000;

/// Key of every NaN pattern: above all other keys.
pub const NAN_KEY: u64 = 0xffff_ffff;

/// Exponent and mantissa bits of a pattern.
pub open spec fn magnitude(bits: u32) -> int {
    (bits as int) % (SIGN_BIT as int)
}

pub open spec fn is_negative_pattern(bits: u32) -> bool {
    bits >= SIGN_BIT
}

/// A pattern is NaN when its exponent bits are all ones and its mantissa is
/// not zero, i.e. its magnitude exceeds that of infinity.
pub open spec fn is_nan_pattern(bits: u32) -> bool {
    magnitude(bits) > INFINITY_MAGNITUDE as int
}

/// The integer that orders non-NaN patterns as IEEE-754 orders their values.
pub open spec fn sign_magnitude(bits: u32) -> int {
    if is_negative_pattern(bits) {
        -magnitude(bits)
    } else {
        magnitude(bits)
    }
}

pub open spec fn spec_order_key(bits: u32) -> int {
    if is_nan_pattern(bits) {
        NAN_KEY as int
    } else {
        ZERO_KEY as int + sign_magnitude(bits)
    }
}

/// Key of the value whose bit pattern is `bits`.
pub fn order_key(bits: u32) -> (k: u64)
    ensures
        k as int == spec_order_key(bits),
{
    let mag: u32 = bits % SIGN_BIT;
    if mag > INFINITY_MAGNITUDE {
        NAN_KEY
    } else if bits >= SIGN_BIT {
        ZERO_KEY - mag as u64
    } else {
        ZERO_KEY + mag as u64
    }
}

/// Keys order non-NaN values as their sign-magnitude integers do; equal
/// values (including `-0.0` and `+0.0`) have equal keys; a NaN key is at
/// least every key, and all NaN keys are equal.
pub proof fn lemma_order_key_is_total_order(a: u32, b: u32)
    ensures
        !is_nan_pattern(a) && !is_nan_pattern(b) ==> (spec_order_key(a) < spec_order_key(b)
            <==> sign_magnitude(a) < sign_magnitude(b)),
        !is_nan_pattern(a) && !is_nan_pattern(b) ==> (spec_order_key(a) == spec_order_key(b)
            <==> sign_magnitude(a) == sign_magnitude(b)),
        is_nan_pattern(a) ==> spec_order_key(b) <= spec_order_key(a),
        is_nan_pattern(a) && is_nan_pattern(b) ==> spec_order_key(a) == spec_order_key(b),
        0 <= spec_order_key(a) <= NAN_KEY,
{
}

/// IEEE-754 `<` on the values of two keys: false when either is NaN.
pub open spec fn spec_float_lt(a: u64, b: u64) -> bool {
    a != NAN_KEY && b != NAN_KEY && a < b
}

/// IEEE-754 `<=` on the values of two keys: false when either is NaN.
pub open spec fn spec_float_le(a: u64, b: u64) -> bool {
    a != NAN_KEY && b != NAN_KEY && a <= b
}

/// `<` between the values of two keys, as IEEE-754 compares floats.
pub fn float_lt(a: u64, b: u64) -> (r: bool)
    ensures
        r == spec_float_lt(a, b),
{
    a != NAN_KEY && b != NAN_KEY && a < b
}

/// `<=` between the values of two keys, as IEEE-754 compares floats.
pub fn float_le(a: u64, b: u64) -> (r: bool)
    ensures
        r == spec_float_le(a, b),
{
    a != NAN_KEY && b != NAN_KEY && a <= b
}

/// On the keys of two bit patterns, `float_lt` and `float_le` compare the
/// values as IEEE-754 does: by sign-magnitude when neither is NaN, and false
/// when either is.
pub proof fn lemma_float_comparisons(a: u32, b: u32)
    ensures
        !is_nan_pattern(a) && !is_nan_pattern(b) ==> (spec_float_lt(
            spec_order_key(a) as u64,
            spec_order_key(b) as u64,
        ) <==> sign_magnitude(a) < sign_magnitude(b)),
        !is_nan_pattern(a) && !is_nan_pattern(b) ==> (spec_float_le(
            spec_order_key(a) as u64,
            spec_order_key(b) as u64,
        ) <==> sign_magnitude(a) <= sign_magnitude(b)),
        is_nan_pattern(a) || is_nan_pattern(b) ==> !spec_float_lt(
            spec_order_key(a) as u64,
            spec_order_key(b) as u64,
        ) && !spec_float_le(spec_order_key(a) as u64, spec_order_key(b) as u64),
{
}

} // verus!
