//! Real numbers as this library carries them.
//!
//! A real number travels through the library as the 64-bit pattern of an
//! IEEE 754 binary64 value: one sign bit, eleven exponent bits, fifty-two
//! fraction bits. The library never does arithmetic on such a value. It only
//! classifies and orders patterns, and both are plain integer work: apart from
//! the patterns that are not a number, a smaller real has a smaller key.
use vstd::prelude::*;

verus! {

/// The sign bit of a pattern.
pub const SIGN_BIT: u64 = 0x8000_0000_0000_0000;

/// The pattern of positive infinity. A magnitude above it is not a number.
pub const POSITIVE_INFINITY: u64 = 0x7ff0_0000_0000_0000;

/// The pattern of positive zero.
pub const POSITIVE_ZERO: u64 = 0;

/// The pattern with its sign bit cleared: the absolute value.
pub open spec fn spec_magnitude(bits: u64) -> u64 {
    if bits >= SIGN_BIT {
        (bits - SIGN_BIT) as u64
    } else {
        bits
    }
}

/// Whether the pattern is not a number.
pub open spec fn spec_is_nan(bits: u64) -> bool {
    spec_magnitude(bits) > POSITIVE_INFINITY
}

/// The integer by which patterns are ordered: the magnitude, negated where the
/// sign bit is set. Both zeros have key 0. For two patterns that are numbers,
/// the keys compare as the reals do.
pub open spec fn spec_order_key(bits: u64) -> i64 {
    if bits >= SIGN_BIT {
        (0 - spec_magnitude(bits)) as i64
    } else {
        bits as i64
    }
}

/// `a < b` as reals: false as soon as either is not a number.
pub open spec fn spec_less_than(a: u64, b: u64) -> bool {
    !spec_is_nan(a) && !spec_is_nan(b) && spec_order_key(a) < spec_order_key(b)
}

/// `a > 0` as reals: false for both zeros and for what is not a number.
pub open spec fn spec_is_positive(a: u64) -> bool {
    spec_less_than(POSITIVE_ZERO, a)
}

/// Clears the sign bit.
#[verifier::when_used_as_spec(spec_magnitude)]
pub fn magnitude(bits: u64) -> (m: u64)
    ensures
        m == spec_magnitude(bits),
        m < SIGN_BIT,
{
    if bits >= SIGN_BIT {
        bits - SIGN_BIT
    } else {
        bits
    }
}

/// Tells whether the pattern is not a number.
#[verifier::when_used_as_spec(spec_is_nan)]
pub fn is_nan(bits: u64) -> (r: bool)
    ensures
        r == spec_is_nan(bits),
{
    magnitude(bits) > POSITIVE_INFINITY
}

/// Computes the ordering key of a pattern.
#[verifier::when_used_as_spec(spec_order_key)]
pub fn order_key(bits: u64) -> (k: i64)
    ensures
        k == spec_order_key(bits),
        k == if bits >= SIGN_BIT { -(spec_magnitude(bits) as int) } else { bits as int },
{
    let m: u64 = magnitude(bits);
    if bits >= SIGN_BIT {
        0 - (m as i64)
    } else {
        m as i64
    }
}

/// Compares two patterns as reals.
#[verifier::when_used_as_spec(spec_less_than)]
pub fn less_than(a: u64, b: u64) -> (r: bool)
    ensures
        r == spec_less_than(a, b),
{
    !is_nan(a) && !is_nan(b) && order_key(a) < order_key(b)
}

/// Tells whether a pattern is a real above zero.
#[verifier::when_used_as_spec(spec_is_positive)]
pub fn is_positive(a: u64) -> (r: bool)
    ensures
        r == spec_is_positive(a),
        r == (0 < a <= POSITIVE_INFINITY),
{
    less_than(POSITIVE_ZERO, a)
}

/// Numbers are totally ordered: of two patterns that are numbers, one is
/// below the other or their keys are equal, and never two of these at once.
pub proof fn lemma_numbers_are_totally_ordered(a: u64, b: u64)
    requires
        !is_nan(a),
        !is_nan(b),
    ensures
        less_than(a, b) || less_than(b, a) || order_key(a) == order_key(b),
        !(less_than(a, b) && less_than(b, a)),
        less_than(a, b) ==> order_key(a) != order_key(b),
{
}

/// Below is transitive.
pub proof fn lemma_less_than_is_transitive(a: u64, b: u64, c: u64)
    requires
        less_than(a, b),
        less_than(b, c),
    ensures
        less_than(a, c),
{
}

/// Two patterns have the same key exactly when they are the same pattern or
/// are the two zeros.
pub proof fn lemma_equal_keys(a: u64, b: u64)
    ensures
        order_key(a) == order_key(b) <==> a == b || (magnitude(a) == 0 && magnitude(b) == 0),
{
}

} // verus!
