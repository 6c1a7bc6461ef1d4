//! Keys for real quantities.
//!
//! A double-precision number (IEEE 754 binary64) is a sign bit followed by 63
//! bits of magnitude, and among numbers of one sign a larger magnitude is
//! further from zero. The key of a bit pattern is its magnitude, negated when
//! the sign bit is set. So keys compare as the numbers do, both zeros share
//! the key `0`, negating a number negates its key, and the patterns that are
//! not numbers have keys beyond those of the two infinities.
use vstd::prelude::*;

verus! {

/// The key of a real quantity.
pub type Scalar = i64;

/// The key of zero.
pub const ZERO: Scalar = 0;

/// The key of one.
pub const ONE: Scalar = 0x3FF0_0000_0000_0000;

/// The key of positive infinity, the largest key of a number.
pub const INFINITY: Scalar = 0x7FF0_0000_0000_0000;

/// The key of negative infinity, the smallest key of a number.
pub const NEG_INFINITY: Scalar = -0x7FF0_0000_0000_0000;

/// The place value of the sign bit in a 64-bit pattern.
pub const SIGN_BIT: u64 = 0x8000_0000_0000_0000;

/// The key that stands for a 64-bit pattern.
pub open spec fn key_of(bits: u64) -> int {
    if bits < SIGN_BIT {
        bits as int
    } else {
        SIGN_BIT - bits
    }
}

/// The 64-bit pattern that a key stands for: the inverse of [`key_of`] on
/// every pattern but that of negative zero.
pub open spec fn bits_of(key: Scalar) -> int {
    if key >= 0 {
        key as int
    } else {
        SIGN_BIT - key
    }
}

/// Whether a key stands for a number, infinite ones included.
pub open spec fn is_number(key: Scalar) -> bool {
    NEG_INFINITY <= key <= INFINITY
}

/// The key of the negated quantity. Only `i64::MIN`, which is the key of no
/// bit pattern, is left as it is.
pub open spec fn negated(key: Scalar) -> Scalar {
    if key == i64::MIN {
        key
    } else {
        (-key) as Scalar
    }
}

/// Whether `a` is less than `b` as numbers are compared: never, if either
/// is no number.
pub open spec fn is_less(a: Scalar, b: Scalar) -> bool {
    is_number(a) && is_number(b) && a < b
}

/// Turns a 64-bit pattern into its key.
pub fn from_bits(bits: u64) -> (key: Scalar)
    ensures
        key == key_of(bits),
        key > i64::MIN,
{
    if bits < SIGN_BIT {
        bits as i64
    } else {
        let magnitude: u64 = bits - SIGN_BIT;
        -(magnitude as i64)
    }
}

/// Turns a key back into a 64-bit pattern.
pub fn to_bits(key: Scalar) -> (bits: u64)
    requires
        key > i64::MIN,
    ensures
        bits == bits_of(key),
{
    if key >= 0 {
        key as u64
    } else {
        let magnitude: i64 = -key;
        SIGN_BIT + (magnitude as u64)
    }
}

/// Tells whether a key stands for no number at all.
pub fn is_nan(key: Scalar) -> (nan: bool)
    ensures
        nan == !is_number(key),
{
    key > INFINITY || key < NEG_INFINITY
}

/// Compares two keys as the numbers are compared.
pub fn less(a: Scalar, b: Scalar) -> (out: bool)
    ensures
        out == is_less(a, b),
{
    !is_nan(a) && !is_nan(b) && a < b
}

/// The key of the negated quantity.
pub fn negate(key: Scalar) -> (out: Scalar)
    ensures
        out == negated(key),
{
    if key == i64::MIN {
        key
    } else {
        -key
    }
}

/// A key survives the trip to its bit pattern and back.
pub proof fn lemma_key_round_trip(key: Scalar)
    requires
        key > i64::MIN,
    ensures
        0 <= bits_of(key) <= u64::MAX,
        key_of(bits_of(key) as u64) == key,
{
}

/// A bit pattern survives the trip to its key and back, unless it is the
/// pattern of negative zero, which comes back as zero.
pub proof fn lemma_bits_round_trip(bits: u64)
    ensures
        i64::MIN < key_of(bits) <= i64::MAX,
        bits != SIGN_BIT ==> bits_of(key_of(bits) as Scalar) == bits,
        bits == SIGN_BIT ==> bits_of(key_of(bits) as Scalar) == 0,
{
}

/// Setting the sign bit of a pattern negates its key.
pub proof fn lemma_sign_bit_negates(bits: u64)
    requires
        bits < SIGN_BIT,
    ensures
        key_of((bits + SIGN_BIT) as u64) == -key_of(bits),
{
}

/// Among patterns of one sign, keys are ordered by magnitude: upwards for
/// the positive sign, downwards for the negative one.
pub proof fn lemma_keys_follow_magnitude(a: u64, b: u64)
    requires
        a < b,
    ensures
        b < SIGN_BIT ==> key_of(a) < key_of(b),
        SIGN_BIT <= a ==> key_of(b) < key_of(a),
        a < SIGN_BIT < b ==> key_of(b) < key_of(a),
{
}

/// Negating twice gives the key back.
pub proof fn lemma_negated_twice(key: Scalar)
    ensures
        negated(negated(key)) == key,
{
}

} // verus!
