//! The sign of a charge, read from the bit pattern of its magnitude. The
//! magnitude is a binary64 value; the host hands over its sixty-four bits:
//! one bit of sign, eleven of exponent and fifty-two of fraction, from the
//! top down.

use vstd::prelude::*;

verus! {

/// The three kinds of charge that a display tells apart.
#[derive(Debug, Clone, Copy, PartialEq, Eq, Structural)]
pub enum Polarity {
    /// The magnitude is above zero.
    Positive,
    /// The magnitude is below zero, or it is no number at all.
    Negative,
    /// The magnitude is zero, with either sign.
    Neutral,
}

/// The pattern with only the sign bit set.
pub const SIGN_BIT: u64 = 0x8000_0000_0000_0000;

/// The pattern of positive infinity; every pattern above it, the sign bit
/// set aside, is no number.
pub const INFINITY_BITS: u64 = 0x7ff0_0000_0000_0000;

/// Whether the sign bit of `bits` is set.
pub open spec fn sign_set(bits: u64) -> bool {
    bits >= SIGN_BIT
}

/// `bits` with the sign bit cleared.
pub open spec fn unsigned_bits(bits: u64) -> u64 {
    if sign_set(bits) {
        (bits - SIGN_BIT) as u64
    } else {
        bits
    }
}

/// Whether `bits` is the pattern of a zero.
pub open spec fn is_zero_bits(bits: u64) -> bool {
    unsigned_bits(bits) == 0
}

/// Whether `bits` is the pattern of no number.
pub open spec fn is_nan_bits(bits: u64) -> bool {
    unsigned_bits(bits) > INFINITY_BITS
}

/// The kind of a charge whose magnitude has the pattern `bits`: neutral for
/// the two zeros, positive for what compares above zero, negative for the
/// rest.
pub open spec fn polarity_of(bits: u64) -> Polarity {
    if is_zero_bits(bits) {
        Polarity::Neutral
    } else if !sign_set(bits) && !is_nan_bits(bits) {
        Polarity::Positive
    } else {
        Polarity::Negative
    }
}

/// Tells the kind of a charge from the bit pattern of its magnitude.
pub fn polarity(bits: u64) -> (kind: Polarity)
    ensures
        kind == polarity_of(bits),
{
    if bits == 0 || bits == SIGN_BIT {
        Polarity::Neutral
    } else if bits <= INFINITY_BITS {
        Polarity::Positive
    } else {
        Polarity::Negative
    }
}

} // verus!
