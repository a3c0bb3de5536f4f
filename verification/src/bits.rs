//! Range tests on the bit patterns of IEEE 754 doubles.
//!
//! A double is a sign bit followed by 63 bits of magnitude. Among patterns of
//! one sign, a larger magnitude field is a larger absolute value, and every
//! infinity and NaN has a magnitude field above that of one.

use vstd::prelude::*;

verus! {

/// Bit pattern of positive zero.
pub const ZERO_BITS: u64 = 0;

/// Bit pattern of one.
pub const ONE_BITS: u64 = 0x3FF0_0000_0000_0000;

/// The sign bit of a double.
pub const SIGN_BIT: u64 = 0x8000_0000_0000_0000;

/// The pattern with its sign bit cleared: the pattern of the absolute value.
pub open spec fn magnitude(bits: u64) -> u64 {
    if bits >= SIGN_BIT {
        (bits - SIGN_BIT) as u64
    } else {
        bits
    }
}

/// The value of the pattern lies in the closed interval from minus one to one.
pub open spec fn in_closed_unit(bits: u64) -> bool {
    magnitude(bits) <= ONE_BITS
}

/// The value of the pattern lies in the interval from minus one (included) to
/// one (excluded).
pub open spec fn in_half_open_unit(bits: u64) -> bool {
    in_closed_unit(bits) && bits != ONE_BITS
}

/// Whether a drawn pattern may become a bias.
pub fn accept_bias(bits: u64) -> (ok: bool)
    ensures
        ok == in_closed_unit(bits),
{
    if bits >= SIGN_BIT {
        bits - SIGN_BIT <= ONE_BITS
    } else {
        bits <= ONE_BITS
    }
}

/// Whether a drawn pattern may become a weight.
pub fn accept_weight(bits: u64) -> (ok: bool)
    ensures
        ok == in_half_open_unit(bits),
{
    accept_bias(bits) && bits != ONE_BITS
}

} // verus!
