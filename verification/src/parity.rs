//! Reading and writing one bit in the parity of one byte.

use vstd::prelude::*;

verus! {

/// The bit that a carrier byte holds: `true` exactly when the byte is odd.
pub open spec fn parity_bit(b: u8) -> bool {
    b % 2 == 1
}

/// The byte `b` with its lowest bit replaced by `bit`; the seven upper bits
/// stay as they are.
pub open spec fn with_parity(b: u8, bit: bool) -> u8 {
    (b - b % 2 + if bit {
        1int
    } else {
        0int
    }) as u8
}

/// Reads the bit held by a carrier byte.
pub fn lsb(b: u8) -> (bit: bool)
    ensures
        bit == parity_bit(b),
{
    b % 2 == 1
}

/// Stores `bit` in the parity of `b`: a byte that already holds the bit is
/// returned as it is, an even byte is raised by one for a one, and an odd
/// byte is lowered by one for a zero.
pub fn set_lsb(b: u8, bit: bool) -> (r: u8)
    ensures
        r == with_parity(b, bit),
        parity_bit(b) == bit ==> r == b,
        bit && !parity_bit(b) ==> r == b + 1,
        !bit && parity_bit(b) ==> r == b - 1,
{
    if bit && b % 2 == 0 {
        b + 1
    } else if !bit && b % 2 == 1 {
        b - 1
    } else {
        b
    }
}

/// A byte into which a bit was written holds that bit and keeps its upper
/// bits, and writing the same bit again changes nothing.
pub proof fn lemma_parity_written(b: u8, bit: bool)
    ensures
        parity_bit(with_parity(b, bit)) == bit,
        with_parity(b, bit) / 2 == b / 2,
        with_parity(with_parity(b, bit), bit) == with_parity(b, bit),
{
}

} // verus!
