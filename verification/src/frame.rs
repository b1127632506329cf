//! Framing: the bit string that is written into a carrier.
//!
//! A frame is the payload's bits, optionally led by a 16-bit header that
//! holds the number of payload bits. Without a header a frame does not say
//! how long it is, and a reader has to know.

use crate::bits::uint_bits;
use crate::codec::u16_to_bin;
use vstd::prelude::*;

verus! {

/// The number of bits in a length header.
pub const HEADER_BITS: usize = 16;

/// The largest number of payload bits that a length header can hold.
pub const MAX_HEADER_VALUE: usize = 65535;

/// Why an embedding or an extraction failed.
#[derive(Clone, Copy, Debug, PartialEq, Eq)]
pub enum StegoError {
    /// The frame has more bits than the carrier has bytes: `required` is the
    /// number of carrier bytes that the frame needs, `available` the number
    /// that the carrier has.
    CapacityError { required: u128, available: usize },
    /// The payload has more bits than a length header can hold.
    HeaderOverflow,
    /// The carrier ends before the data that is to be read from it.
    TruncatedCarrier,
}

/// The frame of a payload: with a header, the payload's bit count as sixteen
/// bits followed by the payload's bits; without one, the payload's bits alone.
pub open spec fn frame_of(payload_bits: Seq<bool>, use_header: bool) -> Seq<bool> {
    if use_header {
        uint_bits(payload_bits.len(), HEADER_BITS as nat) + payload_bits
    } else {
        payload_bits
    }
}

/// The number of bits in the frame of a payload of `payload_bits` bits.
pub open spec fn frame_len(payload_bits: nat, use_header: bool) -> nat {
    if use_header {
        HEADER_BITS as nat + payload_bits
    } else {
        payload_bits
    }
}

/// What framing a payload gives: the frame, or `HeaderOverflow` where a
/// header is asked for and the payload has more than 65535 bits.
pub open spec fn frame_outcome(payload_bits: Seq<bool>, use_header: bool) -> Result<
    Seq<bool>,
    StegoError,
> {
    if use_header && payload_bits.len() > MAX_HEADER_VALUE {
        Err(StegoError::HeaderOverflow)
    } else {
        Ok(frame_of(payload_bits, use_header))
    }
}

/// Builds the frame of a payload given as bits.
pub fn frame_bits(payload_bits: &[bool], use_header: bool) -> (r: Result<Vec<bool>, StegoError>)
    ensures
        match frame_outcome(payload_bits@, use_header) {
            Ok(frame) => r matches Ok(built) && built@ == frame,
            Err(e) => r == Err::<Vec<bool>, StegoError>(e),
        },
{
    let mut frame: Vec<bool> = Vec::new();
    if use_header {
        if payload_bits.len() > MAX_HEADER_VALUE {
            return Err(StegoError::HeaderOverflow);
        }
        let header: [bool; 16] = u16_to_bin(payload_bits.len() as u16);
        frame.extend_from_slice(&header);
    }
    frame.extend_from_slice(payload_bits);
    Ok(frame)
}

/// A payload of exactly 65535 bits is framed with a header; one bit more is
/// refused with `HeaderOverflow`. Without a header there is no such limit.
pub proof fn lemma_header_boundary(payload_bits: Seq<bool>)
    ensures
        payload_bits.len() == 65535 ==> frame_outcome(payload_bits, true) is Ok,
        payload_bits.len() == 65536 ==> frame_outcome(payload_bits, true) == Err::<
            Seq<bool>,
            StegoError,
        >(StegoError::HeaderOverflow),
        frame_outcome(payload_bits, true) is Ok <==> payload_bits.len() <= 65535,
        frame_outcome(payload_bits, false) is Ok,
{
}

} // verus!
