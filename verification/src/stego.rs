//! Embedding a payload into a carrier and extracting it again.
//!
//! A carrier is a buffer of raw pixel bytes. Bit `i` of a frame is stored as
//! the parity of carrier byte `i`; nothing else of the carrier changes, and
//! its length never does.

use crate::bits::{bits_uint, lemma_uint_round_trip, uint_bits, window};
use crate::codec::{
    bin_to_u16, bin_to_vec_u8, bits_bytes, bytes_bits, lemma_bytes_round_trip, lsb_bits,
    vec_u8_to_bin, vec_u8_to_lsb,
};
use crate::frame::{
    frame_bits, frame_len, frame_of, frame_outcome, StegoError, HEADER_BITS, MAX_HEADER_VALUE,
};
use crate::parity::{lemma_parity_written, set_lsb, with_parity};
use vstd::arithmetic::power2::lemma2_to64;
use vstd::prelude::*;

verus! {

/// The carrier after a frame is written into it: byte `i` holds bit `i` of
/// the frame in its parity, and the bytes beyond the frame are as before.
pub open spec fn carrier_with(carrier: Seq<u8>, frame: Seq<bool>) -> Seq<u8> {
    Seq::new(
        carrier.len(),
        |i: int|
            if i < frame.len() {
                with_parity(carrier[i], frame[i])
            } else {
                carrier[i]
            },
    )
}

/// What writing a frame into a carrier gives: the new carrier, or
/// `CapacityError` where the frame has more bits than the carrier has bytes.
pub open spec fn write_outcome(frame: Seq<bool>, carrier: Seq<u8>) -> Result<Seq<u8>, StegoError> {
    if frame.len() > carrier.len() {
        Err(
            StegoError::CapacityError {
                required: frame.len() as u128,
                available: carrier.len() as usize,
            },
        )
    } else {
        Ok(carrier_with(carrier, frame))
    }
}

/// What embedding a payload gives: the new carrier, `HeaderOverflow` where
/// the payload is too long for a header, or else `CapacityError` where the
/// frame does not fit the carrier.
pub open spec fn embed_outcome(payload: Seq<u8>, carrier: Seq<u8>, use_header: bool) -> Result<
    Seq<u8>,
    StegoError,
> {
    match frame_outcome(bytes_bits(payload), use_header) {
        Ok(frame) => write_outcome(frame, carrier),
        Err(e) => Err(e),
    }
}

/// The number of payload bits that a carrier's header declares.
pub open spec fn declared_len(carrier: Seq<u8>) -> nat {
    bits_uint(lsb_bits(carrier.subrange(0, HEADER_BITS as int)))
}

/// What extracting from a carrier gives. With a header, the payload's bits
/// are the parities of the bytes that follow the header, as many as the
/// header declares. Without one, they are the parities of the first
/// `known_length` bytes, and nothing is said where no length is given. Either
/// way the result is `TruncatedCarrier` where the carrier ends before those
/// bytes do.
pub open spec fn extract_outcome(
    carrier: Seq<u8>,
    use_header: bool,
    known_length: Option<u32>,
) -> Result<Seq<u8>, StegoError> {
    let start: int = if use_header {
        HEADER_BITS as int
    } else {
        0
    };
    let count: int = if use_header {
        declared_len(carrier) as int
    } else {
        known_length->Some_0 as int
    };
    if carrier.len() < start || carrier.len() < start + count {
        Err(StegoError::TruncatedCarrier)
    } else {
        Ok(bits_bytes(lsb_bits(carrier.subrange(start, start + count))))
    }
}

/// Writes a frame into a carrier, bit `i` into the parity of byte `i`. Where
/// the frame has more bits than the carrier has bytes, the carrier is left as
/// it is.
pub fn write_bits(frame: &[bool], carrier: &mut [u8]) -> (r: Result<(), StegoError>)
    ensures
        match write_outcome(frame@, old(carrier)@) {
            Ok(written) => r is Ok && final(carrier)@ == written,
            Err(e) => r == Err::<(), StegoError>(e) && final(carrier)@ == old(carrier)@,
        },
{
    if frame.len() > carrier.len() {
        return Err(
            StegoError::CapacityError {
                required: frame.len() as u128,
                available: carrier.len(),
            },
        );
    }
    let mut i: usize = 0;
    while i < frame.len()
        invariant
            i <= frame@.len() <= carrier@.len(),
            carrier@.len() == old(carrier)@.len(),
            forall|j: int|
                0 <= j < carrier@.len() ==> carrier@[j] == if j < i {
                    with_parity(old(carrier)@[j], frame@[j])
                } else {
                    old(carrier)@[j]
                },
        decreases frame@.len() - i,
    {
        carrier[i] = set_lsb(carrier[i], frame[i]);
        i += 1;
    }
    Ok(())
}

/// Hides `payload` in `carrier`: the payload's bits, led by a 16-bit length
/// header where `use_header` is set, are written into the parities of the
/// carrier's first bytes. On failure the carrier is left as it is.
pub fn embed(payload: &[u8], carrier: &mut [u8], use_header: bool) -> (r: Result<(), StegoError>)
    ensures
        match embed_outcome(payload@, old(carrier)@, use_header) {
            Ok(written) => r is Ok && final(carrier)@ == written,
            Err(e) => r == Err::<(), StegoError>(e) && final(carrier)@ == old(carrier)@,
        },
{
    if payload.len() > usize::MAX / 8 {
        // The payload's bits outnumber every header value and every carrier.
        return if use_header {
            Err(StegoError::HeaderOverflow)
        } else {
            Err(
                StegoError::CapacityError {
                    required: 8 * (payload.len() as u128),
                    available: carrier.len(),
                },
            )
        };
    }
    let payload_bits: Vec<bool> = vec_u8_to_bin(payload);
    match frame_bits(payload_bits.as_slice(), use_header) {
        Ok(frame) => write_bits(frame.as_slice(), carrier),
        Err(e) => Err(e),
    }
}

/// Recovers a payload from `carrier`. With a header the payload's length is
/// read from the carrier; without one the caller gives it as `known_length`,
/// the number of payload bits.
pub fn extract(carrier: &[u8], use_header: bool, known_length: Option<u32>) -> (r: Result<
    Vec<u8>,
    StegoError,
>)
    requires
        !use_header ==> known_length is Some,
    ensures
        match extract_outcome(carrier@, use_header, known_length) {
            Ok(payload) => r matches Ok(found) && found@ == payload,
            Err(e) => r == Err::<Vec<u8>, StegoError>(e),
        },
{
    let start: usize = if use_header {
        HEADER_BITS
    } else {
        0
    };
    if carrier.len() < start {
        return Err(StegoError::TruncatedCarrier);
    }
    let count: usize = if use_header {
        let header_bits: Vec<bool> = vec_u8_to_lsb(&carrier[0..HEADER_BITS]);
        assert(window(header_bits@, 16) =~= header_bits@);
        bin_to_u16(header_bits.as_slice()) as usize
    } else {
        known_length.unwrap() as usize
    };
    if carrier.len() - start < count {
        return Err(StegoError::TruncatedCarrier);
    }
    let payload_bits: Vec<bool> = vec_u8_to_lsb(&carrier[start..start + count]);
    Ok(bin_to_vec_u8(payload_bits.as_slice()))
}

/// A carrier read back after a frame was written into it gives the frame:
/// the parities of its first bytes are the frame's bits.
pub proof fn lemma_written_frame_reads_back(carrier: Seq<u8>, frame: Seq<bool>)
    requires
        frame.len() <= carrier.len(),
    ensures
        lsb_bits(carrier_with(carrier, frame).subrange(0, frame.len() as int)) == frame,
{
    let read = lsb_bits(carrier_with(carrier, frame).subrange(0, frame.len() as int));
    assert forall|i: int| 0 <= i < frame.len() implies read[i] == frame[i] by {
        lemma_parity_written(carrier[i], frame[i]);
    }
    assert(read =~= frame);
}

/// Writing the same frame into a carrier twice gives the same carrier as
/// writing it once.
pub proof fn lemma_write_idempotent(carrier: Seq<u8>, frame: Seq<bool>)
    ensures
        carrier_with(carrier_with(carrier, frame), frame) == carrier_with(carrier, frame),
{
    let once = carrier_with(carrier, frame);
    assert forall|i: int| 0 <= i < carrier.len() implies carrier_with(once, frame)[i]
        == once[i] by {
        if i < frame.len() {
            lemma_parity_written(carrier[i], frame[i]);
        }
    }
    assert(carrier_with(once, frame) =~= once);
}

/// A frame with exactly as many bits as the carrier has bytes is written; a
/// frame with one bit more is refused with `CapacityError`. In general a
/// frame is written exactly when it has no more bits than the carrier has
/// bytes.
pub proof fn lemma_capacity_boundary(frame: Seq<bool>, carrier: Seq<u8>)
    ensures
        frame.len() == carrier.len() ==> write_outcome(frame, carrier) is Ok,
        frame.len() == carrier.len() + 1 ==> write_outcome(frame, carrier) == Err::<
            Seq<u8>,
            StegoError,
        >(
            StegoError::CapacityError {
                required: frame.len() as u128,
                available: carrier.len() as usize,
            },
        ),
        write_outcome(frame, carrier) is Ok <==> frame.len() <= carrier.len(),
{
}

/// Embedding succeeds exactly when the payload is within the header's limit,
/// where a header is used, and the carrier has at least one byte for each bit
/// of the frame. A frame that fills the carrier exactly is embedded; with one
/// carrier byte fewer it is refused with `CapacityError`.
pub proof fn lemma_embed_fits(payload: Seq<u8>, carrier: Seq<u8>, use_header: bool)
    ensures
        embed_outcome(payload, carrier, use_header) is Ok <==> {
            &&& use_header ==> 8 * payload.len() <= MAX_HEADER_VALUE
            &&& frame_len(8 * payload.len(), use_header) <= carrier.len()
        },
        use_header && 8 * payload.len() > MAX_HEADER_VALUE ==> embed_outcome(
            payload,
            carrier,
            use_header,
        ) == Err::<Seq<u8>, StegoError>(StegoError::HeaderOverflow),
        !(use_header && 8 * payload.len() > MAX_HEADER_VALUE) && frame_len(
            8 * payload.len(),
            use_header,
        ) > carrier.len() ==> embed_outcome(payload, carrier, use_header) == Err::<
            Seq<u8>,
            StegoError,
        >(
            StegoError::CapacityError {
                required: frame_len(8 * payload.len(), use_header) as u128,
                available: carrier.len() as usize,
            },
        ),
{
}

/// Whatever is embedded can be extracted again: where a payload fits a
/// carrier, extracting from the carrier that embedding gives, in the same
/// mode, returns the payload. Without a header the reader is told the
/// payload's bit count.
pub proof fn lemma_embed_extract_round_trip(
    payload: Seq<u8>,
    carrier: Seq<u8>,
    use_header: bool,
    known_length: Option<u32>,
)
    requires
        frame_len(8 * payload.len(), use_header) <= carrier.len(),
        use_header ==> 8 * payload.len() <= MAX_HEADER_VALUE,
        !use_header ==> known_length == Some((8 * payload.len()) as u32) && 8 * payload.len()
            <= u32::MAX,
    ensures
        embed_outcome(payload, carrier, use_header) is Ok,
        extract_outcome(
            embed_outcome(payload, carrier, use_header)->Ok_0,
            use_header,
            known_length,
        ) == Ok::<Seq<u8>, StegoError>(payload),
{
    let bits = bytes_bits(payload);
    let frame = frame_of(bits, use_header);
    let written = carrier_with(carrier, frame);
    lemma_written_frame_reads_back(carrier, frame);
    lemma_bytes_round_trip(payload);
    let read = lsb_bits(written.subrange(0, frame.len() as int));
    if use_header {
        let header = uint_bits(bits.len(), 16);
        assert(lsb_bits(written.subrange(0, 16)) =~= read.subrange(0, 16));
        assert(read.subrange(0, 16) =~= header);
        lemma2_to64();
        lemma_uint_round_trip(bits.len(), 16);
        let end: int = 16 + bits.len() as int;
        assert(lsb_bits(written.subrange(16, end)) =~= read.subrange(16, end));
        assert(read.subrange(16, end) =~= bits);
    }
}

} // verus!
