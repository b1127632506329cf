//! The four operations as one enumerated mode: writing or reading, with or
//! without a length header.

use crate::frame::StegoError;
use crate::stego::{embed, embed_outcome, extract, extract_outcome};
use vstd::prelude::*;

verus! {

/// What is done to a carrier.
#[derive(Clone, Copy, Debug, PartialEq, Eq)]
pub enum Mode {
    /// Embed a payload, led by a length header.
    WriteWithHeader,
    /// Embed a payload with no header.
    WriteRaw,
    /// Extract a payload whose length the carrier's header declares.
    ReadWithHeader,
    /// Extract a payload whose length the caller knows.
    ReadRaw,
}

impl Mode {
    /// Whether the mode embeds a payload rather than extracting one.
    pub open spec fn writes(self) -> bool {
        self is WriteWithHeader || self is WriteRaw
    }

    /// Whether the mode frames the payload with a length header.
    pub open spec fn framed(self) -> bool {
        self is WriteWithHeader || self is ReadWithHeader
    }

    /// Whether the mode embeds a payload rather than extracting one.
    pub fn is_write(&self) -> (r: bool)
        ensures
            r == self.writes(),
    {
        match self {
            Mode::WriteWithHeader | Mode::WriteRaw => true,
            Mode::ReadWithHeader | Mode::ReadRaw => false,
        }
    }

    /// Whether the mode frames the payload with a length header.
    pub fn uses_header(&self) -> (r: bool)
        ensures
            r == self.framed(),
    {
        match self {
            Mode::WriteWithHeader | Mode::ReadWithHeader => true,
            Mode::WriteRaw | Mode::ReadRaw => false,
        }
    }
}

/// Runs one operation on a carrier. A writing mode embeds `payload` and
/// returns `None`; a reading mode leaves the carrier as it is, ignores
/// `payload` and returns the payload it extracted. `known_length` is the
/// payload's bit count, which only `ReadRaw` uses.
pub fn perform(mode: Mode, payload: &[u8], carrier: &mut [u8], known_length: Option<u32>) -> (r:
    Result<Option<Vec<u8>>, StegoError>)
    requires
        mode is ReadRaw ==> known_length is Some,
    ensures
        mode.writes() ==> match embed_outcome(payload@, old(carrier)@, mode.framed()) {
            Ok(written) => r matches Ok(None) && final(carrier)@ == written,
            Err(e) => r == Err::<Option<Vec<u8>>, StegoError>(e) && final(carrier)@ == old(
                carrier,
            )@,
        },
        !mode.writes() ==> final(carrier)@ == old(carrier)@ && match extract_outcome(
            old(carrier)@,
            mode.framed(),
            known_length,
        ) {
            Ok(hidden) => r matches Ok(Some(found)) && found@ == hidden,
            Err(e) => r == Err::<Option<Vec<u8>>, StegoError>(e),
        },
{
    if mode.is_write() {
        match embed(payload, carrier, mode.uses_header()) {
            Ok(()) => Ok(None),
            Err(e) => Err(e),
        }
    } else {
        match extract(carrier, mode.uses_header(), known_length) {
            Ok(found) => Ok(Some(found)),
            Err(e) => Err(e),
        }
    }
}

} // verus!
