//! Least-significant-bit steganography over raw pixel bytes.
//!
//! A payload is turned into a string of bits, optionally framed by a 16-bit
//! length header, and each bit is stored as the parity of one carrier byte.
//! Extraction reads the parities back and reassembles the bytes.
//!
//! - [`bits`]: the model of numbers as bit strings, most significant bit first.
//! - [`parity`]: one bit in the parity of one byte.
//! - [`codec`]: bytes and 16-bit integers to bits and back.
//! - [`frame`]: the length header and the error type.
//! - [`stego`]: embedding into a carrier and extracting from it.
//! - [`mode`]: the four operations as one enumerated mode.

pub mod bits;
pub mod codec;
pub mod frame;
pub mod mode;
pub mod parity;
pub mod stego;

pub use codec::{
    bin_to_u16, bin_to_u8, bin_to_vec_u8, u16_to_bin, u8_to_bin, vec_u8_to_bin, vec_u8_to_lsb,
};
pub use frame::{frame_bits, StegoError, HEADER_BITS, MAX_HEADER_VALUE};
pub use mode::{perform, Mode};
pub use parity::{lsb, set_lsb};
pub use stego::{embed, extract, write_bits};
