//! Conversion between bytes, 16-bit integers and bit strings.
//!
//! One convention holds throughout: within a byte or a 16-bit integer the
//! most significant bit comes first, and bytes follow each other in input
//! order.

use crate::bits::{
    bits_uint, digit, lemma_bits_round_trip, lemma_bits_uint_bound, lemma_uint_round_trip,
    uint_bits, window,
};
use crate::parity::{lsb, parity_bit};
use vstd::arithmetic::div_mod::lemma_div_denominator;
use vstd::arithmetic::power2::{
    lemma2_to64, lemma_pow2_pos, lemma_pow2_strictly_increases, lemma_pow2_unfold, pow2,
};
use vstd::prelude::*;

verus! {

/// The bit string of a byte sequence: eight bits for each byte, in input order.
pub open spec fn bytes_bits(bytes: Seq<u8>) -> Seq<bool> {
    Seq::new((8 * bytes.len()) as nat, |i: int| uint_bits(bytes[i / 8] as nat, 8)[i % 8])
}

/// The bytes that a bit string spells: one byte for each full group of eight
/// bits, in order. A shorter group at the end is left out.
pub open spec fn bits_bytes(bits: Seq<bool>) -> Seq<u8> {
    Seq::new(bits.len() / 8, |k: int| bits_uint(bits.subrange(8 * k, 8 * k + 8)) as u8)
}

/// The parity of each byte, in order: one bit for each byte.
pub open spec fn lsb_bits(bytes: Seq<u8>) -> Seq<bool> {
    Seq::new(bytes.len(), |i: int| parity_bit(bytes[i]))
}

/// `2^a <= 2^b` whenever `a <= b`.
proof fn lemma_pow2_le(a: nat, b: nat)
    requires
        a <= b,
    ensures
        pow2(a) <= pow2(b),
{
    if a < b {
        lemma_pow2_strictly_increases(a, b);
    }
}

/// Halving `x / 2^k` gives `x / 2^(k + 1)`.
proof fn lemma_shift_once_more(x: nat, k: nat)
    ensures
        (x / pow2(k)) / 2 == x / pow2(k + 1),
{
    lemma_pow2_pos(k);
    lemma_pow2_unfold(k + 1);
    lemma_div_denominator(x as int, pow2(k) as int, 2);
}

/// Converts a 16-bit integer into its sixteen bits, most significant first.
pub fn u16_to_bin(x: u16) -> (out: [bool; 16])
    ensures
        out@ == uint_bits(x as nat, 16),
{
    let mut out: [bool; 16] = [false; 16];
    let mut rest: u16 = x;
    let mut i: usize = 0;
    proof {
        lemma2_to64();
    }
    while i < 16
        invariant
            i <= 16,
            rest as nat == x as nat / pow2(i as nat),
            forall|j: int| 16 - i <= j < 16 ==> out@[j] == digit(x as nat, (15 - j) as nat),
        decreases 16 - i,
    {
        out[15 - i] = rest % 2 == 1;
        proof {
            lemma_shift_once_more(x as nat, i as nat);
        }
        rest = rest / 2;
        i += 1;
    }
    out
}

/// Reads the first sixteen entries of `x` as a 16-bit integer, most
/// significant bit first. Further entries are ignored; where `x` has fewer
/// than sixteen, the missing ones count as zero bits.
pub fn bin_to_u16(x: &[bool]) -> (out: u16)
    ensures
        out as nat == bits_uint(window(x@, 16)),
{
    let mut out: u16 = 0;
    let mut i: usize = 0;
    while i < 16
        invariant
            i <= 16,
            out as nat == bits_uint(window(x@, 16).take(i as int)),
        decreases 16 - i,
    {
        let bit: bool = i < x.len() && x[i];
        proof {
            let read = window(x@, 16).take(i + 1);
            assert(read.drop_last() =~= window(x@, 16).take(i as int));
            lemma_bits_uint_bound(read);
            lemma_pow2_le((i + 1) as nat, 16);
            lemma2_to64();
        }
        out = if bit {
            out * 2 + 1
        } else {
            out * 2
        };
        i += 1;
    }
    assert(window(x@, 16).take(16) =~= window(x@, 16));
    out
}

/// Converts a byte into its eight bits, most significant first.
pub fn u8_to_bin(x: u8) -> (out: [bool; 8])
    ensures
        out@ == uint_bits(x as nat, 8),
{
    let mut out: [bool; 8] = [false; 8];
    let mut rest: u8 = x;
    let mut i: usize = 0;
    proof {
        lemma2_to64();
    }
    while i < 8
        invariant
            i <= 8,
            rest as nat == x as nat / pow2(i as nat),
            forall|j: int| 8 - i <= j < 8 ==> out@[j] == digit(x as nat, (7 - j) as nat),
        decreases 8 - i,
    {
        out[7 - i] = rest % 2 == 1;
        proof {
            lemma_shift_once_more(x as nat, i as nat);
        }
        rest = rest / 2;
        i += 1;
    }
    out
}

/// Reads the first eight entries of `x` as a byte, most significant bit
/// first. Further entries are ignored; where `x` has fewer than eight, the
/// missing ones count as zero bits.
pub fn bin_to_u8(x: &[bool]) -> (out: u8)
    ensures
        out as nat == bits_uint(window(x@, 8)),
{
    let mut out: u8 = 0;
    let mut i: usize = 0;
    while i < 8
        invariant
            i <= 8,
            out as nat == bits_uint(window(x@, 8).take(i as int)),
        decreases 8 - i,
    {
        let bit: bool = i < x.len() && x[i];
        proof {
            let read = window(x@, 8).take(i + 1);
            assert(read.drop_last() =~= window(x@, 8).take(i as int));
            lemma_bits_uint_bound(read);
            lemma_pow2_le((i + 1) as nat, 8);
            lemma2_to64();
        }
        out = if bit {
            out * 2 + 1
        } else {
            out * 2
        };
        i += 1;
    }
    assert(window(x@, 8).take(8) =~= window(x@, 8));
    out
}

/// Converts bytes into their bit string: eight bits for each byte, most
/// significant first, in input order.
pub fn vec_u8_to_bin(x: &[u8]) -> (out: Vec<bool>)
    requires
        8 * x@.len() <= usize::MAX,
    ensures
        out@ == bytes_bits(x@),
{
    let mut out: Vec<bool> = Vec::with_capacity(x.len() * 8);
    let mut k: usize = 0;
    while k < x.len()
        invariant
            k <= x@.len(),
            out@.len() == 8 * k,
            forall|i: int| 0 <= i < out@.len() ==> out@[i] == bytes_bits(x@)[i],
        decreases x@.len() - k,
    {
        let byte: [bool; 8] = u8_to_bin(x[k]);
        let mut j: usize = 0;
        while j < 8
            invariant
                j <= 8,
                k < x@.len(),
                byte@ == uint_bits(x@[k as int] as nat, 8),
                out@.len() == 8 * k + j,
                forall|i: int| 0 <= i < out@.len() ==> out@[i] == bytes_bits(x@)[i],
            decreases 8 - j,
        {
            out.push(byte[j]);
            j += 1;
        }
        k += 1;
    }
    out
}

/// Converts a bit string into bytes: each full group of eight bits becomes
/// one byte, most significant bit first. A shorter group at the end is
/// dropped.
pub fn bin_to_vec_u8(x: &[bool]) -> (out: Vec<u8>)
    ensures
        out@ == bits_bytes(x@),
{
    let groups: usize = x.len() / 8;
    let mut out: Vec<u8> = Vec::with_capacity(groups);
    let mut k: usize = 0;
    while k < groups
        invariant
            k <= groups,
            groups == x.len() / 8,
            out@.len() == k,
            forall|i: int| 0 <= i < k ==> out@[i] == bits_bytes(x@)[i],
        decreases groups - k,
    {
        let group: &[bool] = &x[8 * k..8 * k + 8];
        let byte: u8 = bin_to_u8(group);
        proof {
            assert(window(group@, 8) =~= group@);
        }
        out.push(byte);
        k += 1;
    }
    out
}

/// Collects the least significant bit of each byte, in order.
pub fn vec_u8_to_lsb(x: &[u8]) -> (out: Vec<bool>)
    ensures
        out@ == lsb_bits(x@),
{
    let mut out: Vec<bool> = Vec::with_capacity(x.len());
    let mut i: usize = 0;
    while i < x.len()
        invariant
            i <= x@.len(),
            out@.len() == i,
            forall|j: int| 0 <= j < i ==> out@[j] == parity_bit(x@[j]),
        decreases x@.len() - i,
    {
        out.push(lsb(x[i]));
        i += 1;
    }
    out
}

/// Reading back the eight bits of a byte gives the byte.
pub proof fn lemma_u8_round_trip(x: u8)
    ensures
        bits_uint(window(uint_bits(x as nat, 8), 8)) == x,
{
    assert(window(uint_bits(x as nat, 8), 8) =~= uint_bits(x as nat, 8));
    lemma2_to64();
    lemma_uint_round_trip(x as nat, 8);
}

/// Reading back the sixteen bits of a 16-bit integer gives the integer.
pub proof fn lemma_u16_round_trip(n: u16)
    ensures
        bits_uint(window(uint_bits(n as nat, 16), 16)) == n,
{
    assert(window(uint_bits(n as nat, 16), 16) =~= uint_bits(n as nat, 16));
    lemma2_to64();
    lemma_uint_round_trip(n as nat, 16);
}

/// Turning bytes into bits and the bits back into bytes gives the bytes
/// again.
pub proof fn lemma_bytes_round_trip(bytes: Seq<u8>)
    ensures
        bits_bytes(bytes_bits(bytes)) == bytes,
{
    let bits = bytes_bits(bytes);
    assert forall|k: int| 0 <= k < bytes.len() implies bits_bytes(bits)[k] == bytes[k] by {
        assert(bits.subrange(8 * k, 8 * k + 8) =~= uint_bits(bytes[k] as nat, 8));
        lemma2_to64();
        lemma_uint_round_trip(bytes[k] as nat, 8);
    }
    assert(bits_bytes(bits) =~= bytes);
}

/// Turning bits into bytes and the bytes back into bits gives the full
/// groups of eight again: all that is lost is a shorter group at the end, and
/// nothing where the number of bits is a multiple of eight.
pub proof fn lemma_bits_round_trip_keeps_full_groups(bits: Seq<bool>)
    ensures
        bytes_bits(bits_bytes(bits)) == bits.subrange(0, 8 * (bits.len() as int / 8)),
        bits.len() % 8 == 0 ==> bytes_bits(bits_bytes(bits)) == bits,
{
    let bytes = bits_bytes(bits);
    let kept = bits.subrange(0, 8 * (bits.len() as int / 8));
    assert forall|i: int| 0 <= i < kept.len() implies bytes_bits(bytes)[i] == kept[i] by {
        let group = bits.subrange(8 * (i / 8), 8 * (i / 8) + 8);
        lemma_bits_uint_bound(group);
        lemma2_to64();
        lemma_bits_round_trip(group);
    }
    assert(bytes_bits(bytes) =~= kept);
    if bits.len() % 8 == 0 {
        assert(kept =~= bits);
    }
}

} // verus!
