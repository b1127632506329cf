//! Numbers as bit strings.
//!
//! A bit string is a `Seq<bool>` read most significant bit first. This module
//! holds the mathematical model only: which digits a number has, which number
//! a string of digits spells, and the proofs that the two undo each other.

use vstd::prelude::*;
use vstd::arithmetic::div_mod::lemma_div_denominator;
use vstd::arithmetic::power2::{lemma2_to64, lemma_pow2_pos, lemma_pow2_unfold, pow2};

verus! {

/// Binary digit `k` of `n`, digit 0 being the least significant.
pub open spec fn digit(n: nat, k: nat) -> bool {
    (n / pow2(k)) % 2 == 1
}

/// The `width` low binary digits of `n`, most significant first.
pub open spec fn uint_bits(n: nat, width: nat) -> Seq<bool> {
    Seq::new(width, |i: int| digit(n, (width - 1 - i) as nat))
}

/// The number that a bit string spells, most significant bit first.
pub open spec fn bits_uint(bits: Seq<bool>) -> nat
    decreases bits.len(),
{
    if bits.len() == 0 {
        0
    } else {
        2 * bits_uint(bits.drop_last()) + if bits.last() {
            1nat
        } else {
            0nat
        }
    }
}

/// The first `width` entries of `bits`; where `bits` is shorter, `false`
/// stands in for each missing entry.
pub open spec fn window(bits: Seq<bool>, width: nat) -> Seq<bool> {
    Seq::new(width, |i: int| i < bits.len() && bits[i])
}

/// Digit `k + 1` of `n` is digit `k` of `n / 2`.
pub proof fn lemma_digit_halve(n: nat, k: nat)
    ensures
        digit(n, k + 1) == digit(n / 2, k),
{
    lemma_pow2_unfold(k + 1);
    lemma_pow2_pos(k);
    lemma_div_denominator(n as int, 2, pow2(k) as int);
}

/// The digits of `n` are the digits of `n / 2` followed by the parity of `n`.
pub proof fn lemma_uint_bits_step(n: nat, width: nat)
    requires
        width > 0,
    ensures
        uint_bits(n, width) == uint_bits(n / 2, (width - 1) as nat).push(n % 2 == 1),
{
    let whole = uint_bits(n, width);
    let split = uint_bits(n / 2, (width - 1) as nat).push(n % 2 == 1);
    assert forall|i: int| 0 <= i < width implies whole[i] == split[i] by {
        if i < width - 1 {
            let k = (width - 2 - i) as nat;
            lemma_digit_halve(n, k);
            assert(whole[i] == digit(n, k + 1));
        } else {
            lemma2_to64();
        }
    }
    assert(whole =~= split);
}

/// A string of `len` bits spells a number below `2^len`.
pub proof fn lemma_bits_uint_bound(bits: Seq<bool>)
    ensures
        bits_uint(bits) < pow2(bits.len()),
    decreases bits.len(),
{
    if bits.len() == 0 {
        lemma2_to64();
    } else {
        lemma_bits_uint_bound(bits.drop_last());
        lemma_pow2_unfold(bits.len());
    }
}

/// Writing a number below `2^width` as `width` bits and reading the bits back
/// gives the number again.
pub proof fn lemma_uint_round_trip(n: nat, width: nat)
    requires
        n < pow2(width),
    ensures
        bits_uint(uint_bits(n, width)) == n,
    decreases width,
{
    if width == 0 {
        lemma2_to64();
    } else {
        lemma_uint_bits_step(n, width);
        lemma_pow2_unfold(width);
        let upper = uint_bits(n / 2, (width - 1) as nat);
        assert(upper.push(n % 2 == 1).drop_last() =~= upper);
        lemma_uint_round_trip(n / 2, (width - 1) as nat);
    }
}

/// Reading a bit string as a number and writing that number with as many
/// bits gives the bit string again.
pub proof fn lemma_bits_round_trip(bits: Seq<bool>)
    ensures
        uint_bits(bits_uint(bits), bits.len()) == bits,
    decreases bits.len(),
{
    if bits.len() > 0 {
        lemma_uint_bits_step(bits_uint(bits), bits.len());
        lemma_bits_round_trip(bits.drop_last());
    }
}

} // verus!
