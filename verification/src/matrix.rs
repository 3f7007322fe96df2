//! The product of a vector and a matrix over GF(2), on the values of the words.

use crate::bits::{
    bit_and, bit_at, bit_xor, lemma_and_distributes_over_xor, lemma_bit_at_halved,
    lemma_popcount_xor, lemma_pow2_small, lemma_xor_of_bits, lemma_xor_step, popcount,
};
use crate::word::Word;
use vstd::arithmetic::power2::{lemma_pow2_unfold, pow2};
use vstd::prelude::*;

verus! {

/// The inner product over GF(2) of two vectors: 1 where they share an odd number of set
/// bits, else 0.
pub open spec fn dot(v: nat, row: nat) -> nat {
    popcount(bit_and(v, row)) % 2
}

/// The inner product of `v` with each row, in the order of the rows.
pub open spec fn parities(v: nat, rows: Seq<nat>) -> Seq<nat> {
    Seq::new(rows.len(), |j: int| dot(v, rows[j]))
}

/// The number that `high` becomes when the digits of `digits` are written behind its own,
/// the first of them in the highest place.
pub open spec fn shift_in(high: nat, digits: Seq<nat>) -> nat
    decreases digits.len(),
{
    if digits.len() == 0 {
        high
    } else {
        2 * shift_in(high, digits.drop_last()) + digits.last()
    }
}

/// What is left in a word of `width` bits that started as `init` and had the inner product
/// of `v` with each row shifted in from below.
pub open spec fn accumulate(v: nat, init: nat, rows: Seq<nat>, width: nat) -> nat {
    shift_in(init, parities(v, rows)) % pow2(width)
}

/// The product of the matrix `rows` and the vector `v`, in a word of `width` bits: the
/// inner products with the rows, the first row's in the highest place.
pub open spec fn product(v: nat, rows: Seq<nat>, width: nat) -> nat {
    accumulate(v, 0, rows, width)
}

/// The systematic codeword in a word of `width` bits: the bits of `v`, and below them the
/// product of `rows` and `v`.
pub open spec fn systematic(v: nat, rows: Seq<nat>, width: nat) -> nat {
    accumulate(v, v, rows, width)
}

/// The values of a sequence of words.
pub open spec fn vals<I: Word>(rows: Seq<I>) -> Seq<nat> {
    rows.map_values(|r: I| r.val())
}

/// The inner product is linear in the vector: over GF(2), XOR is the sum.
pub proof fn lemma_dot_linear(v1: nat, v2: nat, row: nat)
    ensures
        dot(bit_xor(v1, v2), row) == bit_xor(dot(v1, row), dot(v2, row)),
{
    lemma_and_distributes_over_xor(v1, v2, row);
    lemma_popcount_xor(bit_and(v1, row), bit_and(v2, row));
    lemma_xor_of_bits(dot(v1, row), dot(v2, row));
}

/// Bit `i` of what [`shift_in`] gives is the digit that was shifted in `i` steps before the
/// last.
pub proof fn lemma_shift_in_bit(high: nat, digits: Seq<nat>, i: nat)
    requires
        forall|j: int| 0 <= j < digits.len() ==> digits[j] <= 1,
        i < digits.len(),
    ensures
        bit_at(shift_in(high, digits), i) == digits[digits.len() - 1 - i],
    decreases i,
{
    if i == 0 {
        lemma_pow2_small();
    } else {
        lemma_bit_at_halved(shift_in(high, digits), (i - 1) as nat);
        lemma_shift_in_bit(high, digits.drop_last(), (i - 1) as nat);
    }
}

/// What was there before the digits were shifted in stands above them unchanged.
pub proof fn lemma_shift_in_splits(high: nat, digits: Seq<nat>)
    ensures
        shift_in(high, digits) == high * pow2(digits.len()) + shift_in(0, digits),
    decreases digits.len(),
{
    if digits.len() == 0 {
        lemma_pow2_small();
        assert(high * pow2(0) == high) by (nonlinear_arith)
            requires
                pow2(0) == 1,
        ;
    } else {
        lemma_shift_in_splits(high, digits.drop_last());
        lemma_pow2_unfold(digits.len());
        let k = (digits.len() - 1) as nat;
        assert(2 * (high * pow2(k)) == high * (2 * pow2(k))) by (nonlinear_arith);
    }
}

/// Starting from zero, `n` bits shifted in give a number below `2^n`.
pub proof fn lemma_shift_in_bound(digits: Seq<nat>)
    requires
        forall|j: int| 0 <= j < digits.len() ==> digits[j] <= 1,
    ensures
        shift_in(0, digits) < pow2(digits.len()),
    decreases digits.len(),
{
    if digits.len() == 0 {
        lemma_pow2_small();
    } else {
        lemma_shift_in_bound(digits.drop_last());
        lemma_pow2_unfold(digits.len());
    }
}

/// Shifting in the XOR of two sequences of bits gives the XOR of what shifting in each
/// gives.
pub proof fn lemma_shift_in_xor(h1: nat, h2: nat, d1: Seq<nat>, d2: Seq<nat>, both: Seq<nat>)
    requires
        d1.len() == d2.len(),
        both.len() == d1.len(),
        forall|j: int| 0 <= j < d1.len() ==> d1[j] <= 1 && d2[j] <= 1,
        forall|j: int| 0 <= j < both.len() ==> both[j] == bit_xor(d1[j], d2[j]),
    ensures
        shift_in(bit_xor(h1, h2), both) == bit_xor(shift_in(h1, d1), shift_in(h2, d2)),
    decreases both.len(),
{
    if both.len() > 0 {
        lemma_shift_in_xor(h1, h2, d1.drop_last(), d2.drop_last(), both.drop_last());
        lemma_xor_of_bits(d1.last(), d2.last());
        lemma_xor_step(shift_in(h1, d1), shift_in(h2, d2));
    }
}

} // verus!
