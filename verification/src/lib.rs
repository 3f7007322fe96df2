//! Vector-matrix multiplication over the binary field GF(2), for error correction codes.
//!
//! The routines compute the product of an N×M binary matrix with a binary vector of M
//! coordinates, where addition is XOR and multiplication is AND. The vector, the rows of
//! the matrix and the result are packed into machine words, so the widest word bounds the
//! sizes.
//!
//! Nothing is checked at run time. With more rows than the output word has bits, the
//! results of the first rows are shifted out and lost; the contracts say so by reducing
//! the result modulo two to the power of the word's width.
//!
//! ## Example
//!
//! The following multiplies the codeword `1010` by the matrix
//!
//! ```text
//! 1 1 1 1
//! 0 0 1 0
//! 1 0 0 0
//! 0 1 0 1
//! 0 0 1 0
//! 1 0 1 0
//! ```
//!
//! first for the parity bits alone, then for the systematic codeword, which has the parity
//! bits behind the bits of the codeword.
//!
//! ```rust
//! use binfield_matrix::{matrix_mul, matrix_mul_systematic};
//!
//! let rows = [0b1111, 0b0010, 0b1000, 0b0101, 0b0010, 0b1010];
//! assert_eq!(matrix_mul::<u32, u32>(0b1010, &rows), 0b011010);
//! assert_eq!(matrix_mul_systematic::<u32, u32>(0b1010, &rows), 0b1010011010);
//! ```

use vstd::prelude::*;

pub mod bits;
pub mod laws;
pub mod matrix;
pub mod word;

use crate::bits::{bit_at, bit_or, lemma_push_bit, shl};
use crate::laws::{
    lemma_product_bit, lemma_product_bound, lemma_product_no_rows, lemma_systematic_bit,
    lemma_systematic_high_bit, lemma_systematic_is_shifted_or, lemma_systematic_no_rows,
};
use crate::matrix::{accumulate, dot, parities, product, shift_in, systematic, vals};
use crate::word::{Widen, Word};
use vstd::arithmetic::power2::pow2;

verus! {

/// Computes the product of the matrix whose rows are `mat` and the vector `word`: one bit
/// for each row, the first row's in the highest place.
///
/// Bit `i` of a row is the entry of the matrix in that row and in column `i`, and bit `i` of
/// `word` is coordinate `i` of the vector. Where `mat` has more rows than `O` has bits, the
/// bits of the first rows are lost.
pub fn matrix_mul<I: Word, O: Word>(word: I, mat: &[I]) -> (out: O)
    ensures
        out.val() == product(word.val(), vals(mat@), O::bits()),
        mat@.len() == 0 ==> out.val() == 0,
        out.val() < pow2(mat@.len()),
        forall|i: nat|
            i < mat@.len() && i < O::bits() ==> #[trigger] bit_at(out.val(), i) == dot(
                word.val(),
                mat@[mat@.len() - 1 - i].val(),
            ),
{
    proof {
        let v = word.val();
        let rows = vals(mat@);
        lemma_product_bound(v, rows, O::bits());
        if rows.len() == 0 {
            assert(rows =~= Seq::empty());
            lemma_product_no_rows(v, O::bits());
        }
        assert forall|i: nat| i < rows.len() && i < O::bits() implies #[trigger] bit_at(
            product(v, rows, O::bits()),
            i,
        ) == dot(v, mat@[mat@.len() - 1 - i].val()) by {
            lemma_product_bit(v, rows, O::bits(), i);
        }
    }
    accum_rows(word, O::zero(), mat)
}

/// Computes the systematic codeword of `word`: the bits of `word`, and below them the
/// product of the matrix whose rows are `mat` and `word`, as [`matrix_mul`] computes it.
///
/// Where `O` has no room for one bit for each row below all the bits of `word`, the highest
/// bits are lost.
pub fn matrix_mul_systematic<I: Widen<O>, O: Word>(word: I, mat: &[I]) -> (out: O)
    ensures
        out.val() == systematic(word.val(), vals(mat@), O::bits()),
        mat@.len() == 0 ==> out.val() == word.val(),
        mat@.len() + I::bits() <= O::bits() ==> out.val() == bit_or(
            shl(word.val(), mat@.len(), O::bits()),
            product(word.val(), vals(mat@), O::bits()),
        ),
        forall|i: nat|
            i < mat@.len() && i < O::bits() ==> #[trigger] bit_at(out.val(), i) == dot(
                word.val(),
                mat@[mat@.len() - 1 - i].val(),
            ),
        forall|i: nat|
            mat@.len() + i < O::bits() ==> bit_at(out.val(), mat@.len() + i) == #[trigger] bit_at(
                word.val(),
                i,
            ),
{
    let init: O = word.widen();
    proof {
        let v = word.val();
        let rows = vals(mat@);
        init.lemma_fits();
        word.lemma_fits();
        if rows.len() == 0 {
            assert(rows =~= Seq::empty());
            lemma_systematic_no_rows(v, O::bits());
        }
        if rows.len() + I::bits() <= O::bits() {
            lemma_systematic_is_shifted_or(v, I::bits(), rows, O::bits());
        }
        assert forall|i: nat| i < rows.len() && i < O::bits() implies #[trigger] bit_at(
            systematic(v, rows, O::bits()),
            i,
        ) == dot(v, mat@[mat@.len() - 1 - i].val()) by {
            lemma_systematic_bit(v, rows, O::bits(), i);
        }
        assert forall|i: nat| rows.len() + i < O::bits() implies bit_at(
            systematic(v, rows, O::bits()),
            rows.len() + i,
        ) == #[trigger] bit_at(v, i) by {
            lemma_systematic_high_bit(v, rows, O::bits(), i);
        }
    }
    accum_rows(word, init, mat)
}

/// Starting with `init`, shifts into the lowest place of the accumulator the inner product
/// of `word` with each row of `mat` in turn.
fn accum_rows<I: Word, O: Word>(word: I, init: O, mat: &[I]) -> (out: O)
    ensures
        out.val() == accumulate(word.val(), init.val(), vals(mat@), O::bits()),
{
    let ghost v = word.val();
    let ghost rows = vals(mat@);
    let mut accum = init;
    let mut k: usize = 0;
    proof {
        init.lemma_fits();
        vstd::arithmetic::div_mod::lemma_small_mod(init.val(), pow2(O::bits()));
        assert(parities(v, rows.take(0)) =~= Seq::<nat>::empty());
    }
    while k < mat.len()
        invariant
            k <= mat.len(),
            v == word.val(),
            rows == vals(mat@),
            accum.val() == accumulate(v, init.val(), rows.take(k as int), O::bits()),
        decreases mat.len() - k,
    {
        let ones: u32 = word.and(mat[k]).count_ones();
        let bit: u8 = (ones & 1) as u8;
        let next: O = accum.shl1().or(O::from_u8(bit));
        proof {
            let before = parities(v, rows.take(k as int));
            let after = parities(v, rows.take(k + 1));
            assert(ones & 1 == ones % 2) by (bit_vector);
            assert(bit == dot(v, rows[k as int]));
            assert(after.drop_last() =~= before);
            assert(after.last() == bit);
            accum.lemma_fits();
            lemma_push_bit(accum.val(), shift_in(init.val(), before), bit as nat, O::bits());
        }
        accum = next;
        k += 1;
    }
    proof {
        assert(rows.take(k as int) =~= rows);
    }
    accum
}

} // verus!
