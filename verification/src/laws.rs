//! What holds of the product and of the systematic codeword, for all vectors and matrices.

use crate::bits::{
    bit_at, bit_or, bit_xor, lemma_bit_at_mod, lemma_bit_at_shifted, lemma_or_shifted,
    lemma_xor_mod, shl,
};
use crate::matrix::{
    dot, lemma_dot_linear, lemma_shift_in_bit, lemma_shift_in_bound, lemma_shift_in_splits,
    lemma_shift_in_xor, parities, product, shift_in, systematic,
};
use vstd::arithmetic::div_mod::lemma_small_mod;
use vstd::arithmetic::power2::{
    lemma_pow2_adds, lemma_pow2_pos, lemma_pow2_strictly_increases, pow2,
};
use vstd::prelude::*;

verus! {

/// The product with a matrix that has no rows is 0.
pub proof fn lemma_product_no_rows(v: nat, width: nat)
    ensures
        product(v, Seq::empty(), width) == 0,
{
    lemma_pow2_pos(width);
    assert(parities(v, Seq::empty()).len() == 0);
    lemma_small_mod(0, pow2(width));
}

/// The systematic codeword for a matrix that has no rows is the vector itself, as far as it
/// fits in the word.
pub proof fn lemma_systematic_no_rows(v: nat, width: nat)
    requires
        v < pow2(width),
    ensures
        systematic(v, Seq::empty(), width) == v,
{
    lemma_small_mod(v, pow2(width));
}

/// The product has no bit set above the lowest one for each row.
pub proof fn lemma_product_bound(v: nat, rows: Seq<nat>, width: nat)
    ensures
        product(v, rows, width) < pow2(rows.len()),
{
    let full = shift_in(0, parities(v, rows));
    lemma_shift_in_bound(parities(v, rows));
    lemma_pow2_pos(width);
    vstd::arithmetic::div_mod::lemma_mod_decreases(full, pow2(width));
}

/// Bit `i` of the product, counted from the lowest, is the inner product of the vector with
/// the row that stands `i` places before the last. Bits that the word has no room for are
/// lost.
pub proof fn lemma_product_bit(v: nat, rows: Seq<nat>, width: nat, i: nat)
    requires
        i < rows.len(),
        i < width,
    ensures
        bit_at(product(v, rows, width), i) == dot(v, rows[rows.len() - 1 - i]),
{
    lemma_bit_at_mod(shift_in(0, parities(v, rows)), width, i);
    lemma_shift_in_bit(0, parities(v, rows), i);
}

/// Below the bits of the vector, the systematic codeword has the same bits as the product.
pub proof fn lemma_systematic_bit(v: nat, rows: Seq<nat>, width: nat, i: nat)
    requires
        i < rows.len(),
        i < width,
    ensures
        bit_at(systematic(v, rows, width), i) == dot(v, rows[rows.len() - 1 - i]),
{
    lemma_bit_at_mod(shift_in(v, parities(v, rows)), width, i);
    lemma_shift_in_bit(v, parities(v, rows), i);
}

/// Above one bit for each row, the systematic codeword has the bits of the vector, as far
/// as the word has room for them.
pub proof fn lemma_systematic_high_bit(v: nat, rows: Seq<nat>, width: nat, i: nat)
    requires
        rows.len() + i < width,
    ensures
        bit_at(systematic(v, rows, width), rows.len() + i) == bit_at(v, i),
{
    let low = shift_in(0, parities(v, rows));
    lemma_shift_in_splits(v, parities(v, rows));
    lemma_shift_in_bound(parities(v, rows));
    lemma_bit_at_mod(shift_in(v, parities(v, rows)), width, rows.len() + i);
    lemma_bit_at_shifted(v, rows.len(), low, i);
}

/// Where the word has room for the vector above one bit for each row, the systematic
/// codeword is the vector, moved up by the number of rows, with the product below it.
pub proof fn lemma_systematic_splits(v: nat, rows: Seq<nat>, width: nat)
    requires
        rows.len() <= width,
        v < pow2((width - rows.len()) as nat),
    ensures
        shl(v, rows.len(), width) == v * pow2(rows.len()),
        systematic(v, rows, width) == v * pow2(rows.len()) + product(v, rows, width),
        systematic(v, rows, width) == bit_or(
            shl(v, rows.len(), width),
            product(v, rows, width),
        ),
{
    let n = rows.len();
    let low = shift_in(0, parities(v, rows));
    lemma_shift_in_splits(v, parities(v, rows));
    lemma_shift_in_bound(parities(v, rows));
    lemma_pow2_adds((width - n) as nat, n);
    lemma_pow2_pos(n);
    assert(v * pow2(n) + low < pow2(width)) by (nonlinear_arith)
        requires
            v + 1 <= pow2((width - n) as nat),
            low < pow2(n),
            pow2(width) == pow2((width - n) as nat) * pow2(n),
    ;
    lemma_small_mod(v * pow2(n) + low, pow2(width));
    lemma_small_mod(v * pow2(n), pow2(width));
    lemma_small_mod(low, pow2(width));
    lemma_or_shifted(v, n, low);
}

/// With a vector of `in_width` bits and no more rows than the output word has bits beyond
/// those, the systematic codeword is the widened vector, shifted left by the number of rows,
/// OR the product.
pub proof fn lemma_systematic_is_shifted_or(v: nat, in_width: nat, rows: Seq<nat>, width: nat)
    requires
        v < pow2(in_width),
        rows.len() + in_width <= width,
    ensures
        systematic(v, rows, width) == bit_or(
            shl(v, rows.len(), width),
            product(v, rows, width),
        ),
{
    if in_width < width - rows.len() {
        lemma_pow2_strictly_increases(in_width, (width - rows.len()) as nat);
    }
    lemma_systematic_splits(v, rows, width);
}

/// The product is linear in the vector: the product of the XOR of two vectors is the XOR of
/// their products.
pub proof fn lemma_product_linear(v1: nat, v2: nat, rows: Seq<nat>, width: nat)
    ensures
        product(bit_xor(v1, v2), rows, width) == bit_xor(
            product(v1, rows, width),
            product(v2, rows, width),
        ),
{
    let d1 = parities(v1, rows);
    let d2 = parities(v2, rows);
    let both = parities(bit_xor(v1, v2), rows);
    assert forall|j: int| 0 <= j < both.len() implies both[j] == bit_xor(d1[j], d2[j]) by {
        lemma_dot_linear(v1, v2, rows[j]);
    }
    assert(bit_xor(0, 0) == 0);
    lemma_shift_in_xor(0, 0, d1, d2, both);
    lemma_xor_mod(shift_in(0, d1), shift_in(0, d2), width);
}

/// The bits of the product follow the rows. Where `moved` holds at each place `j` the row
/// that `rows` holds at place `from[j]`, as it does after a permutation of the rows, the bit
/// of the product that belongs to place `j` of `moved` is the bit that belongs to place
/// `from[j]` of `rows`, as far as the word has room for both.
pub proof fn lemma_product_follows_rows(
    v: nat,
    rows: Seq<nat>,
    moved: Seq<nat>,
    from: Seq<int>,
    width: nat,
)
    requires
        moved.len() == rows.len(),
        from.len() == rows.len(),
        forall|j: int| 0 <= j < from.len() ==> 0 <= #[trigger] from[j] < rows.len(),
        forall|j: int| 0 <= j < moved.len() ==> #[trigger] moved[j] == rows[from[j]],
    ensures
        forall|j: int|
            0 <= j < rows.len() && rows.len() - 1 - j < width && rows.len() - 1 - from[j] < width
                ==> bit_at(product(v, moved, width), (rows.len() - 1 - j) as nat) == bit_at(
                product(v, rows, width),
                (rows.len() - 1 - #[trigger] from[j]) as nat,
            ),
{
    let n = rows.len();
    assert forall|j: int| 0 <= j < n && n - 1 - j < width && n - 1 - from[j] < width implies bit_at(
        product(v, moved, width),
        (n - 1 - j) as nat,
    ) == bit_at(product(v, rows, width), (n - 1 - #[trigger] from[j]) as nat) by {
        lemma_product_bit(v, moved, width, (n - 1 - j) as nat);
        lemma_product_bit(v, rows, width, (n - 1 - from[j]) as nat);
    }
}

} // verus!
