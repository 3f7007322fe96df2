//! Binary digits of natural numbers.
//!
//! A bit vector is modelled by the natural number whose binary expansion it is: bit `i` of
//! the vector is the coefficient of `2^i`. The functions here define the bitwise operations
//! digit by digit, so that nothing depends on the width of a machine word, and the lemmas
//! relate them to each other, to arithmetic and to the operators of the machine integers.

use vstd::arithmetic::div_mod::{
    lemma_breakdown, lemma_div_denominator, lemma_fundamental_div_mod_converse, lemma_small_mod,
};
use vstd::arithmetic::power2::{
    lemma2_to64, lemma_pow2_adds, lemma_pow2_pos, lemma_pow2_unfold, pow2,
};
use vstd::prelude::*;

verus! {

/// Bit `i` of `x`, as 0 or 1.
pub open spec fn bit_at(x: nat, i: nat) -> nat {
    (x / pow2(i)) % 2
}

/// The number of binary digits of `x` that are 1.
pub open spec fn popcount(x: nat) -> nat
    decreases x,
{
    if x == 0 {
        0
    } else {
        x % 2 + popcount(x / 2)
    }
}

/// Bitwise AND: a digit of the result is 1 where both operands have a 1.
pub open spec fn bit_and(a: nat, b: nat) -> nat
    decreases a,
{
    if a == 0 {
        0
    } else {
        (if a % 2 == 1 && b % 2 == 1 {
            1nat
        } else {
            0nat
        }) + 2 * bit_and(a / 2, b / 2)
    }
}

/// Bitwise OR: a digit of the result is 1 where at least one operand has a 1.
pub open spec fn bit_or(a: nat, b: nat) -> nat
    decreases a + b,
{
    if a == 0 && b == 0 {
        0
    } else {
        (if a % 2 == 1 || b % 2 == 1 {
            1nat
        } else {
            0nat
        }) + 2 * bit_or(a / 2, b / 2)
    }
}

/// Bitwise XOR, the addition of vectors over GF(2): a digit of the result is 1 where
/// exactly one operand has a 1.
pub open spec fn bit_xor(a: nat, b: nat) -> nat
    decreases a + b,
{
    if a == 0 && b == 0 {
        0
    } else {
        (if a % 2 != b % 2 {
            1nat
        } else {
            0nat
        }) + 2 * bit_xor(a / 2, b / 2)
    }
}

/// Left shift by `n` places in a word of `width` bits: the digits move up, zeros come in
/// below, and what no longer fits is lost.
pub open spec fn shl(x: nat, n: nat, width: nat) -> nat {
    (x * pow2(n)) % pow2(width)
}

/// The two lowest powers of two.
pub proof fn lemma_pow2_small()
    ensures
        pow2(0) == 1,
        pow2(1) == 2,
{
    lemma2_to64();
}

/// Reducing modulo `2 * m` keeps the lowest digit and reduces the others modulo `m`.
pub proof fn lemma_mod_double(x: nat, m: nat)
    requires
        m > 0,
    ensures
        (x % (2 * m)) % 2 == x % 2,
        (x % (2 * m)) / 2 == (x / 2) % m,
{
    lemma_breakdown(x as int, 2, m as int);
}

/// Bit `i + 1` of `x` is bit `i` of `x / 2`.
pub proof fn lemma_bit_at_halved(x: nat, i: nat)
    ensures
        bit_at(x, i + 1) == bit_at(x / 2, i),
{
    lemma_pow2_pos(i);
    lemma_pow2_unfold(i + 1);
    lemma_div_denominator(x as int, 2, pow2(i) as int);
}

/// Reducing modulo `2^width` leaves the bits below `width` as they are.
pub proof fn lemma_bit_at_mod(x: nat, width: nat, i: nat)
    requires
        i < width,
    ensures
        bit_at(x % pow2(width), i) == bit_at(x, i),
    decreases i,
{
    let m = pow2((width - 1) as nat);
    lemma_pow2_pos((width - 1) as nat);
    lemma_pow2_unfold(width);
    lemma_mod_double(x, m);
    if i == 0 {
        lemma_pow2_small();
    } else {
        let j = (i - 1) as nat;
        lemma_bit_at_halved(x % pow2(width), j);
        lemma_bit_at_halved(x, j);
        lemma_bit_at_mod(x / 2, (width - 1) as nat, j);
    }
}

/// Above `n` low digits stand the digits of what was multiplied by `2^n`.
pub proof fn lemma_bit_at_shifted(high: nat, n: nat, low: nat, i: nat)
    requires
        low < pow2(n),
    ensures
        bit_at(high * pow2(n) + low, n + i) == bit_at(high, i),
{
    let x = high * pow2(n) + low;
    lemma_pow2_pos(n);
    lemma_pow2_pos(i);
    lemma_pow2_adds(n, i);
    lemma_div_denominator(x as int, pow2(n) as int, pow2(i) as int);
    lemma_fundamental_div_mod_converse(x as int, pow2(n) as int, high as int, low as int);
}

/// The lowest digit of an XOR is the XOR of the lowest digits, and the digits above it are
/// the XOR of the digits above.
pub proof fn lemma_xor_step(a: nat, b: nat)
    ensures
        bit_xor(a, b) % 2 == (a + b) % 2,
        bit_xor(a, b) / 2 == bit_xor(a / 2, b / 2),
{
}

/// The lowest digit of an AND is the AND of the lowest digits, and the digits above it are
/// the AND of the digits above.
pub proof fn lemma_and_step(a: nat, b: nat)
    ensures
        bit_and(a, b) % 2 == (a % 2) * (b % 2),
        bit_and(a, b) / 2 == bit_and(a / 2, b / 2),
{
}

/// The XOR of two bits is their sum modulo 2.
pub proof fn lemma_xor_of_bits(x: nat, y: nat)
    requires
        x <= 1,
        y <= 1,
    ensures
        bit_xor(x, y) == (x + y) % 2,
{
    lemma_xor_step(x, y);
    assert(bit_xor(0, 0) == 0);
}

/// The parity of the number of ones is additive over XOR.
pub proof fn lemma_popcount_xor(a: nat, b: nat)
    ensures
        popcount(bit_xor(a, b)) % 2 == (popcount(a) + popcount(b)) % 2,
    decreases a + b,
{
    if a != 0 || b != 0 {
        lemma_popcount_xor(a / 2, b / 2);
        lemma_xor_step(a, b);
    }
}

/// AND distributes over XOR, as multiplication does over addition in GF(2).
pub proof fn lemma_and_distributes_over_xor(a: nat, b: nat, mask: nat)
    ensures
        bit_and(bit_xor(a, b), mask) == bit_xor(bit_and(a, mask), bit_and(b, mask)),
    decreases a + b,
{
    if a != 0 || b != 0 {
        lemma_and_distributes_over_xor(a / 2, b / 2, mask / 2);
        lemma_xor_step(a, b);
        lemma_and_step(bit_xor(a, b), mask);
        lemma_and_step(a, mask);
        lemma_and_step(b, mask);
        lemma_xor_step(bit_and(a, mask), bit_and(b, mask));
    }
}

/// XOR commutes with reduction modulo a power of two.
pub proof fn lemma_xor_mod(a: nat, b: nat, width: nat)
    ensures
        bit_xor(a % pow2(width), b % pow2(width)) == bit_xor(a, b) % pow2(width),
    decreases width,
{
    if width == 0 {
        lemma_pow2_small();
    } else {
        let m = pow2((width - 1) as nat);
        lemma_pow2_pos((width - 1) as nat);
        lemma_pow2_unfold(width);
        lemma_mod_double(a, m);
        lemma_mod_double(b, m);
        lemma_mod_double(bit_xor(a, b), m);
        lemma_xor_mod(a / 2, b / 2, (width - 1) as nat);
        lemma_xor_step(a, b);
        lemma_xor_step(a % pow2(width), b % pow2(width));
    }
}

/// OR with zero changes nothing.
pub proof fn lemma_or_zero(a: nat)
    ensures
        bit_or(a, 0) == a,
    decreases a,
{
    if a != 0 {
        lemma_or_zero(a / 2);
    }
}

/// Where the right operand fits below the `n` zero digits that a left shift by `n` leaves,
/// OR is addition.
pub proof fn lemma_or_shifted(a: nat, n: nat, low: nat)
    requires
        low < pow2(n),
    ensures
        bit_or(a * pow2(n), low) == a * pow2(n) + low,
    decreases n,
{
    if n == 0 {
        lemma_pow2_small();
        lemma_or_zero(a);
        assert(a * pow2(0) == a) by (nonlinear_arith)
            requires
                pow2(0) == 1,
        ;
    } else {
        let k = (n - 1) as nat;
        lemma_pow2_unfold(n);
        lemma_pow2_pos(k);
        let high = a * pow2(n);
        assert(high == 2 * (a * pow2(k))) by (nonlinear_arith)
            requires
                high == a * pow2(n),
                pow2(n) == 2 * pow2(k),
        ;
        lemma_or_shifted(a, k, low / 2);
    }
}

/// The `&` of the machine integers is [`bit_and`] on their values.
pub proof fn lemma_and_matches(a: u128, b: u128)
    ensures
        (a & b) as nat == bit_and(a as nat, b as nat),
    decreases a,
{
    if a == 0 {
        assert(a & b == 0) by (bit_vector)
            requires
                a == 0,
        ;
    } else {
        assert((a & b) / 2 == (a / 2) & (b / 2)) by (bit_vector);
        assert((a & b) % 2 == 1 <==> a % 2 == 1 && b % 2 == 1) by (bit_vector);
        lemma_and_matches(a / 2, b / 2);
    }
}

/// The `|` of the machine integers is [`bit_or`] on their values.
pub proof fn lemma_or_matches(a: u128, b: u128)
    ensures
        (a | b) as nat == bit_or(a as nat, b as nat),
    decreases a + b,
{
    if a == 0 && b == 0 {
        assert(a | b == 0) by (bit_vector)
            requires
                a == 0 && b == 0,
        ;
    } else {
        assert((a | b) / 2 == (a / 2) | (b / 2)) by (bit_vector);
        assert((a | b) % 2 == 1 <==> a % 2 == 1 || b % 2 == 1) by (bit_vector);
        lemma_or_matches(a / 2, b / 2);
    }
}

/// The `^` of the machine integers is [`bit_xor`] on their values.
pub proof fn lemma_xor_matches(a: u128, b: u128)
    ensures
        (a ^ b) as nat == bit_xor(a as nat, b as nat),
    decreases a + b,
{
    if a == 0 && b == 0 {
        assert(a ^ b == 0) by (bit_vector)
            requires
                a == 0 && b == 0,
        ;
    } else {
        assert((a ^ b) / 2 == (a / 2) ^ (b / 2)) by (bit_vector);
        assert((a ^ b) % 2 == 1 <==> a % 2 != b % 2) by (bit_vector);
        lemma_xor_matches(a / 2, b / 2);
    }
}

/// A left shift by one place doubles the value and drops what no longer fits in `width`
/// bits. The two cases are what a machine integer shows of such a shift: below half of
/// `2^width` nothing is lost, from there on `2^width` is.
pub proof fn lemma_shift_one(x: nat, shifted: nat, width: nat)
    requires
        width > 0,
        x < pow2(width),
        x < pow2((width - 1) as nat) ==> shifted == 2 * x,
        x >= pow2((width - 1) as nat) ==> shifted == 2 * x - pow2(width),
    ensures
        shifted == shl(x, 1, width),
{
    lemma_pow2_small();
    lemma_pow2_unfold(width);
    if x < pow2((width - 1) as nat) {
        lemma_small_mod(2 * x, pow2(width));
    } else {
        lemma_fundamental_div_mod_converse((2 * x) as int, pow2(width) as int, 1, shifted as int);
    }
}

/// Shifting a bit in below a value that is kept modulo `2^width`: shifting left by one and
/// OR-ing the bit gives what doubling and adding it gives of the value before reduction.
pub proof fn lemma_push_bit(kept: nat, full: nat, bit: nat, width: nat)
    requires
        width > 0,
        bit <= 1,
        kept == full % pow2(width),
    ensures
        bit_or(shl(kept, 1, width), bit) == (2 * full + bit) % pow2(width),
{
    let m = pow2((width - 1) as nat);
    lemma_pow2_small();
    lemma_pow2_pos((width - 1) as nat);
    lemma_pow2_unfold(width);
    lemma_mod_double(full, m);
    lemma_mod_double(2 * kept, m);
    lemma_mod_double(2 * full + bit, m);
    lemma_or_shifted(shl(kept, 1, width) / 2, 1, bit);
    vstd::arithmetic::div_mod::lemma_mod_mod(full as int, m as int, 2);
}

} // verus!
