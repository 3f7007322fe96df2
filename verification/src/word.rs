//! Machine words as bit vectors.

use crate::bits::{
    bit_and, bit_or, lemma_and_matches, lemma_or_matches, lemma_shift_one, popcount, shl,
};
use num_traits::{PrimInt, Zero};
use vstd::arithmetic::power2::{lemma2_to64, pow2};
use vstd::prelude::*;

verus! {

/// Calls `num_traits::PrimInt::count_ones`, which for each primitive integer is the
/// integer's own `count_ones`: the number of ones in its binary representation. For a value
/// that is not negative that is the number of ones among its binary digits. The bound
/// `Integer` admits the primitive integers only.
#[verifier::external_body]
fn prim_count_ones<T: PrimInt + Integer>(x: T) -> (n: u32)
    requires
        x as int >= 0,
    ensures
        n as nat == popcount(x as nat),
{
    x.count_ones()
}

/// Calls `num_traits::Zero::zero`, which for each primitive integer returns its 0. The bound
/// `Integer` admits the primitive integers only.
#[verifier::external_body]
fn prim_zero<T: Zero + Integer>() -> (z: T)
    ensures
        z as int == 0,
{
    T::zero()
}

/// An unsigned machine integer used as a vector of bits.
pub trait Word: Copy + Sized {
    /// The number of bits that the type holds.
    spec fn bits() -> nat;

    /// The word's value: bit `i` of the vector is the coefficient of `2^i` in it.
    spec fn val(self) -> nat;

    /// A word has at least one bit, and its value fits in its bits.
    proof fn lemma_fits(self)
        ensures
            Self::bits() > 0,
            self.val() < pow2(Self::bits()),
    ;

    /// The word with no bit set.
    fn zero() -> (z: Self)
        ensures
            z.val() == 0,
    ;

    /// The word whose value is `b`.
    fn from_u8(b: u8) -> (w: Self)
        ensures
            w.val() == b,
    ;

    /// Bitwise AND.
    fn and(self, rhs: Self) -> (w: Self)
        ensures
            w.val() == bit_and(self.val(), rhs.val()),
    ;

    /// Bitwise OR.
    fn or(self, rhs: Self) -> (w: Self)
        ensures
            w.val() == bit_or(self.val(), rhs.val()),
    ;

    /// Shifts every bit one place up. The top bit is lost and the lowest becomes 0.
    fn shl1(self) -> (w: Self)
        ensures
            w.val() == shl(self.val(), 1, Self::bits()),
    ;

    /// The number of bits that are set.
    fn count_ones(self) -> (n: u32)
        ensures
            n as nat == popcount(self.val()),
    ;
}

/// The value of `2^127` and of `2^128`, which no literal of a machine integer holds.
proof fn lemma_pow2_128()
    ensures
        pow2(127) == 0x8000_0000_0000_0000_0000_0000_0000_0000,
        pow2(128) == 0xffff_ffff_ffff_ffff_ffff_ffff_ffff_ffff + 1,
{
    lemma2_to64();
    vstd::arithmetic::power2::lemma_pow2_adds(64, 63);
    vstd::arithmetic::power2::lemma_pow2_unfold(64);
    vstd::arithmetic::power2::lemma_pow2_unfold(128);
}

impl Word for u8 {
    open spec fn bits() -> nat {
        8
    }

    open spec fn val(self) -> nat {
        self as nat
    }

    proof fn lemma_fits(self) {
        lemma2_to64();
    }

    fn zero() -> (z: Self) {
        prim_zero::<u8>()
    }

    fn from_u8(b: u8) -> (w: Self) {
        b
    }

    fn and(self, rhs: Self) -> (w: Self) {
        proof {
            lemma_and_matches(self as u128, rhs as u128);
        }
        self & rhs
    }

    fn or(self, rhs: Self) -> (w: Self) {
        proof {
            lemma_or_matches(self as u128, rhs as u128);
        }
        self | rhs
    }

    fn shl1(self) -> (w: Self) {
        let w: u8 = self << 1;
        proof {
            lemma2_to64();
            assert(self < 0x80u8 ==> self << 1 == 2 * self) by (bit_vector);
            assert(self >= 0x80u8 ==> self << 1 == 2 * self - 0x100) by (bit_vector);
            lemma_shift_one(self as nat, w as nat, 8);
        }
        w
    }

    fn count_ones(self) -> (n: u32) {
        prim_count_ones::<u8>(self)
    }
}

impl Word for u16 {
    open spec fn bits() -> nat {
        16
    }

    open spec fn val(self) -> nat {
        self as nat
    }

    proof fn lemma_fits(self) {
        lemma2_to64();
    }

    fn zero() -> (z: Self) {
        prim_zero::<u16>()
    }

    fn from_u8(b: u8) -> (w: Self) {
        u16::from(b)
    }

    fn and(self, rhs: Self) -> (w: Self) {
        proof {
            lemma_and_matches(self as u128, rhs as u128);
        }
        self & rhs
    }

    fn or(self, rhs: Self) -> (w: Self) {
        proof {
            lemma_or_matches(self as u128, rhs as u128);
        }
        self | rhs
    }

    fn shl1(self) -> (w: Self) {
        let w: u16 = self << 1;
        proof {
            lemma2_to64();
            assert(self < 0x8000u16 ==> self << 1 == 2 * self) by (bit_vector);
            assert(self >= 0x8000u16 ==> self << 1 == 2 * self - 0x1_0000) by (bit_vector);
            lemma_shift_one(self as nat, w as nat, 16);
        }
        w
    }

    fn count_ones(self) -> (n: u32) {
        prim_count_ones::<u16>(self)
    }
}

impl Word for u32 {
    open spec fn bits() -> nat {
        32
    }

    open spec fn val(self) -> nat {
        self as nat
    }

    proof fn lemma_fits(self) {
        lemma2_to64();
    }

    fn zero() -> (z: Self) {
        prim_zero::<u32>()
    }

    fn from_u8(b: u8) -> (w: Self) {
        u32::from(b)
    }

    fn and(self, rhs: Self) -> (w: Self) {
        proof {
            lemma_and_matches(self as u128, rhs as u128);
        }
        self & rhs
    }

    fn or(self, rhs: Self) -> (w: Self) {
        proof {
            lemma_or_matches(self as u128, rhs as u128);
        }
        self | rhs
    }

    fn shl1(self) -> (w: Self) {
        let w: u32 = self << 1;
        proof {
            lemma2_to64();
            assert(self < 0x8000_0000u32 ==> self << 1 == 2 * self) by (bit_vector);
            assert(self >= 0x8000_0000u32 ==> self << 1 == 2 * self - 0x1_0000_0000) by (bit_vector);
            lemma_shift_one(self as nat, w as nat, 32);
        }
        w
    }

    fn count_ones(self) -> (n: u32) {
        prim_count_ones::<u32>(self)
    }
}

impl Word for u64 {
    open spec fn bits() -> nat {
        64
    }

    open spec fn val(self) -> nat {
        self as nat
    }

    proof fn lemma_fits(self) {
        lemma2_to64();
        vstd::arithmetic::power2::lemma_pow2_unfold(64);
    }

    fn zero() -> (z: Self) {
        prim_zero::<u64>()
    }

    fn from_u8(b: u8) -> (w: Self) {
        u64::from(b)
    }

    fn and(self, rhs: Self) -> (w: Self) {
        proof {
            lemma_and_matches(self as u128, rhs as u128);
        }
        self & rhs
    }

    fn or(self, rhs: Self) -> (w: Self) {
        proof {
            lemma_or_matches(self as u128, rhs as u128);
        }
        self | rhs
    }

    fn shl1(self) -> (w: Self) {
        let w: u64 = self << 1;
        proof {
            lemma2_to64();
            vstd::arithmetic::power2::lemma_pow2_unfold(64);
            assert(self < 0x8000_0000_0000_0000u64 ==> self << 1 == 2 * self) by (bit_vector);
            assert(self >= 0x8000_0000_0000_0000u64 ==> self << 1 == 2 * self - 0x1_0000_0000_0000_0000) by (bit_vector);
            lemma_shift_one(self as nat, w as nat, 64);
        }
        w
    }

    fn count_ones(self) -> (n: u32) {
        prim_count_ones::<u64>(self)
    }
}

impl Word for u128 {
    open spec fn bits() -> nat {
        128
    }

    open spec fn val(self) -> nat {
        self as nat
    }

    proof fn lemma_fits(self) {
        lemma_pow2_128();
    }

    fn zero() -> (z: Self) {
        prim_zero::<u128>()
    }

    fn from_u8(b: u8) -> (w: Self) {
        u128::from(b)
    }

    fn and(self, rhs: Self) -> (w: Self) {
        proof {
            lemma_and_matches(self as u128, rhs as u128);
        }
        self & rhs
    }

    fn or(self, rhs: Self) -> (w: Self) {
        proof {
            lemma_or_matches(self as u128, rhs as u128);
        }
        self | rhs
    }

    fn shl1(self) -> (w: Self) {
        let w: u128 = self << 1;
        proof {
            lemma_pow2_128();
            assert(self < 0x8000_0000_0000_0000_0000_0000_0000_0000u128 ==> self << 1 == 2 * self) by (bit_vector);
            assert(self >= 0x8000_0000_0000_0000_0000_0000_0000_0000u128 ==> self << 1 == 2 * self - 0xffff_ffff_ffff_ffff_ffff_ffff_ffff_ffffu128 - 1) by (bit_vector);
            lemma_shift_one(self as nat, w as nat, 128);
        }
        w
    }

    fn count_ones(self) -> (n: u32) {
        prim_count_ones::<u128>(self)
    }
}

impl Word for usize {
    open spec fn bits() -> nat {
        usize::BITS as nat
    }

    open spec fn val(self) -> nat {
        self as nat
    }

    proof fn lemma_fits(self) {
        lemma2_to64();
    }

    fn zero() -> (z: Self) {
        prim_zero::<usize>()
    }

    fn from_u8(b: u8) -> (w: Self) {
        usize::from(b)
    }

    fn and(self, rhs: Self) -> (w: Self) {
        proof {
            lemma_and_matches(self as u128, rhs as u128);
        }
        self & rhs
    }

    fn or(self, rhs: Self) -> (w: Self) {
        proof {
            lemma_or_matches(self as u128, rhs as u128);
        }
        self | rhs
    }

    fn shl1(self) -> (w: Self) {
        let w: usize = self << 1;
        proof {
            lemma2_to64();
            vstd::arithmetic::power2::lemma_pow2_unfold(64);
            let x = self as u64;
            assert(usize::BITS == 32 ==> (x < 0x8000_0000u64 ==> self << 1 == 2 * self) && (x
                >= 0x8000_0000u64 ==> self << 1 == 2 * self - 0x1_0000_0000)) by (bit_vector)
                requires
                    x == self as u64,
            ;
            assert(usize::BITS == 64 ==> (x < 0x8000_0000_0000_0000u64 ==> self << 1 == 2 * self)
                && (x >= 0x8000_0000_0000_0000u64 ==> self << 1 == 2 * self
                - 0x1_0000_0000_0000_0000)) by (bit_vector)
                requires
                    x == self as u64,
            ;
            lemma_shift_one(self as nat, w as nat, usize::BITS as nat);
        }
        w
    }

    fn count_ones(self) -> (n: u32) {
        prim_count_ones::<usize>(self)
    }
}

/// A word that can be turned into a word of type `O` without a change of value.
pub trait Widen<O: Word>: Word {
    /// The word of type `O` with the same value.
    fn widen(self) -> (out: O)
        ensures
            out.val() == self.val(),
    ;
}

impl<T: Word> Widen<T> for T {
    fn widen(self) -> (out: T) {
        self
    }
}

impl Widen<u16> for u8 {
    fn widen(self) -> (out: u16) {
        u16::from(self)
    }
}

impl Widen<u32> for u8 {
    fn widen(self) -> (out: u32) {
        u32::from(self)
    }
}

impl Widen<u64> for u8 {
    fn widen(self) -> (out: u64) {
        u64::from(self)
    }
}

impl Widen<u128> for u8 {
    fn widen(self) -> (out: u128) {
        u128::from(self)
    }
}

impl Widen<usize> for u8 {
    fn widen(self) -> (out: usize) {
        usize::from(self)
    }
}

impl Widen<u32> for u16 {
    fn widen(self) -> (out: u32) {
        u32::from(self)
    }
}

impl Widen<u64> for u16 {
    fn widen(self) -> (out: u64) {
        u64::from(self)
    }
}

impl Widen<u128> for u16 {
    fn widen(self) -> (out: u128) {
        u128::from(self)
    }
}

impl Widen<usize> for u16 {
    fn widen(self) -> (out: usize) {
        usize::from(self)
    }
}

impl Widen<u64> for u32 {
    fn widen(self) -> (out: u64) {
        u64::from(self)
    }
}

impl Widen<u128> for u32 {
    fn widen(self) -> (out: u128) {
        u128::from(self)
    }
}

impl Widen<u128> for u64 {
    fn widen(self) -> (out: u128) {
        u128::from(self)
    }
}

} // verus!
