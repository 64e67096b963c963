//! The arithmetic that the engine needs from the values it differentiates,
//! and the wrapping integers as one kind of such values.

use vstd::prelude::*;
use vstd::arithmetic::div_mod::{
    lemma_mod_sub_multiples_vanish, lemma_mod_twice, lemma_mul_mod_noop_general,
};
use vstd::arithmetic::power::{
    lemma_pow0, lemma_pow_mod_noop, lemma_pow_multiplies, lemma_square_is_pow2, pow,
};
use vstd::wrapping::i64_specs::signed_crop;

verus! {

/// A scalar that can be stored in a node: two constants, the four primitive
/// operations, negation, and a sign test. Every executable method computes the
/// spec function of the same name, so the engine's contracts can say exactly
/// which value a node holds.
pub trait Number: Copy + Sized {
    /// The additive constant with which every gradient starts.
    spec fn zero_spec() -> Self;

    /// The constant with which a backward pass seeds its root.
    spec fn one_spec() -> Self;

    /// `self + rhs`.
    spec fn plus_spec(self, rhs: Self) -> Self;

    /// `self - rhs`.
    spec fn minus_spec(self, rhs: Self) -> Self;

    /// `self * rhs`.
    spec fn times_spec(self, rhs: Self) -> Self;

    /// `-self`.
    spec fn negate_spec(self) -> Self;

    /// `self` raised to `exponent`.
    spec fn pow_spec(self, exponent: Self) -> Self;

    /// Whether `self` is strictly above zero.
    spec fn is_positive_spec(self) -> bool;

    fn zero() -> (r: Self)
        ensures
            r == Self::zero_spec(),
    ;

    fn one() -> (r: Self)
        ensures
            r == Self::one_spec(),
    ;

    fn plus(self, rhs: Self) -> (r: Self)
        ensures
            r == self.plus_spec(rhs),
    ;

    fn minus(self, rhs: Self) -> (r: Self)
        ensures
            r == self.minus_spec(rhs),
    ;

    fn times(self, rhs: Self) -> (r: Self)
        ensures
            r == self.times_spec(rhs),
    ;

    fn negate(self) -> (r: Self)
        ensures
            r == self.negate_spec(),
    ;

    fn pow(self, exponent: Self) -> (r: Self)
        ensures
            r == self.pow_spec(exponent),
    ;

    fn is_positive(self) -> (r: bool)
        ensures
            r == self.is_positive_spec(),
    ;
}

/// The constant minus one, by which negation multiplies and to which division
/// raises its divisor.
pub open spec fn neg_one<V: Number>() -> V {
    V::one_spec().negate_spec()
}

/// The number of values of an `i64`.
pub open spec fn modulus() -> int {
    0x1_0000_0000_0000_0000
}

/// `exponent` where it is positive, zero where it is not.
pub open spec fn clipped(exponent: int) -> nat {
    if exponent > 0 {
        exponent as nat
    } else {
        0
    }
}

/// `base` to the power `exponent`, wrapped around as a product is; an
/// exponent below one counts as zero.
pub open spec fn wrapping_power(base: i64, exponent: i64) -> i64 {
    signed_crop(pow(base as int, clipped(exponent as int)))
}

/// Wrapping around keeps the remainder.
proof fn lemma_crop_keeps_remainder(x: int)
    ensures
        (signed_crop(x) as int) % modulus() == x % modulus(),
{
    let r = x % modulus();
    lemma_mod_twice(x, modulus());
    if r > i64::MAX {
        lemma_mod_sub_multiples_vanish(r, modulus());
    }
}

/// Two products have the same remainder where their factors have.
proof fn lemma_product_remainder(a: int, b: int, c: int, d: int)
    requires
        a % modulus() == c % modulus(),
        b % modulus() == d % modulus(),
    ensures
        (a * b) % modulus() == (c * d) % modulus(),
{
    lemma_mul_mod_noop_general(a, b, modulus());
    lemma_mul_mod_noop_general(c, d, modulus());
}

/// One round of squaring: with `left` steps to go, `result * base^left` has
/// the same remainder before the round and after it.
proof fn lemma_square_and_multiply(result: i64, base: i64, left: i64)
    requires
        left > 0,
    ensures
        ({
            let squared = base.wrapping_mul(base);
            let taken = if left % 2 == 1 {
                result.wrapping_mul(base)
            } else {
                result
            };
            (taken * pow(squared as int, clipped(left / 2))) % modulus() == (result * pow(
                base as int,
                clipped(left as int),
            )) % modulus()
        }),
{
    let half = clipped(left / 2);
    let squared = base.wrapping_mul(base);
    let pairs = pow(base as int, 2 * half);
    lemma_crop_keeps_remainder(base * base);
    lemma_pow_mod_noop(squared as int, half, modulus());
    lemma_pow_mod_noop(base * base, half, modulus());
    lemma_square_is_pow2(base as int);
    lemma_pow_multiplies(base as int, 2, half);
    assert(pow(squared as int, half) % modulus() == pairs % modulus());
    if left % 2 == 1 {
        let taken = result.wrapping_mul(base);
        lemma_crop_keeps_remainder(result * base);
        lemma_product_remainder(taken as int, pow(squared as int, half), result * base, pairs);
        assert(clipped(left as int) == 2 * half + 1);
        assert(pow(base as int, clipped(left as int)) == base * pairs) by {
            reveal(pow);
        }
        assert((result * base) * pairs == result * (base * pairs)) by (nonlinear_arith);
    } else {
        lemma_product_remainder(result as int, pow(squared as int, half), result as int, pairs);
        assert(clipped(left as int) == 2 * half);
    }
}

/// The integers modulo 2^64, read as signed: sums, differences and products
/// wrap around, and so do powers, which count an exponent below one as zero.
impl Number for i64 {
    open spec fn zero_spec() -> i64 {
        0i64
    }

    open spec fn one_spec() -> i64 {
        1i64
    }

    open spec fn plus_spec(self, rhs: i64) -> i64 {
        self.wrapping_add(rhs)
    }

    open spec fn minus_spec(self, rhs: i64) -> i64 {
        self.wrapping_sub(rhs)
    }

    open spec fn times_spec(self, rhs: i64) -> i64 {
        self.wrapping_mul(rhs)
    }

    open spec fn negate_spec(self) -> i64 {
        0i64.wrapping_sub(self)
    }

    open spec fn pow_spec(self, exponent: i64) -> i64 {
        wrapping_power(self, exponent)
    }

    open spec fn is_positive_spec(self) -> bool {
        self > 0
    }

    fn zero() -> i64 {
        0i64
    }

    fn one() -> i64 {
        1i64
    }

    fn plus(self, rhs: i64) -> i64 {
        self.wrapping_add(rhs)
    }

    fn minus(self, rhs: i64) -> i64 {
        self.wrapping_sub(rhs)
    }

    fn times(self, rhs: i64) -> i64 {
        self.wrapping_mul(rhs)
    }

    fn negate(self) -> i64 {
        0i64.wrapping_sub(self)
    }

    fn pow(self, exponent: i64) -> i64 {
        let mut result: i64 = 1;
        let mut base: i64 = self;
        let mut left: i64 = exponent;
        proof {
            assert(1 * pow(self as int, clipped(exponent as int)) == pow(
                self as int,
                clipped(exponent as int),
            ));
        }
        while left > 0
            invariant
                (result * pow(base as int, clipped(left as int))) % modulus() == pow(
                    self as int,
                    clipped(exponent as int),
                ) % modulus(),
            decreases left,
        {
            proof {
                lemma_square_and_multiply(result, base, left);
            }
            if left % 2 == 1 {
                result = result.wrapping_mul(base);
            }
            base = base.wrapping_mul(base);
            left = left / 2;
        }
        proof {
            lemma_pow0(base as int);
            assert(result * 1 == result);
        }
        result
    }

    fn is_positive(self) -> bool {
        self > 0
    }
}

} // verus!
