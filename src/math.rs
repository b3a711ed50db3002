//! Raising a value to an unsigned integer power by square-and-multiply.

use vstd::prelude::*;
use vstd::arithmetic::div_mod::{lemma_div_denominator, lemma_mul_mod_noop_left, lemma_mul_mod_noop_right};
use vstd::arithmetic::mul::lemma_mul_is_associative;
use vstd::arithmetic::power2::{lemma_pow2_pos, lemma_pow2_unfold, pow2};
use vstd::bits::lemma_u16_shr_is_div;

verus! {

/// A type with an associative product and a unit for it, so that it can be raised to
/// integer powers; the unit is the value of every power zero.
pub trait PowerZero: Sized + Copy {
    /// The unit of the product.
    spec fn unit() -> Self;

    /// The product of two values.
    spec fn product(a: Self, b: Self) -> Self;

    /// The product is associative.
    proof fn lemma_product_associative(a: Self, b: Self, c: Self)
        ensures
            Self::product(Self::product(a, b), c) == Self::product(a, Self::product(b, c)),
    ;

    /// The unit is neutral on both sides.
    proof fn lemma_unit_neutral(a: Self)
        ensures
            Self::product(a, Self::unit()) == a,
            Self::product(Self::unit(), a) == a,
    ;

    /// The value of any power zero.
    fn power_zero() -> (r: Self)
        ensures
            r == Self::unit(),
    ;

    /// Multiplies two values.
    fn times(a: Self, b: Self) -> (r: Self)
        ensures
            r == Self::product(a, b),
    ;
}

/// `b` multiplied by itself `n` times, starting from the unit.
pub open spec fn power_of<T: PowerZero>(b: T, n: nat) -> T
    decreases n,
{
    if n == 0 {
        T::unit()
    } else {
        T::product(power_of(b, (n - 1) as nat), b)
    }
}

/// Powers add: `b^(m + n) == b^m * b^n`.
pub proof fn lemma_power_add<T: PowerZero>(b: T, m: nat, n: nat)
    ensures
        power_of(b, m + n) == T::product(power_of(b, m), power_of(b, n)),
    decreases n,
{
    if n == 0 {
        T::lemma_unit_neutral(power_of(b, m));
        assert(m + n == m);
    } else {
        lemma_power_add(b, m, (n - 1) as nat);
        assert((m + n - 1) as nat == m + (n - 1) as nat);
        T::lemma_product_associative(power_of(b, m), power_of(b, (n - 1) as nat), b);
    }
}

/// Wrapping multiplication of 64-bit unsigned integers, with unit 1.
impl PowerZero for u64 {
    open spec fn unit() -> u64 {
        1
    }

    open spec fn product(a: u64, b: u64) -> u64 {
        ((a as nat * b as nat) % 0x1_0000_0000_0000_0000) as u64
    }

    proof fn lemma_product_associative(a: u64, b: u64, c: u64) {
        let m: int = 0x1_0000_0000_0000_0000;
        lemma_mul_mod_noop_left(a as int * b as int, c as int, m);
        lemma_mul_mod_noop_right(a as int, b as int * c as int, m);
        lemma_mul_is_associative(a as int, b as int, c as int);
    }

    proof fn lemma_unit_neutral(a: u64) {
    }

    fn power_zero() -> (r: u64) {
        1
    }

    fn times(a: u64, b: u64) -> (r: u64) {
        a.wrapping_mul(b)
    }
}

/// The exponent reached by following `steps` from exponent 1: each step doubles the
/// exponent, and adds one where the step is `true`.
pub open spec fn steps_exponent(steps: Seq<bool>) -> nat
    decreases steps.len(),
{
    if steps.len() == 0 {
        1
    } else {
        2 * steps_exponent(steps.drop_last()) + if steps.last() {
            1nat
        } else {
            0nat
        }
    }
}

/// The steps of square-and-multiply for `power`: for each bit below the highest set bit,
/// from high to low, a square, followed by a multiplication by the base where the bit is
/// set. Following them from the base gives the base to the power `power`; there are none
/// for powers 0 and 1.
pub fn square_multiply_steps(power: u16) -> (r: Vec<bool>)
    ensures
        power > 0 ==> steps_exponent(r@) == power,
        power <= 1 ==> r@.len() == 0,
        r@.len() < 16,
{
    let mut r: Vec<bool> = Vec::new();
    if power == 0 {
        return r;
    }
    let mut top: u16 = 0;
    assert((power >> 0u16) == power) by (bit_vector);
    while top < 15 && (power >> (top + 1)) != 0
        invariant
            top <= 15,
            (power >> top) != 0,
        decreases 15 - top,
    {
        top = top + 1;
    }
    assert((power >> top) == 1) by (bit_vector)
        requires
            top <= 15,
            (power >> top) != 0,
            top == 15 || (power >> ((top + 1) as u16)) == 0,
    ;
    let mut i: u16 = top;
    while i > 0
        invariant
            i <= top <= 15,
            r@.len() == top - i,
            steps_exponent(r@) == (power >> i) as nat,
        decreases i,
    {
        i = i - 1;
        proof {
            lemma_u16_shr_is_div(power, i);
            lemma_u16_shr_is_div(power, (i + 1) as u16);
            lemma_pow2_pos(i as nat);
            lemma_pow2_unfold((i + 1) as nat);
            lemma_div_denominator(power as int, pow2(i as nat) as int, 2);
        }
        let ghost before = r@;
        r.push((power >> i) % 2 == 1);
        assert(r@.drop_last() == before);
    }
    if power == 1 {
        assert((power >> top) == 1 && top > 0 ==> false) by (bit_vector)
            requires
                power == 1,
        ;
    }
    r
}

/// `base` to the power `power`, by square-and-multiply: start from `base` and follow
/// [`square_multiply_steps`]; the unit for power zero.
pub fn integer_power<T: PowerZero>(base: T, power: u16) -> (r: T)
    ensures
        r == power_of(base, power as nat),
{
    if power == 0 {
        return T::power_zero();
    }
    let steps = square_multiply_steps(power);
    proof {
        T::lemma_unit_neutral(base);
        assert(power_of(base, 1) == T::product(power_of(base, 0), base));
    }
    let mut num = base;
    let mut i: usize = 0;
    while i < steps.len()
        invariant
            i <= steps@.len(),
            num == power_of(base, steps_exponent(steps@.subrange(0, i as int))),
        decreases steps@.len() - i,
    {
        let ghost e = steps_exponent(steps@.subrange(0, i as int));
        proof {
            lemma_power_add(base, e, e);
            assert(steps@.subrange(0, i + 1).drop_last() == steps@.subrange(0, i as int));
        }
        num = T::times(num, num);
        if steps[i] {
            num = T::times(num, base);
        }
        i = i + 1;
    }
    assert(steps@.subrange(0, steps@.len() as int) == steps@);
    num
}

} // verus!
