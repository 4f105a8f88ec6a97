//! Doubles by their bits.

use crate::atomic::float;
use crate::number;
use crate::number::{Number, NumberView, OrderedNumber, ToNumber};
use vstd::arithmetic::power2::{lemma2_to64, lemma_pow2_pos, lemma_pow2_unfold, pow2};
use vstd::prelude::*;
use vstd::std_specs::cmp::PartialEqSpec;

verus! {

/// The exponent field of a double.
pub open spec fn exponent(bits: u64) -> int {
    (bits as int / 0x10_0000_0000_0000) % 0x800
}

/// The fraction field of a double.
pub open spec fn fraction(bits: u64) -> int {
    bits as int % 0x10_0000_0000_0000
}

/// Whether a double has its sign bit set.
pub open spec fn is_negative(bits: u64) -> bool {
    bits >= 0x8000_0000_0000_0000
}

/// The size of a number with these fields, as a multiple of the smallest double above zero. Infinity has
/// the size that would follow those of the finite numbers.
pub open spec fn size(exponent: int, fraction: int) -> int {
    if exponent == 0 {
        fraction
    } else {
        (0x10_0000_0000_0000 + fraction) * pow2((exponent - 1) as nat)
    }
}

/// The value of a double that is a number, as a multiple of the smallest double above zero.
pub open spec fn value(bits: u64) -> int {
    if is_negative(bits) {
        -size(exponent(bits), fraction(bits))
    } else {
        size(exponent(bits), fraction(bits))
    }
}

/// A double is no number where its exponent is full and it has a fraction, infinite where its exponent is
/// full and it has none, and finite everywhere else.
pub proof fn fields_tell_doubles_apart(bits: u64)
    ensures
        number::is_nan_bits(bits) <==> exponent(bits) == 0x7ff && fraction(bits) != 0,
        number::is_finite_bits(bits) <==> exponent(bits) != 0x7ff,
        number::magnitude(bits) == number::INFINITY_BITS <==> exponent(bits) == 0x7ff && fraction(bits) == 0,
{
}

proof fn lemma_size_grows_by_one(magnitude: int)
    requires
        0 <= magnitude,
    ensures
        size(magnitude / 0x10_0000_0000_0000, magnitude % 0x10_0000_0000_0000) < size(
            (magnitude + 1) / 0x10_0000_0000_0000,
            (magnitude + 1) % 0x10_0000_0000_0000,
        ),
{
    let e = magnitude / 0x10_0000_0000_0000;
    let f = magnitude % 0x10_0000_0000_0000;
    if f + 1 < 0x10_0000_0000_0000 {
        assert((magnitude + 1) / 0x10_0000_0000_0000 == e);
        assert((magnitude + 1) % 0x10_0000_0000_0000 == f + 1);
        if e > 0 {
            let p = pow2((e - 1) as nat) as int;
            lemma_pow2_pos((e - 1) as nat);
            assert((0x10_0000_0000_0000 + f) * p < (0x10_0000_0000_0000 + (f + 1)) * p) by (nonlinear_arith)
                requires
                    p > 0,
            ;
        }
    } else {
        assert((magnitude + 1) / 0x10_0000_0000_0000 == e + 1);
        assert((magnitude + 1) % 0x10_0000_0000_0000 == 0);
        if e > 0 {
            let p = pow2((e - 1) as nat) as int;
            lemma_pow2_pos((e - 1) as nat);
            lemma_pow2_unfold(e as nat);
            assert(pow2(e as nat) == 2 * p);
            assert((0x10_0000_0000_0000 + f) * p < 0x10_0000_0000_0000 * (2 * p)) by (nonlinear_arith)
                requires
                    p > 0,
                    f < 0x10_0000_0000_0000,
            ;
        } else {
            lemma2_to64();
        }
    }
}

proof fn lemma_size_grows(low: int, high: int)
    requires
        0 <= low < high,
    ensures
        size(low / 0x10_0000_0000_0000, low % 0x10_0000_0000_0000) < size(
            high / 0x10_0000_0000_0000,
            high % 0x10_0000_0000_0000,
        ),
    decreases high - low,
{
    lemma_size_grows_by_one(high - 1);
    if low < high - 1 {
        lemma_size_grows(low, high - 1);
    }
}

proof fn lemma_size_of_magnitude(bits: u64)
    ensures
        exponent(bits) == number::magnitude(bits) as int / 0x10_0000_0000_0000,
        fraction(bits) == number::magnitude(bits) as int % 0x10_0000_0000_0000,
        number::magnitude(bits) > 0 ==> size(exponent(bits), fraction(bits)) > 0,
        number::magnitude(bits) == 0 ==> size(exponent(bits), fraction(bits)) == 0,
{
    let m = number::magnitude(bits) as int;
    assert(exponent(bits) == m / 0x10_0000_0000_0000);
    assert(fraction(bits) == m % 0x10_0000_0000_0000);
    if m > 0 {
        lemma_size_grows(0, m);
    }
}

/// Doubles that are numbers are ordered as their values are, so the two zeros are one. What is no number
/// stands behind all that are, and all of it together.
pub proof fn doubles_are_ordered_by_value(a: u64, b: u64)
    ensures
        ({
            let a_is_number = !(exponent(a) == 0x7ff && fraction(a) != 0);
            let b_is_number = !(exponent(b) == 0x7ff && fraction(b) != 0);
            let rank = number::rank_bits(a, b);
            &&& a_is_number && b_is_number ==> {
                &&& rank == -1 <==> value(a) < value(b)
                &&& rank == 0 <==> value(a) == value(b)
                &&& rank == 1 <==> value(a) > value(b)
            }
            &&& a_is_number && !b_is_number ==> rank == -1
            &&& !a_is_number && b_is_number ==> rank == 1
            &&& !a_is_number && !b_is_number ==> rank == 0
        }),
{
    fields_tell_doubles_apart(a);
    fields_tell_doubles_apart(b);
    lemma_size_of_magnitude(a);
    lemma_size_of_magnitude(b);
    let m = number::magnitude(a) as int;
    let n = number::magnitude(b) as int;
    if m < n {
        lemma_size_grows(m, n);
    } else if n < m {
        lemma_size_grows(n, m);
    }
}

/// Doubles are equal where both are numbers of one value. Ordered doubles that are no numbers are equal
/// too.
pub proof fn doubles_are_equal_by_value(a: Number, b: Number, c: OrderedNumber, d: OrderedNumber)
    ensures
        ({
            let a_is_number = !(exponent(a@.bits) == 0x7ff && fraction(a@.bits) != 0);
            let b_is_number = !(exponent(b@.bits) == 0x7ff && fraction(b@.bits) != 0);
            PartialEqSpec::eq_spec(&a, &b) <==> a_is_number && b_is_number && value(a@.bits) == value(b@.bits)
        }),
        ({
            let c_is_number = !(exponent(c@.bits) == 0x7ff && fraction(c@.bits) != 0);
            let d_is_number = !(exponent(d@.bits) == 0x7ff && fraction(d@.bits) != 0);
            PartialEqSpec::eq_spec(&c, &d) <==> c_is_number == d_is_number && (c_is_number ==> value(c@.bits)
                == value(d@.bits))
        }),
        c@ == c.0@,
{
    doubles_are_ordered_by_value(a@.bits, b@.bits);
    doubles_are_ordered_by_value(c@.bits, d@.bits);
    fields_tell_doubles_apart(a@.bits);
    fields_tell_doubles_apart(b@.bits);
}

/// A bound on doubles is the value that was there or the one that came, whichever is further out. What
/// is no number never becomes a bound of one that is.
pub proof fn double_bounds_are_tight(state: u64, bits: u64)
    requires
        !(exponent(state) == 0x7ff && fraction(state) != 0),
    ensures
        ({
            let is_number = !(exponent(bits) == 0x7ff && fraction(bits) != 0);
            &&& float::lowered_bits(state, bits) == if is_number && value(bits) < value(state) {
                bits
            } else {
                state
            }
            &&& float::raised_bits(state, bits) == if is_number && value(bits) > value(state) {
                bits
            } else {
                state
            }
        }),
{
    doubles_are_ordered_by_value(state, bits);
    doubles_are_ordered_by_value(bits, state);
    fields_tell_doubles_apart(state);
    fields_tell_doubles_apart(bits);
}

/// A cleared double is zero, and not a negative one.
pub proof fn cleared_doubles_are_zero()
    ensures
        value(float::ZERO_BITS) == 0,
        !is_negative(float::ZERO_BITS),
{
}

/// The number of an integer is the double nearest to it, and that of a double is the double itself.
pub proof fn amounts_have_their_numbers(unsigned: u64, signed: i64, double: Number)
    ensures
        unsigned.number() == Some(NumberView { bits: number::nearest_to_unsigned(unsigned) }),
        signed.number() == Some(NumberView { bits: number::nearest_to_signed(signed) }),
        double.number() == Some(double@),
{
}

} // verus!
