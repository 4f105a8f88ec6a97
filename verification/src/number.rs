//! Doubles by their bits: the numbers that exported samples, boundaries and attributes hold.

use crate::error::Error;
use num_traits::ToPrimitive;
use vstd::prelude::*;

verus! {

/// A double of 64 bits in the IEEE 754 binary format, with its decimal text.
#[derive(Debug)]
pub struct Number {
    /// The sign bit, eleven bits of exponent, and the fraction, from the highest bit down.
    bits: u64,
    /// What `Display` writes for the double.
    text: String,
}

/// A double. Its decimal text is that of its bits.
pub ghost struct NumberView {
    pub bits: u64,
}

impl View for Number {
    type V = NumberView;

    closed spec fn view(&self) -> NumberView {
        NumberView { bits: self.bits }
    }
}

/// A number that may be missing.
pub open spec fn option_view<N: View>(number: Option<N>) -> Option<N::V> {
    match number {
        Some(number) => Some(number@),
        None => None,
    }
}

pub const SIGN_BIT: u64 = 0x8000_0000_0000_0000;

pub const INFINITY_BITS: u64 = 0x7ff0_0000_0000_0000;

/// The bits without the sign.
pub open spec fn magnitude(bits: u64) -> u64 {
    if bits >= SIGN_BIT { (bits - SIGN_BIT) as u64 } else { bits }
}

/// Whether the double is not a number.
pub open spec fn is_nan_bits(bits: u64) -> bool {
    magnitude(bits) > INFINITY_BITS
}

/// Whether the double is neither an infinity nor not a number.
pub open spec fn is_finite_bits(bits: u64) -> bool {
    magnitude(bits) < INFINITY_BITS
}

/// An integer by which doubles are ordered: as their values are, the two zeros together, with what
/// is not a number above everything else.
pub open spec fn order_key(bits: u64) -> int {
    if is_nan_bits(bits) {
        SIGN_BIT as int
    } else if bits >= SIGN_BIT {
        -(magnitude(bits) as int)
    } else {
        magnitude(bits) as int
    }
}

/// Negative, zero or positive as `a` stands before, with or after `b`.
pub open spec fn rank_bits(a: u64, b: u64) -> int {
    if order_key(a) < order_key(b) {
        -1
    } else if order_key(a) == order_key(b) {
        0
    } else {
        1
    }
}

fn magnitude_of(bits: u64) -> (r: u64)
    ensures
        r == magnitude(bits),
{
    if bits >= SIGN_BIT { bits - SIGN_BIT } else { bits }
}

/// Whether the double with these bits is not a number.
pub fn bits_are_nan(bits: u64) -> (r: bool)
    ensures
        r == is_nan_bits(bits),
{
    magnitude_of(bits) > INFINITY_BITS
}

/// Whether doubles are equal: as their values are, the two zeros too. What is not a number equals
/// nothing, not even itself.
pub open spec fn equal_bits(a: u64, b: u64) -> bool {
    !is_nan_bits(a) && !is_nan_bits(b) && order_key(a) == order_key(b)
}

/// Compares two doubles by their bits.
pub fn compare_double_bits(a: u64, b: u64) -> (r: i8)
    ensures
        r as int == rank_bits(a, b),
{
    let a_nan = bits_are_nan(a);
    let b_nan = bits_are_nan(b);
    if a_nan {
        return if b_nan { 0 } else { 1 };
    }
    if b_nan {
        return -1;
    }
    let a_magnitude: u64 = magnitude_of(a);
    let b_magnitude: u64 = magnitude_of(b);
    if a >= SIGN_BIT && b >= SIGN_BIT {
        if a_magnitude > b_magnitude {
            -1
        } else if a_magnitude == b_magnitude {
            0
        } else {
            1
        }
    } else if a >= SIGN_BIT {
        if a_magnitude == 0 && b_magnitude == 0 { 0 } else { -1 }
    } else if b >= SIGN_BIT {
        if a_magnitude == 0 && b_magnitude == 0 { 0 } else { 1 }
    } else if a_magnitude < b_magnitude {
        -1
    } else if a_magnitude == b_magnitude {
        0
    } else {
        1
    }
}

impl Number {
    /// The text is the one that `Display` writes for the bits.
    #[verifier::type_invariant]
    spec fn wf(&self) -> bool {
        self.text@ == double_text(self.bits)
    }

    /// The double with these bits. The text must be the one that `Display` writes for it.
    pub fn from_parts(bits: u64, text: String) -> (r: Number)
        requires
            text@ == double_text(bits),
        ensures
            r@.bits == bits,
    {
        Number { bits, text }
    }

    /// The bits of the double.
    pub fn bits(&self) -> (r: u64)
        ensures
            r == self@.bits,
    {
        self.bits
    }

    /// What `Display` writes for the double.
    pub fn as_text(&self) -> (r: &str)
        ensures
            r@ == double_text(self@.bits),
    {
        proof {
            use_type_invariant(self);
        }
        self.text.as_str()
    }

    pub fn is_nan(&self) -> (r: bool)
        ensures
            r == is_nan_bits(self@.bits),
    {
        bits_are_nan(self.bits)
    }

    pub fn is_infinite(&self) -> (r: bool)
        ensures
            r == (magnitude(self@.bits) == INFINITY_BITS),
    {
        magnitude_of(self.bits) == INFINITY_BITS
    }

    pub fn is_finite(&self) -> (r: bool)
        ensures
            r == is_finite_bits(self@.bits),
    {
        magnitude_of(self.bits) < INFINITY_BITS
    }

    pub fn is_sign_positive(&self) -> (r: bool)
        ensures
            r == (self@.bits < SIGN_BIT),
    {
        self.bits < SIGN_BIT
    }

    /// A second number with the same bits and text.
    pub fn copy(&self) -> (r: Number)
        ensures
            r@ == self@,
    {
        proof {
            use_type_invariant(self);
        }
        Number { bits: self.bits, text: self.text.clone() }
    }
}

impl Clone for Number {
    fn clone(&self) -> (r: Number)
        ensures
            r@ == self@,
    {
        self.copy()
    }
}

impl PartialEq for Number {
    fn eq(&self, other: &Number) -> (r: bool) {
        !self.is_nan() && compare_double_bits(self.bits, other.bits) == 0
    }
}

impl vstd::std_specs::cmp::PartialEqSpecImpl for Number {
    open spec fn obeys_eq_spec() -> bool {
        true
    }

    open spec fn eq_spec(&self, other: &Number) -> bool {
        equal_bits(self@.bits, other@.bits)
    }
}

/// A double under a total order, in which the two zeros stand together and what is not a number stands
/// with itself, above everything else.
#[derive(Debug)]
pub struct OrderedNumber(pub Number);

impl View for OrderedNumber {
    type V = NumberView;

    open spec fn view(&self) -> NumberView {
        self.0@
    }
}

impl OrderedNumber {
    /// A second number with the same bits and text.
    pub fn copy(&self) -> (r: OrderedNumber)
        ensures
            r@ == self@,
    {
        OrderedNumber(self.0.copy())
    }
}

impl Clone for OrderedNumber {
    fn clone(&self) -> (r: OrderedNumber)
        ensures
            r@ == self@,
    {
        self.copy()
    }
}

impl PartialEq for OrderedNumber {
    fn eq(&self, other: &OrderedNumber) -> (r: bool) {
        compare_double_bits(self.0.bits, other.0.bits) == 0
    }
}

impl vstd::std_specs::cmp::PartialEqSpecImpl for OrderedNumber {
    open spec fn obeys_eq_spec() -> bool {
        true
    }

    open spec fn eq_spec(&self, other: &OrderedNumber) -> bool {
        rank_bits(self@.bits, other@.bits) == 0
    }
}

impl Eq for OrderedNumber {

}

/// Ordered doubles are equal where the doubles are, and otherwise only where both are not numbers.
pub proof fn only_nan_equals_more(a: u64, b: u64)
    ensures
        rank_bits(a, b) == 0 <==> equal_bits(a, b) || is_nan_bits(a) && is_nan_bits(b),
{
}

/// What `Display` writes for the double with these bits.
pub uninterp spec fn double_text(bits: u64) -> Seq<char>;

/// The bits of the double that is nearest to an unsigned integer.
pub uninterp spec fn nearest_to_unsigned(value: u64) -> u64;

/// The bits of the double that is nearest to a signed integer.
pub uninterp spec fn nearest_to_signed(value: i64) -> u64;

/// `ToPrimitive::to_f64` of num-traits on a `u64`. It always gives a double, and a finite one; the
/// contract names its bits and what `Display` writes for them.
#[verifier::external_body]
fn unsigned_to_double(value: u64) -> (r: Option<(u64, String)>)
    ensures
        match r {
            Some((bits, text)) => {
                &&& bits == nearest_to_unsigned(value)
                &&& text@ == double_text(bits)
                &&& is_finite_bits(bits)
            },
            None => false,
        },
{
    value.to_f64().map(|double| (double.to_bits(), double.to_string()))
}

/// `ToPrimitive::to_f64` of num-traits on an `i64`. It always gives a double, and a finite one; the
/// contract names its bits and what `Display` writes for them.
#[verifier::external_body]
fn signed_to_double(value: i64) -> (r: Option<(u64, String)>)
    ensures
        match r {
            Some((bits, text)) => {
                &&& bits == nearest_to_signed(value)
                &&& text@ == double_text(bits)
                &&& is_finite_bits(bits)
            },
            None => false,
        },
{
    value.to_f64().map(|double| (double.to_bits(), double.to_string()))
}

/// A value that a double can stand for.
pub trait ToNumber {
    /// The double, where there is one.
    spec fn number(&self) -> Option<NumberView>;

    /// The double that stands for the value.
    fn to_number(&self) -> (r: Result<Number, Error>)
        ensures
            match r {
                Ok(number) => self.number() == Some(number@),
                Err(error) => self.number() is None && error@ is ValueToF64,
            },
    ;
}

impl ToNumber for u64 {
    open spec fn number(&self) -> Option<NumberView> {
        Some(NumberView { bits: nearest_to_unsigned(*self) })
    }

    fn to_number(&self) -> (r: Result<Number, Error>)
        ensures
            r is Ok,
            is_finite_bits(r->Ok_0@.bits),
    {
        match unsigned_to_double(*self) {
            Some((bits, text)) => Ok(Number::from_parts(bits, text)),
            None => Err(Error::ValueToF64),
        }
    }
}

impl ToNumber for i64 {
    open spec fn number(&self) -> Option<NumberView> {
        Some(NumberView { bits: nearest_to_signed(*self) })
    }

    fn to_number(&self) -> (r: Result<Number, Error>)
        ensures
            r is Ok,
            is_finite_bits(r->Ok_0@.bits),
    {
        match signed_to_double(*self) {
            Some((bits, text)) => Ok(Number::from_parts(bits, text)),
            None => Err(Error::ValueToF64),
        }
    }
}

impl ToNumber for Number {
    open spec fn number(&self) -> Option<NumberView> {
        Some(self@)
    }

    fn to_number(&self) -> (r: Result<Number, Error>) {
        Ok(self.copy())
    }
}

} // verus!
