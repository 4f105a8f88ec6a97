//! A cell that holds a double, by its bits.

use crate::number;
use vstd::prelude::*;

verus! {

/// A cell that holds the bits of a double. What is not a number is never recorded in it.
#[derive(Debug)]
pub struct AtomicF64 {
    bits: u64,
}

impl View for AtomicF64 {
    type V = u64;

    closed spec fn view(&self) -> u64 {
        self.bits
    }
}

/// The bits of zero.
pub const ZERO_BITS: u64 = 0;

/// The smaller of a state and a value; what is not a number is ignored as a value, and gives way as
/// a state.
pub open spec fn lowered_bits(state: u64, value: u64) -> u64 {
    if !number::is_nan_bits(value) && (number::is_nan_bits(state) || number::rank_bits(value, state) < 0) {
        value
    } else {
        state
    }
}

/// The larger of a state and a value; what is not a number is ignored as a value, and gives way as
/// a state.
pub open spec fn raised_bits(state: u64, value: u64) -> u64 {
    if !number::is_nan_bits(value) && (number::is_nan_bits(state) || number::rank_bits(value, state) > 0) {
        value
    } else {
        state
    }
}

impl AtomicF64 {
    pub fn new(value: u64) -> (r: AtomicF64)
        requires
            !number::is_nan_bits(value),
        ensures
            r@ == value,
    {
        AtomicF64 { bits: value }
    }

    /// Puts what `f` makes of the double in its place.
    pub fn update_with<F: Fn(u64) -> u64>(&mut self, f: F)
        requires
            f.requires((old(self)@,)),
        ensures
            f.ensures((old(self)@,), final(self)@),
    {
        self.bits = f(self.bits);
    }

    /// Records a double by the sum that `plus` makes. What is not a number is ignored.
    pub fn add<F: Fn(u64, u64) -> u64>(&mut self, value: u64, plus: F)
        requires
            plus.requires((old(self)@, value)),
        ensures
            if number::is_nan_bits(value) {
                final(self)@ == old(self)@
            } else {
                plus.ensures((old(self)@, value), final(self)@)
            },
    {
        if number::bits_are_nan(value) {
            return;
        }
        self.bits = plus(self.bits, value);
    }

    pub fn clear(&mut self)
        ensures
            final(self)@ == ZERO_BITS,
    {
        self.bits = ZERO_BITS;
    }

    pub fn fetch_min(&mut self, value: u64)
        ensures
            final(self)@ == lowered_bits(old(self)@, value),
    {
        if number::bits_are_nan(value) {
            return;
        }
        if number::bits_are_nan(self.bits) || number::compare_double_bits(value, self.bits) < 0 {
            self.bits = value;
        }
    }

    pub fn fetch_max(&mut self, value: u64)
        ensures
            final(self)@ == raised_bits(old(self)@, value),
    {
        if number::bits_are_nan(value) {
            return;
        }
        if number::bits_are_nan(self.bits) || number::compare_double_bits(value, self.bits) > 0 {
            self.bits = value;
        }
    }

    pub fn swap(&mut self, value: u64) -> (r: u64)
        requires
            !number::is_nan_bits(value),
        ensures
            r == old(self)@,
            final(self)@ == value,
    {
        let before: u64 = self.bits;
        self.bits = value;
        before
    }

    pub fn load(&self) -> (r: u64)
        ensures
            r == self@,
    {
        self.bits
    }

    /// Puts a double in the place of the one held. What is not a number is ignored.
    pub fn store(&mut self, value: u64)
        ensures
            final(self)@ == if number::is_nan_bits(value) {
                old(self)@
            } else {
                value
            },
    {
        if number::bits_are_nan(value) {
            return;
        }
        self.bits = value;
    }

    /// Takes the double out; zero is left.
    pub fn reset(&mut self) -> (r: u64)
        ensures
            r == old(self)@,
            final(self)@ == ZERO_BITS,
    {
        self.swap(ZERO_BITS)
    }
}

/// A minimum and a maximum never become what is not a number, and bound every double that was
/// recorded in them.
pub proof fn bounds_hold_what_was_recorded(state: u64, value: u64)
    requires
        !number::is_nan_bits(state),
    ensures
        !number::is_nan_bits(lowered_bits(state, value)),
        !number::is_nan_bits(raised_bits(state, value)),
        number::rank_bits(lowered_bits(state, value), state) <= 0,
        number::rank_bits(raised_bits(state, value), state) >= 0,
        !number::is_nan_bits(value) ==> number::rank_bits(lowered_bits(state, value), value) <= 0,
        !number::is_nan_bits(value) ==> number::rank_bits(raised_bits(state, value), value) >= 0,
{
}

} // verus!
