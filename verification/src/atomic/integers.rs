//! Cells that hold integers.
//!
//! An update takes its cell for itself, so no update is lost.

use crate::atomic::{Amount, IsInitial, Measure, Reading, Record, Scalar};
use vstd::prelude::*;

verus! {

/// A cell that holds an unsigned integer.
#[derive(Debug)]
pub struct AtomicU64 {
    value: u64,
}

impl AtomicU64 {
    pub fn new(value: u64) -> (r: AtomicU64)
        ensures
            r@ == value,
    {
        AtomicU64 { value }
    }
}

impl View for AtomicU64 {
    type V = u64;

    closed spec fn view(&self) -> u64 {
        self.value
    }
}

impl Amount for u64 {
    open spec fn zero() -> u64 {
        0
    }

    open spec fn highest() -> u64 {
        u64::MAX
    }

    open spec fn lowest() -> u64 {
        u64::MIN
    }

    open spec fn ordered(self) -> bool {
        true
    }

    open spec fn below(self, other: u64) -> bool {
        self < other
    }

    open spec fn alike(self, other: u64) -> bool {
        self == other
    }

    open spec fn plus(self, other: u64) -> u64 {
        self.wrapping_add(other)
    }

    open spec fn minus(self, other: u64) -> u64 {
        self.wrapping_sub(other)
    }

    fn zero_value() -> (r: u64) {
        0
    }

    fn min_identity() -> (r: u64) {
        u64::MAX
    }

    fn max_identity() -> (r: u64) {
        u64::MIN
    }

    fn is_ordered(&self) -> (r: bool) {
        true
    }

    fn is_below(&self, other: &u64) -> (r: bool) {
        *self < *other
    }

    fn is_alike(&self, other: &u64) -> (r: bool) {
        *self == *other
    }

    fn difference(self, other: u64) -> (r: u64) {
        self.wrapping_sub(other)
    }

    fn copy(&self) -> (r: u64) {
        *self
    }
}

impl Measure for u64 {
    type Type = AtomicU64;
}

impl IsInitial for u64 {
    open spec fn initial(reading: u64) -> bool {
        reading == 0
    }

    fn is_initial(&self) -> (r: bool) {
        *self == 0
    }
}

impl Reading for u64 {
    open spec fn same(a: u64, b: u64) -> bool {
        a == b
    }

    open spec fn before(a: u64, b: u64) -> bool {
        a < b
    }

    open spec fn since(current: u64, previous: u64) -> u64 {
        current.wrapping_sub(previous)
    }

    fn equals(&self, other: &u64) -> (r: bool) {
        *self == *other
    }

    fn precedes(&self, other: &u64) -> (r: bool) {
        *self < *other
    }

    fn subtract(self, previous: u64) -> (r: u64) {
        self.wrapping_sub(previous)
    }

    fn duplicate(&self) -> (r: u64) {
        *self
    }
}

impl Record<u64> for AtomicU64 {
    type Snapshot = u64;

    open spec fn valid(state: u64) -> bool {
        true
    }

    open spec fn added(state: u64, value: u64) -> u64 {
        state.wrapping_add(value)
    }

    open spec fn subtracted(state: u64, value: u64) -> u64 {
        state.wrapping_sub(value)
    }

    open spec fn cleared(state: u64) -> u64 {
        0
    }

    open spec fn reading(state: u64) -> u64 {
        state
    }

    fn add(&mut self, value: u64) {
        self.value = self.value.wrapping_add(value);
    }

    fn sub(&mut self, value: u64) {
        self.value = self.value.wrapping_sub(value);
    }

    fn clear(&mut self) {
        self.value = 0;
    }

    fn current(&self) -> (r: u64) {
        self.value
    }

    fn fresh(&self) -> (r: AtomicU64) {
        AtomicU64 { value: 0 }
    }
}

impl Scalar<u64> for AtomicU64 {
    proof fn scalar_laws(state: u64, value: u64) {
    }

    fn from_value(value: u64) -> (r: AtomicU64) {
        AtomicU64 { value }
    }

    fn fetch_min(&mut self, value: u64) {
        if value < self.value {
            self.value = value;
        }
    }

    fn fetch_max(&mut self, value: u64) {
        if self.value < value {
            self.value = value;
        }
    }

    fn swap(&mut self, value: u64) -> (r: u64) {
        let before: u64 = self.value;
        self.value = value;
        before
    }

    fn load(&self) -> (r: u64) {
        self.value
    }

    fn store(&mut self, value: u64) {
        self.value = value;
    }

    fn reset(&mut self) -> (r: u64) {
        let before: u64 = self.value;
        self.value = 0;
        before
    }
}

/// A cell that holds a signed integer.
#[derive(Debug)]
pub struct AtomicI64 {
    value: i64,
}

impl AtomicI64 {
    pub fn new(value: i64) -> (r: AtomicI64)
        ensures
            r@ == value,
    {
        AtomicI64 { value }
    }
}

impl View for AtomicI64 {
    type V = i64;

    closed spec fn view(&self) -> i64 {
        self.value
    }
}

impl Amount for i64 {
    open spec fn zero() -> i64 {
        0
    }

    open spec fn highest() -> i64 {
        i64::MAX
    }

    open spec fn lowest() -> i64 {
        i64::MIN
    }

    open spec fn ordered(self) -> bool {
        true
    }

    open spec fn below(self, other: i64) -> bool {
        self < other
    }

    open spec fn alike(self, other: i64) -> bool {
        self == other
    }

    open spec fn plus(self, other: i64) -> i64 {
        self.wrapping_add(other)
    }

    open spec fn minus(self, other: i64) -> i64 {
        self.wrapping_sub(other)
    }

    fn zero_value() -> (r: i64) {
        0
    }

    fn min_identity() -> (r: i64) {
        i64::MAX
    }

    fn max_identity() -> (r: i64) {
        i64::MIN
    }

    fn is_ordered(&self) -> (r: bool) {
        true
    }

    fn is_below(&self, other: &i64) -> (r: bool) {
        *self < *other
    }

    fn is_alike(&self, other: &i64) -> (r: bool) {
        *self == *other
    }

    fn difference(self, other: i64) -> (r: i64) {
        self.wrapping_sub(other)
    }

    fn copy(&self) -> (r: i64) {
        *self
    }
}

impl Measure for i64 {
    type Type = AtomicI64;
}

impl IsInitial for i64 {
    open spec fn initial(reading: i64) -> bool {
        reading == 0
    }

    fn is_initial(&self) -> (r: bool) {
        *self == 0
    }
}

impl Reading for i64 {
    open spec fn same(a: i64, b: i64) -> bool {
        a == b
    }

    open spec fn before(a: i64, b: i64) -> bool {
        a < b
    }

    open spec fn since(current: i64, previous: i64) -> i64 {
        current.wrapping_sub(previous)
    }

    fn equals(&self, other: &i64) -> (r: bool) {
        *self == *other
    }

    fn precedes(&self, other: &i64) -> (r: bool) {
        *self < *other
    }

    fn subtract(self, previous: i64) -> (r: i64) {
        self.wrapping_sub(previous)
    }

    fn duplicate(&self) -> (r: i64) {
        *self
    }
}

impl Record<i64> for AtomicI64 {
    type Snapshot = i64;

    open spec fn valid(state: i64) -> bool {
        true
    }

    open spec fn added(state: i64, value: i64) -> i64 {
        state.wrapping_add(value)
    }

    open spec fn subtracted(state: i64, value: i64) -> i64 {
        state.wrapping_sub(value)
    }

    open spec fn cleared(state: i64) -> i64 {
        0
    }

    open spec fn reading(state: i64) -> i64 {
        state
    }

    fn add(&mut self, value: i64) {
        self.value = self.value.wrapping_add(value);
    }

    fn sub(&mut self, value: i64) {
        self.value = self.value.wrapping_sub(value);
    }

    fn clear(&mut self) {
        self.value = 0;
    }

    fn current(&self) -> (r: i64) {
        self.value
    }

    fn fresh(&self) -> (r: AtomicI64) {
        AtomicI64 { value: 0 }
    }
}

impl Scalar<i64> for AtomicI64 {
    proof fn scalar_laws(state: i64, value: i64) {
    }

    fn from_value(value: i64) -> (r: AtomicI64) {
        AtomicI64 { value }
    }

    fn fetch_min(&mut self, value: i64) {
        if value < self.value {
            self.value = value;
        }
    }

    fn fetch_max(&mut self, value: i64) {
        if self.value < value {
            self.value = value;
        }
    }

    fn swap(&mut self, value: i64) -> (r: i64) {
        let before: i64 = self.value;
        self.value = value;
        before
    }

    fn load(&self) -> (r: i64) {
        self.value
    }

    fn store(&mut self, value: i64) {
        self.value = value;
    }

    fn reset(&mut self) -> (r: i64) {
        let before: i64 = self.value;
        self.value = 0;
        before
    }
}

/// Subtracting undoes adding, and adding what was gained since an earlier state leads from there to
/// the present one, whatever wraps.
pub proof fn unsigned_arithmetic_is_reversible(state: u64, value: u64)
    ensures
        state.plus(value).minus(value) == state,
        state.minus(value).plus(value) == state,
{
}

/// Subtracting undoes adding, and adding what was gained since an earlier state leads from there to
/// the present one, whatever wraps.
pub proof fn signed_arithmetic_is_reversible(state: i64, value: i64)
    ensures
        state.plus(value).minus(value) == state,
        state.minus(value).plus(value) == state,
{
}

} // verus!
