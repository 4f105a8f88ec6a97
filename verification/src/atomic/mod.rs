//! Measured amounts, the cells that accumulate them, and what a look at a cell gives.

pub mod float;
pub mod histogram;
pub mod integers;

use vstd::prelude::*;

verus! {

/// Amounts that can be accumulated, compared and subtracted.
pub trait Amount: Sized {
    /// The amount that nothing adds up to.
    spec fn zero() -> Self;

    /// The amount from which a minimum starts: no amount is above it.
    spec fn highest() -> Self;

    /// The amount from which a maximum starts: no amount is below it.
    spec fn lowest() -> Self;

    /// Whether the amount compares to itself. What is not a number does not.
    spec fn ordered(self) -> bool;

    spec fn below(self, other: Self) -> bool;

    /// Whether the two compare as equal.
    spec fn alike(self, other: Self) -> bool;

    /// The amount after `other` is added.
    spec fn plus(self, other: Self) -> Self;

    /// The amount after `other` is subtracted.
    spec fn minus(self, other: Self) -> Self;

    fn zero_value() -> (r: Self)
        ensures
            r == Self::zero(),
    ;

    fn min_identity() -> (r: Self)
        ensures
            r == Self::highest(),
    ;

    fn max_identity() -> (r: Self)
        ensures
            r == Self::lowest(),
    ;

    fn is_ordered(&self) -> (r: bool)
        ensures
            r == self.ordered(),
    ;

    fn is_below(&self, other: &Self) -> (r: bool)
        ensures
            r == self.below(*other),
    ;

    fn is_alike(&self, other: &Self) -> (r: bool)
        ensures
            r == self.alike(*other),
    ;

    fn difference(self, other: Self) -> (r: Self)
        ensures
            r == self.minus(other),
    ;

    /// A second amount that is the same.
    fn copy(&self) -> (r: Self)
        ensures
            r == *self,
    ;
}

/// Amounts with a cell of their own.
pub trait Measure: Amount {
    type Type: Scalar<Self>;
}

/// Whether a look at a cell finds it as it was in the beginning.
pub trait IsInitial: View {
    spec fn initial(reading: Self::V) -> bool;

    fn is_initial(&self) -> (r: bool)
        ensures
            r == Self::initial(self@),
    ;
}

/// What a look at a cell gives.
pub trait Reading: IsInitial + Sized {
    spec fn same(a: Self::V, b: Self::V) -> bool;

    spec fn before(a: Self::V, b: Self::V) -> bool;

    /// What `current` holds beyond `previous`.
    spec fn since(current: Self::V, previous: Self::V) -> Self::V;

    fn equals(&self, other: &Self) -> (r: bool)
        ensures
            r == Self::same(self@, other@),
    ;

    fn precedes(&self, other: &Self) -> (r: bool)
        ensures
            r == Self::before(self@, other@),
    ;

    fn subtract(self, previous: Self) -> (r: Self)
        ensures
            r@ == Self::since(self@, previous@),
    ;

    /// A second reading that is the same.
    fn duplicate(&self) -> (r: Self)
        ensures
            r@ == self@,
    ;
}

/// A cell that amounts are recorded in.
pub trait Record<T>: View + Sized {
    type Snapshot: Reading;

    /// What cells hold.
    spec fn valid(state: Self::V) -> bool;

    spec fn added(state: Self::V, value: T) -> Self::V;

    spec fn subtracted(state: Self::V, value: T) -> Self::V;

    /// The state in which the cell began.
    spec fn cleared(state: Self::V) -> Self::V;

    spec fn reading(state: Self::V) -> <Self::Snapshot as View>::V;

    /// Wraps on overflow for integers; use `i64` if values can go negative.
    fn add(&mut self, value: T)
        requires
            Self::valid(old(self)@),
        ensures
            Self::valid(final(self)@),
            final(self)@ == Self::added(old(self)@, value),
    ;

    /// Wraps on underflow for integers; use `i64` if values can go negative.
    fn sub(&mut self, value: T)
        requires
            Self::valid(old(self)@),
        ensures
            Self::valid(final(self)@),
            final(self)@ == Self::subtracted(old(self)@, value),
    ;

    fn clear(&mut self)
        requires
            Self::valid(old(self)@),
        ensures
            Self::valid(final(self)@),
            final(self)@ == Self::cleared(old(self)@),
    ;

    fn current(&self) -> (r: Self::Snapshot)
        requires
            Self::valid(self@),
        ensures
            r@ == Self::reading(self@),
    ;

    /// A cell of the same make, as it was in the beginning.
    fn fresh(&self) -> (r: Self)
        requires
            Self::valid(self@),
        ensures
            Self::valid(r@),
            r@ == Self::cleared(self@),
    ;
}

/// The smaller of a state and a value; a value that does not compare is ignored.
pub open spec fn lowered<T: Amount>(state: T, value: T) -> T {
    if value.ordered() && (!state.ordered() || value.below(state)) {
        value
    } else {
        state
    }
}

/// The larger of a state and a value; a value that does not compare is ignored.
pub open spec fn raised<T: Amount>(state: T, value: T) -> T {
    if value.ordered() && (!state.ordered() || state.below(value)) {
        value
    } else {
        state
    }
}

/// A value that is put in the place of a state; one that does not compare is ignored.
pub open spec fn stored<T: Amount>(state: T, value: T) -> T {
    if value.ordered() {
        value
    } else {
        state
    }
}

/// A cell that holds one amount.
pub trait Scalar<T: Amount>: Record<T> + View<V = T> {
    /// Recording in the cell is the arithmetic of the amounts.
    proof fn scalar_laws(state: T, value: T)
        ensures
            Self::valid(state),
            Self::added(state, value) == state.plus(value),
            Self::subtracted(state, value) == state.minus(value),
            Self::cleared(state) == T::zero(),
    ;

    fn from_value(value: T) -> (r: Self)
        ensures
            r@ == value,
    ;

    fn fetch_min(&mut self, value: T)
        ensures
            final(self)@ == lowered(old(self)@, value),
    ;

    fn fetch_max(&mut self, value: T)
        ensures
            final(self)@ == raised(old(self)@, value),
    ;

    fn swap(&mut self, value: T) -> (r: T)
        ensures
            r == old(self)@,
            final(self)@ == value,
    ;

    fn load(&self) -> (r: T)
        ensures
            r == self@,
    ;

    fn store(&mut self, value: T)
        ensures
            final(self)@ == stored(old(self)@, value),
    ;

    /// Takes the amount out; nothing is left.
    fn reset(&mut self) -> (r: T)
        ensures
            r == old(self)@,
            final(self)@ == T::zero(),
    ;

    fn get(&self) -> (r: T)
        ensures
            r == self@,
    {
        self.load()
    }
}

} // verus!
