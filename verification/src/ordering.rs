//! The order of texts, values and attributes, as std has it.

use crate::attr_map;
use crate::model;
use crate::model::{KeyValue, Str, Value};
use crate::text;
use std::cmp::Ordering;
use vstd::prelude::*;
use vstd::std_specs::cmp::*;

verus! {

/// What a negative, zero or positive rank says.
pub open spec fn ordering_of(rank: int) -> Ordering {
    if rank < 0 {
        Ordering::Less
    } else if rank == 0 {
        Ordering::Equal
    } else {
        Ordering::Greater
    }
}

fn to_ordering(rank: i8) -> (r: Ordering)
    ensures
        r == ordering_of(rank + 0),
{
    if rank < 0 {
        Ordering::Less
    } else if rank == 0 {
        Ordering::Equal
    } else {
        Ordering::Greater
    }
}

impl Str {
    /// Compares two texts by their bytes, however they are held.
    pub fn cmp(&self, other: &Str) -> (r: Ordering)
        ensures
            r == ordering_of(text::rank_text(self@, other@)),
    {
        to_ordering(text::compare_text(self.as_str(), other.as_str()))
    }
}

/// Texts stand in the order of their bytes.
impl PartialOrd for Str {
    fn partial_cmp(&self, other: &Str) -> (r: Option<Ordering>) {
        Some(self.cmp(other))
    }
}

impl vstd::std_specs::cmp::PartialOrdSpecImpl for Str {
    open spec fn obeys_partial_cmp_spec() -> bool {
        true
    }

    open spec fn partial_cmp_spec(&self, other: &Str) -> Option<Ordering> {
        Some(ordering_of(text::rank_text(self@, other@)))
    }
}

impl Value {
    /// Compares two values by their variant, then by what they hold.
    pub fn cmp(&self, other: &Value) -> (r: Ordering)
        ensures
            r == ordering_of(model::rank_value(self@, other@)),
    {
        to_ordering(model::compare_value(self, other))
    }
}

/// Values stand by their variant, then by what they hold.
impl PartialOrd for Value {
    fn partial_cmp(&self, other: &Value) -> (r: Option<Ordering>) {
        Some(self.cmp(other))
    }
}

impl vstd::std_specs::cmp::PartialOrdSpecImpl for Value {
    open spec fn obeys_partial_cmp_spec() -> bool {
        true
    }

    open spec fn partial_cmp_spec(&self, other: &Value) -> Option<Ordering> {
        Some(ordering_of(model::rank_value(self@, other@)))
    }
}

impl KeyValue {
    /// Compares two attributes by key, then by value.
    pub fn cmp(&self, other: &KeyValue) -> (r: Ordering)
        ensures
            r == ordering_of(model::rank_attr(self@, other@)),
    {
        to_ordering(model::compare_attr(self, other))
    }
}

/// Attributes stand by key, then by value.
impl PartialOrd for KeyValue {
    fn partial_cmp(&self, other: &KeyValue) -> (r: Option<Ordering>) {
        Some(self.cmp(other))
    }
}

impl vstd::std_specs::cmp::PartialOrdSpecImpl for KeyValue {
    open spec fn obeys_partial_cmp_spec() -> bool {
        true
    }

    open spec fn partial_cmp_spec(&self, other: &KeyValue) -> Option<Ordering> {
        Some(ordering_of(model::rank_attr(self@, other@)))
    }
}

/// Of texts only the characters matter, not how they are held: texts are equal exactly where their
/// characters are, they are ordered as their characters are, and equal texts have the same hash. The
/// order is total, and texts that stand together are equal.
pub proof fn only_characters_matter(a: Str, b: Str, c: Str, seed: u64)
    ensures
        PartialEqSpec::eq_spec(&a, &b) <==> a@ == b@,
        PartialOrdSpec::partial_cmp_spec(&a, &b) == Some(ordering_of(text::rank_text(a@, b@))),
        a@ == b@ ==> attr_map::text_hash(seed, a@) == attr_map::text_hash(seed, b@),
        ordering_of(text::rank_text(a@, b@)) is Equal <==> a@ == b@,
        ordering_of(text::rank_text(a@, b@)) is Less <==> ordering_of(text::rank_text(b@, a@)) is Greater,
        ordering_of(text::rank_text(a@, b@)) is Less && ordering_of(text::rank_text(b@, c@)) is Less
            ==> ordering_of(text::rank_text(a@, c@)) is Less,
{
    text::lemma_rank_text_flip(a@, b@);
    if text::rank_text(a@, b@) < 0 && text::rank_text(b@, c@) < 0 {
        text::lemma_rank_text_transitive(a@, b@, c@);
    }
}

} // verus!
