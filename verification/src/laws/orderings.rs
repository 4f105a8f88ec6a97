//! Comparisons of texts, values and attributes.

use crate::model;
use crate::model::{KeyValue, Str, Value};
use crate::text;
use std::cmp::Ordering;
use vstd::prelude::*;
use vstd::std_specs::cmp::PartialOrdSpec;

verus! {

/// Whether a comparison says what a rank says: less below zero, greater above.
pub open spec fn tells(found: Option<Ordering>, rank: int) -> bool {
    &&& rank < 0 <==> found == Some(Ordering::Less)
    &&& rank == 0 <==> found == Some(Ordering::Equal)
    &&& rank > 0 <==> found == Some(Ordering::Greater)
}

/// Texts, values and attributes compare as they are ranked.
pub proof fn comparisons_follow_the_order(
    a: Str,
    b: Str,
    value: Value,
    other: Value,
    attr: KeyValue,
    another: KeyValue,
)
    ensures
        tells(PartialOrdSpec::partial_cmp_spec(&a, &b), text::rank_text(a@, b@)),
        tells(PartialOrdSpec::partial_cmp_spec(&value, &other), model::rank_value(value@, other@)),
        tells(PartialOrdSpec::partial_cmp_spec(&attr, &another), model::rank_attr(attr@, another@)),
{
}

} // verus!
