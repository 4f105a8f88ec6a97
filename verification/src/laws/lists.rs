//! Lists that are made item by item.

use crate::order;
use vstd::prelude::*;

verus! {

/// Gathering succeeds exactly where every item does. Where one fails, the error is that of the first
/// item that does.
pub proof fn gathering_fails_with_the_first_failure<A, X, E>(
    items: Seq<A>,
    give: spec_fn(A) -> Result<Option<X>, E>,
)
    ensures
        order::gathered(items, give) is Ok <==> forall|i: int|
            0 <= i < items.len() ==> give(#[trigger] items[i]) is Ok,
        order::gathered(items, give) matches Err(error) ==> exists|i: int|
            0 <= i < items.len() && give(#[trigger] items[i]) == Err::<Option<X>, E>(error) && forall|j: int|
                0 <= j < i ==> give(#[trigger] items[j]) is Ok,
    decreases items.len(),
{
    if items.len() > 0 {
        let before = items.drop_last();
        let last = items.len() - 1;
        gathering_fails_with_the_first_failure(before, give);
        assert forall|i: int| 0 <= i < last implies #[trigger] items[i] == before[i] by {}
        assert(items[last] == items.last());
        match order::gathered(before, give) {
            Err(error) => {
                let i = choose|i: int|
                    0 <= i < before.len() && give(#[trigger] before[i]) == Err::<Option<X>, E>(error)
                        && forall|j: int| 0 <= j < i ==> give(#[trigger] before[j]) is Ok;
                assert(give(items[i]) == Err::<Option<X>, E>(error));
                assert forall|j: int| 0 <= j < i implies give(#[trigger] items[j]) is Ok by {
                    assert(give(before[j]) is Ok);
                }
            },
            Ok(_) => {
                assert forall|i: int| 0 <= i < last implies give(#[trigger] items[i]) is Ok by {
                    assert(give(before[i]) is Ok);
                }
                if give(items.last()) is Err {
                    assert(give(items[last]) is Err);
                }
            },
        }
    }
}

/// Where every item gives something, what is gathered has one entry for each item, in their order, and
/// each entry is what its item gave.
pub proof fn gathering_keeps_the_order<A, X, E>(items: Seq<A>, give: spec_fn(A) -> Result<Option<X>, E>)
    requires
        forall|i: int| 0 <= i < items.len() ==> give(#[trigger] items[i]) is Ok,
        forall|i: int| 0 <= i < items.len() ==> give(#[trigger] items[i])->Ok_0 is Some,
    ensures
        order::gathered(items, give) matches Ok(list) && list.len() == items.len() && forall|i: int|
            0 <= i < items.len() ==> give(#[trigger] items[i]) == Ok::<Option<X>, E>(Some(list[i])),
    decreases items.len(),
{
    if items.len() > 0 {
        let before = items.drop_last();
        let last = items.len() - 1;
        assert forall|i: int| 0 <= i < before.len() implies give(#[trigger] before[i]) is Ok && give(
            before[i],
        )->Ok_0 is Some by {
            assert(before[i] == items[i]);
        }
        gathering_keeps_the_order(before, give);
        assert(items[last] == items.last());
        let list = order::gathered(items, give)->Ok_0;
        let shorter = order::gathered(before, give)->Ok_0;
        assert forall|i: int| 0 <= i < items.len() implies give(#[trigger] items[i]) == Ok::<
            Option<X>,
            E,
        >(Some(list[i])) by {
            if i < last {
                assert(before[i] == items[i]);
                assert(list[i] == shorter[i]);
            }
        }
    }
}

} // verus!
