//! Ordered items, and a sort that keeps items that stand together in the order they came.

use vstd::seq_lib::*;
use crate::text;
use vstd::multiset::*;
use vstd::prelude::*;

verus! {

/// What items hold, under a total order.
pub trait Ranked: Sized {
    /// Negative, zero or positive as `a` stands before, with or after `b`.
    spec fn rank(a: Self, b: Self) -> int;

    /// Antisymmetry.
    proof fn rank_flip(a: Self, b: Self)
        ensures
            Self::rank(a, b) == -Self::rank(b, a),
    ;

    /// Transitivity.
    proof fn rank_transitive(a: Self, b: Self, c: Self)
        requires
            Self::rank(a, b) <= 0,
            Self::rank(b, c) <= 0,
        ensures
            Self::rank(a, c) <= 0,
    ;
}

/// Items that can be put in the order of what they hold.
pub trait Comparable: View + Sized where Self::V: Ranked {
    fn compare(&self, other: &Self) -> (r: i8)
        ensures
            r as int == <Self::V as Ranked>::rank(self@, other@),
    ;
}

/// What the items of a list hold.
pub open spec fn views<T: View>(items: Seq<T>) -> Seq<T::V> {
    items.map_values(|item: T| item@)
}

/// An ordered list with one more item, behind all items that do not stand after it.
pub open spec fn inserted<V: Ranked>(list: Seq<V>, item: V) -> Seq<V>
    decreases list.len(),
{
    if list.len() == 0 || V::rank(list.last(), item) <= 0 {
        list.push(item)
    } else {
        inserted::<V>(list.drop_last(), item).push(list.last())
    }
}

/// A list in order; items that stand together keep their order.
pub open spec fn sorted<V: Ranked>(list: Seq<V>) -> Seq<V>
    decreases list.len(),
{
    if list.len() == 0 {
        Seq::empty()
    } else {
        inserted::<V>(sorted::<V>(list.drop_last()), list.last())
    }
}

/// Whether no item stands after a later one.
pub open spec fn in_order<V: Ranked>(list: Seq<V>) -> bool {
    forall|i: int, j: int| 0 <= i <= j < list.len() ==> V::rank(#[trigger] list[i], #[trigger] list[j]) <= 0
}

pub(crate) proof fn lemma_inserted_in_order<V: Ranked>(list: Seq<V>, item: V)
    requires
        in_order::<V>(list),
    ensures
        in_order::<V>(inserted::<V>(list, item)),
        inserted::<V>(list, item).to_multiset() =~= list.to_multiset().insert(item),
        inserted::<V>(list, item).len() == list.len() + 1,
    decreases list.len(),
{
    broadcast use group_to_multiset_ensures;

    V::rank_flip(item, item);
    if list.len() == 0 || V::rank(list.last(), item) <= 0 {
        let result = list.push(item);
        assert forall|i: int, j: int| 0 <= i <= j < result.len() implies V::rank(
            #[trigger] result[i],
            #[trigger] result[j],
        ) <= 0 by {
            if j == list.len() && i < j {
                assert(V::rank(list[i], list[list.len() - 1]) <= 0);
                V::rank_transitive(list[i], list.last(), item);
            }
        }
    } else {
        let before = list.drop_last();
        assert(in_order::<V>(before));
        lemma_inserted_in_order::<V>(before, item);
        let middle = inserted::<V>(before, item);
        let result = middle.push(list.last());
        V::rank_flip(list.last(), item);
        V::rank_flip(list.last(), list.last());
        assert forall|i: int, j: int| 0 <= i <= j < result.len() implies V::rank(
            #[trigger] result[i],
            #[trigger] result[j],
        ) <= 0 by {
            if j == middle.len() && i < j {
                assert(middle.to_multiset().count(middle[i]) > 0);
                if middle[i] != item {
                    assert(before.to_multiset().count(middle[i]) > 0);
                    assert(before.contains(middle[i]));
                    let k = choose|k: int| 0 <= k < before.len() && before[k] == middle[i];
                    assert(list[k] == middle[i]);
                    assert(V::rank(list[k], list[list.len() - 1]) <= 0);
                }
            }
        }
        assert(list =~= before.push(list.last()));
    }
}

/// A sorted list is in order and holds the same items as before.
pub proof fn sorted_is_an_ordered_permutation<V: Ranked>(list: Seq<V>)
    ensures
        in_order::<V>(sorted::<V>(list)),
        sorted::<V>(list).to_multiset() =~= list.to_multiset(),
        sorted::<V>(list).len() == list.len(),
    decreases list.len(),
{
    broadcast use group_to_multiset_ensures;

    if list.len() > 0 {
        sorted_is_an_ordered_permutation::<V>(list.drop_last());
        lemma_inserted_in_order::<V>(sorted::<V>(list.drop_last()), list.last());
        assert(list =~= list.drop_last().push(list.last()));
    }
}

pub(crate) proof fn lemma_inserted_somewhere<V: Ranked>(list: Seq<V>, item: V)
    ensures
        exists|at: int| 0 <= at <= list.len() && inserted::<V>(list, item) == #[trigger] list.insert(at, item),
    decreases list.len(),
{
    if list.len() == 0 || V::rank(list.last(), item) <= 0 {
        assert(list.insert(list.len() as int, item) =~= list.push(item));
    } else {
        lemma_inserted_somewhere::<V>(list.drop_last(), item);
        let at = choose|at: int|
            0 <= at <= list.len() - 1 && inserted::<V>(list.drop_last(), item)
                == #[trigger] list.drop_last().insert(at, item);
        assert(list.drop_last().insert(at, item).push(list.last()) =~= list.insert(at, item));
    }
}

proof fn lemma_inserted_at<V: Ranked>(list: Seq<V>, item: V, at: int)
    requires
        0 <= at <= list.len(),
        at > 0 ==> V::rank(list[at - 1], item) <= 0,
        forall|i: int| at <= i < list.len() ==> V::rank(#[trigger] list[i], item) > 0,
    ensures
        inserted::<V>(list, item) == list.insert(at, item),
    decreases list.len(),
{
    if at == list.len() {
        assert(list.insert(at, item) =~= list.push(item));
    } else {
        lemma_inserted_at::<V>(list.drop_last(), item, at);
        assert(list.drop_last().insert(at, item).push(list.last()) =~= list.insert(at, item));
    }
}

/// Puts an item into an ordered list, behind all items that do not stand after it.
pub fn insert<T: Comparable>(list: &mut Vec<T>, item: T) where T::V: Ranked
    ensures
        views(final(list)@) == inserted::<T::V>(views(old(list)@), item@),
{
    let ghost before = views(list@);
    let mut at: usize = list.len();
    while at > 0 && list[at - 1].compare(&item) > 0
        invariant
            at <= list@.len(),
            list@ == old(list)@,
            before == views(list@),
            forall|i: int| at <= i < list@.len() ==> <T::V as Ranked>::rank(#[trigger] before[i], item@) > 0,
        decreases at,
    {
        at = at - 1;
    }
    proof {
        lemma_inserted_at::<T::V>(before, item@, at as int);
    }
    list.insert(at, item);
    assert(views(list@) =~= before.insert(at as int, item@));
}

/// Two ordered lists as one; of items that stand together those of the first list come first.
pub open spec fn merged<V: Ranked>(a: Seq<V>, b: Seq<V>) -> Seq<V>
    decreases a.len() + b.len(),
{
    if a.len() == 0 {
        b
    } else if b.len() == 0 {
        a
    } else if V::rank(a.last(), b.last()) <= 0 {
        merged::<V>(a, b.drop_last()).push(b.last())
    } else {
        merged::<V>(a.drop_last(), b).push(a.last())
    }
}

/// An item can as well be put into the second list before the lists are merged.
proof fn lemma_insert_then_merge<V: Ranked>(a: Seq<V>, b: Seq<V>, item: V)
    ensures
        inserted::<V>(merged::<V>(a, b), item) == merged::<V>(a, inserted::<V>(b, item)),
    decreases a.len() + b.len(),
{
    if a.len() > 0 {
        let last = a.last();
        let all = merged::<V>(a, b);
        let into_b = inserted::<V>(b, item);
        if b.len() == 0 {
            assert(into_b.drop_last() =~= b);
            if V::rank(last, item) > 0 {
                lemma_insert_then_merge::<V>(a.drop_last(), b, item);
                assert(merged::<V>(a.drop_last(), b) =~= a.drop_last());
            }
        } else {
            V::rank_flip(last, b.last());
            if V::rank(last, b.last()) <= 0 {
                assert(all.drop_last() =~= merged::<V>(a, b.drop_last()));
                if V::rank(b.last(), item) <= 0 {
                    V::rank_transitive(last, b.last(), item);
                    assert(into_b.drop_last() =~= b);
                } else {
                    lemma_insert_then_merge::<V>(a, b.drop_last(), item);
                    assert(into_b.drop_last() =~= inserted::<V>(b.drop_last(), item));
                }
            } else {
                assert(all.drop_last() =~= merged::<V>(a.drop_last(), b));
                if V::rank(last, item) <= 0 {
                    V::rank_transitive(b.last(), last, item);
                    assert(into_b.drop_last() =~= b);
                } else {
                    lemma_insert_then_merge::<V>(a.drop_last(), b, item);
                }
            }
        }
    }
}

/// Sorting the two parts of a list and merging them sorts the list.
pub proof fn merging_sorts<V: Ranked>(a: Seq<V>, b: Seq<V>)
    ensures
        sorted::<V>(a + b) == merged::<V>(sorted::<V>(a), sorted::<V>(b)),
    decreases b.len(),
{
    if b.len() == 0 {
        assert(a + b =~= a);
        assert(merged::<V>(sorted::<V>(a), sorted::<V>(b)) =~= sorted::<V>(a));
    } else {
        assert((a + b).drop_last() =~= a + b.drop_last());
        merging_sorts::<V>(a, b.drop_last());
        lemma_insert_then_merge::<V>(sorted::<V>(a), sorted::<V>(b.drop_last()), b.last());
    }
}

/// Merges two ordered lists.
fn merge<T: Comparable>(a: Vec<T>, b: Vec<T>) -> (r: Vec<T>) where T::V: Ranked
    ensures
        views(r@) == merged::<T::V>(views(a@), views(b@)),
{
    let ghost all = merged::<T::V>(views(a@), views(b@));
    let mut a = a;
    let mut b = b;
    let mut list: Vec<T> = Vec::new();
    assert(all =~= all + views(list@).reverse());
    while a.len() > 0 || b.len() > 0
        invariant
            all == merged::<T::V>(views(a@), views(b@)) + views(list@).reverse(),
        decreases a@.len() + b@.len(),
    {
        let ghost left = views(a@);
        let ghost right = views(b@);
        let ghost behind = views(list@);
        let from_b: bool = if a.len() == 0 {
            true
        } else if b.len() == 0 {
            false
        } else {
            a[a.len() - 1].compare(&b[b.len() - 1]) <= 0
        };
        let next = if from_b {
            b.pop()
        } else {
            a.pop()
        };
        if let Some(item) = next {
            list.push(item);
            assert(views(list@) =~= behind.push(item@));
            if from_b {
                assert(views(b@) =~= right.drop_last());
                assert(merged::<T::V>(left, right) =~= merged::<T::V>(left, right.drop_last()).push(item@));
            } else {
                assert(views(a@) =~= left.drop_last());
                assert(merged::<T::V>(left, right) =~= merged::<T::V>(left.drop_last(), right).push(item@));
            }
            assert(behind.push(item@).reverse() =~= seq![item@] + behind.reverse());
            assert(merged::<T::V>(left, right) + behind.reverse() =~= merged::<T::V>(views(a@), views(b@))
                + views(list@).reverse());
        }
    }
    let r = reversed(list);
    assert(views(r@) =~= views(list@).reverse());
    assert(all =~= views(r@));
    r
}

/// Sorts a list, in as many steps as its length times the logarithm of it.
pub fn sort<T: Comparable>(items: Vec<T>) -> (r: Vec<T>) where T::V: Ranked
    ensures
        views(r@) == sorted::<T::V>(views(items@)),
    decreases items@.len(),
{
    let ghost all = views(items@);
    let mut left = items;
    if left.len() < 2 {
        proof {
            reveal_with_fuel(sorted, 2);
            assert(views(left@) =~= sorted::<T::V>(all));
        }
        return left;
    }
    let half: usize = left.len() / 2;
    let right = left.split_off(half);
    proof {
        merging_sorts::<T::V>(views(left@), views(right@));
        assert(all =~= views(left@) + views(right@));
    }
    merge(sort(left), sort(right))
}

/// A list from its end to its start.
pub fn reversed<T>(items: Vec<T>) -> (r: Vec<T>)
    ensures
        r@ == items@.reverse(),
{
    let ghost all = items@;
    let mut rest = items;
    let mut list: Vec<T> = Vec::new();
    while rest.len() > 0
        invariant
            rest@ == all.take(rest@.len() as int),
            rest@.len() <= all.len(),
            list@ == all.skip(rest@.len() as int).reverse(),
        decreases rest@.len(),
    {
        let ghost left = rest@.len() - 1;
        match rest.pop() {
            Some(item) => {
                list.push(item);
                assert(rest@ =~= all.take(left));
                assert(list@ =~= all.skip(left).reverse());
            },
            None => {},
        }
    }
    assert(all.skip(0) =~= all);
    list
}

/// An item under a name.
pub struct Named<T> {
    pub name: String,
    pub item: T,
}

impl<T: View> View for Named<T> {
    type V = (Seq<char>, T::V);

    open spec fn view(&self) -> (Seq<char>, T::V) {
        (self.name@, self.item@)
    }
}

/// Named items stand in the byte order of their names.
impl<V> Ranked for (Seq<char>, V) {
    open spec fn rank(a: (Seq<char>, V), b: (Seq<char>, V)) -> int {
        text::rank_text(a.0, b.0)
    }

    proof fn rank_flip(a: (Seq<char>, V), b: (Seq<char>, V)) {
        text::lemma_rank_text_flip(a.0, b.0);
    }

    proof fn rank_transitive(a: (Seq<char>, V), b: (Seq<char>, V), c: (Seq<char>, V)) {
        text::lemma_rank_text_transitive(a.0, b.0, c.0);
    }
}

impl<T: View> Comparable for Named<T> {
    fn compare(&self, other: &Named<T>) -> (r: i8) {
        text::compare_text(self.name.as_str(), other.name.as_str())
    }
}

/// The first name that the next item bears too.
pub open spec fn first_repeated<V>(list: Seq<(Seq<char>, V)>) -> Option<Seq<char>>
    decreases list.len(),
{
    if list.len() < 2 {
        None
    } else if list[0].0 == list[1].0 {
        Some(list[1].0)
    } else {
        first_repeated(list.drop_first())
    }
}

/// In an ordered list a name is borne twice exactly when some item and the next one share it.
pub proof fn repeated_names_are_neighbours<V>(list: Seq<(Seq<char>, V)>)
    requires
        in_order(list),
    ensures
        first_repeated(list) is None <==> forall|i: int, j: int|
            0 <= i < j < list.len() ==> #[trigger] list[i].0 != #[trigger] list[j].0,
    decreases list.len(),
{
    if list.len() >= 2 && list[0].0 != list[1].0 {
        let rest = list.drop_first();
        assert forall|i: int, j: int| 0 <= i <= j < rest.len() implies <(
            Seq<char>,
            V,
        ) as Ranked>::rank(#[trigger] rest[i], #[trigger] rest[j]) <= 0 by {
            assert(rest[i] == list[i + 1] && rest[j] == list[j + 1]);
        }
        repeated_names_are_neighbours(rest);
        if first_repeated(list) is None {
            assert forall|i: int, j: int| 0 <= i < j < list.len() implies #[trigger] list[i].0
                != #[trigger] list[j].0 by {
                if i > 0 {
                    assert(rest[i - 1].0 != rest[j - 1].0);
                } else {
                    assert(<(Seq<char>, V) as Ranked>::rank(list[0], list[1]) <= 0);
                    assert(<(Seq<char>, V) as Ranked>::rank(list[1], list[j]) <= 0);
                    text::lemma_rank_text_flip(list[0].0, list[1].0);
                    text::lemma_rank_text_transitive(list[0].0, list[1].0, list[j].0);
                    text::lemma_rank_text_flip(list[0].0, list[j].0);
                }
            }
        } else if forall|i: int, j: int|
            0 <= i < j < list.len() ==> #[trigger] list[i].0 != #[trigger] list[j].0 {
            assert forall|i: int, j: int| 0 <= i < j < rest.len() implies #[trigger] rest[i].0
                != #[trigger] rest[j].0 by {
                assert(list[i + 1].0 != list[j + 1].0);
            }
        }
    }
}

/// Whether no two items stand together.
pub open spec fn stand_apart<V: Ranked>(list: Seq<V>) -> bool {
    forall|i: int, j: int| 0 <= i < j < list.len() ==> V::rank(#[trigger] list[i], #[trigger] list[j]) != 0
}

/// Of items no two of which stand together, those that stand together are the same.
proof fn lemma_standing_together<V: Ranked>(items: Seq<V>, x: V, y: V)
    requires
        stand_apart(items),
        items.contains(x),
        items.contains(y),
        V::rank(x, y) == 0,
    ensures
        x == y,
{
    let i = choose|i: int| 0 <= i < items.len() && items[i] == x;
    let j = choose|j: int| 0 <= j < items.len() && items[j] == y;
    V::rank_flip(x, y);
    if i < j {
        assert(V::rank(items[i], items[j]) != 0);
    } else if j < i {
        assert(V::rank(items[j], items[i]) != 0);
    }
}

/// Items no two of which stand together come out of a sort in one order, whatever order they went in.
pub proof fn distinct_items_sort_alike<V: Ranked>(a: Seq<V>, b: Seq<V>)
    requires
        a.to_multiset() =~= b.to_multiset(),
        stand_apart(a),
    ensures
        sorted(a) == sorted(b),
{
    broadcast use group_to_multiset_ensures;

    sorted_is_an_ordered_permutation(a);
    sorted_is_an_ordered_permutation(b);
    permutations_sort_alike(a, b);
    assert forall|i: int| 0 <= i < sorted(a).len() implies #[trigger] sorted(a)[i] == sorted(b)[i] by {
        assert(sorted(a).to_multiset().count(sorted(a)[i]) > 0);
        assert(sorted(b).to_multiset().count(sorted(b)[i]) > 0);
        lemma_standing_together(a, sorted(a)[i], sorted(b)[i]);
    }
    assert(sorted(a) =~= sorted(b));
}

/// Items of different names come out of a sort in one order, whatever order they went in.
pub proof fn distinct_names_sort_alike<V>(a: Seq<(Seq<char>, V)>, b: Seq<(Seq<char>, V)>)
    requires
        a.to_multiset() =~= b.to_multiset(),
        first_repeated(sorted(a)) is None,
    ensures
        sorted(a) == sorted(b),
{
    broadcast use group_to_multiset_ensures;

    sorted_is_an_ordered_permutation(a);
    sorted_is_an_ordered_permutation(b);
    repeated_names_are_neighbours(sorted(a));
    permutations_sort_alike(a, b);
    assert forall|i: int, j: int| 0 <= i < j < sorted(a).len() implies <(Seq<char>, V) as Ranked>::rank(
        #[trigger] sorted(a)[i],
        #[trigger] sorted(a)[j],
    ) != 0 by {
        text::lemma_rank_text_flip(sorted(a)[i].0, sorted(a)[j].0);
    }
    assert forall|i: int| 0 <= i < sorted(a).len() implies #[trigger] sorted(a)[i] == sorted(b)[i] by {
        assert(sorted(b).to_multiset().count(sorted(b)[i]) > 0);
        lemma_standing_together(sorted(a), sorted(a)[i], sorted(b)[i]);
    }
    assert(sorted(a) =~= sorted(b));
}

/// What the items of a list give, one after the other: nothing, something, or the error that ends it.
pub open spec fn gathered<A, X, E>(items: Seq<A>, give: spec_fn(A) -> Result<Option<X>, E>) -> Result<
    Seq<X>,
    E,
>
    decreases items.len(),
{
    if items.len() == 0 {
        Ok(Seq::empty())
    } else {
        match gathered(items.drop_last(), give) {
            Err(error) => Err(error),
            Ok(list) => match give(items.last()) {
                Err(error) => Err(error),
                Ok(None) => Ok(list),
                Ok(Some(given)) => Ok(list.push(given)),
            },
        }
    }
}

/// An error among the first items is the error of the list.
pub proof fn lemma_gathered_error<A, X, E>(
    items: Seq<A>,
    give: spec_fn(A) -> Result<Option<X>, E>,
    n: int,
)
    requires
        0 <= n <= items.len(),
        gathered(items.take(n), give) is Err,
    ensures
        gathered(items, give) == gathered(items.take(n), give),
    decreases items.len() - n,
{
    if n == items.len() {
        assert(items.take(n) =~= items);
    } else {
        assert(items.take(n + 1).drop_last() =~= items.take(n));
        lemma_gathered_error(items, give, n + 1);
    }
}

/// What one item adds to what the others give.
pub open spec fn given<X, E>(result: Result<Option<X>, E>) -> Multiset<X> {
    match result {
        Ok(Some(x)) => Multiset::empty().insert(x),
        _ => Multiset::empty(),
    }
}

proof fn lemma_gathered_remove<A, X, E>(
    items: Seq<A>,
    give: spec_fn(A) -> Result<Option<X>, E>,
    k: int,
)
    requires
        0 <= k < items.len(),
    ensures
        gathered(items, give) is Ok <==> gathered(items.remove(k), give) is Ok && give(items[k]) is Ok,
        gathered(items, give) is Ok ==> gathered(items, give)->Ok_0.to_multiset() =~= gathered(
            items.remove(k),
            give,
        )->Ok_0.to_multiset().add(given(give(items[k]))),
    decreases items.len(),
{
    broadcast use group_to_multiset_ensures;

    if k == items.len() - 1 {
        assert(items.remove(k) =~= items.drop_last());
    } else {
        assert(items.remove(k).drop_last() =~= items.drop_last().remove(k));
        assert(items.remove(k).last() == items.last());
        lemma_gathered_remove(items.drop_last(), give, k);
    }
}

/// Where every item gives something, all of it comes, in the order of the items.
pub proof fn gathered_keeps_all<A, X, E>(items: Seq<A>, give: spec_fn(A) -> Result<Option<X>, E>)
    requires
        forall|i: int|
            0 <= i < items.len() ==> (#[trigger] give(items[i])) is Ok && give(items[i])->Ok_0 is Some,
    ensures
        gathered(items, give) is Ok,
        gathered(items, give)->Ok_0.len() == items.len(),
        forall|i: int|
            0 <= i < items.len() ==> #[trigger] gathered(items, give)->Ok_0[i] == give(items[i])->Ok_0->0,
    decreases items.len(),
{
    if items.len() > 0 {
        let before = items.drop_last();
        assert forall|i: int| 0 <= i < before.len() implies (#[trigger] give(before[i])) is Ok && give(
            before[i],
        )->Ok_0 is Some by {
            assert(give(items[i]) is Ok);
        }
        gathered_keeps_all(before, give);
        assert(give(items[items.len() - 1]) is Ok);
        assert forall|i: int| 0 <= i < items.len() implies #[trigger] gathered(items, give)->Ok_0[i] == give(
            items[i],
        )->Ok_0->0 by {
            if i < before.len() {
                assert(gathered(before, give)->Ok_0[i] == give(before[i])->Ok_0->0);
            }
        }
    }
}

/// What a list gives does not depend on the order of its items, but for the order in which it comes.
pub proof fn gathered_permutes<A, X, E>(
    a: Seq<A>,
    b: Seq<A>,
    give: spec_fn(A) -> Result<Option<X>, E>,
)
    requires
        a.to_multiset() =~= b.to_multiset(),
    ensures
        gathered(a, give) is Ok <==> gathered(b, give) is Ok,
        gathered(a, give) is Ok ==> gathered(a, give)->Ok_0.to_multiset() =~= gathered(
            b,
            give,
        )->Ok_0.to_multiset(),
    decreases b.len(),
{
    broadcast use group_to_multiset_ensures;

    assert(a.len() == a.to_multiset().len());
    assert(b.len() == b.to_multiset().len());
    if b.len() == 0 {
        assert(a =~= b);
    } else {
        let item = b.last();
        assert(b.to_multiset().count(b[b.len() - 1]) > 0);
        assert(a.contains(item));
        let k = choose|k: int| 0 <= k < a.len() && a[k] == item;
        assert(b.remove(b.len() - 1) =~= b.drop_last());
        assert(a.remove(k).to_multiset() =~= a.to_multiset().remove(item));
        assert(b.remove(b.len() - 1).to_multiset() =~= b.to_multiset().remove(item));
        gathered_permutes(a.remove(k), b.drop_last(), give);
        lemma_gathered_remove(a, give, k);
        lemma_gathered_remove(b, give, b.len() - 1);
    }
}

/// How many items have a property.
pub open spec fn tally<V>(list: Seq<V>, fits: spec_fn(V) -> bool) -> nat
    decreases list.len(),
{
    if list.len() == 0 {
        0
    } else {
        tally(list.drop_last(), fits) + (if fits(list.last()) {
            1nat
        } else {
            0nat
        })
    }
}

proof fn lemma_tally_remove<V>(list: Seq<V>, fits: spec_fn(V) -> bool, k: int)
    requires
        0 <= k < list.len(),
    ensures
        tally(list, fits) == tally(list.remove(k), fits) + (if fits(list[k]) {
            1nat
        } else {
            0nat
        }),
    decreases list.len(),
{
    if k == list.len() - 1 {
        assert(list.remove(k) =~= list.drop_last());
    } else {
        assert(list.remove(k).drop_last() =~= list.drop_last().remove(k));
        assert(list.remove(k).last() == list.last());
        lemma_tally_remove(list.drop_last(), fits, k);
    }
}

proof fn lemma_tally_permutes<V>(a: Seq<V>, b: Seq<V>, fits: spec_fn(V) -> bool)
    requires
        a.to_multiset() =~= b.to_multiset(),
    ensures
        tally(a, fits) == tally(b, fits),
    decreases b.len(),
{
    broadcast use group_to_multiset_ensures;

    assert(a.len() == a.to_multiset().len());
    assert(b.len() == b.to_multiset().len());
    if b.len() > 0 {
        let item = b.last();
        assert(b.to_multiset().count(b[b.len() - 1]) > 0);
        assert(a.contains(item));
        let k = choose|k: int| 0 <= k < a.len() && a[k] == item;
        assert(b.remove(b.len() - 1) =~= b.drop_last());
        assert(a.remove(k).to_multiset() =~= a.to_multiset().remove(item));
        assert(b.remove(b.len() - 1).to_multiset() =~= b.to_multiset().remove(item));
        lemma_tally_permutes(a.remove(k), b.drop_last(), fits);
        lemma_tally_remove(a, fits, k);
    }
}

proof fn lemma_tally_split<V>(list: Seq<V>, fits: spec_fn(V) -> bool, n: int)
    requires
        0 <= n <= list.len(),
    ensures
        (forall|j: int| 0 <= j < n ==> fits(#[trigger] list[j])) ==> tally(list, fits) >= n,
        (forall|j: int| n <= j < list.len() ==> !fits(#[trigger] list[j])) ==> tally(list, fits) <= n,
        tally(list, fits) <= list.len(),
    decreases list.len(),
{
    if list.len() > 0 {
        let rest = list.drop_last();
        let m = if n < list.len() {
            n
        } else {
            n - 1
        };
        lemma_tally_split(rest, fits, m);
        if forall|j: int| 0 <= j < n ==> fits(#[trigger] list[j]) {
            assert forall|j: int| 0 <= j < m implies fits(#[trigger] rest[j]) by {
                assert(fits(list[j]));
            }
            if n == list.len() {
                assert(fits(list[list.len() - 1]));
            }
        }
        if forall|j: int| n <= j < list.len() ==> !fits(#[trigger] list[j]) {
            assert forall|j: int| m <= j < rest.len() implies !fits(#[trigger] rest[j]) by {
                assert(!fits(list[j]));
            }
            if n < list.len() {
                assert(!fits(list[list.len() - 1]));
            }
        }
    }
}

proof fn lemma_not_before<V: Ranked>(a: Seq<V>, b: Seq<V>, i: int)
    requires
        in_order(a),
        in_order(b),
        a.to_multiset() =~= b.to_multiset(),
        0 <= i < a.len(),
        i < b.len(),
    ensures
        V::rank(a[i], b[i]) >= 0,
{
    if V::rank(a[i], b[i]) < 0 {
        let pivot = a[i];
        let fits = |item: V| V::rank(item, pivot) <= 0;
        lemma_tally_permutes(a, b, fits);
        assert forall|j: int| 0 <= j < i + 1 implies fits(#[trigger] a[j]) by {
            assert(V::rank(a[j], a[i]) <= 0);
        }
        lemma_tally_split(a, fits, i + 1);
        assert forall|j: int| i <= j < b.len() implies !fits(#[trigger] b[j]) by {
            assert(V::rank(b[i], b[j]) <= 0);
            if fits(b[j]) {
                V::rank_transitive(b[i], b[j], pivot);
                V::rank_flip(b[i], pivot);
            }
        }
        lemma_tally_split(b, fits, i);
    }
}

/// Lists of the same items sort alike: at every position stand items that stand together.
pub proof fn permutations_sort_alike<V: Ranked>(a: Seq<V>, b: Seq<V>)
    requires
        a.to_multiset() =~= b.to_multiset(),
    ensures
        sorted(a).len() == sorted(b).len(),
        forall|i: int| 0 <= i < sorted(a).len() ==> V::rank(#[trigger] sorted(a)[i], sorted(b)[i]) == 0,
{
    broadcast use group_to_multiset_ensures;

    sorted_is_an_ordered_permutation(a);
    sorted_is_an_ordered_permutation(b);
    assert(sorted(a).len() == sorted(a).to_multiset().len());
    assert(sorted(b).len() == sorted(b).to_multiset().len());
    assert forall|i: int| 0 <= i < sorted(a).len() implies V::rank(
        #[trigger] sorted(a)[i],
        sorted(b)[i],
    ) == 0 by {
        lemma_not_before(sorted(a), sorted(b), i);
        lemma_not_before(sorted(b), sorted(a), i);
        V::rank_flip(sorted(a)[i], sorted(b)[i]);
    }
}

/// The position of the first item whose predecessor bears the same name.
pub fn find_repeated<T: View>(list: &Vec<Named<T>>) -> (r: Option<usize>)
    ensures
        match r {
            Some(at) => at < list@.len() && first_repeated(views(list@)) == Some(list@[at as int].name@),
            None => first_repeated(views(list@)) is None,
        },
{
    let ghost all = views(list@);
    if list.len() < 2 {
        return None;
    }
    let mut at: usize = 1;
    assert(all.skip(0) =~= all);
    while at < list.len()
        invariant
            1 <= at <= list@.len(),
            all == views(list@),
            first_repeated(all) == first_repeated(all.skip(at - 1)),
        decreases list@.len() - at,
    {
        assert(all.skip(at - 1)[0] == list@[at - 1]@ && all.skip(at - 1)[1] == list@[at as int]@);
        if text::same_text(list[at - 1].name.as_str(), list[at].name.as_str()) {
            return Some(at);
        }
        assert(all.skip(at - 1).drop_first() =~= all.skip(at as int));
        at = at + 1;
    }
    None
}

} // verus!
