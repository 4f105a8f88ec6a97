//! The buckets of a metric: one cell for every attribute set that was recorded.

use crate::atomic;
use crate::atomic::{Amount, IsInitial, Measure, Record, Scalar};
use crate::attr_map;
use crate::attr_map::{AttrMap, Entry};
use crate::model;
use crate::model::KeyValue;
use crate::order;
use std::marker::PhantomData;
use std::sync::Arc;
use vstd::prelude::*;

verus! {

/// The cells of a metric by attribute set. What is recorded without attributes has a cell of its own,
/// which counts as recorded once something was recorded in it.
pub struct BucketMap<T: Measure, A: Record<T> = <T as Measure>::Type> {
    no_attr: A,
    touched: bool,
    buckets: AttrMap<A>,
    measure: PhantomData<T>,
}

/// An attribute set with the state of its cell.
pub type SeriesView<S> = (Seq<model::KeyValueView>, S);

/// The states of the cells of a metric.
#[verifier::ext_equal]
pub ghost struct BucketsView<S> {
    pub no_attr: S,
    pub touched: bool,
    pub series: Seq<SeriesView<S>>,
}

/// Values under attribute sets, by what they hold.
pub open spec fn states<A: View>(list: Seq<(Seq<model::KeyValueView>, A)>) -> Seq<SeriesView<A::V>> {
    list.map_values(|entry: (Seq<model::KeyValueView>, A)| (entry.0, entry.1@))
}

impl<T: Measure, A: Record<T>> View for BucketMap<T, A> {
    type V = BucketsView<A::V>;

    closed spec fn view(&self) -> BucketsView<A::V> {
        BucketsView { no_attr: self.no_attr@, touched: self.touched, series: states(self.buckets@) }
    }
}

/// An attribute set in the order of its attributes: the form under which it is kept.
pub open spec fn canonical(attrs: Seq<model::KeyValueView>) -> Seq<model::KeyValueView> {
    order::sorted(attrs)
}

/// The position of the cell of an attribute set, where it has one.
pub open spec fn cell_of<S>(buckets: BucketsView<S>, attrs: Seq<model::KeyValueView>) -> Option<int> {
    attr_map::position_of(buckets.series, canonical(attrs))
}

/// The state of the cell of an attribute set, where it has one.
pub open spec fn state_of<S>(buckets: BucketsView<S>, attrs: Seq<model::KeyValueView>) -> Option<S> {
    if attrs.len() == 0 {
        Some(buckets.no_attr)
    } else {
        match cell_of(buckets, attrs) {
            Some(i) => Some(buckets.series[i].1),
            None => None,
        }
    }
}

/// The cells after that of an attribute set has changed to `state`.
pub open spec fn with_state<S>(
    buckets: BucketsView<S>,
    attrs: Seq<model::KeyValueView>,
    state: S,
) -> BucketsView<S> {
    if attrs.len() == 0 {
        BucketsView { no_attr: state, touched: true, series: buckets.series }
    } else {
        BucketsView {
            series: match cell_of(buckets, attrs) {
                Some(i) => buckets.series.update(i, (buckets.series[i].0, state)),
                None => buckets.series.push((canonical(attrs), state)),
            },
            ..buckets
        }
    }
}

/// The state that recording for an attribute set starts from: that of its cell, or that of a new one.
pub open spec fn start_state<T, A: Record<T>>(
    buckets: BucketsView<A::V>,
    attrs: Seq<model::KeyValueView>,
) -> A::V {
    match state_of(buckets, attrs) {
        Some(state) => state,
        None => A::cleared(buckets.no_attr),
    }
}

/// The cells that something was recorded in, with their attribute sets.
pub open spec fn recorded<S>(buckets: BucketsView<S>) -> Seq<SeriesView<S>> {
    if buckets.touched {
        buckets.series.push((Seq::empty(), buckets.no_attr))
    } else {
        buckets.series
    }
}

/// What a look at the cells gives.
pub open spec fn readings<T, A: Record<T>>(buckets: BucketsView<A::V>) -> Seq<
    SeriesView<<A::Snapshot as View>::V>,
> {
    recorded(buckets).map_values(|entry: SeriesView<A::V>| (entry.0, A::reading(entry.1)))
}

/// Cells in which nothing is recorded.
pub open spec fn emptied<T, A: Record<T>>(buckets: BucketsView<A::V>) -> BucketsView<A::V> {
    BucketsView { no_attr: A::cleared(buckets.no_attr), touched: false, series: Seq::empty() }
}

/// The entries that are to be kept.
pub open spec fn kept<S>(series: Seq<SeriesView<S>>, verdicts: Seq<bool>) -> Seq<SeriesView<S>>
    decreases series.len(),
{
    if series.len() == 0 {
        Seq::empty()
    } else if verdicts.last() {
        kept(series.drop_last(), verdicts.drop_last()).push(series.last())
    } else {
        kept(series.drop_last(), verdicts.drop_last())
    }
}

/// Whether `verdict` is what `keep` says of a cell.
pub open spec fn judged<T, A: Record<T>, F: Fn(&Vec<KeyValue>, &A) -> bool>(
    keep: F,
    series: SeriesView<A::V>,
    verdict: bool,
) -> bool {
    exists|attrs: &Vec<KeyValue>, bucket: &A| #[trigger]
        keep.ensures((attrs, bucket), verdict) && model::attrs_view(attrs@) == series.0 && bucket@ == series.1
}

proof fn lemma_kept_are_members<S>(series: Seq<SeriesView<S>>, verdicts: Seq<bool>, k: int)
    requires
        0 <= k < kept(series, verdicts).len(),
    ensures
        exists|j: int| 0 <= j < series.len() && #[trigger] series[j] == kept(series, verdicts)[k],
    decreases series.len(),
{
    if series.len() > 0 {
        let rest = kept(series.drop_last(), verdicts.drop_last());
        if k < rest.len() {
            lemma_kept_are_members(series.drop_last(), verdicts.drop_last(), k);
            let j = choose|j: int| 0 <= j < series.drop_last().len() && #[trigger] series.drop_last()[j]
                == rest[k];
            assert(series[j] == rest[k]);
        } else {
            assert(series[series.len() - 1] == kept(series, verdicts)[k]);
        }
    }
}

fn sorted_attrs(attrs: &[KeyValue]) -> (r: Vec<KeyValue>)
    ensures
        model::attrs_view(r@) == canonical(model::attrs_view(attrs@)),
{
    let mut copied: Vec<KeyValue> = Vec::new();
    let mut i: usize = 0;
    while i < attrs.len()
        invariant
            i <= attrs@.len(),
            copied@.len() == i,
            forall|j: int| 0 <= j < i ==> (#[trigger] copied@[j])@ == attrs@[j]@,
        decreases attrs@.len() - i,
    {
        copied.push(attrs[i].copy());
        i = i + 1;
    }
    let sorted = order::sort(copied);
    assert(order::views(copied@) =~= model::attrs_view(attrs@));
    assert(model::attrs_view(sorted@) =~= order::views(sorted@));
    sorted
}

impl<T: Measure, A: Record<T>> BucketMap<T, A> {
    /// No attribute set has two cells, the one of no attributes has none among the others, and every
    /// cell is valid.
    pub closed spec fn wf(&self) -> bool {
        &&& self.buckets.wf()
        &&& A::valid(self.no_attr@)
        &&& forall|i: int| 0 <= i < self.buckets@.len() ==> A::valid((#[trigger] self.buckets@[i]).1@)
        &&& forall|i: int| 0 <= i < self.buckets@.len() ==> (#[trigger] self.buckets@[i]).0.len() > 0
    }

    /// No attribute set has two cells.
    pub proof fn keys_differ(&self)
        requires
            self.wf(),
        ensures
            attr_map::keys_are_distinct(self@.series),
            attr_map::keys_are_distinct(self@.series.push((Seq::empty(), self@.no_attr))),
            attr_map::keys_are_distinct(recorded(self@)),
    {
        self.buckets.keys_differ();
        let all = self@.series.push((Seq::empty(), self@.no_attr));
        assert forall|i: int, j: int| 0 <= i < j < all.len() implies model::rank_attrs(
            #[trigger] all[i].0,
            #[trigger] all[j].0,
        ) != 0 by {
            assert(self.buckets@[i].0 == self@.series[i].0);
            if j < self@.series.len() {
                assert(self.buckets@[j].0 == self@.series[j].0);
            } else {
                assert(all[j].0.len() == 0);
            }
        }
        assert forall|i: int, j: int| 0 <= i < j < self@.series.len() implies model::rank_attrs(
            #[trigger] self@.series[i].0,
            #[trigger] self@.series[j].0,
        ) != 0 by {
            assert(model::rank_attrs(all[i].0, all[j].0) != 0);
        }
    }

    /// Buckets that start from the state of `cell`, which nothing was recorded in.
    pub fn with_storage(cell: A) -> (r: BucketMap<T, A>)
        requires
            A::valid(cell@),
        ensures
            r.wf(),
            r@ == (BucketsView { no_attr: cell@, touched: false, series: Seq::<SeriesView<A::V>>::empty() }),
    {
        let r = BucketMap { no_attr: cell, touched: false, buckets: AttrMap::new(), measure: PhantomData };
        assert(r@.series =~= Seq::<SeriesView<A::V>>::empty());
        r
    }

    /// How many attribute sets have a cell.
    pub fn len(&self) -> (r: usize)
        ensures
            r == self@.series.len(),
    {
        self.buckets.len()
    }

    /// The position of the cell of an attribute set.
    fn find(&self, sorted: &Vec<KeyValue>) -> (r: Option<usize>)
        requires
            self.wf(),
        ensures
            match r {
                Some(i) => attr_map::position_of(self@.series, model::attrs_view(sorted@)) == Some(i as int) && i
                    < self@.series.len(),
                None => attr_map::position_of(self@.series, model::attrs_view(sorted@)) is None,
            },
            match r {
                Some(i) => attr_map::position_of(self.buckets@, model::attrs_view(sorted@)) == Some(i as int),
                None => attr_map::position_of(self.buckets@, model::attrs_view(sorted@)) is None,
            },
    {
        proof {
            attr_map::lemma_position_by_keys(self.buckets@, self@.series, model::attrs_view(sorted@));
        }
        self.buckets.find(sorted)
    }

    /// The cell of an attribute set, where it has one.
    pub fn get_bucket(&self, attrs: &[KeyValue]) -> (r: Option<&A>)
        requires
            self.wf(),
        ensures
            match r {
                Some(bucket) => state_of(self@, model::attrs_view(attrs@)) == Some(bucket@) && A::valid(bucket@),
                None => state_of(self@, model::attrs_view(attrs@)) is None,
            },
    {
        if attrs.len() == 0 {
            return Some(&self.no_attr);
        }
        let sorted = sorted_attrs(attrs);
        match self.find(&sorted) {
            Some(i) => Some(self.buckets.value_at(i)),
            None => None,
        }
    }

    /// The cell of an attribute set, to be changed in its place; a new one where it has none. What is
    /// recorded in it counts as recorded.
    pub fn bucket_mut(&mut self, attrs: &[KeyValue]) -> (r: &mut A)
        requires
            old(self).wf(),
        ensures
            A::valid((*r)@),
            (*r)@ == start_state::<T, A>(old(self)@, model::attrs_view(attrs@)),
            A::valid((*final(r))@) ==> final(self).wf(),
            final(self)@ == with_state(old(self)@, model::attrs_view(attrs@), (*final(r))@),
    {
        let ghost key = model::attrs_view(attrs@);
        if attrs.len() == 0 {
            self.touched = true;
            return &mut self.no_attr;
        }
        let sorted = sorted_attrs(attrs);
        let at: usize = match self.find(&sorted) {
            Some(i) => i,
            None => {
                let i: usize = self.buckets.len();
                let cell = self.no_attr.fresh();
                let ghost before = self.buckets@;
                self.buckets.push(Arc::new(sorted), cell);
                assert(states(self.buckets@) =~= states(before).push((canonical(key), cell@)));
                i
            },
        };
        let ghost ready = self.buckets@;
        proof {
            assert forall|cell: A| states(
                #[trigger] ready.update(at as int, (ready[at as int].0, cell)),
            ) =~= states(ready).update(at as int, (ready[at as int].0, cell@)) by {}
        }
        self.buckets.value_at_mut(at)
    }

    pub fn add(&mut self, value: T, attrs: &[KeyValue])
        requires
            old(self).wf(),
        ensures
            final(self).wf(),
            final(self)@ == with_state(
                old(self)@,
                model::attrs_view(attrs@),
                A::added(start_state::<T, A>(old(self)@, model::attrs_view(attrs@)), value),
            ),
    {
        self.bucket_mut(attrs).add(value);
    }

    pub fn sub(&mut self, value: T, attrs: &[KeyValue])
        requires
            old(self).wf(),
        ensures
            final(self).wf(),
            final(self)@ == with_state(
                old(self)@,
                model::attrs_view(attrs@),
                A::subtracted(start_state::<T, A>(old(self)@, model::attrs_view(attrs@)), value),
            ),
    {
        self.bucket_mut(attrs).sub(value);
    }

    /// Takes what the cell of an attribute set holds out, where it has one; the cell begins anew.
    pub fn take_bucket(&mut self, attrs: &[KeyValue]) -> (r: Option<A::Snapshot>)
        requires
            old(self).wf(),
        ensures
            final(self).wf(),
            match state_of(old(self)@, model::attrs_view(attrs@)) {
                Some(state) => r is Some && r->0@ == A::reading(state) && final(self)@ == (BucketsView {
                    touched: old(self)@.touched,
                    ..with_state(old(self)@, model::attrs_view(attrs@), A::cleared(state))
                }),
                None => r is None && final(self)@ == old(self)@,
            },
    {
        if self.get_bucket(attrs).is_none() {
            return None;
        }
        let touched = self.touched;
        let bucket = self.bucket_mut(attrs);
        let current = bucket.current();
        bucket.clear();
        self.touched = touched;
        Some(current)
    }

    /// Drops every cell but the one without attributes, and clears that one.
    pub fn clear(&mut self)
        requires
            old(self).wf(),
        ensures
            final(self).wf(),
            final(self)@ == emptied::<T, A>(old(self)@),
    {
        self.no_attr.clear();
        self.touched = false;
        let _ = self.buckets.take();
        assert(self@.series =~= Seq::<SeriesView<A::V>>::empty());
    }

    /// Takes every cell out, and what the one without attributes holds, where it holds something.
    pub fn take(&mut self) -> (r: (Vec<Entry<A>>, Option<A::Snapshot>))
        requires
            old(self).wf(),
        ensures
            final(self).wf(),
            final(self)@ == emptied::<T, A>(old(self)@),
            states(attr_map::entries_view(r.0@)) == old(self)@.series,
            forall|i: int| 0 <= i < r.0@.len() ==> A::valid((#[trigger] r.0@[i]).value@),
            match r.1 {
                Some(reading) => reading@ == A::reading(old(self)@.no_attr) && !<A::Snapshot as IsInitial>::initial(
                    reading@,
                ),
                None => <A::Snapshot as IsInitial>::initial(A::reading(old(self)@.no_attr)),
            },
    {
        let current = self.no_attr.current();
        let ghost listed = self.buckets@;
        self.no_attr.clear();
        self.touched = false;
        let entries = self.buckets.take();
        assert(self@.series =~= Seq::<SeriesView<A::V>>::empty());
        assert forall|i: int| 0 <= i < entries@.len() implies A::valid((#[trigger] entries@[i]).value@) by {
            assert(listed[i] == attr_map::entries_view(entries@)[i]);
        }
        if current.is_initial() {
            (entries, None)
        } else {
            (entries, Some(current))
        }
    }

    /// Looks at every cell that something was recorded in.
    pub fn readings(&self) -> (r: Vec<Entry<A::Snapshot>>)
        requires
            self.wf(),
        ensures
            states(attr_map::entries_view(r@)) == readings::<T, A>(self@),
    {
        let ghost all = readings::<T, A>(self@);
        let mut out: Vec<Entry<A::Snapshot>> = Vec::new();
        let mut i: usize = 0;
        assert(states(attr_map::entries_view(out@)) =~= all.take(0));
        while i < self.buckets.len()
            invariant
                self.wf(),
                i <= self.buckets@.len(),
                all == readings::<T, A>(self@),
                states(attr_map::entries_view(out@)) == all.take(i as int),
            decreases self.buckets@.len() - i,
        {
            let ghost before = states(attr_map::entries_view(out@));
            assert(A::valid(self.buckets@[i as int].1@));
            let value = self.buckets.value_at(i).current();
            let attrs = model::share(self.buckets.attrs_at(i));
            out.push(Entry { attrs, value });
            proof {
                let added = (model::attrs_view(attrs@), value@);
                assert(added == all[i as int]);
                assert(states(attr_map::entries_view(out@)) =~= before.push(added));
                assert(all.take(i + 1) =~= all.take(i as int).push(added));
            }
            i = i + 1;
        }
        if self.touched {
            let ghost before = states(attr_map::entries_view(out@));
            let value = self.no_attr.current();
            let attrs: Arc<Vec<KeyValue>> = Arc::new(Vec::new());
            out.push(Entry { attrs, value });
            proof {
                let added = (model::attrs_view(attrs@), value@);
                assert(model::attrs_view(attrs@) =~= Seq::<model::KeyValueView>::empty());
                assert(states(attr_map::entries_view(out@)) =~= before.push(added));
                assert(all =~= all.take(i as int).push(added));
            }
        } else {
            assert(all.take(i as int) =~= all);
        }
        out
    }

    /// Visits every cell with attributes, and drops those for which `keep` does not hold.
    pub fn visit_bucket<F: Fn(&Vec<KeyValue>, &A) -> bool>(&mut self, keep: F)
        requires
            old(self).wf(),
            forall|attrs: &Vec<KeyValue>, bucket: &A| keep.requires((attrs, bucket)),
        ensures
            final(self).wf(),
            final(self)@.no_attr == old(self)@.no_attr,
            final(self)@.touched == old(self)@.touched,
            exists|verdicts: Seq<bool>|
                {
                    &&& verdicts.len() == old(self)@.series.len()
                    &&& forall|i: int|
                        0 <= i < verdicts.len() ==> judged::<T, A, F>(
                            keep,
                            old(self)@.series[i],
                            #[trigger] verdicts[i],
                        )
                    &&& final(self)@.series == #[trigger] kept(old(self)@.series, verdicts)
                },
    {
        let ghost all = self@.series;
        let ghost listed = self.buckets@;
        let entries = self.buckets.take();
        let mut rest = order::reversed(entries);
        let ghost mut verdicts: Seq<bool> = Seq::empty();
        assert(states(self.buckets@) =~= kept(all.take(0), verdicts));
        while rest.len() > 0
            invariant
                self.wf(),
                self.no_attr@ == old(self)@.no_attr,
                self.touched == old(self)@.touched,
                rest@.len() + verdicts.len() == all.len(),
                all == states(listed),
                all == old(self)@.series,
                attr_map::keys_are_distinct(listed),
                forall|i: int| 0 <= i < listed.len() ==> A::valid((#[trigger] listed[i]).1@),
                forall|i: int| 0 <= i < listed.len() ==> (#[trigger] listed[i]).0.len() > 0,
                forall|attrs: &Vec<KeyValue>, bucket: &A| keep.requires((attrs, bucket)),
                forall|k: int|
                    0 <= k < rest@.len() ==> (#[trigger] rest@[k])@ == listed[all.len() - 1 - k],
                forall|i: int|
                    0 <= i < verdicts.len() ==> judged::<T, A, F>(keep, all[i], #[trigger] verdicts[i]),
                states(self.buckets@) == kept(all.take(verdicts.len() as int), verdicts),
            decreases rest@.len(),
        {
            let ghost i = verdicts.len() as int;
            let ghost seen = verdicts;
            let ghost before = self.buckets@;
            match rest.pop() {
                Some(entry) => {
                    assert(entry@ == listed[i]);
                    let keeps = keep(&entry.attrs, &entry.value);
                    proof {
                        verdicts = verdicts.push(keeps);
                        assert(keep.ensures((&*entry.attrs, &entry.value), verdicts[i]));
                        assert(all.take(i + 1).drop_last() =~= all.take(i));
                        assert(verdicts.drop_last() =~= seen);
                        assert(all[i] == (model::attrs_view(entry.attrs@), entry.value@));
                        attr_map::lemma_position(before, listed[i].0);
                        if let Some(k) = attr_map::position_of(before, listed[i].0) {
                            assert(states(before)[k].0 == before[k].0);
                            lemma_kept_are_members(all.take(i), seen, k);
                            let j = choose|j: int| 0 <= j < all.take(i).len() && #[trigger] all.take(i)[j]
                                == kept(all.take(i), seen)[k];
                            assert(listed[j].0 == before[k].0);
                            assert(model::rank_attrs(listed[j].0, listed[i].0) != 0);
                        }
                        assert(judged::<T, A, F>(keep, all[i], verdicts[i]));
                        assert forall|n: int| 0 <= n < verdicts.len() implies judged::<T, A, F>(
                            keep,
                            all[n],
                            #[trigger] verdicts[n],
                        ) by {
                            if n < i {
                                assert(verdicts[n] == seen[n]);
                            }
                        }
                    }
                    if keeps {
                        self.buckets.push(entry.attrs, entry.value);
                        assert(states(self.buckets@) =~= states(before).push(all[i]));
                    }
                },
                None => {},
            }
        }
        assert(all.take(all.len() as int) =~= all);
        assert(self@.series == kept(all, verdicts));
    }
}

impl<T: Measure, A: Scalar<T>> BucketMap<T, A> {
    /// The amount recorded for an attribute set, where it has a cell.
    pub fn get(&self, attrs: &[KeyValue]) -> (r: Option<T>)
        requires
            self.wf(),
        ensures
            r == state_of(self@, model::attrs_view(attrs@)),
    {
        match self.get_bucket(attrs) {
            Some(bucket) => Some(bucket.get()),
            None => None,
        }
    }

    /// Puts an amount in the place of the one recorded.
    pub fn set(&mut self, value: T, attrs: &[KeyValue])
        requires
            old(self).wf(),
        ensures
            final(self).wf(),
            final(self)@ == with_state(
                old(self)@,
                model::attrs_view(attrs@),
                atomic::stored(start_state::<T, A>(old(self)@, model::attrs_view(attrs@)), value),
            ),
    {
        let bucket = self.bucket_mut(attrs);
        bucket.store(value);
        proof {
            A::scalar_laws(bucket@, bucket@);
        }
    }

    /// Takes the amount recorded for an attribute set out, where it has a cell; nothing is left of it.
    pub fn reset(&mut self, attrs: &[KeyValue]) -> (r: T)
        requires
            old(self).wf(),
        ensures
            final(self).wf(),
            match state_of(old(self)@, model::attrs_view(attrs@)) {
                Some(state) => r == state && final(self)@ == (BucketsView {
                    touched: old(self)@.touched,
                    ..with_state(old(self)@, model::attrs_view(attrs@), T::zero())
                }),
                None => r == T::zero() && final(self)@ == old(self)@,
            },
    {
        if self.get_bucket(attrs).is_none() {
            return T::zero_value();
        }
        let touched = self.touched;
        let bucket = self.bucket_mut(attrs);
        let r = bucket.reset();
        proof {
            A::scalar_laws(bucket@, bucket@);
        }
        self.touched = touched;
        r
    }
}

proof fn lemma_pointwise_equal(a: Seq<model::KeyValueView>, b: Seq<model::KeyValueView>)
    requires
        a.len() == b.len(),
        forall|i: int| 0 <= i < a.len() ==> model::rank_attr(#[trigger] a[i], b[i]) == 0,
    ensures
        model::rank_attrs(a, b) == 0,
    decreases a.len(),
{
    if a.len() > 0 {
        let a_rest = a.subrange(1, a.len() as int);
        let b_rest = b.drop_first();
        assert forall|i: int| 0 <= i < a_rest.len() implies model::rank_attr(#[trigger] a_rest[i], b_rest[i])
            == 0 by {
            assert(model::rank_attr(a[i + 1], b[i + 1]) == 0);
        }
        lemma_pointwise_equal(a_rest, b_rest);
        assert(model::rank_attr(a[0], b[0]) == 0);
    }
}

/// Whether two attribute sets share a cell.
pub open spec fn share_a_cell(a: Seq<model::KeyValueView>, b: Seq<model::KeyValueView>) -> bool {
    model::rank_attrs(canonical(a), canonical(b)) == 0
}

proof fn lemma_sharing_keeps_emptiness(a: Seq<model::KeyValueView>, b: Seq<model::KeyValueView>)
    requires
        share_a_cell(a, b),
    ensures
        a.len() == 0 <==> b.len() == 0,
{
    order::sorted_is_an_ordered_permutation(a);
    order::sorted_is_an_ordered_permutation(b);
}

/// The order in which attributes are given does not matter: the same attributes share a cell.
pub proof fn attribute_order_does_not_matter(a: Seq<model::KeyValueView>, b: Seq<model::KeyValueView>)
    requires
        a.to_multiset() =~= b.to_multiset(),
    ensures
        share_a_cell(a, b),
{
    order::permutations_sort_alike(a, b);
    assert forall|i: int| 0 <= i < canonical(a).len() implies model::rank_attr(
        #[trigger] canonical(a)[i],
        canonical(b)[i],
    ) == 0 by {
        assert(<model::KeyValueView as order::Ranked>::rank(order::sorted(a)[i], order::sorted(b)[i]) == 0);
    }
    lemma_pointwise_equal(canonical(a), canonical(b));
}

/// What was recorded for an attribute set is what is found for it, and for every set that shares its
/// cell.
pub proof fn recorded_states_are_found<S>(
    buckets: BucketsView<S>,
    attrs: Seq<model::KeyValueView>,
    other: Seq<model::KeyValueView>,
    state: S,
)
    requires
        attr_map::keys_are_distinct(buckets.series),
        share_a_cell(attrs, other),
    ensures
        state_of(with_state(buckets, attrs, state), other) == Some(state),
        attr_map::keys_are_distinct(with_state(buckets, attrs, state).series),
{
    lemma_sharing_keeps_emptiness(attrs, other);
    if attrs.len() > 0 {
        lemma_with_state_keys(buckets, attrs, state);
        let after = with_state(buckets, attrs, state).series;
        let key = canonical(attrs);
        attr_map::lemma_position(buckets.series, key);
        let at = match cell_of(buckets, attrs) {
            Some(i) => i,
            None => buckets.series.len() as int,
        };
        model::equal_attrs_is_an_equivalence(key, key, key);
        model::equal_attrs_is_an_equivalence(after[at].0, key, canonical(other));
        attr_map::lemma_position_unique(after, canonical(other), at);
    }
}

proof fn lemma_with_state_keys<S>(buckets: BucketsView<S>, attrs: Seq<model::KeyValueView>, state: S)
    requires
        attr_map::keys_are_distinct(buckets.series),
    ensures
        attr_map::keys_are_distinct(with_state(buckets, attrs, state).series),
{
    let before = buckets.series;
    let after = with_state(buckets, attrs, state).series;
    attr_map::lemma_position(before, canonical(attrs));
    assert forall|i: int, j: int| 0 <= i < j < after.len() implies model::rank_attrs(
        #[trigger] after[i].0,
        #[trigger] after[j].0,
    ) != 0 by {
        if j < before.len() {
            assert(after[i].0 == before[i].0 && after[j].0 == before[j].0);
            assert(model::rank_attrs(before[i].0, before[j].0) != 0);
        } else {
            assert(model::rank_attrs(before[i].0, canonical(attrs)) != 0);
        }
    }
}

/// Recording for an attribute set changes nothing for sets that do not share its cell.
pub proof fn other_states_are_kept<S>(
    buckets: BucketsView<S>,
    attrs: Seq<model::KeyValueView>,
    other: Seq<model::KeyValueView>,
    state: S,
)
    requires
        attr_map::keys_are_distinct(buckets.series),
        !share_a_cell(attrs, other),
    ensures
        state_of(with_state(buckets, attrs, state), other) == state_of(buckets, other),
{
    if attrs.len() == 0 && other.len() == 0 {
        assert(attrs =~= other);
        model::equal_attrs_is_an_equivalence(canonical(attrs), canonical(attrs), canonical(attrs));
    } else if attrs.len() > 0 && other.len() > 0 {
        let before = buckets.series;
        let after = with_state(buckets, attrs, state).series;
        let key = canonical(other);
        lemma_with_state_keys(buckets, attrs, state);
        attr_map::lemma_position(before, canonical(attrs));
        attr_map::lemma_position(before, key);
        attr_map::lemma_position(after, key);
        if let Some(i) = attr_map::position_of(before, key) {
            assert(after[i].0 == before[i].0);
            attr_map::lemma_position_unique(after, key, i);
            if cell_of(buckets, attrs) == Some(i) {
                model::equal_attrs_is_an_equivalence(before[i].0, canonical(attrs), key);
                model::equal_attrs_is_an_equivalence(canonical(attrs), before[i].0, key);
            }
        } else if let Some(i) = attr_map::position_of(after, key) {
            if i < before.len() {
                assert(after[i].0 == before[i].0);
            }
        }
    }
}

} // verus!
