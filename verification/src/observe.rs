//! Observing metric sources: what is seen of them, poll by poll.

use crate::atomic::{IsInitial, Measure, Reading, Record};
use crate::attr_map;
use crate::attr_map::AttrMap;
use crate::bucket_map;
use crate::bucket_map::BucketMap;
use crate::dto;
use crate::dto::{IntoWire, Kind};
use crate::error;
use crate::error::Error;
use crate::model;
use crate::model::{KeyValue, NameIdentity};
use crate::order;
use crate::time::{Duration, SystemTime};
use std::sync::Arc;
use vstd::prelude::*;

verus! {

#[derive(Debug, Clone, Copy, PartialEq, Eq, Structural, Hash)]
pub enum Mode {
    /// Report values as they are.
    Direct,
    /// Track previous values and report differences. The observer stores the previous values; the
    /// metric itself is not affected.
    Delta,
    /// Drain the source's buckets between observations.
    Destructive,
}

/// A metric that can be observed.
pub trait MetricSource {
    type Measure: Measure;

    type Cell: Record<Self::Measure>;

    spec fn wf(&self) -> bool;

    spec fn identity(&self) -> model::NameIdentityView;

    spec fn cells(&self) -> bucket_map::BucketsView<<Self::Cell as View>::V>;

    spec fn metric_kind(&self) -> Kind;

    fn id(&self) -> (r: &Arc<NameIdentity>)
        ensures
            r@ == self.identity(),
    ;

    fn buckets(&self) -> (r: &BucketMap<Self::Measure, Self::Cell>)
        requires
            self.wf(),
        ensures
            r@ == self.cells(),
            r.wf(),
    ;

    /// The buckets, to be changed in their place.
    fn buckets_mut(&mut self) -> (r: &mut BucketMap<Self::Measure, Self::Cell>)
        requires
            old(self).wf(),
        ensures
            (*r)@ == old(self).cells(),
            (*r).wf(),
            final(self).cells() == (*final(r))@,
            (*final(r)).wf() ==> final(self).wf(),
            final(self).identity() == old(self).identity(),
            final(self).metric_kind() == old(self).metric_kind(),
    ;

    fn kind(&self) -> (r: Kind)
        ensures
            r == self.metric_kind(),
    ;
}

/// What an observer has seen.
#[verifier::ext_equal]
pub ghost struct ObserverView<R> {
    pub start_time: int,
    pub seq: u64,
    pub id: model::NameIdentityView,
    pub series: Seq<dto::RowView<R>>,
    pub last_values: Option<Seq<(Seq<model::KeyValueView>, R)>>,
    pub observe_mode: Mode,
    pub kind: Kind,
}

/// Snapshots with one more under an attribute set.
pub open spec fn with_snapshot<R>(
    series: Seq<dto::RowView<R>>,
    attrs: Seq<model::KeyValueView>,
    snapshot: dto::SnapshotView<R>,
) -> Seq<dto::RowView<R>> {
    match attr_map::position_of(series, attrs) {
        Some(i) => series.update(i, (series[i].0, series[i].1.push(snapshot))),
        None => series.push((attrs, seq![snapshot])),
    }
}

/// What is reported of a value where differences are: nothing where it did not change, the difference
/// where it grew, and the value itself where it is new or fell.
pub open spec fn difference<S: Reading>(previous: Option<S::V>, current: S::V) -> Option<S::V> {
    match previous {
        None => Some(current),
        Some(previous) => if S::same(previous, current) {
            None
        } else if S::before(previous, current) {
            Some(S::since(current, previous))
        } else {
            Some(current)
        },
    }
}

/// The value that was last seen for an attribute set.
pub open spec fn last_value<R>(
    last_values: Seq<(Seq<model::KeyValueView>, R)>,
    attrs: Seq<model::KeyValueView>,
) -> Option<R> {
    match attr_map::position_of(last_values, attrs) {
        Some(i) => Some(last_values[i].1),
        None => None,
    }
}

/// The values last seen, after one more.
pub open spec fn with_last_value<R>(
    last_values: Seq<(Seq<model::KeyValueView>, R)>,
    attrs: Seq<model::KeyValueView>,
    value: R,
) -> Seq<(Seq<model::KeyValueView>, R)> {
    match attr_map::position_of(last_values, attrs) {
        Some(i) => last_values.update(i, (last_values[i].0, value)),
        None => last_values.push((attrs, value)),
    }
}

/// An observer after it has seen one value.
pub open spec fn seen<S: Reading>(
    observer: ObserverView<S::V>,
    attrs: Seq<model::KeyValueView>,
    current: S::V,
    ts: int,
) -> ObserverView<S::V> {
    let reported = match observer.last_values {
        Some(last_values) => difference::<S>(last_value(last_values, attrs), current),
        None => Some(current),
    };
    match reported {
        None => observer,
        Some(value) => ObserverView {
            series: with_snapshot(
                observer.series,
                attrs,
                dto::SnapshotView { ts, seq_id: observer.seq, value },
            ),
            last_values: match observer.last_values {
                Some(last_values) => Some(with_last_value(last_values, attrs, current)),
                None => None,
            },
            ..observer
        },
    }
}

/// An observer after it has seen a list of values.
pub open spec fn seen_all<S: Reading>(
    observer: ObserverView<S::V>,
    readings: Seq<(Seq<model::KeyValueView>, S::V)>,
    ts: int,
) -> ObserverView<S::V>
    decreases readings.len(),
{
    if readings.len() == 0 {
        observer
    } else {
        seen::<S>(
            seen_all::<S>(observer, readings.drop_last(), ts),
            readings.last().0,
            readings.last().1,
            ts,
        )
    }
}

/// Values that are not as they were in the beginning.
pub open spec fn not_initial<S: Reading>(readings: Seq<(Seq<model::KeyValueView>, S::V)>) -> Seq<
    (Seq<model::KeyValueView>, S::V),
>
    decreases readings.len(),
{
    if readings.len() == 0 {
        Seq::empty()
    } else {
        let rest = not_initial::<S>(readings.drop_last());
        if S::initial(readings.last().1) {
            rest
        } else {
            rest.push(readings.last())
        }
    }
}

/// What draining a source gives: the values of every cell that holds something, the one without
/// attributes last.
pub open spec fn drained<T, A: Record<T>>(buckets: bucket_map::BucketsView<A::V>) -> Seq<
    (Seq<model::KeyValueView>, <A::Snapshot as View>::V),
> {
    let with_attrs = buckets.series.map_values(
        |entry: bucket_map::SeriesView<A::V>| (entry.0, A::reading(entry.1)),
    );
    not_initial::<A::Snapshot>(with_attrs.push((Seq::empty(), A::reading(buckets.no_attr))))
}

/// An observer after a poll of a source.
pub open spec fn observed<T, A: Record<T>>(
    observer: ObserverView<<A::Snapshot as View>::V>,
    buckets: bucket_map::BucketsView<A::V>,
    ts: int,
) -> ObserverView<<A::Snapshot as View>::V> {
    let readings = if observer.observe_mode is Destructive {
        drained::<T, A>(buckets)
    } else {
        bucket_map::readings::<T, A>(buckets)
    };
    let after = seen_all::<A::Snapshot>(observer, readings, ts);
    ObserverView { seq: observer.seq.wrapping_add(1), ..after }
}

/// A source after a poll.
pub open spec fn after_poll<T, A: Record<T>>(
    mode: Mode,
    buckets: bucket_map::BucketsView<A::V>,
) -> bucket_map::BucketsView<A::V> {
    if mode is Destructive {
        bucket_map::emptied::<T, A>(buckets)
    } else {
        buckets
    }
}

/// Observes one metric source.
///
/// It cannot be copied: it is not meant to be changed from several places.
pub struct SyncObserver<T: Measure, A: Record<T> = <T as Measure>::Type> {
    /// When this observer was started.
    start_time: SystemTime,
    /// Goes up by one with every poll, and is part of every snapshot.
    seq: u64,
    /// The identity of the metric.
    id: Arc<NameIdentity>,
    /// The snapshots by attribute set.
    series: AttrMap<Vec<dto::Snapshot<A::Snapshot>>>,
    /// The values last seen, where differences are reported.
    last_values: Option<AttrMap<A::Snapshot>>,
    observe_mode: Mode,
    kind: Kind,
    measure: std::marker::PhantomData<T>,
}

impl<T: Measure, A: Record<T>> View for SyncObserver<T, A> {
    type V = ObserverView<<A::Snapshot as View>::V>;

    closed spec fn view(&self) -> ObserverView<<A::Snapshot as View>::V> {
        ObserverView {
            start_time: self.start_time@,
            seq: self.seq,
            id: self.id@,
            series: dto::rows(self.series@),
            last_values: match self.last_values {
                Some(last_values) => Some(bucket_map::states(last_values@)),
                None => None,
            },
            observe_mode: self.observe_mode,
            kind: self.kind,
        }
    }
}

/// An observer in the beginning.
pub open spec fn fresh_observer<R>(
    start_time: int,
    id: model::NameIdentityView,
    observe_mode: Mode,
    kind: Kind,
) -> ObserverView<R> {
    ObserverView {
        start_time,
        seq: 0,
        id,
        series: Seq::empty(),
        last_values: if observe_mode is Delta {
            Some(Seq::empty())
        } else {
            None
        },
        observe_mode,
        kind,
    }
}

/// Adds a snapshot under an attribute set.
fn push_snapshot<S: View>(
    series: &mut AttrMap<Vec<dto::Snapshot<S>>>,
    attrs: &Arc<Vec<KeyValue>>,
    snapshot: dto::Snapshot<S>,
)
    requires
        old(series).wf(),
    ensures
        final(series).wf(),
        dto::rows(final(series)@) == with_snapshot(
            dto::rows(old(series)@),
            model::attrs_view(attrs@),
            snapshot@,
        ),
{
    let ghost key = model::attrs_view(attrs@);
    let ghost before = series@;
    proof {
        attr_map::lemma_position_by_keys(before, dto::rows(before), key);
    }
    match series.find(attrs) {
        Some(at) => {
            let list = series.value_at_mut(at);
            list.push(snapshot);
            assert(order::views(before[at as int].1@.push(snapshot)) =~= order::views(
                before[at as int].1@,
            ).push(snapshot@));
            assert(dto::rows(series@) =~= with_snapshot(dto::rows(before), key, snapshot@));
        },
        None => {
            let mut list: Vec<dto::Snapshot<S>> = Vec::new();
            list.push(snapshot);
            assert(order::views(list@) =~= seq![snapshot@]);
            series.push(model::share(attrs), list);
            assert(dto::rows(series@) =~= with_snapshot(dto::rows(before), key, snapshot@));
        },
    }
}

/// Remembers a value, and gives what is to be reported of it.
fn take_difference<S: Reading>(
    last_values: &mut AttrMap<S>,
    attrs: &Arc<Vec<KeyValue>>,
    current: S,
) -> (r: Option<S>)
    requires
        old(last_values).wf(),
    ensures
        final(last_values).wf(),
        match difference::<S>(
            last_value(bucket_map::states(old(last_values)@), model::attrs_view(attrs@)),
            current@,
        ) {
            None => r is None && final(last_values)@ == old(last_values)@,
            Some(value) => r is Some && r->0@ == value && bucket_map::states(final(last_values)@)
                == with_last_value(
                bucket_map::states(old(last_values)@),
                model::attrs_view(attrs@),
                current@,
            ),
        },
{
    let ghost key = model::attrs_view(attrs@);
    let ghost before = last_values@;
    proof {
        attr_map::lemma_position_by_keys(before, bucket_map::states(before), key);
    }
    match last_values.find(attrs) {
        Some(at) => {
            if last_values.value_at(at).equals(&current) {
                return None;
            }
            let mut previous = current.duplicate();
            std::mem::swap(&mut previous, last_values.value_at_mut(at));
            assert(bucket_map::states(last_values@) =~= with_last_value(
                bucket_map::states(before),
                key,
                current@,
            ));
            if previous.precedes(&current) {
                Some(current.subtract(previous))
            } else {
                Some(current)
            }
        },
        None => {
            let copy = current.duplicate();
            last_values.push(model::share(attrs), copy);
            assert(bucket_map::states(last_values@) =~= with_last_value(
                bucket_map::states(before),
                key,
                current@,
            ));
            Some(current)
        },
    }
}

impl<T: Measure, A: Record<T>> SyncObserver<T, A> {
    /// No attribute set has two rows, and values last seen are kept exactly where differences are
    /// reported.
    pub closed spec fn wf(&self) -> bool {
        &&& self.series.wf()
        &&& match self.last_values {
            Some(last_values) => last_values.wf() && self.observe_mode is Delta,
            None => self.observe_mode !is Delta,
        }
    }

    /// An observer of a source. A gauge cannot be observed by its differences.
    pub fn new<Src: MetricSource<Measure = T, Cell = A>>(source: &Src, observe_mode: Mode) -> (r: Result<
        SyncObserver<T, A>,
        Error,
    >)
        ensures
            match r {
                Ok(observer) => {
                    &&& !(observe_mode is Delta && source.metric_kind() is Gauge)
                    &&& observer.wf()
                    &&& observer@ == fresh_observer::<<A::Snapshot as View>::V>(
                        observer@.start_time,
                        source.identity(),
                        observe_mode,
                        source.metric_kind(),
                    )
                },
                Err(error) => observe_mode is Delta && source.metric_kind() is Gauge && error@
                    == error::ErrorView::DeltaForGauge,
            },
    {
        SyncObserver::starting(source.id(), source.kind(), observe_mode, SystemTime::now())
    }

    /// An observer that starts at a given time.
    pub fn starting(
        id: &Arc<NameIdentity>,
        kind: Kind,
        observe_mode: Mode,
        start_time: SystemTime,
    ) -> (r: Result<SyncObserver<T, A>, Error>)
        ensures
            match r {
                Ok(observer) => {
                    &&& !(observe_mode is Delta && kind is Gauge)
                    &&& observer.wf()
                    &&& observer@ == fresh_observer::<<A::Snapshot as View>::V>(
                        start_time@,
                        id@,
                        observe_mode,
                        kind,
                    )
                },
                Err(error) => observe_mode is Delta && kind is Gauge && error@
                    == error::ErrorView::DeltaForGauge,
            },
    {
        if observe_mode == Mode::Delta && kind == Kind::Gauge {
            return Err(Error::DeltaForGauge);
        }
        let last_values: Option<AttrMap<A::Snapshot>> = match observe_mode {
            Mode::Direct => None,
            Mode::Destructive => None,
            Mode::Delta => Some(AttrMap::new()),
        };
        let observer = SyncObserver {
            start_time,
            seq: 0,
            id: model::share(id),
            series: AttrMap::new(),
            last_values,
            observe_mode,
            kind,
            measure: std::marker::PhantomData,
        };
        proof {
            assert(observer@.series =~= Seq::empty());
            if observe_mode is Delta {
                assert(bucket_map::states(observer.last_values->0@) =~= Seq::empty());
            }
        }
        Ok(observer)
    }

    /// Puts the observer back to its beginning, at a new start time.
    pub fn reset(&mut self, start_time: SystemTime)
        requires
            old(self).wf(),
        ensures
            final(self).wf(),
            final(self)@ == fresh_observer::<<A::Snapshot as View>::V>(
                start_time@,
                old(self)@.id,
                old(self)@.observe_mode,
                old(self)@.kind,
            ),
    {
        self.start_time = start_time;
        self.seq = 0;
        self.series = AttrMap::new();
        if self.last_values.is_some() {
            self.last_values = Some(AttrMap::new());
        }
        proof {
            assert(self@.series =~= Seq::empty());
            if self.observe_mode is Delta {
                assert(bucket_map::states(self.last_values->0@) =~= Seq::empty());
            }
        }
    }

    /// Sees one value.
    fn see(&mut self, attrs: &Arc<Vec<KeyValue>>, current: A::Snapshot, ts: SystemTime)
        requires
            old(self).wf(),
        ensures
            final(self).wf(),
            final(self)@ == seen::<A::Snapshot>(old(self)@, model::attrs_view(attrs@), current@, ts@),
    {
        let reported = match &mut self.last_values {
            Some(last_values) => take_difference(last_values, attrs, current),
            None => Some(current),
        };
        if let Some(value) = reported {
            push_snapshot(&mut self.series, attrs, dto::Snapshot { ts, seq_id: self.seq, value });
        }
    }

    /// Polls a source: sees all its values, and drains it where the mode says so.
    pub fn observe_impl(&mut self, buckets: &mut BucketMap<T, A>, ts: SystemTime)
        requires
            old(self).wf(),
            old(buckets).wf(),
        ensures
            final(self).wf(),
            final(buckets).wf(),
            final(self)@ == observed::<T, A>(old(self)@, old(buckets)@, ts@),
            final(buckets)@ == after_poll::<T, A>(old(self)@.observe_mode, old(buckets)@),
    {
        if self.observe_mode == Mode::Destructive {
            self.observe_destructive(buckets, ts);
            return;
        }
        let readings = buckets.readings();
        let ghost all = bucket_map::states(attr_map::entries_view(readings@));
        let mut rest = order::reversed(readings);
        assert(all.take(0) =~= Seq::empty());
        while rest.len() > 0
            invariant
                self.wf(),
                rest@.len() <= all.len(),
                forall|k: int|
                    0 <= k < rest@.len() ==> all[all.len() - 1 - k] == (
                        model::attrs_view((#[trigger] rest@[k]).attrs@),
                        rest@[k].value@,
                    ),
                self@ == seen_all::<A::Snapshot>(old(self)@, all.take(all.len() - rest@.len()), ts@),
            decreases rest@.len(),
        {
            let ghost done = all.len() - rest@.len();
            if let Some(entry) = rest.pop() {
                assert(all.take(done + 1).drop_last() =~= all.take(done));
                assert(all[done] == (model::attrs_view(entry.attrs@), entry.value@));
                self.see(&entry.attrs, entry.value, ts);
            }
        }
        assert(all.take(all.len() as int) =~= all);
        proof {
            lemma_seeing_keeps_seq::<A::Snapshot>(old(self)@, all, ts@);
        }
        self.seq = self.seq.wrapping_add(1);
    }

    fn observe_destructive(&mut self, buckets: &mut BucketMap<T, A>, ts: SystemTime)
        requires
            old(self).wf(),
            old(self)@.observe_mode is Destructive,
            old(buckets).wf(),
        ensures
            final(self).wf(),
            final(buckets).wf(),
            final(self)@ == observed::<T, A>(old(self)@, old(buckets)@, ts@),
            final(buckets)@ == bucket_map::emptied::<T, A>(old(buckets)@),
    {
        let ghost cells = buckets@;
        let ghost all = cells.series.map_values(
            |entry: bucket_map::SeriesView<A::V>| (entry.0, A::reading(entry.1)),
        );
        let (entries, no_attr_val) = buckets.take();
        let mut rest = order::reversed(entries);
        proof {
            assert(all.take(0) =~= Seq::empty());
            assert forall|k: int| 0 <= k < rest@.len() implies all[all.len() - 1 - k] == (
                model::attrs_view((#[trigger] rest@[k]).attrs@),
                A::reading(rest@[k].value@),
            ) by {
                let entry = entries@[entries@.len() - 1 - k];
                assert(bucket_map::states(attr_map::entries_view(entries@))[entries@.len() - 1 - k] == (
                    model::attrs_view(entry.attrs@),
                    entry.value@,
                ));
            }
        }
        while rest.len() > 0
            invariant
                self.wf(),
                rest@.len() <= all.len(),
                forall|k: int| 0 <= k < rest@.len() ==> A::valid((#[trigger] rest@[k]).value@),
                forall|k: int|
                    0 <= k < rest@.len() ==> all[all.len() - 1 - k] == (
                        model::attrs_view((#[trigger] rest@[k]).attrs@),
                        A::reading(rest@[k].value@),
                    ),
                self@ == seen_all::<A::Snapshot>(
                    old(self)@,
                    not_initial::<A::Snapshot>(all.take(all.len() - rest@.len())),
                    ts@,
                ),
            decreases rest@.len(),
        {
            let ghost done = all.len() - rest@.len();
            let ghost kept = not_initial::<A::Snapshot>(all.take(done));
            if let Some(entry) = rest.pop() {
                let current = entry.value.current();
                assert(all.take(done + 1).drop_last() =~= all.take(done));
                assert(all[done] == (model::attrs_view(entry.attrs@), current@));
                if !current.is_initial() {
                    assert(kept.push(all[done]).drop_last() =~= kept);
                    self.see(&entry.attrs, current, ts);
                }
            }
        }
        assert(all.take(all.len() as int) =~= all);
        let ghost kept = not_initial::<A::Snapshot>(all);
        let ghost no_attr: (Seq<model::KeyValueView>, <A::Snapshot as View>::V) = (
            Seq::empty(),
            A::reading(cells.no_attr),
        );
        assert(all.push(no_attr).drop_last() =~= all);
        if let Some(value) = no_attr_val {
            let attrs: Arc<Vec<KeyValue>> = Arc::new(Vec::new());
            assert(model::attrs_view(attrs@) =~= Seq::<model::KeyValueView>::empty());
            assert(kept.push(no_attr).drop_last() =~= kept);
            self.see(&attrs, value, ts);
        }
        proof {
            lemma_seeing_keeps_seq::<A::Snapshot>(old(self)@, drained::<T, A>(cells), ts@);
        }
        self.seq = self.seq.wrapping_add(1);
    }

    /// Takes every snapshot out.
    pub fn take(&mut self) -> (r: dto::Series<A::Snapshot>)
        requires
            old(self).wf(),
        ensures
            final(self).wf(),
            final(self)@ == (ObserverView { series: Seq::empty(), ..old(self)@ }),
            r.wf(),
            r@ == taken_series(old(self)@),
    {
        let mut series: AttrMap<Vec<dto::Snapshot<A::Snapshot>>> = AttrMap::new();
        std::mem::swap(&mut series, &mut self.series);
        assert(self@.series =~= Seq::empty());
        dto::Series {
            start_time: self.start_time,
            id: model::share(&self.id),
            series,
            observe_mode: self.observe_mode,
            kind: self.kind,
        }
    }
}

/// An observer of some metric source, with what it has seen. What is promised of it is up to the
/// observer.
pub trait DynObserver<W: View, E: View>: Sized {
    open spec fn wf(&self) -> bool {
        true
    }

    /// Whether `after` is the observer after a poll at `ts`.
    open spec fn polled(self, ts: int, after: Self) -> bool {
        true
    }

    /// Whether `after` is the observer after a restart at `start_time`.
    open spec fn restarted(self, start_time: int, after: Self) -> bool {
        true
    }

    /// Whether what was seen can be exported.
    open spec fn is_exportable(self, align: Option<nat>) -> bool {
        true
    }

    /// Whether `after` is the observer after an export with this result.
    open spec fn exported(
        self,
        align: Option<nat>,
        result: Result<Option<W::V>, E::V>,
        after: Self,
    ) -> bool {
        true
    }

    /// Polls the observed source at `ts`. Time is passed from outside because all snapshots of one
    /// collector are to bear the same time.
    fn observe(&mut self, ts: SystemTime)
        requires
            old(self).wf(),
        ensures
            final(self).wf(),
            old(self).polled(ts@, *final(self)),
    ;

    /// Puts the observer back to its beginning at `start_time`. Nothing of what was seen before may be
    /// left.
    ///
    /// A collector calls this once, at the moment of adding the observer to its list, so that it can
    /// trust an observer that was used before.
    fn reset(&mut self, start_time: SystemTime)
        requires
            old(self).wf(),
        ensures
            final(self).wf(),
            old(self).restarted(start_time@, *final(self)),
    ;

    /// Takes what was seen out, in the form of an exporter.
    fn export(&mut self, align: Option<Duration>) -> (r: Result<Option<W>, E>)
        requires
            old(self).wf(),
            old(self).is_exportable(dto::span_of(align)),
        ensures
            final(self).wf(),
            old(self).exported(dto::span_of(align), dto::outcome_view(r), *final(self)),
    ;
}

/// A metric source together with its observer.
pub struct Observed<Src: MetricSource> {
    pub source: Src,
    pub observer: SyncObserver<Src::Measure, Src::Cell>,
}

impl<W: View, E: View, Src: MetricSource> DynObserver<W, E> for Observed<Src> where
    dto::Series<<Src::Cell as Record<Src::Measure>>::Snapshot>: dto::IntoWire<W, Error = E> + View<
        V = dto::SeriesView<<<Src::Cell as Record<Src::Measure>>::Snapshot as View>::V>,
    >,
 {
    open spec fn wf(&self) -> bool {
        self.source.wf() && self.observer.wf()
    }

    open spec fn polled(self, ts: int, after: Self) -> bool {
        &&& after.observer@ == observed::<Src::Measure, Src::Cell>(
            self.observer@,
            self.source.cells(),
            ts,
        )
        &&& after.source.cells() == after_poll::<Src::Measure, Src::Cell>(
            self.observer@.observe_mode,
            self.source.cells(),
        )
        &&& after.source.identity() == self.source.identity()
        &&& after.source.metric_kind() == self.source.metric_kind()
    }

    open spec fn restarted(self, start_time: int, after: Self) -> bool {
        &&& after.observer@ == fresh_observer::<
            <<Src::Cell as Record<Src::Measure>>::Snapshot as View>::V,
        >(start_time, self.observer@.id, self.observer@.observe_mode, self.observer@.kind)
        &&& after.source == self.source
    }

    open spec fn is_exportable(self, align: Option<nat>) -> bool {
        <dto::Series<<Src::Cell as Record<Src::Measure>>::Snapshot> as dto::IntoWire<W>>::is_exportable(
            taken_series(self.observer@),
            align,
        )
    }

    open spec fn exported(
        self,
        align: Option<nat>,
        result: Result<Option<W::V>, E::V>,
        after: Self,
    ) -> bool {
        &&& <dto::Series<<Src::Cell as Record<Src::Measure>>::Snapshot> as dto::IntoWire<W>>::becomes(
            taken_series(self.observer@),
            align,
            result,
        )
        &&& after.observer@ == (ObserverView { series: Seq::empty(), ..self.observer@ })
        &&& after.source == self.source
    }

    fn observe(&mut self, ts: SystemTime) {
        self.observer.observe_impl(self.source.buckets_mut(), ts);
    }

    fn reset(&mut self, start_time: SystemTime) {
        self.observer.reset(start_time);
    }

    fn export(&mut self, align: Option<Duration>) -> (r: Result<Option<W>, E>) {
        let series = self.observer.take();
        series.into_wire(align)
    }
}

/// What an observer has seen, as a series.
pub open spec fn taken_series<R>(observer: ObserverView<R>) -> dto::SeriesView<R> {
    dto::SeriesView {
        start_time: observer.start_time,
        id: observer.id,
        series: observer.series,
        observe_mode: observer.observe_mode,
        kind: observer.kind,
    }
}

proof fn lemma_seeing_keeps_seq<S: Reading>(
    observer: ObserverView<S::V>,
    readings: Seq<(Seq<model::KeyValueView>, S::V)>,
    ts: int,
)
    ensures
        seen_all::<S>(observer, readings, ts).seq == observer.seq,
        seen_all::<S>(observer, readings, ts).start_time == observer.start_time,
        seen_all::<S>(observer, readings, ts).id == observer.id,
        seen_all::<S>(observer, readings, ts).observe_mode == observer.observe_mode,
        seen_all::<S>(observer, readings, ts).kind == observer.kind,
    decreases readings.len(),
{
    if readings.len() > 0 {
        lemma_seeing_keeps_seq::<S>(observer, readings.drop_last(), ts);
    }
}

/// A poll advances the poll index by one, whatever it sees; identity, start and mode stay.
pub proof fn polls_are_counted<T, A: Record<T>>(
    observer: ObserverView<<A::Snapshot as View>::V>,
    buckets: bucket_map::BucketsView<A::V>,
    ts: int,
)
    ensures
        observed::<T, A>(observer, buckets, ts).seq == observer.seq.wrapping_add(1),
        observed::<T, A>(observer, buckets, ts).start_time == observer.start_time,
        observed::<T, A>(observer, buckets, ts).id == observer.id,
        observed::<T, A>(observer, buckets, ts).observe_mode == observer.observe_mode,
        observed::<T, A>(observer, buckets, ts).kind == observer.kind,
{
    let readings = if observer.observe_mode is Destructive {
        drained::<T, A>(buckets)
    } else {
        bucket_map::readings::<T, A>(buckets)
    };
    lemma_seeing_keeps_seq::<A::Snapshot>(observer, readings, ts);
}

} // verus!
