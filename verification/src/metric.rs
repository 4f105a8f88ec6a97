//! The metrics of an application: gauges, counters and histograms.

use crate::atomic;
use crate::atomic::histogram;
use crate::atomic::{Amount, Measure, Record, Scalar};
use crate::bucket_map;
use crate::bucket_map::{BucketMap, BucketsView, SeriesView};
use crate::dto::Kind;
use crate::error;
use crate::error::Error;
use crate::model;
use crate::model::{KeyValue, NameIdentity};
use crate::observe::MetricSource;
use std::sync::Arc;
use vstd::prelude::*;

verus! {

/// The amount that recording for an attribute set starts from: zero where nothing was recorded.
pub open spec fn amount_of<T: Amount>(cells: BucketsView<T>, attrs: Seq<model::KeyValueView>) -> T {
    match bucket_map::state_of(cells, attrs) {
        Some(amount) => amount,
        None => T::zero(),
    }
}

/// A value that goes up and down.
pub struct Gauge<T: Measure> {
    inner: BucketMap<T>,
    id: Arc<NameIdentity>,
}

impl<T: Measure> Gauge<T> {
    /// A gauge in which nothing is recorded.
    pub fn new(id: NameIdentity) -> (r: Gauge<T>)
        ensures
            r.wf(),
            r.identity() == id@,
            r.cells() == (BucketsView {
                no_attr: T::zero(),
                touched: false,
                series: Seq::<SeriesView<T>>::empty(),
            }),
    {
        let cell = T::Type::from_value(T::zero_value());
        proof {
            T::Type::scalar_laws(T::zero(), T::zero());
        }
        Gauge { inner: BucketMap::with_storage(cell), id: Arc::new(id) }
    }

    /// Wraps on overflow rather than panicking or saturating; past `MAX` it wraps back to `MIN` (for
    /// `Gauge<u64>`, `MAX + 1 == 0`). Use `Gauge<i64>` if the gauge can go negative.
    pub fn add(&mut self, value: T, attrs: &[KeyValue])
        requires
            old(self).wf(),
        ensures
            final(self).wf(),
            final(self).identity() == old(self).identity(),
            final(self).cells() == bucket_map::with_state(
                old(self).cells(),
                model::attrs_view(attrs@),
                <T as Amount>::plus(amount_of(old(self).cells(), model::attrs_view(attrs@)), value),
            ),
    {
        let ghost cells = self.inner@;
        let ghost key = model::attrs_view(attrs@);
        proof {
            T::Type::scalar_laws(amount_of(cells, key), value);
            T::Type::scalar_laws(cells.no_attr, value);
        }
        self.inner.add(value, attrs);
    }

    /// Wraps on underflow rather than panicking or saturating; below `MIN` it wraps back to `MAX` (for
    /// `Gauge<u64>`, `0 - 1 == MAX`). Use `Gauge<i64>` if the gauge can go negative.
    pub fn sub(&mut self, value: T, attrs: &[KeyValue])
        requires
            old(self).wf(),
        ensures
            final(self).wf(),
            final(self).identity() == old(self).identity(),
            final(self).cells() == bucket_map::with_state(
                old(self).cells(),
                model::attrs_view(attrs@),
                <T as Amount>::minus(amount_of(old(self).cells(), model::attrs_view(attrs@)), value),
            ),
    {
        let ghost cells = self.inner@;
        let ghost key = model::attrs_view(attrs@);
        proof {
            T::Type::scalar_laws(amount_of(cells, key), value);
            T::Type::scalar_laws(cells.no_attr, value);
        }
        self.inner.sub(value, attrs);
    }

    /// Puts an amount in the place of the one recorded.
    pub fn set(&mut self, value: T, attrs: &[KeyValue])
        requires
            old(self).wf(),
        ensures
            final(self).wf(),
            final(self).identity() == old(self).identity(),
            final(self).cells() == bucket_map::with_state(
                old(self).cells(),
                model::attrs_view(attrs@),
                atomic::stored(amount_of(old(self).cells(), model::attrs_view(attrs@)), value),
            ),
    {
        let ghost cells = self.inner@;
        proof {
            T::Type::scalar_laws(cells.no_attr, value);
        }
        self.inner.set(value, attrs);
    }

    /// The amount recorded for an attribute set, where something was recorded for it. There is always
    /// one without attributes.
    pub fn get(&self, attrs: &[KeyValue]) -> (r: Option<T>)
        requires
            self.wf(),
        ensures
            r == bucket_map::state_of(self.cells(), model::attrs_view(attrs@)),
    {
        self.inner.get(attrs)
    }

    /// Takes the amount recorded for an attribute set out; nothing is left of it.
    pub fn reset(&mut self, attrs: &[KeyValue]) -> (r: T)
        requires
            old(self).wf(),
        ensures
            final(self).wf(),
            final(self).identity() == old(self).identity(),
            match bucket_map::state_of(old(self).cells(), model::attrs_view(attrs@)) {
                Some(state) => r == state && final(self).cells() == (BucketsView {
                    touched: old(self).cells().touched,
                    ..bucket_map::with_state(old(self).cells(), model::attrs_view(attrs@), T::zero())
                }),
                None => r == T::zero() && final(self).cells() == old(self).cells(),
            },
    {
        self.inner.reset(attrs)
    }
}

impl<T: Measure> MetricSource for Gauge<T> {
    type Measure = T;

    type Cell = T::Type;

    closed spec fn wf(&self) -> bool {
        self.inner.wf()
    }

    closed spec fn identity(&self) -> model::NameIdentityView {
        self.id@
    }

    closed spec fn cells(&self) -> BucketsView<T> {
        self.inner@
    }

    open spec fn metric_kind(&self) -> Kind {
        Kind::Gauge
    }

    fn id(&self) -> (r: &Arc<NameIdentity>) {
        &self.id
    }

    fn buckets(&self) -> (r: &BucketMap<T, T::Type>) {
        &self.inner
    }

    fn buckets_mut(&mut self) -> (r: &mut BucketMap<T, T::Type>) {
        &mut self.inner
    }

    fn kind(&self) -> (r: Kind) {
        Kind::Gauge
    }
}

/// A value that goes up.
pub struct Counter<T: Measure> {
    inner: BucketMap<T>,
    id: Arc<NameIdentity>,
}

impl<T: Measure> Counter<T> {
    /// A counter in which nothing is recorded.
    pub fn new(id: NameIdentity) -> (r: Counter<T>)
        ensures
            r.wf(),
            r.identity() == id@,
            r.cells() == (BucketsView {
                no_attr: T::zero(),
                touched: false,
                series: Seq::<SeriesView<T>>::empty(),
            }),
    {
        let cell = T::Type::from_value(T::zero_value());
        proof {
            T::Type::scalar_laws(T::zero(), T::zero());
        }
        Counter { inner: BucketMap::with_storage(cell), id: Arc::new(id) }
    }

    /// Counts.
    pub fn add(&mut self, value: T, attrs: &[KeyValue])
        requires
            old(self).wf(),
        ensures
            final(self).wf(),
            final(self).identity() == old(self).identity(),
            final(self).cells() == bucket_map::with_state(
                old(self).cells(),
                model::attrs_view(attrs@),
                <T as Amount>::plus(amount_of(old(self).cells(), model::attrs_view(attrs@)), value),
            ),
    {
        let ghost cells = self.inner@;
        let ghost key = model::attrs_view(attrs@);
        proof {
            T::Type::scalar_laws(amount_of(cells, key), value);
            T::Type::scalar_laws(cells.no_attr, value);
        }
        self.inner.add(value, attrs);
    }

    /// The amount recorded for an attribute set, where something was recorded for it. There is always
    /// one without attributes.
    pub fn get(&self, attrs: &[KeyValue]) -> (r: Option<T>)
        requires
            self.wf(),
        ensures
            r == bucket_map::state_of(self.cells(), model::attrs_view(attrs@)),
    {
        self.inner.get(attrs)
    }

    /// Takes the amount recorded for an attribute set out; nothing is left of it.
    pub fn reset(&mut self, attrs: &[KeyValue]) -> (r: T)
        requires
            old(self).wf(),
        ensures
            final(self).wf(),
            final(self).identity() == old(self).identity(),
            match bucket_map::state_of(old(self).cells(), model::attrs_view(attrs@)) {
                Some(state) => r == state && final(self).cells() == (BucketsView {
                    touched: old(self).cells().touched,
                    ..bucket_map::with_state(old(self).cells(), model::attrs_view(attrs@), T::zero())
                }),
                None => r == T::zero() && final(self).cells() == old(self).cells(),
            },
    {
        self.inner.reset(attrs)
    }
}

impl<T: Measure> MetricSource for Counter<T> {
    type Measure = T;

    type Cell = T::Type;

    closed spec fn wf(&self) -> bool {
        self.inner.wf()
    }

    closed spec fn identity(&self) -> model::NameIdentityView {
        self.id@
    }

    closed spec fn cells(&self) -> BucketsView<T> {
        self.inner@
    }

    open spec fn metric_kind(&self) -> Kind {
        Kind::Counter
    }

    fn id(&self) -> (r: &Arc<NameIdentity>) {
        &self.id
    }

    fn buckets(&self) -> (r: &BucketMap<T, T::Type>) {
        &self.inner
    }

    fn buckets_mut(&mut self) -> (r: &mut BucketMap<T, T::Type>) {
        &mut self.inner
    }

    fn kind(&self) -> (r: Kind) {
        Kind::Counter
    }
}

/// Values counted between boundaries.
pub struct Histogram<T: Measure> {
    inner: BucketMap<T, histogram::Bucket<T>>,
    id: Arc<NameIdentity>,
}

/// The state that recording for an attribute set starts from: an empty histogram where nothing was
/// recorded.
pub open spec fn histogram_of<T: Measure>(
    cells: BucketsView<histogram::BucketView<T>>,
    attrs: Seq<model::KeyValueView>,
) -> histogram::BucketView<T> {
    match bucket_map::state_of(cells, attrs) {
        Some(state) => state,
        None => histogram::empty_state(cells.no_attr.boundaries),
    }
}

impl<T: Measure> Histogram<T> {
    /// A histogram in which nothing is recorded. Boundaries must not be empty, and must be in strictly
    /// increasing order.
    pub fn new(id: NameIdentity, boundaries: Vec<T>) -> (r: Result<Histogram<T>, Error>)
        requires
            boundaries@.len() < usize::MAX,
        ensures
            match r {
                Ok(metric) => {
                    &&& boundaries@.len() > 0 && histogram::increasing(boundaries@)
                    &&& metric.wf()
                    &&& metric.identity() == id@
                    &&& metric.cells() == (BucketsView {
                        no_attr: histogram::empty_state(boundaries@),
                        touched: false,
                        series: Seq::<SeriesView<histogram::BucketView<T>>>::empty(),
                    })
                },
                Err(error) => !(boundaries@.len() > 0 && histogram::increasing(boundaries@)) && error@
                    == error::ErrorView::InvalidHistogramBoundaries,
            },
    {
        match histogram::Bucket::new(boundaries) {
            Ok(cell) => Ok(Histogram { inner: BucketMap::with_storage(cell), id: Arc::new(id) }),
            Err(error) => Err(error),
        }
    }

    /// Records a value.
    pub fn add(&mut self, value: T, attrs: &[KeyValue])
        requires
            old(self).wf(),
        ensures
            final(self).wf(),
            final(self).identity() == old(self).identity(),
            final(self).cells() == bucket_map::with_state(
                old(self).cells(),
                model::attrs_view(attrs@),
                <histogram::Bucket<T> as Record<T>>::added(
                    histogram_of(old(self).cells(), model::attrs_view(attrs@)),
                    value,
                ),
            ),
    {
        self.inner.add(value, attrs);
    }

    /// What was recorded for an attribute set, where something was. There is always something without
    /// attributes.
    pub fn snapshot(&self, attrs: &[KeyValue]) -> (r: Option<histogram::Snapshot<T>>)
        requires
            self.wf(),
        ensures
            match r {
                Some(snapshot) => bucket_map::state_of(self.cells(), model::attrs_view(attrs@)) is Some
                    && snapshot@ == <histogram::Bucket<T> as Record<T>>::reading(
                    bucket_map::state_of(self.cells(), model::attrs_view(attrs@))->0,
                ),
                None => bucket_map::state_of(self.cells(), model::attrs_view(attrs@)) is None,
            },
    {
        match self.inner.get_bucket(attrs) {
            Some(bucket) => Some(bucket.snapshot()),
            None => None,
        }
    }

    /// Takes what was recorded for an attribute set out; nothing is left of it.
    pub fn take(&mut self, attrs: &[KeyValue]) -> (r: Option<histogram::Snapshot<T>>)
        requires
            old(self).wf(),
        ensures
            final(self).wf(),
            final(self).identity() == old(self).identity(),
            match bucket_map::state_of(old(self).cells(), model::attrs_view(attrs@)) {
                Some(state) => {
                    &&& r is Some
                    &&& r->0@ == <histogram::Bucket<T> as Record<T>>::reading(state)
                    &&& final(self).cells() == (BucketsView {
                        touched: old(self).cells().touched,
                        ..bucket_map::with_state(
                            old(self).cells(),
                            model::attrs_view(attrs@),
                            histogram::empty_state(state.boundaries),
                        )
                    })
                },
                None => r is None && final(self).cells() == old(self).cells(),
            },
    {
        self.inner.take_bucket(attrs)
    }

    /// Drops all that was recorded.
    pub fn clear(&mut self)
        requires
            old(self).wf(),
        ensures
            final(self).wf(),
            final(self).identity() == old(self).identity(),
            final(self).cells() == bucket_map::emptied::<T, histogram::Bucket<T>>(old(self).cells()),
    {
        self.inner.clear();
    }
}

impl<T: Measure> MetricSource for Histogram<T> {
    type Measure = T;

    type Cell = histogram::Bucket<T>;

    closed spec fn wf(&self) -> bool {
        self.inner.wf()
    }

    closed spec fn identity(&self) -> model::NameIdentityView {
        self.id@
    }

    closed spec fn cells(&self) -> BucketsView<histogram::BucketView<T>> {
        self.inner@
    }

    open spec fn metric_kind(&self) -> Kind {
        Kind::Histogram
    }

    fn id(&self) -> (r: &Arc<NameIdentity>) {
        &self.id
    }

    fn buckets(&self) -> (r: &BucketMap<T, histogram::Bucket<T>>) {
        &self.inner
    }

    fn buckets_mut(&mut self) -> (r: &mut BucketMap<T, histogram::Bucket<T>>) {
        &mut self.inner
    }

    fn kind(&self) -> (r: Kind) {
        Kind::Histogram
    }
}

} // verus!
