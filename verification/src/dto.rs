//! Observed values on their way to an exporter.

use crate::attr_map;
use crate::attr_map::AttrMap;
use crate::model;
use crate::model::{KeyValue, NameIdentity};
use crate::observe::Mode;
use crate::order;
use crate::time;
use crate::time::{Duration, SystemTime};
use std::sync::Arc;
use vstd::prelude::*;

verus! {

/// The kind of a metric.
#[derive(Debug, Clone, Copy, PartialEq, Eq, Structural)]
pub enum Kind {
    Counter,
    Gauge,
    Histogram,
}

/// Observed series that can be put into the form of an exporter.
pub trait IntoWire<W: View>: View + Sized {
    type Error: View;

    /// What series are exported.
    open spec fn is_exportable(series: Self::V, align: Option<nat>) -> bool {
        true
    }

    /// Whether a series comes out as this: as the form of the exporter, as nothing where there is nothing
    /// to export, or as an error.
    open spec fn becomes(
        series: Self::V,
        align: Option<nat>,
        result: Result<Option<W::V>, <Self::Error as View>::V>,
    ) -> bool {
        true
    }

    /// Consumes `self` and produces the form of the exporter, or nothing where there is nothing to
    /// export (such as an empty series).
    ///
    /// `align` overrides the timestamps of snapshots with a synthetic clock derived from the start of
    /// the series and each snapshot's `seq_id` (see [`Snapshot::align_ts`]). Without it the timestamps
    /// recorded at observation are kept.
    fn into_wire(self, align: Option<Duration>) -> (r: Result<Option<W>, Self::Error>)
        requires
            Self::is_exportable(self@, span_of(align)),
        ensures
            Self::becomes(self@, span_of(align), outcome_view(r)),
    ;
}

/// A series that can tell whether it is exported.
pub trait CheckedWire<W: View>: IntoWire<W> {
    /// What [`IntoWire::into_wire`] gives, where the series is one that is exported.
    fn checked_wire(self, align: Option<Duration>) -> (r: Option<Result<Option<W>, Self::Error>>)
        ensures
            match r {
                Some(result) => Self::is_exportable(self@, span_of(align)) && Self::becomes(
                    self@,
                    span_of(align),
                    outcome_view(result),
                ),
                None => !Self::is_exportable(self@, span_of(align)),
            },
    ;
}

/// What a result holds.
pub open spec fn outcome_view<W: View, E: View>(result: Result<Option<W>, E>) -> Result<
    Option<W::V>,
    E::V,
> {
    match result {
        Ok(Some(wire)) => Ok(Some(wire@)),
        Ok(None) => Ok(None),
        Err(error) => Err(error@),
    }
}

/// The nanoseconds of a span that may be missing.
pub open spec fn span_of(span: Option<Duration>) -> Option<nat> {
    match span {
        Some(span) => Some(span@),
        None => None,
    }
}

/// A single observed value with its calendar time and a `seq_id`: the poll index since the series
/// started.
#[derive(Debug, Clone, PartialEq, Eq)]
pub struct Snapshot<T> {
    pub ts: SystemTime,
    pub seq_id: u64,
    pub value: T,
}

#[verifier::ext_equal]
pub ghost struct SnapshotView<V> {
    pub ts: int,
    pub seq_id: u64,
    pub value: V,
}

impl<T: View> View for Snapshot<T> {
    type V = SnapshotView<T::V>;

    open spec fn view(&self) -> SnapshotView<T::V> {
        SnapshotView { ts: self.ts@, seq_id: self.seq_id, value: self.value@ }
    }
}

/// The aligned timestamp of a snapshot: the start and as many periods as polls went before. Without a
/// period, and where the poll index does not fit 32 bits, the timestamp that was recorded.
pub open spec fn aligned_ts(ts: int, seq_id: u64, start: int, period: Option<nat>) -> int {
    match period {
        Some(period) => if seq_id <= u32::MAX {
            start + period * (seq_id as nat)
        } else {
            ts
        },
        None => ts,
    }
}

/// Whether an aligned timestamp is within the calendar.
pub open spec fn ts_is_alignable(seq_id: u64, start: int, period: Option<nat>) -> bool {
    match period {
        Some(period) => seq_id <= u32::MAX ==> time::is_span(period * (seq_id as nat)) && time::is_date(
            start + period * (seq_id as nat),
        ),
        None => true,
    }
}

impl<T> Snapshot<T> {
    /// Reconstructs this snapshot's timestamp as `start_ts + poll_period * seq_id`: a uniform grid,
    /// which hides scheduling jitter and can improve storage compression.
    ///
    /// Falls back to the recorded `ts` without a period, and where `seq_id` overflows `u32`.
    pub fn align_ts(&self, start_ts: SystemTime, poll_period: Option<Duration>) -> (r: SystemTime)
        requires
            ts_is_alignable(self.seq_id, start_ts@, span_of(poll_period)),
        ensures
            r@ == aligned_ts(self.ts@, self.seq_id, start_ts@, span_of(poll_period)),
    {
        match self.checked_align_ts(start_ts, poll_period) {
            Some(ts) => ts,
            None => self.ts,
        }
    }

    /// The timestamp that [`Snapshot::align_ts`] gives, where the calendar reaches it.
    pub fn checked_align_ts(&self, start_ts: SystemTime, poll_period: Option<Duration>) -> (r: Option<
        SystemTime,
    >)
        ensures
            match r {
                Some(ts) => ts_is_alignable(self.seq_id, start_ts@, span_of(poll_period)) && ts@
                    == aligned_ts(self.ts@, self.seq_id, start_ts@, span_of(poll_period)),
                None => !ts_is_alignable(self.seq_id, start_ts@, span_of(poll_period)),
            },
    {
        let poll_period = match poll_period {
            Some(poll_period) => poll_period,
            None => {
                return Some(self.ts);
            },
        };
        if self.seq_id > u32::MAX as u64 {
            return Some(self.ts);
        }
        match poll_period.checked_mul(self.seq_id as u128) {
            Some(offset) => start_ts.checked_add(offset),
            None => None,
        }
    }
}

/// Aligned timestamps lie one period apart from one poll to the next.
pub proof fn aligned_timestamps_are_uniform(ts: int, next_ts: int, seq_id: u64, start: int, period: nat)
    requires
        seq_id < u32::MAX,
    ensures
        aligned_ts(next_ts, (seq_id + 1) as u64, start, Some(period)) - aligned_ts(
            ts,
            seq_id,
            start,
            Some(period),
        ) == period,
        aligned_ts(ts, 0, start, Some(period)) == start,
{
    assert(period * ((seq_id + 1) as nat) == period * (seq_id as nat) + period) by (nonlinear_arith);
    assert(period * 0 == 0) by (nonlinear_arith);
}

/// The snapshots of one attribute set.
pub type RowView<V> = (Seq<model::KeyValueView>, Seq<SnapshotView<V>>);

/// The snapshots of attribute sets, by what they hold.
pub open spec fn rows<T: View>(list: Seq<(Seq<model::KeyValueView>, Vec<Snapshot<T>>)>) -> Seq<
    RowView<T::V>,
> {
    list.map_values(
        |row: (Seq<model::KeyValueView>, Vec<Snapshot<T>>)| (row.0, order::views(row.1@)),
    )
}

/// All snapshots for one metric since `start_time` by attribute set.
pub struct Series<T> {
    pub start_time: SystemTime,
    pub id: Arc<NameIdentity>,
    pub series: AttrMap<Vec<Snapshot<T>>>,
    pub observe_mode: Mode,
    pub kind: Kind,
}

#[verifier::ext_equal]
pub ghost struct SeriesView<V> {
    pub start_time: int,
    pub id: model::NameIdentityView,
    pub series: Seq<RowView<V>>,
    pub observe_mode: Mode,
    pub kind: Kind,
}

impl<T: View> View for Series<T> {
    type V = SeriesView<T::V>;

    open spec fn view(&self) -> SeriesView<T::V> {
        SeriesView {
            start_time: self.start_time@,
            id: self.id@,
            series: rows(self.series@),
            observe_mode: self.observe_mode,
            kind: self.kind,
        }
    }
}

impl<T> Series<T> {
    pub open spec fn wf(&self) -> bool {
        self.series.wf()
    }
}

/// One snapshot with its attribute set.
pub struct Sample<T> {
    pub attrs: Arc<Vec<KeyValue>>,
    pub snapshot: Snapshot<T>,
}

/// One snapshot with its attribute set.
pub type SampleView<V> = (Seq<model::KeyValueView>, SnapshotView<V>);

impl<T: View> View for Sample<T> {
    type V = SampleView<T::V>;

    open spec fn view(&self) -> SampleView<T::V> {
        (model::attrs_view(self.attrs@), self.snapshot@)
    }
}

/// The snapshots of a row with its attribute set.
pub open spec fn row_samples<V>(row: RowView<V>) -> Seq<SampleView<V>> {
    row.1.map_values(|snapshot: SnapshotView<V>| (row.0, snapshot))
}

/// The snapshots of all rows, one row after the other.
pub open spec fn samples<V>(rows: Seq<RowView<V>>) -> Seq<SampleView<V>>
    decreases rows.len(),
{
    if rows.len() == 0 {
        Seq::empty()
    } else {
        samples(rows.drop_last()) + row_samples(rows.last())
    }
}

/// Whether the timestamp of every sample that is reached can be aligned: an error among what the
/// samples give ends the export before the next one.
pub open spec fn reached_are_alignable<V, X, E>(
    samples: Seq<SampleView<V>>,
    start: int,
    align: Option<nat>,
    give: spec_fn(SampleView<V>) -> Result<Option<X>, E>,
) -> bool {
    forall|i: int|
        0 <= i < samples.len() && order::gathered(samples.take(i), give) is Ok ==> ts_is_alignable(
            (#[trigger] samples[i]).1.seq_id,
            start,
            align,
        )
}

/// Where the first `n` samples can be aligned and give an error, no later one is reached.
pub(crate) proof fn lemma_reached<V, X, E>(
    samples: Seq<SampleView<V>>,
    start: int,
    align: Option<nat>,
    give: spec_fn(SampleView<V>) -> Result<Option<X>, E>,
    n: int,
)
    requires
        0 <= n <= samples.len(),
        forall|i: int| 0 <= i < n ==> ts_is_alignable((#[trigger] samples[i]).1.seq_id, start, align),
        order::gathered(samples.take(n), give) is Err,
    ensures
        reached_are_alignable(samples, start, align, give),
{
    assert forall|i: int|
        0 <= i < samples.len() && order::gathered(samples.take(i), give) is Ok implies ts_is_alignable(
        (#[trigger] samples[i]).1.seq_id,
        start,
        align,
    ) by {
        if i >= n {
            assert(samples.take(i).take(n) =~= samples.take(n));
            order::lemma_gathered_error(samples.take(i), give, n);
        }
    }
}

/// Adds the snapshots of a row.
fn push_row<T: View>(out: &mut Vec<Sample<T>>, attrs: &Arc<Vec<KeyValue>>, snapshots: Vec<Snapshot<T>>)
    ensures
        order::views(final(out)@) == order::views(old(out)@) + row_samples(
            (model::attrs_view(attrs@), order::views(snapshots@)),
        ),
{
    let ghost row = (model::attrs_view(attrs@), order::views(snapshots@));
    let ghost added = row_samples(row);
    let mut rest = order::reversed(snapshots);
    assert(order::views(out@) =~= order::views(old(out)@) + added.take(0));
    while rest.len() > 0
        invariant
            rest@.len() <= added.len(),
            forall|k: int|
                0 <= k < rest@.len() ==> added[added.len() - 1 - k] == (
                    model::attrs_view(attrs@),
                    (#[trigger] rest@[k])@,
                ),
            order::views(out@) == order::views(old(out)@) + added.take(added.len() - rest@.len()),
        decreases rest@.len(),
    {
        let ghost done = added.len() - rest@.len();
        if let Some(snapshot) = rest.pop() {
            let ghost before = order::views(out@);
            let sample = Sample { attrs: model::share(attrs), snapshot };
            out.push(sample);
            assert(order::views(out@) =~= before.push(sample@));
            assert(added.take(done + 1) =~= added.take(done).push(sample@));
            assert(order::views(out@) =~= order::views(old(out)@) + added.take(done + 1));
        }
    }
    assert(added.take(added.len() as int) =~= added);
}

impl<T: View> Series<T> {
    /// The snapshots, one attribute set after the other.
    pub fn into_samples(self) -> (r: Vec<Sample<T>>)
        ensures
            order::views(r@) == samples(self@.series),
    {
        let ghost all = self@.series;
        let entries = self.series.into_entries();
        let mut rest = order::reversed(entries);
        let mut out: Vec<Sample<T>> = Vec::new();
        proof {
            assert(order::views(out@) =~= samples(all.take(0)));
            assert forall|k: int| 0 <= k < rest@.len() implies all[all.len() - 1 - k] == (
                model::attrs_view((#[trigger] rest@[k]).attrs@),
                order::views(rest@[k].value@),
            ) by {
                let entry = entries@[entries@.len() - 1 - k];
                assert(attr_map::entries_view(entries@)[entries@.len() - 1 - k] == entry@);
            }
        }
        while rest.len() > 0
            invariant
                rest@.len() <= all.len(),
                forall|k: int|
                    0 <= k < rest@.len() ==> all[all.len() - 1 - k] == (
                        model::attrs_view((#[trigger] rest@[k]).attrs@),
                        order::views(rest@[k].value@),
                    ),
                order::views(out@) == samples(all.take(all.len() - rest@.len())),
            decreases rest@.len(),
        {
            let ghost done = all.len() - rest@.len();
            if let Some(entry) = rest.pop() {
                push_row(&mut out, &entry.attrs, entry.value);
                assert(all.take(done + 1).drop_last() =~= all.take(done));
            }
        }
        assert(all.take(all.len() as int) =~= all);
        out
    }
}

} // verus!
