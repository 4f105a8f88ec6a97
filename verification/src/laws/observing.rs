//! Cells, and what observers see of them.

use crate::atomic::histogram;
use crate::atomic::{Amount, IsInitial, Measure, Reading, Record};
use crate::attr_map;
use crate::bucket_map;
use crate::bucket_map::BucketsView;
use crate::dto;
use crate::dto::Kind;
use crate::metric;
use crate::metric::{Counter, Gauge, Histogram};
use crate::model;
use crate::model::{KeyValue, KeyValueView};
use crate::observe;
use crate::observe::{MetricSource, Mode, ObserverView};
use crate::order;
use vstd::prelude::*;

verus! {

/// The attributes that a cell is kept under are those that were given, all of them and no others, in
/// order.
pub proof fn cells_keep_their_attributes(attrs: Seq<KeyValueView>)
    ensures
        bucket_map::canonical(attrs).to_multiset() == attrs.to_multiset(),
        bucket_map::canonical(attrs).len() == attrs.len(),
        order::in_order(bucket_map::canonical(attrs)),
{
    order::sorted_is_an_ordered_permutation(attrs);
}

/// An entry is found where its attributes equal those that are looked for, and is missing only where no
/// entry has such attributes.
pub proof fn entries_are_found_by_attributes<V>(entries: Seq<(Seq<KeyValueView>, V)>, attrs: Seq<KeyValueView>)
    ensures
        match attr_map::position_of(entries, attrs) {
            Some(i) => 0 <= i < entries.len() && model::rank_attrs(entries[i].0, attrs) == 0,
            None => forall|i: int|
                0 <= i < entries.len() ==> model::rank_attrs((#[trigger] entries[i]).0, attrs) != 0,
        },
    decreases entries.len(),
{
    if entries.len() > 0 {
        entries_are_found_by_attributes(entries.drop_last(), attrs);
        if attr_map::position_of(entries, attrs) is None {
            assert forall|i: int| 0 <= i < entries.len() implies model::rank_attrs(
                (#[trigger] entries[i]).0,
                attrs,
            ) != 0 by {
                if i < entries.len() - 1 {
                    assert(entries[i] == entries.drop_last()[i]);
                }
            }
        }
    }
}

/// A state that is put under no attributes is that of the cell without attributes, which is then one of
/// those that were recorded. One that is put under attributes leaves that cell as it was, and takes the
/// place of the state that was there, or the last place.
pub proof fn states_are_put_in_their_cell<S>(buckets: BucketsView<S>, attrs: Seq<KeyValueView>, state: S)
    ensures
        ({
            let after = bucket_map::with_state(buckets, attrs, state);
            &&& attrs.len() == 0 ==> {
                &&& after.no_attr == state
                &&& after.touched
                &&& after.series == buckets.series
            }
            &&& attrs.len() > 0 ==> {
                &&& after.no_attr == buckets.no_attr
                &&& after.touched == buckets.touched
                &&& match bucket_map::cell_of(buckets, attrs) {
                    Some(i) => {
                        &&& after.series.len() == buckets.series.len()
                        &&& after.series[i] == (buckets.series[i].0, state)
                        &&& forall|j: int|
                            0 <= j < buckets.series.len() && j != i ==> #[trigger] after.series[j]
                                == buckets.series[j]
                    },
                    None => {
                        &&& after.series.len() == buckets.series.len() + 1
                        &&& after.series.last() == (bucket_map::canonical(attrs), state)
                        &&& forall|j: int|
                            0 <= j < buckets.series.len() ==> #[trigger] after.series[j] == buckets.series[j]
                    },
                }
            }
        }),
{
    entries_are_found_by_attributes(buckets.series, bucket_map::canonical(attrs));
}

/// A cell goes on from the state it has, and a new one begins as an empty one does.
pub proof fn cells_go_on_from_their_state<T, A: Record<T>>(buckets: BucketsView<A::V>, attrs: Seq<KeyValueView>)
    ensures
        attrs.len() == 0 ==> bucket_map::start_state::<T, A>(buckets, attrs) == buckets.no_attr,
        attrs.len() > 0 ==> bucket_map::start_state::<T, A>(buckets, attrs) == match bucket_map::cell_of(
            buckets,
            attrs,
        ) {
            Some(i) => buckets.series[i].1,
            None => A::cleared(buckets.no_attr),
        },
{
}

/// What is read of a set of cells is a reading of each, under its attributes and in order. The cell
/// without attributes is the last, and only there where something was recorded in it.
pub proof fn every_cell_is_read<T, A: Record<T>>(buckets: BucketsView<A::V>)
    ensures
        ({
            let readings = bucket_map::readings::<T, A>(buckets);
            let n = buckets.series.len();
            &&& readings.len() == if buckets.touched {
                n + 1
            } else {
                n
            }
            &&& forall|i: int|
                0 <= i < n ==> (#[trigger] readings[i]).0 == buckets.series[i].0 && readings[i].1 == A::reading(
                    buckets.series[i].1,
                )
            &&& buckets.touched ==> readings[n as int].0.len() == 0 && readings[n as int].1 == A::reading(
                buckets.no_attr,
            )
        }),
{
}

/// Emptied cells are the cell without attributes alone, as it began, with nothing recorded.
pub proof fn emptied_cells_begin_again<T, A: Record<T>>(buckets: BucketsView<A::V>)
    ensures
        bucket_map::emptied::<T, A>(buckets).no_attr == A::cleared(buckets.no_attr),
        !bucket_map::emptied::<T, A>(buckets).touched,
        bucket_map::emptied::<T, A>(buckets).series.len() == 0,
        bucket_map::readings::<T, A>(bucket_map::emptied::<T, A>(buckets)).len() == 0,
{
}

/// Of a list of cells exactly those stay that were to be kept, in their order.
pub proof fn kept_cells_stay_in_order<S>(
    series: Seq<(Seq<KeyValueView>, S)>,
    verdicts: Seq<bool>,
    entry: (Seq<KeyValueView>, S),
    verdict: bool,
)
    requires
        series.len() == verdicts.len(),
    ensures
        bucket_map::kept(Seq::<(Seq<KeyValueView>, S)>::empty(), Seq::empty()).len() == 0,
        bucket_map::kept(series.push(entry), verdicts.push(verdict)) == if verdict {
            bucket_map::kept(series, verdicts).push(entry)
        } else {
            bucket_map::kept(series, verdicts)
        },
{
    assert(series.push(entry).drop_last() =~= series);
    assert(verdicts.push(verdict).drop_last() =~= verdicts);
}

/// A verdict on a cell is one on its own attributes and its own state.
pub proof fn verdicts_are_on_the_cell<T, A: Record<T>, F: Fn(&Vec<KeyValue>, &A) -> bool>(
    keep: F,
    entry: (Seq<KeyValueView>, A::V),
    verdict: bool,
    expected: bool,
)
    requires
        bucket_map::judged::<T, A, F>(keep, entry, verdict),
        forall|attrs: &Vec<KeyValue>, bucket: &A, given: bool| #[trigger]
            keep.ensures((attrs, bucket), given) && model::attrs_view(attrs@) == entry.0 && bucket@ == entry.1
                ==> given == expected,
    ensures
        verdict == expected,
{
}

proof fn lemma_not_initial<S: Reading>(readings: Seq<(Seq<KeyValueView>, S::V)>)
    ensures
        forall|i: int|
            0 <= i < readings.len() && !S::initial((#[trigger] readings[i]).1) ==> observe::not_initial::<S>(
                readings,
            ).contains(readings[i]),
        forall|i: int|
            0 <= i < observe::not_initial::<S>(readings).len() ==> {
                &&& readings.contains(#[trigger] observe::not_initial::<S>(readings)[i])
                &&& !S::initial(observe::not_initial::<S>(readings)[i].1)
            },
        observe::not_initial::<S>(readings).len() <= readings.len(),
    decreases readings.len(),
{
    if readings.len() > 0 {
        let before = readings.drop_last();
        let last = readings.len() - 1;
        lemma_not_initial::<S>(before);
        let rest = observe::not_initial::<S>(before);
        let all = observe::not_initial::<S>(readings);
        assert(readings[last] == readings.last());
        assert forall|i: int| 0 <= i < readings.len() && !S::initial((#[trigger] readings[i]).1) implies all.contains(
            readings[i],
        ) by {
            if i < last {
                assert(readings[i] == before[i]);
                let j = choose|j: int| 0 <= j < rest.len() && rest[j] == before[i];
                assert(all[j] == rest[j]);
            } else {
                assert(all[rest.len() as int] == readings.last());
            }
        }
        assert forall|i: int| 0 <= i < all.len() implies readings.contains(#[trigger] all[i]) && !S::initial(
            all[i].1,
        ) by {
            if i < rest.len() {
                assert(all[i] == rest[i]);
                assert(before.contains(rest[i]));
                let j = choose|j: int| 0 <= j < before.len() && before[j] == rest[i];
                assert(readings[j] == rest[i]);
            } else {
                assert(all[i] == readings[last]);
            }
        }
    }
}

/// What is drained of a set of cells is a reading of each that has recorded anything, under its
/// attributes, the cell without attributes included; and nothing else.
pub proof fn draining_takes_what_was_recorded<T, A: Record<T>>(buckets: BucketsView<A::V>)
    ensures
        ({
            let drained = observe::drained::<T, A>(buckets);
            &&& forall|i: int|
                0 <= i < buckets.series.len() && !<A::Snapshot as IsInitial>::initial(
                    A::reading((#[trigger] buckets.series[i]).1),
                ) ==> drained.contains((buckets.series[i].0, A::reading(buckets.series[i].1)))
            &&& !<A::Snapshot as IsInitial>::initial(A::reading(buckets.no_attr))
                ==> drained.contains((Seq::empty(), A::reading(buckets.no_attr)))
            &&& forall|i: int|
                0 <= i < drained.len() ==> {
                    &&& !<A::Snapshot as IsInitial>::initial((#[trigger] drained[i]).1)
                    &&& {
                        ||| drained[i] == (Seq::<KeyValueView>::empty(), A::reading(buckets.no_attr))
                        ||| exists|j: int|
                            0 <= j < buckets.series.len() && drained[i] == (
                                (#[trigger] buckets.series[j]).0,
                                A::reading(buckets.series[j].1),
                            )
                    }
                }
        }),
{
    let with_attrs = buckets.series.map_values(
        |entry: bucket_map::SeriesView<A::V>| (entry.0, A::reading(entry.1)),
    );
    let all = with_attrs.push((Seq::empty(), A::reading(buckets.no_attr)));
    let drained = observe::drained::<T, A>(buckets);
    assert(drained == observe::not_initial::<A::Snapshot>(all));
    lemma_not_initial::<A::Snapshot>(all);
    assert forall|i: int|
        0 <= i < buckets.series.len() && !<A::Snapshot as IsInitial>::initial(
            A::reading((#[trigger] buckets.series[i]).1),
        ) implies drained.contains((buckets.series[i].0, A::reading(buckets.series[i].1))) by {
        assert(all[i] == (buckets.series[i].0, A::reading(buckets.series[i].1)));
    }
    assert(all[buckets.series.len() as int] == (Seq::<KeyValueView>::empty(), A::reading(buckets.no_attr)));
    assert forall|i: int| 0 <= i < drained.len() implies {
        ||| (#[trigger] drained[i]) == (Seq::<KeyValueView>::empty(), A::reading(buckets.no_attr))
        ||| exists|j: int|
            0 <= j < buckets.series.len() && drained[i] == (
                (#[trigger] buckets.series[j]).0,
                A::reading(buckets.series[j].1),
            )
    } by {
        assert(all.contains(drained[i]));
        let j = choose|j: int| 0 <= j < all.len() && all[j] == drained[i];
        if j < buckets.series.len() {
            assert(all[j] == (buckets.series[j].0, A::reading(buckets.series[j].1)));
        }
    }
}

/// A first value is reported whole. A value that stayed is not reported, one that grew is reported as what
/// it grew by, and one that fell, and so began again, whole.
pub proof fn differences_are_what_is_new(previous: u64, current: u64, signed_before: i64, signed: i64)
    ensures
        observe::difference::<u64>(None, current) == Some(current),
        previous == current ==> observe::difference::<u64>(Some(previous), current) is None,
        previous < current ==> observe::difference::<u64>(Some(previous), current) == Some(
            (current - previous) as u64,
        ),
        previous > current ==> observe::difference::<u64>(Some(previous), current) == Some(current),
        observe::difference::<i64>(None, signed) == Some(signed),
        signed_before == signed ==> observe::difference::<i64>(Some(signed_before), signed) is None,
        signed_before < signed && signed - signed_before <= i64::MAX ==> observe::difference::<i64>(
            Some(signed_before),
            signed,
        ) == Some((signed - signed_before) as i64),
        signed_before > signed ==> observe::difference::<i64>(Some(signed_before), signed) == Some(signed),
{
}

/// A first histogram is reported whole. One that stayed is not reported. One that counts more is reported
/// as what it gained, under the same boundaries, and one that counts no more, but changed, whole.
pub proof fn histogram_differences_are_what_is_new<T: Amount>(
    previous: histogram::SnapshotView<T>,
    current: histogram::SnapshotView<T>,
)
    requires
        current.boundaries == previous.boundaries,
        current.bucket_counts.len() == current.boundaries.len() + 1,
        previous.bucket_counts.len() == previous.boundaries.len() + 1,
    ensures
        ({
            let first = observe::difference::<histogram::Snapshot<T>>(None, current);
            let next = observe::difference::<histogram::Snapshot<T>>(Some(previous), current);
            let stayed = <histogram::Snapshot<T> as Reading>::same(previous, current);
            &&& first == Some(current)
            &&& stayed ==> next is None
            &&& !stayed && previous.count < current.count ==> {
                &&& next is Some
                &&& next->0.boundaries == current.boundaries
                &&& next->0.bucket_counts.len() == current.boundaries.len() + 1
                &&& next->0.count == current.count - previous.count
            }
            &&& !stayed && previous.count >= current.count ==> next == Some(current)
        }),
{
}

/// A snapshot is put behind those of its attributes, as it is; all other rows stay.
pub proof fn snapshots_are_put_behind<R>(
    series: Seq<dto::RowView<R>>,
    attrs: Seq<KeyValueView>,
    snapshot: dto::SnapshotView<R>,
)
    ensures
        ({
            let after = observe::with_snapshot(series, attrs, snapshot);
            match attr_map::position_of(series, attrs) {
                Some(i) => {
                    &&& after.len() == series.len()
                    &&& after[i] == (series[i].0, series[i].1.push(snapshot))
                    &&& forall|j: int| 0 <= j < series.len() && j != i ==> #[trigger] after[j] == series[j]
                },
                None => {
                    &&& after.len() == series.len() + 1
                    &&& after.last().0 == attrs
                    &&& after.last().1.len() == 1
                    &&& after.last().1[0] == snapshot
                    &&& forall|j: int| 0 <= j < series.len() ==> #[trigger] after[j] == series[j]
                },
            }
        }),
{
    entries_are_found_by_attributes(series, attrs);
}

/// The samples of a series are the snapshots of its rows, one row after the other and each row in order,
/// each with the attributes of its row.
pub proof fn samples_are_those_of_the_rows<V>(rows: Seq<dto::RowView<V>>, row: dto::RowView<V>, i: int)
    ensures
        dto::samples(Seq::<dto::RowView<V>>::empty()).len() == 0,
        dto::samples(rows.push(row)).len() == dto::samples(rows).len() + row.1.len(),
        0 <= i < dto::samples(rows).len() ==> dto::samples(rows.push(row))[i] == dto::samples(rows)[i],
        0 <= i < row.1.len() ==> dto::samples(rows.push(row))[dto::samples(rows).len() + i] == (row.0, row.1[i]),
{
    assert(rows.push(row).drop_last() =~= rows);
}

/// A sample keeps its own time, unless a period is given; then its number is multiplied with the period,
/// as far as that is a number of 32 bits.
pub proof fn timestamps_are_kept_or_aligned(ts: int, seq_id: u64, start: int, period: nat)
    ensures
        dto::aligned_ts(ts, seq_id, start, None) == ts,
        seq_id > 0xffff_ffff ==> dto::aligned_ts(ts, seq_id, start, Some(period)) == ts,
        seq_id <= 0xffff_ffff ==> dto::aligned_ts(ts, seq_id, start, Some(period)) == start + seq_id * period,
{
    assert(period * (seq_id as nat) == seq_id * period) by (nonlinear_arith);
}

/// A new observer has seen nothing. It remembers values exactly where it is to report differences.
pub proof fn new_observers_have_seen_nothing<R>(
    start_time: int,
    id: model::NameIdentityView,
    mode: Mode,
    kind: Kind,
)
    ensures
        ({
            let observer: ObserverView<R> = observe::fresh_observer(start_time, id, mode, kind);
            &&& observer.start_time == start_time
            &&& observer.seq == 0
            &&& observer.id == id
            &&& observer.series.len() == 0
            &&& observer.observe_mode == mode
            &&& observer.kind == kind
            &&& observer.last_values is Some <==> mode is Delta
            &&& observer.last_values matches Some(values) ==> values.len() == 0
        }),
{
}

/// What an observer hands out is what it has seen, under its own identity, start, mode and kind.
pub proof fn taken_series_are_what_was_seen<R>(observer: ObserverView<R>)
    ensures
        observe::taken_series(observer).start_time == observer.start_time,
        observe::taken_series(observer).id == observer.id,
        observe::taken_series(observer).series == observer.series,
        observe::taken_series(observer).observe_mode == observer.observe_mode,
        observe::taken_series(observer).kind == observer.kind,
{
}

/// The amount of a counter or a gauge is what its cell holds, and zero where nothing was recorded. A
/// histogram in which nothing was recorded is empty, under the boundaries of the others.
pub proof fn amounts_are_those_of_the_cells<T: Measure>(
    cells: BucketsView<T>,
    histograms: BucketsView<histogram::BucketView<T>>,
    attrs: Seq<KeyValueView>,
)
    ensures
        attrs.len() == 0 ==> metric::amount_of(cells, attrs) == cells.no_attr,
        attrs.len() > 0 ==> metric::amount_of(cells, attrs) == match bucket_map::cell_of(cells, attrs) {
            Some(i) => cells.series[i].1,
            None => T::zero(),
        },
        attrs.len() == 0 ==> metric::histogram_of(histograms, attrs) == histograms.no_attr,
        attrs.len() > 0 ==> match bucket_map::cell_of(histograms, attrs) {
            Some(i) => metric::histogram_of(histograms, attrs) == histograms.series[i].1,
            None => {
                let empty = metric::histogram_of(histograms, attrs);
                &&& empty.boundaries == histograms.no_attr.boundaries
                &&& empty.count == 0
                &&& empty.sum == T::zero()
                &&& empty.bucket_counts.len() == empty.boundaries.len() + 1
                &&& forall|i: int| 0 <= i < empty.bucket_counts.len() ==> #[trigger] empty.bucket_counts[i] == 0
            },
        },
{
}

/// Every metric is of the kind that its name says.
pub proof fn metrics_have_their_kind<T: Measure>(counter: Counter<T>, gauge: Gauge<T>, histogram: Histogram<T>)
    ensures
        counter.metric_kind() is Counter,
        gauge.metric_kind() is Gauge,
        histogram.metric_kind() is Histogram,
{
}

/// A polled source is emptied where it is drained, and only there.
pub proof fn polling_empties_what_is_drained<T, A: Record<T>>(mode: Mode, buckets: BucketsView<A::V>)
    ensures
        mode is Destructive ==> observe::after_poll::<T, A>(mode, buckets).series.len() == 0
            && !observe::after_poll::<T, A>(mode, buckets).touched && observe::after_poll::<T, A>(
            mode,
            buckets,
        ).no_attr == A::cleared(buckets.no_attr),
        mode !is Destructive ==> observe::after_poll::<T, A>(mode, buckets) == buckets,
{
}

} // verus!
