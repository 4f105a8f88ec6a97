//! What polls report of a source, from one poll to the next.

use crate::atomic::histogram;
use crate::atomic::integers::{AtomicI64, AtomicU64};
use crate::atomic::{Amount, Measure, Reading, Record};
use crate::attr_map;
use crate::bucket_map;
use crate::dto;
use crate::model;
use crate::observe;
use crate::observe::{Mode, ObserverView};
use vstd::prelude::*;

verus! {

/// Values under attribute sets with that of one set put in.
spec fn put<V>(
    entries: Seq<(Seq<model::KeyValueView>, V)>,
    attrs: Seq<model::KeyValueView>,
    value: V,
) -> Seq<(Seq<model::KeyValueView>, V)> {
    match attr_map::position_of(entries, attrs) {
        Some(i) => entries.update(i, (entries[i].0, value)),
        None => entries.push((attrs, value)),
    }
}

proof fn lemma_equal_sets_share_a_position<V>(
    entries: Seq<(Seq<model::KeyValueView>, V)>,
    a: Seq<model::KeyValueView>,
    b: Seq<model::KeyValueView>,
)
    requires
        model::rank_attrs(a, b) == 0,
    ensures
        attr_map::position_of(entries, a) == attr_map::position_of(entries, b),
    decreases entries.len(),
{
    if entries.len() > 0 {
        model::equal_attrs_is_an_equivalence(entries.last().0, a, b);
        model::equal_attrs_is_an_equivalence(a, b, a);
        model::equal_attrs_is_an_equivalence(entries.last().0, b, a);
        lemma_equal_sets_share_a_position(entries.drop_last(), a, b);
    }
}

/// What is put in under an attribute set is found for every equal one, and nothing else changes.
proof fn lemma_put<V>(
    entries: Seq<(Seq<model::KeyValueView>, V)>,
    attrs: Seq<model::KeyValueView>,
    value: V,
    key: Seq<model::KeyValueView>,
)
    ensures
        observe::last_value(put(entries, attrs, value), key) == if model::rank_attrs(attrs, key) == 0 {
            Some(value)
        } else {
            observe::last_value(entries, key)
        },
{
    let after = put(entries, attrs, value);
    attr_map::lemma_position(entries, attrs);
    attr_map::lemma_position(entries, key);
    if model::rank_attrs(attrs, key) == 0 {
        lemma_equal_sets_share_a_position(entries, attrs, key);
    }
    match attr_map::position_of(entries, attrs) {
        Some(i) => {
            attr_map::lemma_position_by_keys(after, entries, key);
            if model::rank_attrs(attrs, key) != 0 && attr_map::position_of(entries, key) == Some(i) {
                model::equal_attrs_is_an_equivalence(entries[i].0, attrs, attrs);
                model::equal_attrs_is_an_equivalence(attrs, entries[i].0, key);
            }
        },
        None => {
            assert(after.drop_last() =~= entries);
        },
    }
}

/// The snapshots taken for an attribute set.
pub open spec fn snapshots_of<R>(
    series: Seq<dto::RowView<R>>,
    attrs: Seq<model::KeyValueView>,
) -> Seq<dto::SnapshotView<R>> {
    match observe::last_value(series, attrs) {
        Some(snapshots) => snapshots,
        None => Seq::empty(),
    }
}

/// The value last seen for an attribute set, where differences are reported.
pub open spec fn remembered<R>(observer: ObserverView<R>, attrs: Seq<model::KeyValueView>) -> Option<R> {
    match observer.last_values {
        Some(last_values) => observe::last_value(last_values, attrs),
        None => None,
    }
}

/// What an observer reports of a value: the difference from what it saw last where it reports
/// differences, and otherwise the value as it is.
pub open spec fn reported<S: Reading>(
    observer: ObserverView<S::V>,
    attrs: Seq<model::KeyValueView>,
    current: S::V,
) -> Option<S::V> {
    match observer.last_values {
        Some(last_values) => observe::difference::<S>(observe::last_value(last_values, attrs), current),
        None => Some(current),
    }
}

/// Whether `after` is an observer that has seen a value for an attribute set once: what it reports of
/// the value is one snapshot more, and what it remembers is the value.
pub open spec fn has_seen<S: Reading>(
    before: ObserverView<S::V>,
    after: ObserverView<S::V>,
    attrs: Seq<model::KeyValueView>,
    current: S::V,
    ts: int,
) -> bool {
    match reported::<S>(before, attrs, current) {
        Some(value) => {
            &&& snapshots_of(after.series, attrs) == snapshots_of(before.series, attrs).push(
                dto::SnapshotView { ts, seq_id: before.seq, value },
            )
            &&& before.last_values is Some ==> remembered(after, attrs) == Some(current)
        },
        None => is_untouched(before, after, attrs),
    }
}

/// Whether nothing has changed for an attribute set.
pub open spec fn is_untouched<R>(
    before: ObserverView<R>,
    after: ObserverView<R>,
    attrs: Seq<model::KeyValueView>,
) -> bool {
    &&& snapshots_of(after.series, attrs) == snapshots_of(before.series, attrs)
    &&& remembered(after, attrs) == remembered(before, attrs)
}

proof fn lemma_seen<S: Reading>(
    observer: ObserverView<S::V>,
    attrs: Seq<model::KeyValueView>,
    current: S::V,
    ts: int,
    key: Seq<model::KeyValueView>,
)
    ensures
        model::rank_attrs(attrs, key) != 0 ==> is_untouched(
            observer,
            observe::seen::<S>(observer, attrs, current, ts),
            key,
        ),
        has_seen::<S>(observer, observe::seen::<S>(observer, attrs, current, ts), attrs, current, ts),
{
    model::equal_attrs_is_an_equivalence(attrs, attrs, attrs);
    if let Some(value) = reported::<S>(observer, attrs, current) {
        let snapshot = dto::SnapshotView { ts, seq_id: observer.seq, value };
        let row = snapshots_of(observer.series, attrs).push(snapshot);
        assert(seq![snapshot] =~= Seq::<dto::SnapshotView<S::V>>::empty().push(snapshot));
        assert(observe::with_snapshot(observer.series, attrs, snapshot) == put(observer.series, attrs, row));
        lemma_put(observer.series, attrs, row, key);
        lemma_put(observer.series, attrs, row, attrs);
        if let Some(last_values) = observer.last_values {
            assert(observe::with_last_value(last_values, attrs, current) == put(last_values, attrs, current));
            lemma_put(last_values, attrs, current, key);
            lemma_put(last_values, attrs, current, attrs);
        }
    }
}

proof fn lemma_seen_all_keeps_differences<S: Reading>(
    observer: ObserverView<S::V>,
    readings: Seq<(Seq<model::KeyValueView>, S::V)>,
    ts: int,
)
    ensures
        observe::seen_all::<S>(observer, readings, ts).last_values is Some <==> observer.last_values is Some,
    decreases readings.len(),
{
    if readings.len() > 0 {
        lemma_seen_all_keeps_differences::<S>(observer, readings.drop_last(), ts);
    }
}

proof fn lemma_seen_all_elsewhere<S: Reading>(
    observer: ObserverView<S::V>,
    readings: Seq<(Seq<model::KeyValueView>, S::V)>,
    ts: int,
    key: Seq<model::KeyValueView>,
)
    requires
        forall|i: int| 0 <= i < readings.len() ==> model::rank_attrs((#[trigger] readings[i]).0, key) != 0,
    ensures
        is_untouched(observer, observe::seen_all::<S>(observer, readings, ts), key),
        observe::seen_all::<S>(observer, readings, ts).seq == observer.seq,
    decreases readings.len(),
{
    if readings.len() > 0 {
        let before = readings.drop_last();
        assert forall|i: int| 0 <= i < before.len() implies model::rank_attrs((#[trigger] before[i]).0, key) != 0 by {
            assert(before[i] == readings[i]);
        }
        lemma_seen_all_elsewhere::<S>(observer, before, ts, key);
        assert(readings[readings.len() - 1] == readings.last());
        lemma_seen::<S>(
            observe::seen_all::<S>(observer, before, ts),
            readings.last().0,
            readings.last().1,
            ts,
            key,
        );
    }
}

proof fn lemma_seen_all_once<S: Reading>(
    observer: ObserverView<S::V>,
    readings: Seq<(Seq<model::KeyValueView>, S::V)>,
    ts: int,
    at: int,
)
    requires
        attr_map::keys_are_distinct(readings),
        0 <= at < readings.len(),
    ensures
        has_seen::<S>(
            observer,
            observe::seen_all::<S>(observer, readings, ts),
            readings[at].0,
            readings[at].1,
            ts,
        ),
    decreases readings.len(),
{
    let before = readings.drop_last();
    let key = readings[at].0;
    let between = observe::seen_all::<S>(observer, before, ts);
    lemma_seen_all_keeps_differences::<S>(observer, before, ts);
    if at == readings.len() - 1 {
        assert forall|i: int| 0 <= i < before.len() implies model::rank_attrs((#[trigger] before[i]).0, key) != 0 by {
            assert(model::rank_attrs(readings[i].0, readings[at].0) != 0);
        }
        lemma_seen_all_elsewhere::<S>(observer, before, ts, key);
        lemma_seen::<S>(between, key, readings[at].1, ts, key);
    } else {
        assert forall|i: int, j: int| 0 <= i < j < before.len() implies model::rank_attrs(
            #[trigger] before[i].0,
            #[trigger] before[j].0,
        ) != 0 by {
            assert(model::rank_attrs(readings[i].0, readings[j].0) != 0);
        }
        lemma_seen_all_once::<S>(observer, before, ts, at);
        let last = readings[readings.len() - 1];
        assert(model::rank_attrs(readings[at].0, last.0) != 0);
        model::equal_attrs_is_an_equivalence(last.0, key, last.0);
        lemma_seen::<S>(between, last.0, last.1, ts, key);
    }
}

/// What a poll sees of a source: all its values, and where it drains the source, those of cells that
/// hold something.
pub open spec fn visible<T, A: Record<T>>(mode: Mode, buckets: bucket_map::BucketsView<A::V>) -> Seq<
    (Seq<model::KeyValueView>, <A::Snapshot as View>::V),
> {
    if mode is Destructive {
        observe::drained::<T, A>(buckets)
    } else {
        bucket_map::readings::<T, A>(buckets)
    }
}

proof fn lemma_not_initial_members<S: Reading>(readings: Seq<(Seq<model::KeyValueView>, S::V)>)
    requires
        attr_map::keys_are_distinct(readings),
    ensures
        attr_map::keys_are_distinct(observe::not_initial::<S>(readings)),
        forall|i: int|
            0 <= i < observe::not_initial::<S>(readings).len() ==> readings.contains(
                #[trigger] observe::not_initial::<S>(readings)[i],
            ),
    decreases readings.len(),
{
    if readings.len() > 0 {
        let before = readings.drop_last();
        let last = readings.last();
        assert forall|i: int, j: int| 0 <= i < j < before.len() implies model::rank_attrs(
            #[trigger] before[i].0,
            #[trigger] before[j].0,
        ) != 0 by {
            assert(model::rank_attrs(readings[i].0, readings[j].0) != 0);
        }
        lemma_not_initial_members::<S>(before);
        let rest = observe::not_initial::<S>(before);
        let all = observe::not_initial::<S>(readings);
        assert(readings[readings.len() - 1] == last);
        assert forall|i: int| 0 <= i < all.len() implies readings.contains(#[trigger] all[i]) by {
            if i < rest.len() {
                assert(before.contains(rest[i]));
                let k = choose|k: int| 0 <= k < before.len() && before[k] == rest[i];
                assert(readings[k] == all[i]);
            }
        }
        assert forall|i: int, j: int| 0 <= i < j < all.len() implies model::rank_attrs(
            #[trigger] all[i].0,
            #[trigger] all[j].0,
        ) != 0 by {
            if j < rest.len() {
                assert(model::rank_attrs(rest[i].0, rest[j].0) != 0);
            } else {
                assert(before.contains(rest[i]));
                let k = choose|k: int| 0 <= k < before.len() && before[k] == rest[i];
                assert(model::rank_attrs(readings[k].0, readings[readings.len() - 1].0) != 0);
            }
        }
    }
}

/// No attribute set has two cells, the set without attributes included.
pub open spec fn cells_are_distinct<S>(buckets: bucket_map::BucketsView<S>) -> bool {
    attr_map::keys_are_distinct(buckets.series.push((Seq::empty(), buckets.no_attr)))
}

proof fn lemma_visible_distinct<T, A: Record<T>>(mode: Mode, buckets: bucket_map::BucketsView<A::V>)
    requires
        cells_are_distinct(buckets),
    ensures
        attr_map::keys_are_distinct(visible::<T, A>(mode, buckets)),
{
    let cells = buckets.series.push((Seq::empty(), buckets.no_attr));
    let with_attrs = buckets.series.map_values(
        |entry: bucket_map::SeriesView<A::V>| (entry.0, A::reading(entry.1)),
    );
    let all = with_attrs.push((Seq::empty(), A::reading(buckets.no_attr)));
    assert forall|i: int, j: int| 0 <= i < j < all.len() implies model::rank_attrs(
        #[trigger] all[i].0,
        #[trigger] all[j].0,
    ) != 0 by {
        assert(cells[i].0 == all[i].0 && cells[j].0 == all[j].0);
    }
    lemma_not_initial_members::<A::Snapshot>(all);
    let seen = bucket_map::readings::<T, A>(buckets);
    assert forall|i: int, j: int| 0 <= i < j < seen.len() implies model::rank_attrs(
        #[trigger] seen[i].0,
        #[trigger] seen[j].0,
    ) != 0 by {
        assert(all[i].0 == seen[i].0 && all[j].0 == seen[j].0);
    }
}

/// A poll reports every value that it sees exactly once, under the poll index at its beginning.
pub proof fn values_are_reported_once<T, A: Record<T>>(
    observer: ObserverView<<A::Snapshot as View>::V>,
    buckets: bucket_map::BucketsView<A::V>,
    ts: int,
    at: int,
)
    requires
        cells_are_distinct(buckets),
        0 <= at < visible::<T, A>(observer.observe_mode, buckets).len(),
    ensures
        has_seen::<A::Snapshot>(
            observer,
            observe::observed::<T, A>(observer, buckets, ts),
            visible::<T, A>(observer.observe_mode, buckets)[at].0,
            visible::<T, A>(observer.observe_mode, buckets)[at].1,
            ts,
        ),
{
    lemma_visible_distinct::<T, A>(observer.observe_mode, buckets);
    lemma_seen_all_once::<A::Snapshot>(observer, visible::<T, A>(observer.observe_mode, buckets), ts, at);
}

/// A poll changes nothing for attribute sets of which it sees no value.
pub proof fn unseen_sets_are_untouched<T, A: Record<T>>(
    observer: ObserverView<<A::Snapshot as View>::V>,
    buckets: bucket_map::BucketsView<A::V>,
    ts: int,
    attrs: Seq<model::KeyValueView>,
)
    requires
        forall|i: int|
            0 <= i < visible::<T, A>(observer.observe_mode, buckets).len() ==> model::rank_attrs(
                (#[trigger] visible::<T, A>(observer.observe_mode, buckets)[i]).0,
                attrs,
            ) != 0,
    ensures
        is_untouched(observer, observe::observed::<T, A>(observer, buckets, ts), attrs),
{
    lemma_seen_all_elsewhere::<A::Snapshot>(
        observer,
        visible::<T, A>(observer.observe_mode, buckets),
        ts,
        attrs,
    );
}

/// Observing by value or by difference does not affect the source in any way.
pub proof fn observing_leaves_the_source<T, A: Record<T>>(mode: Mode, buckets: bucket_map::BucketsView<A::V>)
    requires
        mode !is Destructive,
    ensures
        observe::after_poll::<T, A>(mode, buckets) == buckets,
{
}

/// Draining resets the source: nothing is left to see, the cell without attributes is as it began, and no
/// other cell is left.
pub proof fn draining_resets_the_source<T, A: Record<T>>(buckets: bucket_map::BucketsView<A::V>)
    ensures
        bucket_map::readings::<T, A>(observe::after_poll::<T, A>(Mode::Destructive, buckets)).len() == 0,
        forall|attrs: Seq<model::KeyValueView>| #[trigger]
            bucket_map::state_of(observe::after_poll::<T, A>(Mode::Destructive, buckets), attrs)
                == if attrs.len() == 0 {
                Some(A::cleared(buckets.no_attr))
            } else {
                None
            },
{
}

/// The sum of an amount over snapshots.
pub open spec fn total<R>(snapshots: Seq<dto::SnapshotView<R>>, amount: spec_fn(R) -> int) -> int
    decreases snapshots.len(),
{
    if snapshots.len() == 0 {
        0
    } else {
        total(snapshots.drop_last(), amount) + amount(snapshots.last().value)
    }
}

/// An amount of a reading, or zero where there is none.
pub open spec fn amount_of<R>(reading: Option<R>, amount: spec_fn(R) -> int) -> int {
    match reading {
        Some(reading) => amount(reading),
        None => 0,
    }
}

/// What happens to an observer: polls of a source as it then is, and exports.
pub ghost enum Event<S> {
    Poll { buckets: bucket_map::BucketsView<S>, ts: int },
    Export,
}

/// An observer after events, one after the other.
pub open spec fn after_events<T, A: Record<T>>(
    observer: ObserverView<<A::Snapshot as View>::V>,
    events: Seq<Event<A::V>>,
) -> ObserverView<<A::Snapshot as View>::V>
    decreases events.len(),
{
    if events.len() == 0 {
        observer
    } else {
        let before = after_events::<T, A>(observer, events.drop_last());
        match events.last() {
            Event::Poll { buckets, ts } => observe::observed::<T, A>(before, buckets, ts),
            Event::Export => ObserverView { series: Seq::empty(), ..before },
        }
    }
}

/// The sum of an amount over what events export for an attribute set.
pub open spec fn exported_total<T, A: Record<T>>(
    observer: ObserverView<<A::Snapshot as View>::V>,
    events: Seq<Event<A::V>>,
    attrs: Seq<model::KeyValueView>,
    amount: spec_fn(<A::Snapshot as View>::V) -> int,
) -> int
    decreases events.len(),
{
    if events.len() == 0 {
        0
    } else {
        let before = after_events::<T, A>(observer, events.drop_last());
        exported_total::<T, A>(observer, events.drop_last(), attrs, amount) + match events.last() {
            Event::Poll { .. } => 0,
            Event::Export => total(snapshots_of(observe::taken_series(before).series, attrs), amount),
        }
    }
}

/// The sum of an amount over all that was reported for an attribute set: what was exported, and what is
/// yet to be exported.
pub open spec fn reported_total<T, A: Record<T>>(
    observer: ObserverView<<A::Snapshot as View>::V>,
    events: Seq<Event<A::V>>,
    attrs: Seq<model::KeyValueView>,
    amount: spec_fn(<A::Snapshot as View>::V) -> int,
) -> int {
    exported_total::<T, A>(observer, events, attrs, amount) + total(
        snapshots_of(after_events::<T, A>(observer, events).series, attrs),
        amount,
    )
}

/// The reading for an attribute set that polls saw last, or that there was in the beginning.
pub open spec fn last_reading<T, A: Record<T>>(
    start: Option<<A::Snapshot as View>::V>,
    events: Seq<Event<A::V>>,
    attrs: Seq<model::KeyValueView>,
) -> Option<<A::Snapshot as View>::V>
    decreases events.len(),
{
    if events.len() == 0 {
        start
    } else {
        let before = last_reading::<T, A>(start, events.drop_last(), attrs);
        match events.last() {
            Event::Poll { buckets, .. } => match observe::last_value(
                visible::<T, A>(Mode::Delta, buckets),
                attrs,
            ) {
                Some(reading) => Some(reading),
                None => before,
            },
            Event::Export => before,
        }
    }
}

/// Whether every reading that polls see for an attribute set has grown from the one that the observer
/// remembers, and all polls see sources in which no attribute set has two cells.
pub open spec fn only_grows<T, A: Record<T>>(
    observer: ObserverView<<A::Snapshot as View>::V>,
    events: Seq<Event<A::V>>,
    attrs: Seq<model::KeyValueView>,
    has_grown: spec_fn(<A::Snapshot as View>::V, <A::Snapshot as View>::V) -> bool,
) -> bool {
    forall|i: int|
        0 <= i < events.len() ==> match #[trigger] events[i] {
            Event::Poll { buckets, .. } => {
                &&& cells_are_distinct(buckets)
                &&& match (
                    remembered(after_events::<T, A>(observer, events.take(i)), attrs),
                    observe::last_value(visible::<T, A>(Mode::Delta, buckets), attrs),
                ) {
                    (Some(previous), Some(current)) => has_grown(previous, current),
                    _ => true,
                }
            },
            Event::Export => true,
        }
}

/// Whether of readings that have grown the growth of an amount is what is reported.
spec fn growth_is_reported<S: Reading>(
    has_grown: spec_fn(S::V, S::V) -> bool,
    amount: spec_fn(S::V) -> int,
) -> bool {
    forall|previous: S::V, current: S::V| #[trigger]
        has_grown(previous, current) ==> amount_of(
            observe::difference::<S>(Some(previous), current),
            amount,
        ) == amount(current) - amount(previous)
}

/// What a poll reports for an attribute set, and what the observer remembers of it.
proof fn lemma_polled<T, A: Record<T>>(
    observer: ObserverView<<A::Snapshot as View>::V>,
    buckets: bucket_map::BucketsView<A::V>,
    ts: int,
    attrs: Seq<model::KeyValueView>,
    amount: spec_fn(<A::Snapshot as View>::V) -> int,
)
    requires
        observer.observe_mode is Delta,
        observer.last_values is Some,
        cells_are_distinct(buckets),
    ensures
        ({
            let after = observe::observed::<T, A>(observer, buckets, ts);
            let before = total(snapshots_of(observer.series, attrs), amount);
            &&& after.observe_mode is Delta
            &&& after.last_values is Some
            &&& match observe::last_value(visible::<T, A>(Mode::Delta, buckets), attrs) {
                Some(current) => {
                    let difference = observe::difference::<A::Snapshot>(remembered(observer, attrs), current);
                    &&& total(snapshots_of(after.series, attrs), amount) == before + amount_of(
                        difference,
                        amount,
                    )
                    &&& remembered(after, attrs) == if difference is Some {
                        Some(current)
                    } else {
                        remembered(observer, attrs)
                    }
                },
                None => {
                    &&& total(snapshots_of(after.series, attrs), amount) == before
                    &&& remembered(after, attrs) == remembered(observer, attrs)
                },
            }
        }),
{
    let seen = visible::<T, A>(Mode::Delta, buckets);
    let after = observe::observed::<T, A>(observer, buckets, ts);
    observe::polls_are_counted::<T, A>(observer, buckets, ts);
    lemma_seen_all_keeps_differences::<A::Snapshot>(observer, seen, ts);
    attr_map::lemma_position(seen, attrs);
    match attr_map::position_of(seen, attrs) {
        Some(at) => {
            let (key, current) = seen[at];
            lemma_equal_sets_share_a_position(observer.series, key, attrs);
            lemma_equal_sets_share_a_position(after.series, key, attrs);
            lemma_equal_sets_share_a_position(observer.last_values->0, key, attrs);
            lemma_equal_sets_share_a_position(after.last_values->0, key, attrs);
            values_are_reported_once::<T, A>(observer, buckets, ts, at);
            if let Some(value) = reported::<A::Snapshot>(observer, key, current) {
                let snapshots = snapshots_of(observer.series, key);
                let snapshot = dto::SnapshotView { ts, seq_id: observer.seq, value };
                assert(snapshots.push(snapshot).drop_last() =~= snapshots);
            }
        },
        None => {
            unseen_sets_are_untouched::<T, A>(observer, buckets, ts, attrs);
        },
    }
}

proof fn lemma_events<T, A: Record<T>>(
    observer: ObserverView<<A::Snapshot as View>::V>,
    events: Seq<Event<A::V>>,
    attrs: Seq<model::KeyValueView>,
    has_grown: spec_fn(<A::Snapshot as View>::V, <A::Snapshot as View>::V) -> bool,
    amount: spec_fn(<A::Snapshot as View>::V) -> int,
)
    requires
        observer.observe_mode is Delta,
        observer.last_values is Some,
        only_grows::<T, A>(observer, events, attrs, has_grown),
        growth_is_reported::<A::Snapshot>(has_grown, amount),
    ensures
        after_events::<T, A>(observer, events).observe_mode is Delta,
        after_events::<T, A>(observer, events).last_values is Some,
        amount_of(remembered(after_events::<T, A>(observer, events), attrs), amount) == amount_of(
            last_reading::<T, A>(remembered(observer, attrs), events, attrs),
            amount,
        ),
        reported_total::<T, A>(observer, events, attrs, amount) == total(
            snapshots_of(observer.series, attrs),
            amount,
        ) + amount_of(last_reading::<T, A>(remembered(observer, attrs), events, attrs), amount) - amount_of(
            remembered(observer, attrs),
            amount,
        ),
    decreases events.len(),
{
    if events.len() > 0 {
        let earlier = events.drop_last();
        let last = events.len() - 1;
        assert(events.take(last) =~= earlier);
        assert(events[last] == events.last());
        assert forall|i: int| 0 <= i < earlier.len() implies match #[trigger] earlier[i] {
            Event::Poll { buckets, .. } => {
                &&& cells_are_distinct(buckets)
                &&& match (
                    remembered(after_events::<T, A>(observer, earlier.take(i)), attrs),
                    observe::last_value(visible::<T, A>(Mode::Delta, buckets), attrs),
                ) {
                    (Some(previous), Some(current)) => has_grown(previous, current),
                    _ => true,
                }
            },
            Event::Export => true,
        } by {
            assert(earlier[i] == events[i]);
            assert(earlier.take(i) =~= events.take(i));
        }
        lemma_events::<T, A>(observer, earlier, attrs, has_grown, amount);
        let before = after_events::<T, A>(observer, earlier);
        if let Event::Poll { buckets, ts } = events.last() {
            lemma_polled::<T, A>(before, buckets, ts, attrs, amount);
        }
    }
}

/// Observed by its differences, a counter that does not fall is reported with exactly what it grew by:
/// over any number of polls and exports, what was exported and what is yet to be exported add up to the
/// value that was seen last, less what the observer remembered of it, and what it held, in the beginning.
pub proof fn differences_add_up(
    observer: ObserverView<u64>,
    events: Seq<Event<u64>>,
    attrs: Seq<model::KeyValueView>,
)
    requires
        observer.observe_mode is Delta,
        observer.last_values is Some,
        only_grows::<u64, AtomicU64>(
            observer,
            events,
            attrs,
            |previous: u64, current: u64| previous <= current,
        ),
    ensures
        ({
            let amount = |value: u64| value as int;
            let start = remembered(observer, attrs);
            reported_total::<u64, AtomicU64>(observer, events, attrs, amount) == total(
                snapshots_of(observer.series, attrs),
                amount,
            ) + amount_of(last_reading::<u64, AtomicU64>(start, events, attrs), amount) - amount_of(
                start,
                amount,
            )
        }),
{
    lemma_events::<u64, AtomicU64>(
        observer,
        events,
        attrs,
        |previous: u64, current: u64| previous <= current,
        |value: u64| value as int,
    );
}

/// Observed by its differences, a counter of signed integers that does not fall, and that grows by no
/// more than a signed integer holds from one poll to the next, is reported with exactly what it grew by,
/// over any number of polls and exports.
pub proof fn signed_differences_add_up(
    observer: ObserverView<i64>,
    events: Seq<Event<i64>>,
    attrs: Seq<model::KeyValueView>,
)
    requires
        observer.observe_mode is Delta,
        observer.last_values is Some,
        only_grows::<i64, AtomicI64>(
            observer,
            events,
            attrs,
            |previous: i64, current: i64| previous <= current && current - previous <= i64::MAX,
        ),
    ensures
        ({
            let amount = |value: i64| value as int;
            let start = remembered(observer, attrs);
            reported_total::<i64, AtomicI64>(observer, events, attrs, amount) == total(
                snapshots_of(observer.series, attrs),
                amount,
            ) + amount_of(last_reading::<i64, AtomicI64>(start, events, attrs), amount) - amount_of(
                start,
                amount,
            )
        }),
{
    lemma_events::<i64, AtomicI64>(
        observer,
        events,
        attrs,
        |previous: i64, current: i64| previous <= current && current - previous <= i64::MAX,
        |value: i64| value as int,
    );
}

/// Whether a histogram has grown: it is the same, or it counts more values, and no fewer in any bucket.
pub open spec fn histogram_has_grown<T: Amount>(
    previous: histogram::SnapshotView<T>,
    current: histogram::SnapshotView<T>,
) -> bool {
    ||| histogram::Snapshot::<T>::same(previous, current)
    ||| {
        &&& previous.count < current.count
        &&& previous.bucket_counts.len() == current.bucket_counts.len()
        &&& forall|i: int|
            0 <= i < current.bucket_counts.len() ==> previous.bucket_counts[i]
                <= #[trigger] current.bucket_counts[i]
    }
}

/// How many values a bucket of a histogram counts.
pub open spec fn bucket_count<T>(reading: histogram::SnapshotView<T>, bucket: int) -> int {
    if 0 <= bucket < reading.bucket_counts.len() {
        reading.bucket_counts[bucket] as int
    } else {
        0
    }
}

/// Observed by its differences, a histogram that only grows is reported with exactly what its count, and
/// that of every bucket, grew by, over any number of polls and exports.
pub proof fn histogram_differences_add_up<T: Measure>(
    observer: ObserverView<histogram::SnapshotView<T>>,
    events: Seq<Event<histogram::BucketView<T>>>,
    attrs: Seq<model::KeyValueView>,
    bucket: int,
)
    requires
        observer.observe_mode is Delta,
        observer.last_values is Some,
        only_grows::<T, histogram::Bucket<T>>(
            observer,
            events,
            attrs,
            |previous: histogram::SnapshotView<T>, current: histogram::SnapshotView<T>|
                histogram_has_grown(previous, current),
        ),
    ensures
        ({
            let count = |reading: histogram::SnapshotView<T>| reading.count as int;
            let in_bucket = |reading: histogram::SnapshotView<T>| bucket_count(reading, bucket);
            let start = remembered(observer, attrs);
            let last = last_reading::<T, histogram::Bucket<T>>(start, events, attrs);
            let held = snapshots_of(observer.series, attrs);
            &&& reported_total::<T, histogram::Bucket<T>>(observer, events, attrs, count) == total(held, count)
                + amount_of(last, count) - amount_of(start, count)
            &&& reported_total::<T, histogram::Bucket<T>>(observer, events, attrs, in_bucket) == total(
                held,
                in_bucket,
            ) + amount_of(last, in_bucket) - amount_of(start, in_bucket)
        }),
{
    let has_grown = |previous: histogram::SnapshotView<T>, current: histogram::SnapshotView<T>|
        histogram_has_grown(previous, current);
    lemma_events::<T, histogram::Bucket<T>>(
        observer,
        events,
        attrs,
        has_grown,
        |reading: histogram::SnapshotView<T>| reading.count as int,
    );
    lemma_events::<T, histogram::Bucket<T>>(
        observer,
        events,
        attrs,
        has_grown,
        |reading: histogram::SnapshotView<T>| bucket_count(reading, bucket),
    );
}

} // verus!
