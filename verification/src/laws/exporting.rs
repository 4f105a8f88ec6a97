//! Observers and sources on their way out.

use crate::atomic::{Measure, Record};
use crate::bucket_map;
use crate::collect::periodic;
use crate::collect::periodic::{Export, WorkerView};
use crate::collect::{AddSource, Handle};
use crate::console::dto as console;
use crate::console::dto::IntoConsoleValue;
use crate::dto;
use crate::dto::{IntoWire, Sample, Series, Snapshot};
use crate::error;
use crate::error::Error;
use crate::model;
use crate::observe;
use crate::observe::{DynObserver, MetricSource, Mode, Observed};
use crate::order;
use crate::otel::dto as otlp;
use crate::otel::dto::IntoPoint;
use crate::prometheus;
use crate::prometheus::collector;
use crate::prometheus::collector::{Collector, Source, SourceHandle};
use crate::prometheus::dto::IntoDataPointValue;
use vstd::prelude::*;

verus! {

/// A series becomes one thing only, on the wire and on the console: the metric, or the error, that its
/// samples make.
pub proof fn series_become_their_metric<T: IntoPoint, U: IntoConsoleValue>(
    series: dto::SeriesView<T::V>,
    printed: dto::SeriesView<U::V>,
    align: Option<nat>,
    metric: Result<Option<otlp::MetricView>, error::ErrorView>,
    on_console: Result<Option<console::MetricView>, error::ErrorView>,
)
    ensures
        <Series<T> as IntoWire<otlp::Metric>>::becomes(series, align, metric) <==> metric == otlp::wire::<T>(
            series,
            align,
        ),
        <Series<U> as IntoWire<console::Metric>>::becomes(printed, align, on_console) <==> on_console
            == console::wire::<U>(printed, align),
{
}

/// A timestamp can be aligned where there is no period, where its number is beyond 32 bits, and else exactly
/// where its place on the grid is a date that a span leads to.
pub proof fn timestamps_can_be_aligned(seq_id: u64, start: int, period: nat)
    ensures
        dto::ts_is_alignable(seq_id, start, None),
        seq_id > 0xffff_ffff ==> dto::ts_is_alignable(seq_id, start, Some(period)),
        seq_id <= 0xffff_ffff ==> (dto::ts_is_alignable(seq_id, start, Some(period)) <==> seq_id * period < (
        u64::MAX + 1) * 1_000_000_000 && i64::MIN * 1_000_000_000 <= start + seq_id * period < (i64::MAX + 1)
            * 1_000_000_000),
{
    assert(period * (seq_id as nat) == seq_id * period) by (nonlinear_arith);
}

/// A series can be exported where the timestamps of its samples can be aligned and its readings fit its
/// kind; a series without rows always can.
pub proof fn series_can_be_exported<T: IntoPoint, U: IntoConsoleValue>(
    series: dto::SeriesView<T::V>,
    printed: dto::SeriesView<U::V>,
    align: Option<nat>,
)
    ensures
        series.series.len() == 0 ==> <Series<T> as IntoWire<otlp::Metric>>::is_exportable(series, align),
        T::fits(series.kind) && (forall|i: int|
            0 <= i < dto::samples(series.series).len() ==> dto::ts_is_alignable(
                (#[trigger] dto::samples(series.series)[i]).1.seq_id,
                series.start_time,
                align,
            )) ==> <Series<T> as IntoWire<otlp::Metric>>::is_exportable(series, align),
        (forall|i: int|
            0 <= i < dto::samples(printed.series).len() ==> dto::ts_is_alignable(
                (#[trigger] dto::samples(printed.series)[i]).1.seq_id,
                printed.start_time,
                align,
            )) ==> <Series<U> as IntoWire<console::Metric>>::is_exportable(printed, align),
{
}

/// An export hands out what was seen since the last one, under the identity, start, mode and kind of the
/// observer. It forgets the snapshots and nothing else, and leaves the source alone.
pub proof fn exports_hand_out_what_was_seen<W: View, E: View, Src: MetricSource>(
    before: Observed<Src>,
    align: Option<nat>,
    result: Result<Option<W::V>, E::V>,
    after: Observed<Src>,
) where
    Series<<Src::Cell as Record<Src::Measure>>::Snapshot>: IntoWire<W, Error = E> + View<
        V = dto::SeriesView<<<Src::Cell as Record<Src::Measure>>::Snapshot as View>::V>,
    >,

    requires
        <Observed<Src> as DynObserver<W, E>>::exported(before, align, result, after),
    ensures
        after.observer@.series.len() == 0,
        after.observer@.start_time == before.observer@.start_time,
        after.observer@.seq == before.observer@.seq,
        after.observer@.id == before.observer@.id,
        after.observer@.last_values == before.observer@.last_values,
        after.observer@.observe_mode == before.observer@.observe_mode,
        after.observer@.kind == before.observer@.kind,
        after.source == before.source,
        <Series<<Src::Cell as Record<Src::Measure>>::Snapshot> as IntoWire<W>>::becomes(
            (dto::SeriesView {
                start_time: before.observer@.start_time,
                id: before.observer@.id,
                series: before.observer@.series,
                observe_mode: before.observer@.observe_mode,
                kind: before.observer@.kind,
            }),
            align,
            result,
        ),
{
}

/// A poll shows the observer all that its source holds at that time, and empties the source where it is
/// drained. A restart forgets all but who is observed and how.
pub proof fn polls_see_the_source<W: View, E: View, Src: MetricSource>(
    before: Observed<Src>,
    at: int,
    after: Observed<Src>,
) where
    Series<<Src::Cell as Record<Src::Measure>>::Snapshot>: IntoWire<W, Error = E> + View<
        V = dto::SeriesView<<<Src::Cell as Record<Src::Measure>>::Snapshot as View>::V>,
    >,

    ensures
        <Observed<Src> as DynObserver<W, E>>::polled(before, at, after) ==> {
            &&& after.observer@ == observe::observed::<Src::Measure, Src::Cell>(
                before.observer@,
                before.source.cells(),
                at,
            )
            &&& before.observer@.observe_mode is Destructive ==> after.source.cells().series.len() == 0
                && !after.source.cells().touched
            &&& before.observer@.observe_mode !is Destructive ==> after.source.cells() == before.source.cells()
            &&& after.source.identity() == before.source.identity()
            &&& after.source.metric_kind() == before.source.metric_kind()
        },
        <Observed<Src> as DynObserver<W, E>>::restarted(before, at, after) ==> {
            &&& after.observer@.start_time == at
            &&& after.observer@.seq == 0
            &&& after.observer@.series.len() == 0
            &&& after.observer@.id == before.observer@.id
            &&& after.observer@.observe_mode == before.observer@.observe_mode
            &&& after.observer@.kind == before.observer@.kind
            &&& after.observer@.last_values matches Some(values) ==> values.len() == 0
            &&& after.source == before.source
        },
{
}

/// A scrape of a source is that of all its cells, under its identity and kind.
pub proof fn sources_give_what_they_hold<Src: MetricSource>(
    source: SourceHandle<Src>,
    scrape: collector::ScrapeView,
) where <Src::Cell as Record<Src::Measure>>::Snapshot: IntoDataPointValue
    ensures
        source.may_give(scrape) <==> scrape == collector::family_of::<
            <Src::Cell as Record<Src::Measure>>::Snapshot,
        >(
            bucket_map::readings::<Src::Measure, Src::Cell>(source.source.cells()),
            source.source.identity(),
            source.source.metric_kind(),
        ),
{
}

/// Scrapes that made families are one of each source, in their order; those that did not end with the
/// source that failed.
pub proof fn every_source_is_scraped<S: Source>(scrapes: Seq<collector::ScrapeView>, sources: Seq<S>)
    requires
        collector::are_scrapes_of(scrapes, sources),
    ensures
        scrapes.len() <= sources.len(),
        collector::families_of(scrapes) is Ok ==> scrapes.len() == sources.len(),
        forall|i: int| 0 <= i < scrapes.len() ==> sources[i].may_give(#[trigger] scrapes[i]),
{
}

/// A collector of scrapes takes every source, whatever the mode, behind those it has.
pub proof fn every_source_is_taken<S: Source + Handle>(
    before: Collector<S>,
    source: S,
    mode: Mode,
    result: Result<(), error::ErrorView>,
    after: Collector<S>,
)
    requires
        before.accepted(source, mode, result, after),
    ensures
        result is Ok,
        after@.len() == before@.len() + 1,
        after@.last() == source,
        forall|i: int| 0 <= i < before@.len() ==> #[trigger] after@[i] == before@[i],
{
}

/// A worker exports where its deadline has come, and only there; then every observer hands out once, and
/// what they give is the batch and the failures. Nothing else of the worker changes.
pub proof fn workers_export_when_due<W: View, O: DynObserver<W, Error>>(
    before: WorkerView<O>,
    now: nat,
    export: Option<Export<W>>,
    after: WorkerView<O>,
)
    requires
        periodic::is_export_at(before, now, export, after),
    ensures
        export is Some <==> now >= before.export_timer.deadline,
        export is None ==> after.observers == before.observers,
        after.observers.len() == before.observers.len(),
        after.start_instant == before.start_instant,
        after.start_system == before.start_system,
        after.observe_timer == before.observe_timer,
        after.export_timer == before.export_timer,
        after.poll_period == before.poll_period,
        after.align_timestamps == before.align_timestamps,
        export matches Some(export) ==> exists|results: Seq<Result<Option<W::V>, error::ErrorView>>|
            {
                &&& results.len() == before.observers.len()
                &&& forall|i: int|
                    0 <= i < results.len() ==> before.observers[i].exported(
                        if before.align_timestamps {
                            Some(before.poll_period)
                        } else {
                            None
                        },
                        #[trigger] results[i],
                        after.observers[i],
                    )
                &&& order::views(export.batch@) == #[trigger] periodic::batch_of(results)
                &&& order::views(export.failures@) == periodic::failures_of(results)
            },
{
}

/// An error is seen as what it is.
pub proof fn errors_are_seen_as_they_are(message: String, rejected: i64, error: prometheus::Error)
    ensures
        Error::InvalidHistogramBoundaries@ is InvalidHistogramBoundaries,
        Error::DeltaForGauge@ is DeltaForGauge,
        Error::DestructiveWithMultipleCollectors@ is DestructiveWithMultipleCollectors,
        Error::ModeMismatch@ is ModeMismatch,
        Error::DuplicateDestructive@ is DuplicateDestructive,
        Error::ZeroPollPeriod@ is ZeroPollPeriod,
        Error::ZeroExportPeriod@ is ZeroExportPeriod,
        Error::PollPeriodExceedsExportPeriod@ is PollPeriodExceedsExportPeriod,
        Error::ValueToF64@ is ValueToF64,
        Error::BoundaryToF64@ is BoundaryToF64,
        Error::ValueToI64@ is ValueToI64,
        Error::TimeBeforeEpoch@ is TimeBeforeEpoch,
        Error::TimeOverflowsU64@ is TimeOverflowsU64,
        (Error::OtlpPartialExport { rejected_data_points: rejected, error_message: message })@ == (
        error::ErrorView::OtlpPartialExport {
            rejected_data_points: rejected,
            error_message: message@,
        }),
        Error::Prometheus(error)@ == error::ErrorView::Prometheus(error@),
{
}

/// An error of a rendering is seen as what it is: no text stands for another.
pub proof fn rendering_errors_are_seen_as_they_are(a: String, b: String)
    ensures
        prometheus::Error::EmptyMetricName@ is EmptyMetricName,
        prometheus::Error::EmptyLabelName(a)@ == prometheus::ErrorView::EmptyLabelName(a@),
        prometheus::Error::FamilyCollision(a)@ == prometheus::ErrorView::FamilyCollision(a@),
        prometheus::Error::LabelCollision(a, b)@ == prometheus::ErrorView::LabelCollision(a@, b@),
        prometheus::Error::DuplicateSeries(a, b)@ == prometheus::ErrorView::DuplicateSeries(a@, b@),
        prometheus::Error::NonFiniteBoundary(a)@ == prometheus::ErrorView::NonFiniteBoundary(a@),
{
}

/// What a series, a sample and a snapshot are said to hold, their fields hold.
pub proof fn series_are_seen_as_they_are<T: View>(series: Series<T>, sample: Sample<T>, snapshot: Snapshot<T>)
    ensures
        series@.start_time == series.start_time@,
        series@.id == series.id@,
        series@.observe_mode == series.observe_mode,
        series@.kind == series.kind,
        series@.series.len() == series.series@.len(),
        forall|i: int|
            0 <= i < series.series@.len() ==> (#[trigger] series@.series[i]).0 == series.series@[i].0
                && series@.series[i].1.len() == series.series@[i].1@.len(),
        forall|i: int, j: int|
            0 <= i < series.series@.len() && 0 <= j < series.series@[i].1@.len()
                ==> #[trigger] series@.series[i].1[j] == series.series@[i].1@[j]@,
        sample@.0 == model::attrs_view(sample.attrs@),
        sample@.1 == sample.snapshot@,
        snapshot@.ts == snapshot.ts@,
        snapshot@.seq_id == snapshot.seq_id,
        snapshot@.value == snapshot.value@,
{
}

} // verus!
