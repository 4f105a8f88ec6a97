//! Series as OTLP metrics.

use crate::atomic::histogram;
use crate::dto;
use crate::dto::Kind;
use crate::error;
use crate::laws::lists;
use crate::model;
use crate::model::Temporality;
use crate::number;
use crate::number::{Number, ToNumber};
use crate::observe::Mode;
use crate::order;
use crate::otel::dto as otlp;
use crate::otel::dto::{IntoPoint, NumberDataPointView, NumberValueView};
use vstd::prelude::*;

verus! {

/// A time on the wire is the time itself, in nanoseconds since the epoch; one that does not fit is
/// refused, on the side on which it does not.
pub proof fn times_go_out_as_they_are(nanos: int)
    ensures
        match otlp::unix_nanos(nanos) {
            Ok(time) => time == nanos,
            Err(error) => if nanos < 0 {
                error is TimeBeforeEpoch
            } else {
                nanos > 0xffff_ffff_ffff_ffff && error is TimeOverflowsU64
            },
        },
{
}

/// The point of an unsigned reading has the attributes and the times it was given and the reading as its
/// value. Only a reading that a signed integer cannot hold has none.
pub proof fn unsigned_points_hold_their_sample(
    reading: u64,
    attributes: Seq<model::KeyValueView>,
    start: u64,
    time: u64,
)
    ensures
        match <u64 as IntoPoint>::point(reading, attributes, start, time) {
            Ok(point) => {
                &&& reading <= 0x7fff_ffff_ffff_ffff
                &&& point.attributes == attributes
                &&& point.start_time_unix_nano == start
                &&& point.time_unix_nano == time
                &&& point.value matches NumberValueView::AsInt(value) && value == reading
            },
            Err(error) => reading > 0x7fff_ffff_ffff_ffff && error is ValueToI64,
        },
{
}

/// The point of a signed reading has the attributes and the times it was given and the reading as its
/// value.
pub proof fn signed_points_hold_their_sample(
    reading: i64,
    attributes: Seq<model::KeyValueView>,
    start: u64,
    time: u64,
)
    ensures
        <i64 as IntoPoint>::point(reading, attributes, start, time) matches Ok(point) && {
            &&& point.attributes == attributes
            &&& point.start_time_unix_nano == start
            &&& point.time_unix_nano == time
            &&& point.value matches NumberValueView::AsInt(value) && value == reading
        },
{
}

/// The point of a double has the attributes and the times it was given and the double, bit for bit, as
/// its value.
pub proof fn double_points_hold_their_sample(
    reading: number::NumberView,
    attributes: Seq<model::KeyValueView>,
    start: u64,
    time: u64,
)
    ensures
        <Number as IntoPoint>::point(reading, attributes, start, time) matches Ok(point) && {
            &&& point.attributes == attributes
            &&& point.start_time_unix_nano == start
            &&& point.time_unix_nano == time
            &&& point.value matches NumberValueView::AsDouble(value) && value.bits == reading.bits
        },
{
}

/// Whether an amount that may be missing has a number, if it is there.
pub open spec fn has_number<T: ToNumber>(amount: Option<T>) -> bool {
    amount matches Some(amount) ==> amount.number() is Some
}

/// The point of a histogram has the attributes and the times it was given, the count and the bucket
/// counts of the reading, and as its sum, bounds, minimum and maximum the numbers of the reading's own.
/// It is there exactly where all of these are numbers.
pub proof fn histogram_points_hold_their_sample<T: ToNumber>(
    reading: histogram::SnapshotView<T>,
    attributes: Seq<model::KeyValueView>,
    start: u64,
    time: u64,
)
    ensures
        ({
            let result = <histogram::Snapshot<T> as IntoPoint>::point(reading, attributes, start, time);
            let boundaries = reading.boundaries;
            &&& result is Ok <==> {
                &&& reading.sum.number() is Some
                &&& forall|i: int| 0 <= i < boundaries.len() ==> (#[trigger] boundaries[i]).number() is Some
                &&& has_number(reading.min)
                &&& has_number(reading.max)
            }
            &&& result matches Ok(point) ==> {
                &&& point.attributes == attributes
                &&& point.start_time_unix_nano == start
                &&& point.time_unix_nano == time
                &&& point.count == reading.count
                &&& point.bucket_counts == reading.bucket_counts
                &&& reading.sum.number() == Some(point.sum)
                &&& point.explicit_bounds.len() == boundaries.len()
                &&& forall|i: int|
                    0 <= i < boundaries.len() ==> (#[trigger] boundaries[i]).number() == Some(
                        point.explicit_bounds[i],
                    )
                &&& point.min is Some <==> reading.min is Some
                &&& point.max is Some <==> reading.max is Some
                &&& reading.min matches Some(min) ==> min.number() == point.min
                &&& reading.max matches Some(max) ==> max.number() == point.max
            }
            &&& result matches Err(error) ==> if reading.sum.number() is None {
                error is ValueToF64
            } else if exists|i: int|
                0 <= i < boundaries.len() && (#[trigger] boundaries[i]).number() is None {
                error is BoundaryToF64
            } else {
                error is ValueToF64
            }
        }),
{
    let boundaries = reading.boundaries;
    let give = |boundary: T| otlp::boundary_number(boundary);
    lists::gathering_fails_with_the_first_failure(boundaries, give);
    if forall|i: int| 0 <= i < boundaries.len() ==> (#[trigger] boundaries[i]).number() is Some {
        assert forall|i: int| 0 <= i < boundaries.len() implies give(#[trigger] boundaries[i]) is Ok && give(
            boundaries[i],
        )->Ok_0 is Some by {
            assert(boundaries[i].number() is Some);
        }
        lists::gathering_keeps_the_order(boundaries, give);
        let list = order::gathered(boundaries, give)->Ok_0;
        assert forall|i: int| 0 <= i < boundaries.len() implies (#[trigger] boundaries[i]).number() == Some(
            list[i],
        ) by {
            assert(give(boundaries[i]) == Ok::<Option<number::NumberView>, error::ErrorView>(Some(list[i])));
        }
    } else {
        let i = choose|i: int| 0 <= i < boundaries.len() && (#[trigger] boundaries[i]).number() is None;
        assert(give(boundaries[i]) is Err);
        let error = order::gathered(boundaries, give)->Err_0;
        let j = choose|j: int|
            0 <= j < boundaries.len() && give(#[trigger] boundaries[j]) == Err::<
                Option<number::NumberView>,
                error::ErrorView,
            >(error) && forall|k: int| 0 <= k < j ==> give(#[trigger] boundaries[k]) is Ok;
        assert(give(boundaries[j]) == Err::<Option<number::NumberView>, error::ErrorView>(error));
    }
}

/// Whether data hold exactly these number points, as the kind of their metric asks: a counter becomes a
/// sum that only rises, of the given temporality, and a gauge becomes a gauge.
pub open spec fn holds_numbers(
    data: otlp::DataView,
    points: Seq<NumberDataPointView>,
    kind: Kind,
    temporality: Temporality,
) -> bool {
    match data {
        otlp::DataView::Sum { data_points, temporality: of_data, is_monotonic } => {
            &&& kind is Counter
            &&& data_points == points
            &&& of_data == temporality
            &&& is_monotonic
        },
        otlp::DataView::Gauge { data_points } => kind !is Counter && data_points == points,
        otlp::DataView::Histogram { .. } => false,
    }
}

/// The data of a metric hold its points, all of them and in order. Numbers are no histograms, and a
/// histogram's points stay a histogram, of the given temporality.
pub proof fn data_hold_their_points<T: ToNumber>(
    points: Seq<NumberDataPointView>,
    histograms: Seq<otlp::HistogramDataPointView>,
    kind: Kind,
    temporality: Temporality,
)
    ensures
        holds_numbers(<u64 as IntoPoint>::data(points, kind, temporality), points, kind, temporality),
        holds_numbers(<i64 as IntoPoint>::data(points, kind, temporality), points, kind, temporality),
        holds_numbers(<Number as IntoPoint>::data(points, kind, temporality), points, kind, temporality),
        match <histogram::Snapshot<T> as IntoPoint>::data(histograms, kind, temporality) {
            otlp::DataView::Histogram { data_points, temporality: of_data } => data_points == histograms
                && of_data == temporality,
            _ => false,
        },
        <u64 as IntoPoint>::fits(kind) <==> kind !is Histogram,
        <i64 as IntoPoint>::fits(kind) <==> kind !is Histogram,
        <Number as IntoPoint>::fits(kind) <==> kind !is Histogram,
        <histogram::Snapshot<T> as IntoPoint>::fits(kind),
{
}

/// A series that is read where it stands is cumulative; one that is read as differences, or emptied as
/// it is read, is a delta.
pub proof fn modes_have_their_temporality(mode: Mode)
    ensures
        model::temporality_of(mode) is Cumulative <==> mode is Direct,
        model::temporality_of(mode) is Delta <==> mode is Delta || mode is Destructive,
{
}

/// A metric has the name, description and unit of its series, and one point for each sample, in their
/// order. Each point is made of the value and the attributes of its sample, the start of the series, and
/// the sample's time: its own, or where a period is given, the one it has in the grid of that period.
pub proof fn metrics_hold_every_sample<T: IntoPoint>(series: dto::SeriesView<T::V>, align: Option<nat>)
    requires
        otlp::wire::<T>(series, align) is Ok,
        otlp::wire::<T>(series, align)->Ok_0 is Some,
    ensures
        ({
            let metric = otlp::wire::<T>(series, align)->Ok_0->0;
            let samples = dto::samples(series.series);
            &&& metric.name == series.id.name
            &&& metric.description == series.id.description
            &&& metric.unit == series.id.unit
            &&& 0 <= series.start_time <= u64::MAX
            &&& samples.len() > 0
            &&& exists|points: Seq<<T::Point as View>::V>, times: Seq<u64>|
                #![trigger points.len(), times.len()]
                {
                    &&& metric.data == T::data(points, series.kind, model::temporality_of(series.observe_mode))
                    &&& points.len() == samples.len()
                    &&& times.len() == samples.len()
                    &&& forall|i: int|
                        #![trigger samples[i]]
                        0 <= i < samples.len() ==> {
                            &&& T::point(
                                samples[i].1.value,
                                samples[i].0,
                                series.start_time as u64,
                                times[i],
                            ) == Ok::<<T::Point as View>::V, error::ErrorView>(points[i])
                            &&& times[i] == match align {
                                Some(period) => if samples[i].1.seq_id <= 0xffff_ffff {
                                    series.start_time + period * samples[i].1.seq_id
                                } else {
                                    samples[i].1.ts
                                },
                                None => samples[i].1.ts,
                            }
                        }
                }
        }),
{
    let samples = dto::samples(series.series);
    let start = series.start_time as u64;
    let give = |sample: dto::SampleView<T::V>|
        otlp::sample_point::<T>(sample, series.start_time, start, align);
    assert(otlp::series_points::<T>(series, start, align) == order::gathered(samples, give));
    lists::gathering_fails_with_the_first_failure(samples, give);
    assert forall|i: int| 0 <= i < samples.len() implies give(#[trigger] samples[i]) is Ok && give(
        samples[i],
    )->Ok_0 is Some by {}
    lists::gathering_keeps_the_order(samples, give);
    let points = order::gathered(samples, give)->Ok_0;
    let times = samples.map_values(
        |sample: dto::SampleView<T::V>|
            otlp::unix_nanos(
                dto::aligned_ts(sample.1.ts, sample.1.seq_id, series.start_time, align),
            )->Ok_0,
    );
    assert forall|i: int|
        #![trigger samples[i]]
        0 <= i < samples.len() implies {
        &&& T::point(samples[i].1.value, samples[i].0, start, times[i]) == Ok::<
            <T::Point as View>::V,
            error::ErrorView,
        >(points[i])
        &&& times[i] == match align {
            Some(period) => if samples[i].1.seq_id <= 0xffff_ffff {
                series.start_time + period * samples[i].1.seq_id
            } else {
                samples[i].1.ts
            },
            None => samples[i].1.ts,
        }
    } by {
        assert(give(samples[i]) == Ok::<Option<<T::Point as View>::V>, error::ErrorView>(Some(points[i])));
    }
    assert(points.len() == samples.len() && times.len() == samples.len());
}

/// Nothing goes out for a series without samples, and something does for one that has them, unless there
/// is an error. The start of a series that has rows is what is refused first.
pub proof fn series_without_samples_stay_in<T: IntoPoint>(series: dto::SeriesView<T::V>, align: Option<nat>)
    ensures
        ({
            let result = otlp::wire::<T>(series, align);
            &&& series.series.len() == 0 ==> result == Ok::<Option<otlp::MetricView>, error::ErrorView>(None)
            &&& result matches Ok(metric) ==> (metric is Some <==> dto::samples(series.series).len() > 0)
            &&& series.series.len() > 0 && series.start_time < 0 ==> result is Err && result->Err_0 is TimeBeforeEpoch
            &&& series.series.len() > 0 && series.start_time > u64::MAX ==> result is Err
                && result->Err_0 is TimeOverflowsU64
        }),
{
    let samples = dto::samples(series.series);
    let start = series.start_time as u64;
    let give = |sample: dto::SampleView<T::V>|
        otlp::sample_point::<T>(sample, series.start_time, start, align);
    if otlp::wire::<T>(series, align) is Ok && series.series.len() > 0 {
        assert(otlp::series_points::<T>(series, start, align) == order::gathered(samples, give));
        lists::gathering_fails_with_the_first_failure(samples, give);
        assert forall|i: int| 0 <= i < samples.len() implies give(#[trigger] samples[i]) is Ok && give(
            samples[i],
        )->Ok_0 is Some by {}
        lists::gathering_keeps_the_order(samples, give);
    }
}

/// What a point is said to hold, its fields hold: no field stands for another.
pub proof fn points_are_seen_as_they_are(
    histogram: otlp::HistogramDataPoint,
    number: otlp::NumberDataPoint,
    metric: otlp::Metric,
)
    ensures
        histogram@.attributes == model::attrs_view(histogram.attributes@),
        histogram@.start_time_unix_nano == histogram.start_time_unix_nano,
        histogram@.time_unix_nano == histogram.time_unix_nano,
        histogram@.count == histogram.count,
        histogram@.sum == histogram.sum@,
        histogram@.bucket_counts == histogram.bucket_counts@,
        histogram@.explicit_bounds.len() == histogram.explicit_bounds@.len(),
        forall|i: int|
            0 <= i < histogram.explicit_bounds@.len() ==> #[trigger] histogram@.explicit_bounds[i]
                == histogram.explicit_bounds@[i]@,
        histogram.min matches Some(min) ==> histogram@.min == Some(min@),
        histogram.min is None ==> histogram@.min is None,
        histogram.max matches Some(max) ==> histogram@.max == Some(max@),
        histogram.max is None ==> histogram@.max is None,
        number@.attributes == model::attrs_view(number.attributes@),
        number@.start_time_unix_nano == number.start_time_unix_nano,
        number@.time_unix_nano == number.time_unix_nano,
        number.value matches otlp::NumberValue::AsInt(value) ==> number@.value == NumberValueView::AsInt(
            value,
        ),
        number.value matches otlp::NumberValue::AsDouble(value) ==> number@.value
            == NumberValueView::AsDouble(value@),
        metric@.name == metric.name@,
        metric@.description == metric.description@,
        metric@.unit == metric.unit@,
{
}

/// Data are what their fields hold: their points in order, their temporality and whether they only rise.
pub proof fn data_are_seen_as_they_are(data: otlp::Data)
    ensures
        match (data, data@) {
            (
                otlp::Data::Sum { data_points, temporality, is_monotonic },
                otlp::DataView::Sum { data_points: points, temporality: seen, is_monotonic: rising },
            ) => {
                &&& points.len() == data_points@.len()
                &&& forall|i: int| 0 <= i < points.len() ==> #[trigger] points[i] == data_points@[i]@
                &&& seen == temporality
                &&& rising == is_monotonic
            },
            (otlp::Data::Gauge { data_points }, otlp::DataView::Gauge { data_points: points }) => {
                &&& points.len() == data_points@.len()
                &&& forall|i: int| 0 <= i < points.len() ==> #[trigger] points[i] == data_points@[i]@
            },
            (
                otlp::Data::Histogram { data_points, temporality },
                otlp::DataView::Histogram { data_points: points, temporality: seen },
            ) => {
                &&& points.len() == data_points@.len()
                &&& forall|i: int| 0 <= i < points.len() ==> #[trigger] points[i] == data_points@[i]@
                &&& seen == temporality
            },
            _ => false,
        },
{
}

} // verus!
