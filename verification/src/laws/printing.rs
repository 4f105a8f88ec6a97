//! Series as the console prints them.

use crate::atomic::histogram;
use crate::console::dto as console;
use crate::console::dto::{DataPointValueView, IntoConsoleValue};
use crate::console::sender;
use crate::dto;
use crate::dto::Kind;
use crate::error;
use crate::laws::lists;
use crate::laws::otlp;
use crate::model;
use crate::number;
use crate::number::{Number, ToNumber};
use crate::order;
use crate::order::Ranked;
use crate::text;
use vstd::prelude::*;

verus! {

/// The console value of a reading is its number: that of an integer, or the double itself.
pub proof fn numbers_are_printed_as_they_are(unsigned: u64, signed: i64, double: number::NumberView)
    ensures
        match <u64 as IntoConsoleValue>::console_value(unsigned) {
            Ok(DataPointValueView::Number(value)) => value.bits == number::nearest_to_unsigned(unsigned),
            _ => false,
        },
        match <i64 as IntoConsoleValue>::console_value(signed) {
            Ok(DataPointValueView::Number(value)) => value.bits == number::nearest_to_signed(signed),
            _ => false,
        },
        match <Number as IntoConsoleValue>::console_value(double) {
            Ok(DataPointValueView::Number(value)) => value.bits == double.bits,
            _ => false,
        },
{
}

proof fn lemma_buckets<T: ToNumber>(boundaries: Seq<T>, counts: Seq<u64>, n: nat)
    ensures
        console::buckets_of(boundaries, counts, n) is Ok <==> forall|i: int|
            0 <= i < n && i < boundaries.len() ==> (#[trigger] boundaries[i]).number() is Some,
        match console::buckets_of(boundaries, counts, n) {
            Ok(buckets) => {
                &&& buckets.len() == n
                &&& forall|i: int| 0 <= i < n ==> (#[trigger] buckets[i]).count == counts[i]
                &&& forall|i: int|
                    0 <= i < n && i < boundaries.len() ==> (#[trigger] buckets[i]).upper_bound is Some
                        && boundaries[i].number() == buckets[i].upper_bound
                &&& forall|i: int|
                    0 <= i < n && i >= boundaries.len() ==> (#[trigger] buckets[i]).upper_bound is None
            },
            Err(error) => error is ValueToF64,
        },
    decreases n,
{
    if n > 0 {
        lemma_buckets(boundaries, counts, (n - 1) as nat);
        if n - 1 < boundaries.len() {
            assert(boundaries[n - 1].number() is Some || boundaries[n - 1].number() is None);
        }
    }
}

/// The console value of a histogram has its count and its bucket counts, and as its sum, minimum and
/// maximum the numbers of the reading's own. The bound of each bucket is the number of the boundary above
/// it; a bucket without one has none. The value is there exactly where all of these are numbers.
pub proof fn histograms_are_printed_as_they_are<T: ToNumber>(reading: histogram::SnapshotView<T>)
    ensures
        ({
            let result = <histogram::Snapshot<T> as IntoConsoleValue>::console_value(reading);
            let boundaries = reading.boundaries;
            let counts = reading.bucket_counts;
            &&& result is Ok <==> {
                &&& reading.sum.number() is Some
                &&& forall|i: int|
                    0 <= i < boundaries.len() && i < counts.len() ==> (#[trigger] boundaries[i]).number() is Some
                &&& otlp::has_number(reading.min)
                &&& otlp::has_number(reading.max)
            }
            &&& match result {
                Ok(DataPointValueView::Histogram(value)) => {
                    &&& value.count == reading.count
                    &&& reading.sum.number() == Some(value.sum)
                    &&& value.min is Some <==> reading.min is Some
                    &&& value.max is Some <==> reading.max is Some
                    &&& reading.min matches Some(min) ==> min.number() == value.min
                    &&& reading.max matches Some(max) ==> max.number() == value.max
                    &&& value.buckets.len() == counts.len()
                    &&& forall|i: int|
                        0 <= i < counts.len() ==> (#[trigger] value.buckets[i]).count == counts[i]
                    &&& forall|i: int|
                        0 <= i < counts.len() && i < boundaries.len() ==> boundaries[i].number()
                            == (#[trigger] value.buckets[i]).upper_bound
                    &&& forall|i: int|
                        0 <= i < counts.len() && i >= boundaries.len() ==> (
                        #[trigger] value.buckets[i]).upper_bound is None
                },
                Ok(DataPointValueView::Number(_)) => false,
                Err(error) => error is ValueToF64,
            }
        }),
{
    lemma_buckets(reading.boundaries, reading.bucket_counts, reading.bucket_counts.len());
}

/// A printed metric has the identity and the kind of its series and the temporality of its mode, and one
/// point for each sample, in their order. Each has the attributes of its sample, the start of the series,
/// the value of the sample, and its time: its own, or where a period is given, the one it has in the grid
/// of that period.
pub proof fn metrics_hold_every_sample<T: IntoConsoleValue>(
    series: dto::SeriesView<T::V>,
    align: Option<nat>,
)
    ensures
        ({
            let result = console::wire::<T>(series, align);
            let samples = dto::samples(series.series);
            &&& result is Ok <==> forall|i: int|
                0 <= i < samples.len() ==> T::console_value((#[trigger] samples[i]).1.value) is Ok
            &&& result matches Ok(metric) ==> (metric is Some <==> samples.len() > 0)
            &&& result matches Ok(Some(metric)) ==> {
                &&& metric.id == series.id
                &&& metric.kind == series.kind
                &&& metric.temporality is Cumulative <==> series.observe_mode is Direct
                &&& metric.data_points.len() == samples.len()
                &&& forall|i: int|
                    #![trigger samples[i]]
                    #![trigger metric.data_points[i]]
                    0 <= i < samples.len() ==> {
                        let point = metric.data_points[i];
                        &&& point.attributes == samples[i].0
                        &&& point.start_time == series.start_time
                        &&& T::console_value(samples[i].1.value) == Ok::<
                            DataPointValueView,
                            error::ErrorView,
                        >(point.value)
                        &&& point.time == match align {
                            Some(period) => if samples[i].1.seq_id <= 0xffff_ffff {
                                series.start_time + period * samples[i].1.seq_id
                            } else {
                                samples[i].1.ts
                            },
                            None => samples[i].1.ts,
                        }
                    }
            }
        }),
{
    let samples = dto::samples(series.series);
    let give = |sample: dto::SampleView<T::V>| console::data_point::<T>(sample, series.start_time, align);
    assert(console::data_points::<T>(series, align) == order::gathered(samples, give));
    lists::gathering_fails_with_the_first_failure(samples, give);
    if console::wire::<T>(series, align) is Ok {
        assert forall|i: int| 0 <= i < samples.len() implies give(#[trigger] samples[i]) is Ok && give(
            samples[i],
        )->Ok_0 is Some && T::console_value(samples[i].1.value) is Ok by {}
        lists::gathering_keeps_the_order(samples, give);
        let points = order::gathered(samples, give)->Ok_0;
        assert forall|i: int|
            0 <= i < samples.len() implies give(#[trigger] samples[i]) == Ok::<
            Option<console::DataPointView>,
            error::ErrorView,
        >(Some(points[i])) by {}
    } else if forall|i: int|
        0 <= i < samples.len() ==> T::console_value((#[trigger] samples[i]).1.value) is Ok {
        assert forall|i: int| 0 <= i < samples.len() implies give(#[trigger] samples[i]) is Ok by {
            assert(T::console_value(samples[i].1.value) is Ok);
        }
    }
}

/// Points stand in the order of their times, and of those of one time in the order of their attributes.
pub proof fn points_are_ordered_by_time(a: console::DataPointView, b: console::DataPointView)
    ensures
        a.time < b.time ==> <console::DataPointView as Ranked>::rank(a, b) < 0,
        a.time > b.time ==> <console::DataPointView as Ranked>::rank(a, b) > 0,
        a.time == b.time ==> <console::DataPointView as Ranked>::rank(a, b) == model::rank_attrs(
            a.attributes,
            b.attributes,
        ),
{
}

/// A bucket prints as its bound, or the sign of infinity where it has none, a colon, and its count.
pub proof fn buckets_print_bound_and_count(bucket: console::BucketView)
    ensures
        bucket.upper_bound matches Some(bound) ==> console::bucket_text(bucket) == number::double_text(
            bound.bits,
        ) + seq![':'] + text::decimal(bucket.count as nat),
        bucket.upper_bound is None ==> console::bucket_text(bucket) == seq!['\u{221e}', ':'] + text::decimal(
            bucket.count as nat,
        ),
{
    if bucket.upper_bound is None {
        assert(console::bucket_text(bucket) =~= seq!['\u{221e}', ':'] + text::decimal(bucket.count as nat));
    }
}

/// A padded text is as wide as its column, or as itself where it does not fit; it stands at the left, and
/// the rest is blank.
pub proof fn padding_fills_the_column(text: Seq<char>, width: nat)
    ensures
        ({
            let cell = console::padded(text, width);
            &&& cell.len() == if text.len() < width {
                width
            } else {
                text.len()
            }
            &&& forall|i: int| 0 <= i < text.len() ==> #[trigger] cell[i] == text[i]
            &&& forall|i: int| text.len() <= i < cell.len() ==> #[trigger] cell[i] == ' '
        }),
{
}

/// The buckets of a histogram are set apart by blanks. Each is padded to the width of its column, where
/// it has one.
pub proof fn buckets_are_set_apart(
    buckets: Seq<console::BucketView>,
    bucket: console::BucketView,
    widths: Option<Seq<nat>>,
)
    ensures
        console::buckets_text(Seq::empty(), widths) == Seq::<char>::empty(),
        ({
            let column = buckets.len() as int;
            let cell = if widths is Some && column < widths->0.len() {
                console::padded(console::bucket_text(bucket), widths->0[column])
            } else {
                console::bucket_text(bucket)
            };
            console::buckets_text(buckets.push(bucket), widths) == if column == 0 {
                cell
            } else {
                console::buckets_text(buckets, widths) + seq![' '] + cell
            }
        }),
{
    assert(buckets.push(bucket).drop_last() =~= buckets);
    assert(Seq::<char>::empty() + Seq::<char>::empty() =~= Seq::<char>::empty());
    if buckets.len() == 0 {
        assert(console::buckets_text(buckets, widths) =~= Seq::<char>::empty());
        let cell = if widths is Some && 0 < widths->0.len() {
            console::padded(console::bucket_text(bucket), widths->0[0])
        } else {
            console::bucket_text(bucket)
        };
        assert(Seq::<char>::empty() + Seq::<char>::empty() + cell =~= cell);
    }
}

/// A histogram prints its buckets, its count and its sum, and its minimum and maximum where there are
/// any.
pub proof fn histograms_print_all_they_hold(histogram: console::HistogramView, widths: Option<Seq<nat>>)
    ensures
        ({
            let start = seq!['['] + console::buckets_text(histogram.buckets, widths) + "]  count="@
                + text::decimal(histogram.count as nat) + " sum="@ + number::double_text(histogram.sum.bits);
            let printed = console::histogram_text(histogram, widths);
            &&& histogram.min is None && histogram.max is None ==> printed == start
            &&& histogram.min is Some && histogram.max is None ==> printed == start + (" min="@
                + number::double_text(histogram.min->0.bits))
            &&& histogram.min is None && histogram.max is Some ==> printed == start + (" max="@
                + number::double_text(histogram.max->0.bits))
            &&& histogram.min is Some && histogram.max is Some ==> printed == start + (" min="@
                + number::double_text(histogram.min->0.bits)) + (" max="@ + number::double_text(
                histogram.max->0.bits,
            ))
        }),
{
    let start = seq!['['] + console::buckets_text(histogram.buckets, widths) + "]  count="@ + text::decimal(
        histogram.count as nat,
    ) + " sum="@ + number::double_text(histogram.sum.bits);
    assert(start + Seq::<char>::empty() =~= start);
    if histogram.min is Some {
        let longer = start + (" min="@ + number::double_text(histogram.min->0.bits));
        assert(longer + Seq::<char>::empty() =~= longer);
    }
}

proof fn lemma_two_digits(n: nat)
    requires
        n < 100,
    ensures
        console::zero_padded(n, 2) == seq![text::digit((n / 10) as int), text::digit((n % 10) as int)],
{
    reveal_with_fuel(text::decimal, 2);
    if n < 10 {
        assert(text::decimal(n) =~= seq![text::digit(n as int)]);
    } else {
        assert(text::decimal(n) =~= seq![text::digit((n / 10) as int), text::digit((n % 10) as int)]);
    }
    assert(console::zero_padded(n, 2) =~= seq![
        text::digit((n / 10) as int),
        text::digit((n % 10) as int),
    ]);
}

proof fn lemma_three_digits(n: nat)
    requires
        n < 1000,
    ensures
        console::zero_padded(n, 3) == seq![
            text::digit((n / 100) as int),
            text::digit((n / 10 % 10) as int),
            text::digit((n % 10) as int),
        ],
{
    reveal_with_fuel(text::decimal, 3);
    if n < 10 {
        assert(text::decimal(n) =~= seq![text::digit(n as int)]);
    } else if n < 100 {
        assert(text::decimal(n) =~= seq![text::digit((n / 10) as int), text::digit((n % 10) as int)]);
    } else {
        assert(n / 10 / 10 == n / 100);
        assert(text::decimal(n) =~= seq![
            text::digit((n / 100) as int),
            text::digit((n / 10 % 10) as int),
            text::digit((n % 10) as int),
        ]);
    }
    assert(console::zero_padded(n, 3) =~= seq![
        text::digit((n / 100) as int),
        text::digit((n / 10 % 10) as int),
        text::digit((n % 10) as int),
    ]);
}

/// What a digit stands for.
pub open spec fn digit_value(c: char) -> int {
    c as int - '0' as int
}

/// Whether two characters are digits that stand for a number.
pub open spec fn reads(tens: char, ones: char, n: int) -> bool {
    &&& '0' <= tens <= '9'
    &&& '0' <= ones <= '9'
    &&& 10 * digit_value(tens) + digit_value(ones) == n
}

proof fn lemma_seconds(nanos: int, secs: int, milli: int, rest: int)
    requires
        secs >= 0,
        0 <= milli < 1000,
        0 <= rest < 1_000_000,
        nanos == (secs * 1000 + milli) * 1_000_000 + rest,
    ensures
        nanos >= 0,
        nanos / 1_000_000_000 == secs,
        (nanos % 1_000_000_000) / 1_000_000 == milli,
{
    let part = milli * 1_000_000 + rest;
    assert(0 <= part < 1_000_000_000);
    assert(nanos == secs * 1_000_000_000 + part);
    assert(part / 1_000_000 == milli);
}

proof fn lemma_clock(day: int, hour: int, minute: int, second: int)
    requires
        day >= 0,
        0 <= hour < 24,
        0 <= minute < 60,
        0 <= second < 60,
    ensures
        ({
            let whole = ((day * 24 + hour) * 60 + minute) * 60 + second;
            let secs = whole % 86_400;
            &&& whole >= 0
            &&& secs / 3_600 == hour
            &&& (secs / 60) % 60 == minute
            &&& secs % 60 == second
        }),
{
    let whole = ((day * 24 + hour) * 60 + minute) * 60 + second;
    let of_day = (hour * 60 + minute) * 60 + second;
    assert(whole == day * 86_400 + of_day);
    assert(0 <= of_day < 86_400);
    assert(whole % 86_400 == of_day);
    assert(of_day / 60 == hour * 60 + minute);
    assert((hour * 60 + minute) % 60 == minute);
    assert(of_day % 60 == second);
    assert(of_day / 3_600 == hour);
}

proof fn lemma_clock_text(nanos: int, hour: int, minute: int, second: int, milli: int)
    requires
        nanos >= 0,
        0 <= hour < 24,
        0 <= minute < 60,
        0 <= second < 60,
        0 <= milli < 1000,
        ((nanos / 1_000_000_000) % 86_400) / 3_600 == hour,
        (((nanos / 1_000_000_000) % 86_400) / 60) % 60 == minute,
        ((nanos / 1_000_000_000) % 86_400) % 60 == second,
        (nanos % 1_000_000_000) / 1_000_000 == milli,
    ensures
        ({
            let printed = console::time_text(nanos);
            &&& printed.len() == 12
            &&& reads(printed[0], printed[1], hour)
            &&& printed[2] == ':'
            &&& reads(printed[3], printed[4], minute)
            &&& printed[5] == ':'
            &&& reads(printed[6], printed[7], second)
            &&& printed[8] == '.'
            &&& '0' <= printed[9] <= '9'
            &&& reads(printed[10], printed[11], milli - 100 * digit_value(printed[9]))
        }),
{
    lemma_two_digits(hour as nat);
    lemma_two_digits(minute as nat);
    lemma_two_digits(second as nat);
    lemma_three_digits(milli as nat);
    let printed = console::time_text(nanos);
    assert(printed =~= console::zero_padded(hour as nat, 2) + seq![':'] + console::zero_padded(
        minute as nat,
        2,
    ) + seq![':'] + console::zero_padded(second as nat, 2) + seq!['.'] + console::zero_padded(milli as nat, 3));
    assert(printed[0] == text::digit(hour / 10) && printed[1] == text::digit(hour % 10));
    assert(printed[3] == text::digit(minute / 10) && printed[4] == text::digit(minute % 10));
    assert(printed[6] == text::digit(second / 10) && printed[7] == text::digit(second % 10));
    assert(printed[9] == text::digit(milli / 100) && printed[10] == text::digit(milli / 10 % 10)
        && printed[11] == text::digit(milli % 10));
    assert(milli / 10 / 10 == milli / 100);
}

/// A time from the epoch on prints as the hour, minute, second and millisecond of its day in UTC.
pub proof fn times_print_the_clock(
    nanos: int,
    day: int,
    hour: int,
    minute: int,
    second: int,
    milli: int,
    rest: int,
)
    requires
        day >= 0,
        0 <= hour < 24,
        0 <= minute < 60,
        0 <= second < 60,
        0 <= milli < 1000,
        0 <= rest < 1_000_000,
        nanos == ((((day * 24 + hour) * 60 + minute) * 60 + second) * 1000 + milli) * 1_000_000 + rest,
    ensures
        ({
            let printed = console::time_text(nanos);
            &&& printed.len() == 12
            &&& reads(printed[0], printed[1], hour)
            &&& printed[2] == ':'
            &&& reads(printed[3], printed[4], minute)
            &&& printed[5] == ':'
            &&& reads(printed[6], printed[7], second)
            &&& printed[8] == '.'
            &&& '0' <= printed[9] <= '9'
            &&& reads(printed[10], printed[11], milli - 100 * digit_value(printed[9]))
        }),
{
    lemma_seconds(nanos, ((day * 24 + hour) * 60 + minute) * 60 + second, milli, rest);
    lemma_clock(day, hour, minute, second);
    lemma_clock_text(nanos, hour, minute, second, milli);
}

/// A time before the epoch has no clock.
pub proof fn times_before_the_epoch_are_unknown(nanos: int)
    requires
        nanos < 0,
    ensures
        console::time_text(nanos) == "??:??:??.???"@,
{
}

/// Attributes print in their order, set apart by a comma and a blank.
pub proof fn attributes_are_set_apart(attrs: Seq<model::KeyValueView>, attr: model::KeyValueView)
    ensures
        console::attributes_text(Seq::empty()) == seq!['{'],
        console::attributes_text(attrs.push(attr)) == if attrs.len() == 0 {
            seq!['{'] + model::attr_text(attr)
        } else {
            console::attributes_text(attrs) + ", "@ + model::attr_text(attr)
        },
{
    assert(attrs.push(attr).drop_last() =~= attrs);
    if attrs.len() == 0 {
        assert(console::attributes_text(attrs) == seq!['{']);
        assert(seq!['{'] + Seq::<char>::empty() =~= seq!['{']);
    }
}

/// A metric prints its temporality, unless it is a gauge, then its kind and its name; then its unit and
/// its description, where there are any.
pub proof fn headers_name_the_metric(metric: console::MetricView)
    ensures
        ({
            let kind = match metric.kind {
                Kind::Counter => if metric.temporality is Cumulative {
                    "CumulativeCounter "@
                } else {
                    "DeltaCounter "@
                },
                Kind::Gauge => "Gauge "@,
                Kind::Histogram => if metric.temporality is Cumulative {
                    "CumulativeHistogram "@
                } else {
                    "DeltaHistogram "@
                },
            };
            let title = kind + metric.id.name;
            let unit = " unit="@ + metric.id.unit;
            let description = " description="@ + text::debug_text(metric.id.description);
            let printed = console::header_text(metric);
            &&& metric.id.unit.len() == 0 && metric.id.description.len() == 0 ==> printed == title
            &&& metric.id.unit.len() > 0 && metric.id.description.len() == 0 ==> printed == title + unit
            &&& metric.id.unit.len() == 0 && metric.id.description.len() > 0 ==> printed == title + description
            &&& metric.id.unit.len() > 0 && metric.id.description.len() > 0 ==> printed == title + unit
                + description
        }),
{
    lemma_title(metric);
    let title = console::title_text(metric);
    let unit = " unit="@ + metric.id.unit;
    let description = " description="@ + text::debug_text(metric.id.description);
    assert(title + Seq::<char>::empty() =~= title);
    assert(title + unit + Seq::<char>::empty() =~= title + unit);
}

proof fn lemma_title(metric: console::MetricView)
    ensures
        console::title_text(metric) == (match metric.kind {
            Kind::Counter => if metric.temporality is Cumulative {
                "CumulativeCounter "@
            } else {
                "DeltaCounter "@
            },
            Kind::Gauge => "Gauge "@,
            Kind::Histogram => if metric.temporality is Cumulative {
                "CumulativeHistogram "@
            } else {
                "DeltaHistogram "@
            },
        }) + metric.id.name,
{
    reveal_strlit("Cumulative");
    reveal_strlit("Delta");
    reveal_strlit("Counter");
    reveal_strlit("Gauge");
    reveal_strlit("Histogram");
    match metric.kind {
        Kind::Counter => {
            reveal_strlit("CumulativeCounter ");
            reveal_strlit("DeltaCounter ");
            if metric.temporality is Cumulative {
                assert(console::title_text(metric) =~= "CumulativeCounter "@ + metric.id.name);
            } else {
                assert(console::title_text(metric) =~= "DeltaCounter "@ + metric.id.name);
            }
        },
        Kind::Gauge => {
            reveal_strlit("Gauge ");
            assert(console::title_text(metric) =~= "Gauge "@ + metric.id.name);
        },
        Kind::Histogram => {
            reveal_strlit("CumulativeHistogram ");
            reveal_strlit("DeltaHistogram ");
            if metric.temporality is Cumulative {
                assert(console::title_text(metric) =~= "CumulativeHistogram "@ + metric.id.name);
            } else {
                assert(console::title_text(metric) =~= "DeltaHistogram "@ + metric.id.name);
            }
        },
    }
}

/// Each point prints on a line of its own, behind those before it: its time, unless the line before has
/// the same, then its attributes in braces, where there are any, and its value.
pub proof fn points_print_on_lines(
    points: Seq<console::DataPointView>,
    point: console::DataPointView,
    widths: Option<Seq<nat>>,
)
    ensures
        console::points_text(Seq::empty(), widths) == Seq::<char>::empty(),
        ({
            let repeats = points.len() > 0 && points.last().time == point.time;
            let time = if repeats {
                Seq::new(16, |i: int| ' ')
            } else {
                "  "@ + console::time_text(point.time) + "  "@
            };
            let value = match point.value {
                DataPointValueView::Histogram(histogram) => console::histogram_text(histogram, widths),
                DataPointValueView::Number(number) => number::double_text(number.bits),
            };
            let line = if point.attributes.len() == 0 {
                seq!['\n'] + time + value
            } else {
                seq!['\n'] + time + (console::attributes_text(point.attributes) + "} "@) + value
            };
            console::points_text(points.push(point), widths) == console::points_text(points, widths) + line
        }),
{
    assert(points.push(point).drop_last() =~= points);
    let previous = if points.len() == 0 {
        None
    } else {
        Some(points.last().time)
    };
    let repeats = points.len() > 0 && points.last().time == point.time;
    let time = if repeats {
        Seq::new(16, |i: int| ' ')
    } else {
        "  "@ + console::time_text(point.time) + "  "@
    };
    assert(console::spaces(16) =~= Seq::new(16, |i: int| ' '));
    assert(seq!['\n'] + time + Seq::<char>::empty() =~= seq!['\n'] + time);
    assert(console::points_text(points.push(point), widths) == console::points_text(points, widths)
        + console::point_text(previous, point, widths));
}

/// A metric prints its header and then its points, ordered, in columns as wide as all of them need.
pub proof fn metrics_print_header_and_points(metric: console::MetricView)
    ensures
        text::begins_with(console::metric_text(metric), console::header_text(metric)),
        console::metric_text(metric).skip(console::header_text(metric).len() as int) == console::points_text(
            order::sorted(metric.data_points),
            console::column_widths(metric.data_points),
        ),
{
    let header = console::header_text(metric);
    let points = console::points_text(
        order::sorted(metric.data_points),
        console::column_widths(metric.data_points),
    );
    assert((header + points).take(header.len() as int) =~= header);
    assert((header + points).skip(header.len() as int) =~= points);
}

proof fn lemma_widest(points: Seq<console::DataPointView>, column: int)
    ensures
        forall|i: int|
            0 <= i < points.len() ==> console::bucket_text(
                (#[trigger] points[i]).value->Histogram_0.buckets[column],
            ).len() <= console::column_width(points, column),
        points.len() > 0 ==> exists|i: int|
            0 <= i < points.len() && console::bucket_text(
                (#[trigger] points[i]).value->Histogram_0.buckets[column],
            ).len() == console::column_width(points, column),
    decreases points.len(),
{
    if points.len() > 0 {
        let before = points.drop_last();
        let last = points.len() - 1;
        lemma_widest(before, column);
        assert(points[last] == points.last());
        assert forall|i: int| 0 <= i < points.len() implies console::bucket_text(
            (#[trigger] points[i]).value->Histogram_0.buckets[column],
        ).len() <= console::column_width(points, column) by {
            if i < last {
                assert(points[i] == before[i]);
            }
        }
        let cell = console::bucket_text(points.last().value->Histogram_0.buckets[column]).len();
        if cell > console::column_width(before, column) || before.len() == 0 {
            if before.len() == 0 && cell == 0 {
                assert(console::column_width(before, column) == 0);
            }
            assert(console::bucket_text(points[last].value->Histogram_0.buckets[column]).len()
                == console::column_width(points, column));
        } else {
            let i = choose|i: int|
                0 <= i < before.len() && console::bucket_text(
                    (#[trigger] before[i]).value->Histogram_0.buckets[column],
                ).len() == console::column_width(before, column);
            assert(points[i] == before[i]);
        }
    }
}

/// Columns are there exactly where all points are histograms of one number of buckets. Every cell fits
/// its column, and no column is wider than its widest cell.
pub proof fn columns_are_as_wide_as_they_need(points: Seq<console::DataPointView>)
    ensures
        ({
            let aligned = points.len() > 0 && forall|i: int|
                0 <= i < points.len() ==> (#[trigger] points[i]).value is Histogram
                    && points[i].value->Histogram_0.buckets.len()
                    == points[0].value->Histogram_0.buckets.len();
            &&& console::column_widths(points) is Some <==> aligned
            &&& console::column_widths(points) matches Some(widths) ==> {
                &&& widths.len() == points[0].value->Histogram_0.buckets.len()
                &&& forall|column: int, i: int|
                    0 <= column < widths.len() && 0 <= i < points.len() ==> console::bucket_text(
                        (#[trigger] points[i]).value->Histogram_0.buckets[column],
                    ).len() <= #[trigger] widths[column]
                &&& forall|column: int|
                    0 <= column < widths.len() ==> exists|i: int|
                        0 <= i < points.len() && console::bucket_text(
                            (#[trigger] points[i]).value->Histogram_0.buckets[column],
                        ).len() == #[trigger] widths[column]
            }
        }),
{
    let aligned = points.len() > 0 && forall|i: int|
        0 <= i < points.len() ==> (#[trigger] points[i]).value is Histogram
            && points[i].value->Histogram_0.buckets.len() == points[0].value->Histogram_0.buckets.len();
    if points.len() > 0 {
        let n = points[0].value->Histogram_0.buckets.len();
        if aligned {
            assert(points[0].value is Histogram);
            assert forall|i: int| 0 <= i < points.len() implies console::has_columns(
                #[trigger] points[i],
                n,
            ) by {}
        }
        if console::column_widths(points) is Some {
            assert forall|i: int| 0 <= i < points.len() implies (#[trigger] points[i]).value is Histogram
                && points[i].value->Histogram_0.buckets.len() == n by {
                assert(console::has_columns(points[i], n));
            }
            let widths = console::column_widths(points)->0;
            assert forall|column: int, i: int|
                0 <= column < widths.len() && 0 <= i < points.len() implies console::bucket_text(
                (#[trigger] points[i]).value->Histogram_0.buckets[column],
            ).len() <= #[trigger] widths[column] by {
                lemma_widest(points, column);
            }
            assert forall|column: int| 0 <= column < widths.len() implies exists|i: int|
                0 <= i < points.len() && console::bucket_text(
                    (#[trigger] points[i]).value->Histogram_0.buckets[column],
                ).len() == #[trigger] widths[column] by {
                lemma_widest(points, column);
            }
        }
    }
}

/// Metrics print one after the other, each on lines of its own.
pub proof fn batches_print_every_metric(metrics: Seq<console::MetricView>, metric: console::MetricView)
    ensures
        sender::batch_text(Seq::empty()) == Seq::<char>::empty(),
        sender::batch_text(metrics.push(metric)) == sender::batch_text(metrics) + console::metric_text(metric)
            + seq!['\n'],
{
    assert(metrics.push(metric).drop_last() =~= metrics);
}

/// What printed values are said to hold, their fields hold: no field stands for another.
pub proof fn points_are_seen_as_they_are(
    histogram: console::Histogram,
    bucket: console::Bucket,
    point: console::DataPoint,
    metric: console::Metric,
)
    ensures
        histogram@.count == histogram.count,
        histogram@.sum == histogram.sum@,
        histogram@.buckets.len() == histogram.buckets@.len(),
        forall|i: int|
            0 <= i < histogram.buckets@.len() ==> #[trigger] histogram@.buckets[i] == histogram.buckets@[i]@,
        histogram.min matches Some(min) ==> histogram@.min == Some(min@),
        histogram.min is None ==> histogram@.min is None,
        histogram.max matches Some(max) ==> histogram@.max == Some(max@),
        histogram.max is None ==> histogram@.max is None,
        bucket.upper_bound matches Some(bound) ==> bucket@.upper_bound == Some(bound@),
        bucket.upper_bound is None ==> bucket@.upper_bound is None,
        bucket@.count == bucket.count,
        point@.attributes == model::attrs_view(point.attributes@),
        point@.start_time == point.start_time@,
        point@.time == point.time@,
        point.value matches console::DataPointValue::Number(value) ==> point@.value
            == DataPointValueView::Number(value@),
        point.value matches console::DataPointValue::Histogram(value) ==> point@.value
            == DataPointValueView::Histogram(value@),
        metric@.id == metric.id@,
        metric@.kind == metric.kind,
        metric@.temporality == metric.temporality,
        metric@.data_points.len() == metric.data_points@.len(),
        forall|i: int|
            0 <= i < metric.data_points@.len() ==> #[trigger] metric@.data_points[i]
                == metric.data_points@[i]@,
{
}

} // verus!
