//! Metrics, resources and scopes as OTLP has them.

use crate::atomic::histogram;
use crate::dto;
use crate::dto::{CheckedWire, IntoWire, Kind, Series};
use crate::error;
use crate::error::Error;
use crate::model;
use crate::model::{KeyValue, Str, Temporality, Value};
use crate::number;
use crate::number::{Number, ToNumber};
use crate::observe::Mode;
use crate::order;
use crate::text;
use crate::time::{Duration, SystemTime};
use std::borrow::Cow;
use vstd::prelude::*;
use vstd::string::*;
use vstd::utf8::*;

verus! {

/// A metric with its data points.
#[derive(Debug, Clone, PartialEq)]
pub struct Metric {
    pub name: String,
    pub description: String,
    pub unit: String,
    pub data: Data,
}

#[derive(Debug, Clone, PartialEq)]
#[allow(inconsistent_fields)]
pub enum Data {
    Sum { data_points: Vec<NumberDataPoint>, temporality: Temporality, is_monotonic: bool },
    Gauge { data_points: Vec<NumberDataPoint> },
    Histogram { data_points: Vec<HistogramDataPoint>, temporality: Temporality },
}

#[derive(Debug, Clone, PartialEq)]
pub struct NumberDataPoint {
    pub attributes: Vec<KeyValue>,
    pub start_time_unix_nano: u64,
    pub time_unix_nano: u64,
    pub value: NumberValue,
}

#[derive(Debug, Clone, PartialEq)]
pub enum NumberValue {
    AsInt(i64),
    AsDouble(Number),
}

#[derive(Debug, Clone, PartialEq)]
pub struct HistogramDataPoint {
    pub attributes: Vec<KeyValue>,
    pub start_time_unix_nano: u64,
    pub time_unix_nano: u64,
    pub count: u64,
    pub sum: Number,
    pub bucket_counts: Vec<u64>,
    pub explicit_bounds: Vec<Number>,
    pub min: Option<Number>,
    pub max: Option<Number>,
}

#[verifier::ext_equal]
pub ghost struct MetricView {
    pub name: Seq<char>,
    pub description: Seq<char>,
    pub unit: Seq<char>,
    pub data: DataView,
}

#[allow(inconsistent_fields)]
pub ghost enum DataView {
    Sum { data_points: Seq<NumberDataPointView>, temporality: Temporality, is_monotonic: bool },
    Gauge { data_points: Seq<NumberDataPointView> },
    Histogram { data_points: Seq<HistogramDataPointView>, temporality: Temporality },
}

#[verifier::ext_equal]
pub ghost struct NumberDataPointView {
    pub attributes: Seq<model::KeyValueView>,
    pub start_time_unix_nano: u64,
    pub time_unix_nano: u64,
    pub value: NumberValueView,
}

pub ghost enum NumberValueView {
    AsInt(i64),
    AsDouble(number::NumberView),
}

#[verifier::ext_equal]
pub ghost struct HistogramDataPointView {
    pub attributes: Seq<model::KeyValueView>,
    pub start_time_unix_nano: u64,
    pub time_unix_nano: u64,
    pub count: u64,
    pub sum: number::NumberView,
    pub bucket_counts: Seq<u64>,
    pub explicit_bounds: Seq<number::NumberView>,
    pub min: Option<number::NumberView>,
    pub max: Option<number::NumberView>,
}

impl View for Metric {
    type V = MetricView;

    open spec fn view(&self) -> MetricView {
        MetricView {
            name: self.name@,
            description: self.description@,
            unit: self.unit@,
            data: self.data@,
        }
    }
}

impl View for Data {
    type V = DataView;

    open spec fn view(&self) -> DataView {
        match self {
            Data::Sum { data_points, temporality, is_monotonic } => DataView::Sum {
                data_points: order::views(data_points@),
                temporality: *temporality,
                is_monotonic: *is_monotonic,
            },
            Data::Gauge { data_points } => DataView::Gauge { data_points: order::views(data_points@) },
            Data::Histogram { data_points, temporality } => DataView::Histogram {
                data_points: order::views(data_points@),
                temporality: *temporality,
            },
        }
    }
}

impl View for NumberDataPoint {
    type V = NumberDataPointView;

    open spec fn view(&self) -> NumberDataPointView {
        NumberDataPointView {
            attributes: model::attrs_view(self.attributes@),
            start_time_unix_nano: self.start_time_unix_nano,
            time_unix_nano: self.time_unix_nano,
            value: self.value@,
        }
    }
}

impl View for NumberValue {
    type V = NumberValueView;

    open spec fn view(&self) -> NumberValueView {
        match self {
            NumberValue::AsInt(value) => NumberValueView::AsInt(*value),
            NumberValue::AsDouble(value) => NumberValueView::AsDouble(value@),
        }
    }
}

impl View for HistogramDataPoint {
    type V = HistogramDataPointView;

    open spec fn view(&self) -> HistogramDataPointView {
        HistogramDataPointView {
            attributes: model::attrs_view(self.attributes@),
            start_time_unix_nano: self.start_time_unix_nano,
            time_unix_nano: self.time_unix_nano,
            count: self.count,
            sum: self.sum@,
            bucket_counts: self.bucket_counts@,
            explicit_bounds: order::views(self.explicit_bounds@),
            min: number::option_view(self.min),
            max: number::option_view(self.max),
        }
    }
}

/// The nanoseconds since the Unix epoch, as far as they fit 64 bits.
pub open spec fn unix_nanos(nanos: int) -> Result<u64, error::ErrorView> {
    if nanos < 0 {
        Err(error::ErrorView::TimeBeforeEpoch)
    } else if nanos > u64::MAX {
        Err(error::ErrorView::TimeOverflowsU64)
    } else {
        Ok(nanos as u64)
    }
}

/// The nanoseconds since the Unix epoch. A time before the epoch, and one whose nanoseconds do not fit
/// 64 bits, is an error.
pub fn map_time(time: SystemTime) -> (r: Result<u64, Error>)
    ensures
        match r {
            Ok(nanos) => unix_nanos(time@) == Ok::<u64, error::ErrorView>(nanos),
            Err(error) => unix_nanos(time@) == Err::<u64, error::ErrorView>(error@),
        },
{
    let nanos: i128 = time.epoch_nanos();
    if nanos < 0 {
        return Err(Error::TimeBeforeEpoch);
    }
    if nanos > u64::MAX as i128 {
        return Err(Error::TimeOverflowsU64);
    }
    Ok(nanos as u64)
}

/// What a look at a cell gives, as the data of a metric. `Point` is the form of one data point.
pub trait IntoPoint: View + Sized {
    type Point: View;

    /// Whether the data of a metric of a kind can have such points.
    spec fn fits(kind: Kind) -> bool;

    /// The data point of a reading.
    spec fn point(
        reading: Self::V,
        attributes: Seq<model::KeyValueView>,
        start: u64,
        time: u64,
    ) -> Result<<Self::Point as View>::V, error::ErrorView>;

    /// The data of a metric.
    spec fn data(points: Seq<<Self::Point as View>::V>, kind: Kind, temporality: Temporality) -> DataView;

    fn into_point(self, attributes: Vec<KeyValue>, start: u64, time: u64) -> (r: Result<
        Self::Point,
        Error,
    >)
        ensures
            match r {
                Ok(point) => Self::point(self@, model::attrs_view(attributes@), start, time) == Ok::<
                    <Self::Point as View>::V,
                    error::ErrorView,
                >(point@),
                Err(error) => Self::point(self@, model::attrs_view(attributes@), start, time) == Err::<
                    <Self::Point as View>::V,
                    error::ErrorView,
                >(error@),
            },
    ;

    fn is_fitting(kind: Kind) -> (r: bool)
        ensures
            r == Self::fits(kind),
    ;

    fn into_data(points: Vec<Self::Point>, kind: Kind, temporality: Temporality) -> (r: Data)
        requires
            Self::fits(kind),
        ensures
            r@ == Self::data(order::views(points@), kind, temporality),
    ;
}

/// An amount as OTLP has it. An unsigned integer that does not fit a signed one is an error.
pub trait IntoNumberDataPointValue: Sized {
    spec fn number_value(self) -> Result<NumberValueView, error::ErrorView>;

    fn into_number_value(self) -> (r: Result<NumberValue, Error>)
        ensures
            match r {
                Ok(value) => self.number_value() == Ok::<NumberValueView, error::ErrorView>(value@),
                Err(error) => self.number_value() == Err::<NumberValueView, error::ErrorView>(error@),
            },
    ;
}

impl IntoNumberDataPointValue for i64 {
    open spec fn number_value(self) -> Result<NumberValueView, error::ErrorView> {
        Ok(NumberValueView::AsInt(self))
    }

    fn into_number_value(self) -> (r: Result<NumberValue, Error>) {
        Ok(NumberValue::AsInt(self))
    }
}

impl IntoNumberDataPointValue for u64 {
    open spec fn number_value(self) -> Result<NumberValueView, error::ErrorView> {
        if self > i64::MAX {
            Err(error::ErrorView::ValueToI64)
        } else {
            Ok(NumberValueView::AsInt(self as i64))
        }
    }

    fn into_number_value(self) -> (r: Result<NumberValue, Error>) {
        if self > i64::MAX as u64 {
            return Err(Error::ValueToI64);
        }
        Ok(NumberValue::AsInt(self as i64))
    }
}

impl IntoNumberDataPointValue for Number {
    open spec fn number_value(self) -> Result<NumberValueView, error::ErrorView> {
        Ok(NumberValueView::AsDouble(self@))
    }

    fn into_number_value(self) -> (r: Result<NumberValue, Error>) {
        Ok(NumberValue::AsDouble(self))
    }
}

/// The data point of an amount.
pub open spec fn number_point<T: IntoNumberDataPointValue>(
    amount: T,
    attributes: Seq<model::KeyValueView>,
    start: u64,
    time: u64,
) -> Result<NumberDataPointView, error::ErrorView> {
    match amount.number_value() {
        Err(error) => Err(error),
        Ok(value) => Ok(
            NumberDataPointView {
                attributes,
                start_time_unix_nano: start,
                time_unix_nano: time,
                value,
            },
        ),
    }
}

/// The data of a counter or a gauge. A counter is monotonic whatever its temporality.
pub open spec fn number_data(
    points: Seq<NumberDataPointView>,
    kind: Kind,
    temporality: Temporality,
) -> DataView {
    if kind is Counter {
        DataView::Sum { data_points: points, temporality, is_monotonic: true }
    } else {
        DataView::Gauge { data_points: points }
    }
}

/// The data point of an amount.
pub fn to_number_point<T: IntoNumberDataPointValue>(
    amount: T,
    attributes: Vec<KeyValue>,
    start: u64,
    time: u64,
) -> (r: Result<NumberDataPoint, Error>)
    ensures
        match r {
            Ok(point) => number_point(amount, model::attrs_view(attributes@), start, time) == Ok::<
                NumberDataPointView,
                error::ErrorView,
            >(point@),
            Err(error) => number_point(amount, model::attrs_view(attributes@), start, time) == Err::<
                NumberDataPointView,
                error::ErrorView,
            >(error@),
        },
{
    match amount.into_number_value() {
        Ok(value) => Ok(
            NumberDataPoint {
                attributes,
                start_time_unix_nano: start,
                time_unix_nano: time,
                value,
            },
        ),
        Err(error) => Err(error),
    }
}

/// The data of a counter or a gauge.
pub fn to_number_data(points: Vec<NumberDataPoint>, kind: Kind, temporality: Temporality) -> (r: Data)
    requires
        kind !is Histogram,
    ensures
        r@ == number_data(order::views(points@), kind, temporality),
{
    match kind {
        // `is_monotonic` describes the kind of the metric, not its temporality: a counter that reports
        // differences is still monotonic.
        Kind::Counter => Data::Sum { data_points: points, temporality, is_monotonic: true },
        _ => Data::Gauge { data_points: points },
    }
}

impl IntoPoint for u64 {
    type Point = NumberDataPoint;

    open spec fn fits(kind: Kind) -> bool {
        kind !is Histogram
    }

    open spec fn point(
        reading: u64,
        attributes: Seq<model::KeyValueView>,
        start: u64,
        time: u64,
    ) -> Result<NumberDataPointView, error::ErrorView> {
        number_point(reading, attributes, start, time)
    }

    open spec fn data(points: Seq<NumberDataPointView>, kind: Kind, temporality: Temporality) -> DataView {
        number_data(points, kind, temporality)
    }

    fn into_point(self, attributes: Vec<KeyValue>, start: u64, time: u64) -> (r: Result<
        NumberDataPoint,
        Error,
    >) {
        to_number_point(self, attributes, start, time)
    }

    fn is_fitting(kind: Kind) -> (r: bool) {
        kind != Kind::Histogram
    }

    fn into_data(points: Vec<NumberDataPoint>, kind: Kind, temporality: Temporality) -> (r: Data) {
        to_number_data(points, kind, temporality)
    }
}

impl IntoPoint for i64 {
    type Point = NumberDataPoint;

    open spec fn fits(kind: Kind) -> bool {
        kind !is Histogram
    }

    open spec fn point(
        reading: i64,
        attributes: Seq<model::KeyValueView>,
        start: u64,
        time: u64,
    ) -> Result<NumberDataPointView, error::ErrorView> {
        number_point(reading, attributes, start, time)
    }

    open spec fn data(points: Seq<NumberDataPointView>, kind: Kind, temporality: Temporality) -> DataView {
        number_data(points, kind, temporality)
    }

    fn into_point(self, attributes: Vec<KeyValue>, start: u64, time: u64) -> (r: Result<
        NumberDataPoint,
        Error,
    >) {
        to_number_point(self, attributes, start, time)
    }

    fn is_fitting(kind: Kind) -> (r: bool) {
        kind != Kind::Histogram
    }

    fn into_data(points: Vec<NumberDataPoint>, kind: Kind, temporality: Temporality) -> (r: Data) {
        to_number_data(points, kind, temporality)
    }
}

impl IntoPoint for Number {
    type Point = NumberDataPoint;

    open spec fn fits(kind: Kind) -> bool {
        kind !is Histogram
    }

    open spec fn point(
        reading: number::NumberView,
        attributes: Seq<model::KeyValueView>,
        start: u64,
        time: u64,
    ) -> Result<NumberDataPointView, error::ErrorView> {
        Ok(
            NumberDataPointView {
                attributes,
                start_time_unix_nano: start,
                time_unix_nano: time,
                value: NumberValueView::AsDouble(reading),
            },
        )
    }

    open spec fn data(points: Seq<NumberDataPointView>, kind: Kind, temporality: Temporality) -> DataView {
        number_data(points, kind, temporality)
    }

    fn into_point(self, attributes: Vec<KeyValue>, start: u64, time: u64) -> (r: Result<
        NumberDataPoint,
        Error,
    >) {
        to_number_point(self, attributes, start, time)
    }

    fn is_fitting(kind: Kind) -> (r: bool) {
        kind != Kind::Histogram
    }

    fn into_data(points: Vec<NumberDataPoint>, kind: Kind, temporality: Temporality) -> (r: Data) {
        to_number_data(points, kind, temporality)
    }
}

/// A boundary as a double.
pub open spec fn boundary_number<T: ToNumber>(boundary: T) -> Result<
    Option<number::NumberView>,
    error::ErrorView,
> {
    match boundary.number() {
        Some(number) => Ok(Some(number)),
        None => Err(error::ErrorView::BoundaryToF64),
    }
}

/// Boundaries as doubles.
pub open spec fn boundary_numbers<T: ToNumber>(boundaries: Seq<T>) -> Result<
    Seq<number::NumberView>,
    error::ErrorView,
> {
    order::gathered(boundaries, |boundary: T| boundary_number(boundary))
}

fn to_boundary_numbers<T: ToNumber>(boundaries: &Vec<T>) -> (r: Result<Vec<Number>, Error>)
    ensures
        match r {
            Ok(numbers) => boundary_numbers(boundaries@) == Ok::<Seq<number::NumberView>, error::ErrorView>(
                order::views(numbers@),
            ),
            Err(error) => boundary_numbers(boundaries@) == Err::<
                Seq<number::NumberView>,
                error::ErrorView,
            >(error@),
        },
{
    let ghost all = boundaries@;
    let ghost give = |boundary: T| boundary_number(boundary);
    let mut numbers: Vec<Number> = Vec::new();
    let mut i: usize = 0;
    assert(order::views(numbers@) =~= Seq::<number::NumberView>::empty());
    while i < boundaries.len()
        invariant
            i <= boundaries@.len(),
            all == boundaries@,
            give == (|boundary: T| boundary_number(boundary)),
            order::gathered(all.take(i as int), give) == Ok::<Seq<number::NumberView>, error::ErrorView>(
                order::views(numbers@),
            ),
        decreases boundaries@.len() - i,
    {
        assert(all.take(i + 1).drop_last() =~= all.take(i as int));
        assert(all.take(i + 1).last() == boundaries@[i as int]);
        match boundaries[i].to_number() {
            Ok(number) => {
                let ghost before = order::views(numbers@);
                numbers.push(number);
                assert(order::views(numbers@) =~= before.push(number@));
            },
            Err(_) => {
                proof {
                    order::lemma_gathered_error(all, give, i + 1);
                }
                return Err(Error::BoundaryToF64);
            },
        }
        i = i + 1;
    }
    assert(all.take(i as int) =~= all);
    Ok(numbers)
}

fn to_bound<T: ToNumber>(bound: &Option<T>) -> (r: Result<Option<Number>, Error>)
    ensures
        match r {
            Ok(number) => match *bound {
                Some(bound) => bound.number() is Some && number::option_view(number) == bound.number(),
                None => number is None,
            },
            Err(error) => *bound is Some && bound->0.number() is None && error@ is ValueToF64,
        },
{
    match bound {
        None => Ok(None),
        Some(bound) => match bound.to_number() {
            Ok(number) => Ok(Some(number)),
            Err(error) => Err(error),
        },
    }
}

impl<T: ToNumber> IntoPoint for histogram::Snapshot<T> {
    type Point = HistogramDataPoint;

    open spec fn fits(kind: Kind) -> bool {
        true
    }

    open spec fn point(
        reading: histogram::SnapshotView<T>,
        attributes: Seq<model::KeyValueView>,
        start: u64,
        time: u64,
    ) -> Result<HistogramDataPointView, error::ErrorView> {
        match (reading.sum.number(), boundary_numbers(reading.boundaries)) {
            (None, _) => Err(error::ErrorView::ValueToF64),
            (Some(_), Err(error)) => Err(error),
            (Some(sum), Ok(explicit_bounds)) => {
                let min_is_missing = reading.min is Some && reading.min->0.number() is None;
                let max_is_missing = reading.max is Some && reading.max->0.number() is None;
                if min_is_missing || max_is_missing {
                    Err(error::ErrorView::ValueToF64)
                } else {
                    Ok(
                        HistogramDataPointView {
                            attributes,
                            start_time_unix_nano: start,
                            time_unix_nano: time,
                            count: reading.count,
                            sum,
                            bucket_counts: reading.bucket_counts,
                            explicit_bounds,
                            min: if reading.min is Some {
                                reading.min->0.number()
                            } else {
                                None
                            },
                            max: if reading.max is Some {
                                reading.max->0.number()
                            } else {
                                None
                            },
                        },
                    )
                }
            },
        }
    }

    open spec fn data(
        points: Seq<HistogramDataPointView>,
        kind: Kind,
        temporality: Temporality,
    ) -> DataView {
        DataView::Histogram { data_points: points, temporality }
    }

    fn into_point(self, attributes: Vec<KeyValue>, start: u64, time: u64) -> (r: Result<
        HistogramDataPoint,
        Error,
    >) {
        let sum = match self.sum.to_number() {
            Ok(sum) => sum,
            Err(error) => {
                return Err(error);
            },
        };
        let explicit_bounds = match to_boundary_numbers(&self.boundaries) {
            Ok(explicit_bounds) => explicit_bounds,
            Err(error) => {
                return Err(error);
            },
        };
        let min = match to_bound(&self.min) {
            Ok(min) => min,
            Err(error) => {
                return Err(error);
            },
        };
        let max = match to_bound(&self.max) {
            Ok(max) => max,
            Err(error) => {
                return Err(error);
            },
        };
        Ok(
            HistogramDataPoint {
                attributes,
                start_time_unix_nano: start,
                time_unix_nano: time,
                count: self.count,
                sum,
                bucket_counts: self.bucket_counts,
                explicit_bounds,
                min,
                max,
            },
        )
    }

    fn is_fitting(kind: Kind) -> (r: bool) {
        true
    }

    fn into_data(points: Vec<HistogramDataPoint>, kind: Kind, temporality: Temporality) -> (r: Data) {
        Data::Histogram { data_points: points, temporality }
    }
}

/// The data point of a sample.
pub open spec fn sample_point<T: IntoPoint>(
    sample: dto::SampleView<T::V>,
    start_time: int,
    start: u64,
    align: Option<nat>,
) -> Result<Option<<T::Point as View>::V>, error::ErrorView> {
    match unix_nanos(dto::aligned_ts(sample.1.ts, sample.1.seq_id, start_time, align)) {
        Err(error) => Err(error),
        Ok(time) => match T::point(sample.1.value, sample.0, start, time) {
            Err(error) => Err(error),
            Ok(point) => Ok(Some(point)),
        },
    }
}

/// The data points of a series, one attribute set after the other.
pub open spec fn series_points<T: IntoPoint>(
    series: dto::SeriesView<T::V>,
    start: u64,
    align: Option<nat>,
) -> Result<Seq<<T::Point as View>::V>, error::ErrorView> {
    order::gathered(
        dto::samples(series.series),
        |sample: dto::SampleView<T::V>| sample_point::<T>(sample, series.start_time, start, align),
    )
}

/// A series as a metric with all its data points, or nothing where there are none.
pub open spec fn wire<T: IntoPoint>(series: dto::SeriesView<T::V>, align: Option<nat>) -> Result<
    Option<MetricView>,
    error::ErrorView,
> {
    if series.series.len() == 0 {
        Ok(None)
    } else {
        match unix_nanos(series.start_time) {
            Err(error) => Err(error),
            Ok(start) => match series_points::<T>(series, start, align) {
                Err(error) => Err(error),
                Ok(points) => if points.len() == 0 {
                    Ok(None)
                } else {
                    Ok(
                        Some(
                            MetricView {
                                name: series.id.name,
                                description: series.id.description,
                                unit: series.id.unit,
                                data: T::data(
                                    points,
                                    series.kind,
                                    model::temporality_of(series.observe_mode),
                                ),
                            },
                        ),
                    )
                },
            },
        }
    }
}

/// Whether a series is exported: the timestamps that are reached can be aligned, and where there are
/// data points, the metric is of a kind that has such points.
pub open spec fn is_exported<T: IntoPoint>(series: dto::SeriesView<T::V>, align: Option<nat>) -> bool {
    series.series.len() > 0 ==> match unix_nanos(series.start_time) {
        Err(_) => true,
        Ok(start) => {
            &&& dto::reached_are_alignable(
                dto::samples(series.series),
                series.start_time,
                align,
                |sample: dto::SampleView<T::V>|
                    sample_point::<T>(sample, series.start_time, start, align),
            )
            &&& series_points::<T>(series, start, align) matches Ok(points) ==> points.len() > 0
                ==> T::fits(series.kind)
        },
    }
}

impl<T: IntoPoint> IntoWire<Metric> for Series<T> {
    type Error = Error;

    open spec fn is_exportable(series: dto::SeriesView<T::V>, align: Option<nat>) -> bool {
        is_exported::<T>(series, align)
    }

    open spec fn becomes(
        series: dto::SeriesView<T::V>,
        align: Option<nat>,
        result: Result<Option<MetricView>, error::ErrorView>,
    ) -> bool {
        result == wire::<T>(series, align)
    }

    fn into_wire(self, align: Option<Duration>) -> (r: Result<Option<Metric>, Error>) {
        match self.checked_wire(align) {
            Some(result) => result,
            None => Ok(None),
        }
    }
}

impl<T: IntoPoint> CheckedWire<Metric> for Series<T> {
    fn checked_wire(self, align: Option<Duration>) -> (r: Option<Result<Option<Metric>, Error>>) {
        let ghost series = self@;
        let ghost period = dto::span_of(align);
        if self.series.len() == 0 {
            return Some(Ok(None));
        }
        let start_time = self.start_time;
        let id = model::share(&self.id);
        let kind = self.kind;
        let temporality = match self.observe_mode {
            Mode::Direct => Temporality::Cumulative,
            Mode::Delta => Temporality::Delta,
            Mode::Destructive => Temporality::Delta,
        };
        let start: u64 = match map_time(start_time) {
            Ok(start) => start,
            Err(error) => {
                return Some(Err(error));
            },
        };
        let ghost give = |sample: dto::SampleView<T::V>|
            sample_point::<T>(sample, series.start_time, start, period);
        let samples = self.into_samples();
        let ghost all = order::views(samples@);
        let mut rest = order::reversed(samples);
        let mut points: Vec<T::Point> = Vec::new();
        assert(all.take(0) =~= Seq::empty());
        assert(order::views(points@) =~= Seq::<<T::Point as View>::V>::empty());
        while rest.len() > 0
            invariant
                rest@.len() <= all.len(),
                all == dto::samples(series.series),
                series == self@,
                series.series.len() > 0,
                unix_nanos(series.start_time) == Ok::<u64, error::ErrorView>(start),
                period == dto::span_of(align),
                start_time@ == series.start_time,
                give == (|sample: dto::SampleView<T::V>|
                    sample_point::<T>(sample, series.start_time, start, period)),
                forall|i: int|
                    0 <= i < all.len() - rest@.len() ==> dto::ts_is_alignable(
                        (#[trigger] all[i]).1.seq_id,
                        series.start_time,
                        period,
                    ),
                forall|k: int| 0 <= k < rest@.len() ==> (#[trigger] rest@[k])@ == all[all.len() - 1 - k],
                order::gathered(all.take(all.len() - rest@.len()), give) == Ok::<
                    Seq<<T::Point as View>::V>,
                    error::ErrorView,
                >(order::views(points@)),
            decreases rest@.len(),
        {
            let ghost done = all.len() - rest@.len();
            if let Some(sample) = rest.pop() {
                assert(all[done] == sample@);
                assert(all.take(done + 1).drop_last() =~= all.take(done));
                assert(all.take(done + 1).last() == sample@);
                let aligned = match sample.snapshot.checked_align_ts(start_time, align) {
                    Some(aligned) => aligned,
                    None => {
                        assert(!dto::reached_are_alignable(all, series.start_time, period, give));
                        return None;
                    },
                };
                let time: u64 = match map_time(aligned) {
                    Ok(time) => time,
                    Err(error) => {
                        proof {
                            order::lemma_gathered_error(all, give, done + 1);
                            dto::lemma_reached(all, series.start_time, period, give, done + 1);
                        }
                        return Some(Err(error));
                    },
                };
                match sample.snapshot.value.into_point(model::copy_attrs(&sample.attrs), start, time) {
                    Ok(point) => {
                        let ghost before = order::views(points@);
                        points.push(point);
                        assert(order::views(points@) =~= before.push(point@));
                    },
                    Err(error) => {
                        proof {
                            order::lemma_gathered_error(all, give, done + 1);
                            dto::lemma_reached(all, series.start_time, period, give, done + 1);
                        }
                        return Some(Err(error));
                    },
                }
            }
        }
        assert(all.take(all.len() as int) =~= all);
        if points.len() == 0 {
            return Some(Ok(None));
        }
        if !T::is_fitting(kind) {
            return None;
        }
        Some(
            Ok(
                Some(
                    Metric {
                        name: id.name.to_text(),
                        description: id.description.to_text(),
                        unit: id.unit.to_text(),
                        data: T::into_data(points, kind, temporality),
                    },
                ),
            ),
        )
    }
}

/// Every snapshot of a series becomes one data point: nothing is dropped, and nothing is made up.
pub proof fn snapshots_become_points<T: IntoPoint>(
    series: dto::SeriesView<T::V>,
    start: u64,
    align: Option<nat>,
)
    requires
        forall|i: int|
            0 <= i < dto::samples(series.series).len() ==> (#[trigger] sample_point::<T>(
                dto::samples(series.series)[i],
                series.start_time,
                start,
                align,
            )) is Ok,
    ensures
        series_points::<T>(series, start, align) is Ok,
        series_points::<T>(series, start, align)->Ok_0.len() == dto::samples(series.series).len(),
        forall|i: int|
            0 <= i < dto::samples(series.series).len() ==> #[trigger] series_points::<T>(
                series,
                start,
                align,
            )->Ok_0[i] == sample_point::<T>(
                dto::samples(series.series)[i],
                series.start_time,
                start,
                align,
            )->Ok_0->0,
{
    let samples = dto::samples(series.series);
    let give = |sample: dto::SampleView<T::V>| sample_point::<T>(sample, series.start_time, start, align);
    assert forall|i: int| 0 <= i < samples.len() implies (#[trigger] give(samples[i])) is Ok && give(
        samples[i],
    )->Ok_0 is Some by {
        assert(sample_point::<T>(samples[i], series.start_time, start, align) is Ok);
    }
    order::gathered_keeps_all(samples, give);
    assert forall|i: int| 0 <= i < samples.len() implies #[trigger] series_points::<T>(
        series,
        start,
        align,
    )->Ok_0[i] == sample_point::<T>(samples[i], series.start_time, start, align)->Ok_0->0 by {
        assert(order::gathered(samples, give)->Ok_0[i] == give(samples[i])->Ok_0->0);
    }
}

/// Whether data is a monotonic sum of a temporality.
pub open spec fn is_monotonic_sum(data: DataView, expected: Temporality) -> bool {
    match data {
        DataView::Sum { data_points, temporality, is_monotonic } => is_monotonic && temporality == expected,
        _ => false,
    }
}

/// A counter is exported as a monotonic sum regardless of its temporality, which is that of the mode in
/// which it was observed.
pub proof fn counters_are_monotonic(
    unsigned: dto::SeriesView<u64>,
    signed: dto::SeriesView<i64>,
    align: Option<nat>,
)
    requires
        unsigned.kind is Counter,
        signed.kind is Counter,
    ensures
        wire::<u64>(unsigned, align) matches Ok(Some(metric)) ==> is_monotonic_sum(
            metric.data,
            model::temporality_of(unsigned.observe_mode),
        ),
        wire::<i64>(signed, align) matches Ok(Some(metric)) ==> is_monotonic_sum(
            metric.data,
            model::temporality_of(signed.observe_mode),
        ),
{
}

/// What produces the metrics.
#[derive(Debug)]
pub struct Resource {
    pub service_name: Option<Str>,
    pub service_namespace: Option<Str>,
    pub service_version: Option<Str>,
    pub service_instance_id: Option<Str>,
    pub telemetry_sdk_name: Option<Str>,
    pub telemetry_sdk_language: Option<Str>,
    pub telemetry_sdk_version: Option<Str>,
    pub host_name: Option<Str>,
    pub host_arch: Option<Str>,
    pub os_type: Option<Str>,
    pub process_executable_name: Option<Str>,
    pub attributes: Vec<KeyValue>,
}

#[verifier::ext_equal]
pub ghost struct ResourceView {
    pub service_name: Option<Seq<char>>,
    pub service_namespace: Option<Seq<char>>,
    pub service_version: Option<Seq<char>>,
    pub service_instance_id: Option<Seq<char>>,
    pub telemetry_sdk_name: Option<Seq<char>>,
    pub telemetry_sdk_language: Option<Seq<char>>,
    pub telemetry_sdk_version: Option<Seq<char>>,
    pub host_name: Option<Seq<char>>,
    pub host_arch: Option<Seq<char>>,
    pub os_type: Option<Seq<char>>,
    pub process_executable_name: Option<Seq<char>>,
    pub attributes: Seq<model::KeyValueView>,
}

/// A text that may be missing.
pub open spec fn text_view(text: Option<Str>) -> Option<Seq<char>> {
    match text {
        Some(text) => Some(text@),
        None => None,
    }
}

impl View for Resource {
    type V = ResourceView;

    open spec fn view(&self) -> ResourceView {
        ResourceView {
            service_name: text_view(self.service_name),
            service_namespace: text_view(self.service_namespace),
            service_version: text_view(self.service_version),
            service_instance_id: text_view(self.service_instance_id),
            telemetry_sdk_name: text_view(self.telemetry_sdk_name),
            telemetry_sdk_language: text_view(self.telemetry_sdk_language),
            telemetry_sdk_version: text_view(self.telemetry_sdk_version),
            host_name: text_view(self.host_name),
            host_arch: text_view(self.host_arch),
            os_type: text_view(self.os_type),
            process_executable_name: text_view(self.process_executable_name),
            attributes: model::attrs_view(self.attributes@),
        }
    }
}

/// The position of the attribute of a key.
pub open spec fn key_position(attrs: Seq<model::KeyValueView>, key: Seq<char>) -> Option<int>
    decreases attrs.len(),
{
    if attrs.len() == 0 {
        None
    } else {
        match key_position(attrs.drop_last(), key) {
            Some(i) => Some(i),
            None => if attrs.last().key == key {
                Some(attrs.len() - 1)
            } else {
                None
            },
        }
    }
}

/// Attributes with one more: in the place of that of the same key, or behind the others. An attribute
/// without a key is left out.
pub open spec fn upserted(attrs: Seq<model::KeyValueView>, attr: model::KeyValueView) -> Seq<
    model::KeyValueView,
> {
    if attr.key.len() == 0 {
        attrs
    } else {
        match key_position(attrs, attr.key) {
            Some(i) => attrs.update(i, attr),
            None => attrs.push(attr),
        }
    }
}

/// Attributes, one after the other.
pub open spec fn all_upserted(attrs: Seq<model::KeyValueView>) -> Seq<model::KeyValueView>
    decreases attrs.len(),
{
    if attrs.len() == 0 {
        Seq::empty()
    } else {
        upserted(all_upserted(attrs.drop_last()), attrs.last())
    }
}

/// Attributes with that of a field, where the field has a value.
pub open spec fn with_field(
    attrs: Seq<model::KeyValueView>,
    key: Seq<char>,
    value: Option<Seq<char>>,
) -> Seq<model::KeyValueView> {
    match value {
        Some(value) => upserted(
            attrs,
            model::KeyValueView { key, value: Some(model::ValueView::String(value)) },
        ),
        None => attrs,
    }
}

/// The fields of a resource under their keys, in the order in which they become attributes.
pub open spec fn resource_fields(resource: ResourceView) -> Seq<(Seq<char>, Option<Seq<char>>)> {
    seq![
        ("service.name"@, resource.service_name),
        ("service.namespace"@, resource.service_namespace),
        ("service.version"@, resource.service_version),
        ("service.instance.id"@, resource.service_instance_id),
        ("telemetry.sdk.name"@, resource.telemetry_sdk_name),
        ("telemetry.sdk.language"@, resource.telemetry_sdk_language),
        ("telemetry.sdk.version"@, resource.telemetry_sdk_version),
        ("host.name"@, resource.host_name),
        ("host.arch"@, resource.host_arch),
        ("os.type"@, resource.os_type),
        ("process.executable.name"@, resource.process_executable_name),
    ]
}

/// Attributes with those of the first `n` fields, one after the other.
pub open spec fn with_fields(
    attrs: Seq<model::KeyValueView>,
    fields: Seq<(Seq<char>, Option<Seq<char>>)>,
    n: nat,
) -> Seq<model::KeyValueView>
    decreases n,
{
    if n == 0 {
        attrs
    } else {
        with_field(with_fields(attrs, fields, (n - 1) as nat), fields[n - 1].0, fields[n - 1].1)
    }
}

/// The attributes of a resource: those given freely, then those of its fields, which replace them.
pub open spec fn resource_attributes(resource: ResourceView) -> Seq<model::KeyValueView> {
    with_fields(
        all_upserted(resource.attributes),
        resource_fields(resource),
        resource_fields(resource).len(),
    )
}

/// Whether keys are there, and no two are the same.
pub open spec fn keys_are_unique(attrs: Seq<model::KeyValueView>) -> bool {
    &&& forall|i: int| 0 <= i < attrs.len() ==> (#[trigger] attrs[i]).key.len() > 0
    &&& forall|i: int, j: int|
        0 <= i < j < attrs.len() ==> (#[trigger] attrs[i]).key != (#[trigger] attrs[j]).key
}

/// The value of the attribute of a key.
pub open spec fn value_of(attrs: Seq<model::KeyValueView>, key: Seq<char>) -> Option<
    Option<model::ValueView>,
> {
    match key_position(attrs, key) {
        Some(i) => Some(attrs[i].value),
        None => None,
    }
}

proof fn lemma_key_position(attrs: Seq<model::KeyValueView>, key: Seq<char>)
    ensures
        match key_position(attrs, key) {
            Some(i) => 0 <= i < attrs.len() && attrs[i].key == key,
            None => forall|i: int| 0 <= i < attrs.len() ==> (#[trigger] attrs[i]).key != key,
        },
    decreases attrs.len(),
{
    if attrs.len() > 0 {
        lemma_key_position(attrs.drop_last(), key);
        match key_position(attrs.drop_last(), key) {
            Some(i) => {
                assert(attrs[i] == attrs.drop_last()[i]);
            },
            None => {
                if attrs.last().key != key {
                    assert forall|i: int| 0 <= i < attrs.len() implies (#[trigger] attrs[i]).key != key by {
                        if i < attrs.len() - 1 {
                            assert(attrs.drop_last()[i].key != key);
                        }
                    }
                }
            },
        }
    }
}

proof fn lemma_unique_position(attrs: Seq<model::KeyValueView>, i: int)
    requires
        keys_are_unique(attrs),
        0 <= i < attrs.len(),
    ensures
        key_position(attrs, attrs[i].key) == Some(i),
{
    lemma_key_position(attrs, attrs[i].key);
    let found = key_position(attrs, attrs[i].key)->0;
    if found < i {
        assert(attrs[found].key != attrs[i].key);
    } else if found > i {
        assert(attrs[i].key != attrs[found].key);
    }
}

/// Putting in an attribute keeps keys unique, sets the value of its key, and changes no other.
pub proof fn upserting_sets_one_key(
    attrs: Seq<model::KeyValueView>,
    attr: model::KeyValueView,
    other: Seq<char>,
)
    requires
        keys_are_unique(attrs),
    ensures
        keys_are_unique(upserted(attrs, attr)),
        attr.key.len() > 0 ==> value_of(upserted(attrs, attr), attr.key) == Some(attr.value),
        other != attr.key ==> value_of(upserted(attrs, attr), other) == value_of(attrs, other),
{
    if attr.key.len() > 0 {
        let after = upserted(attrs, attr);
        lemma_key_position(attrs, attr.key);
        assert forall|i: int, j: int| 0 <= i < j < after.len() implies (#[trigger] after[i]).key != (
        #[trigger] after[j]).key by {
            if j < attrs.len() {
                assert(attrs[i].key != attrs[j].key);
                assert(after[i].key == attrs[i].key && after[j].key == attrs[j].key);
            } else {
                assert(attrs[i].key != attr.key);
            }
        }
        assert forall|i: int| 0 <= i < after.len() implies (#[trigger] after[i]).key.len() > 0 by {
            if i < attrs.len() {
                assert(attrs[i].key.len() > 0);
            }
        }
        let at = match key_position(attrs, attr.key) {
            Some(i) => i,
            None => attrs.len() as int,
        };
        assert(after[at] == attr);
        lemma_unique_position(after, at);
        if other != attr.key {
            lemma_key_position(attrs, other);
            lemma_key_position(after, other);
            if let Some(i) = key_position(attrs, other) {
                assert(after[i] == attrs[i]);
                lemma_unique_position(after, i);
            } else if let Some(i) = key_position(after, other) {
                assert(i != at);
                assert(after[i] == attrs[i]);
            }
        }
    }
}

/// The value that attributes give a key last.
pub open spec fn last_given(attrs: Seq<model::KeyValueView>, key: Seq<char>) -> Option<
    Option<model::ValueView>,
>
    decreases attrs.len(),
{
    if attrs.len() == 0 || key.len() == 0 {
        None
    } else if attrs.last().key == key {
        Some(attrs.last().value)
    } else {
        last_given(attrs.drop_last(), key)
    }
}

proof fn lemma_all_upserted(attrs: Seq<model::KeyValueView>, key: Seq<char>)
    ensures
        keys_are_unique(all_upserted(attrs)),
        value_of(all_upserted(attrs), key) == last_given(attrs, key),
    decreases attrs.len(),
{
    if attrs.len() > 0 {
        lemma_all_upserted(attrs.drop_last(), key);
        upserting_sets_one_key(all_upserted(attrs.drop_last()), attrs.last(), key);
    }
}

/// The value of a field as that of an attribute, where the field has one, and otherwise the value that
/// stood before.
pub open spec fn field_or(value: Option<Seq<char>>, before: Option<Option<model::ValueView>>) -> Option<
    Option<model::ValueView>,
> {
    match value {
        Some(text) => Some(Some(model::ValueView::String(text))),
        None => before,
    }
}

/// Whether keys are there, and no two fields share one.
spec fn fields_are_distinct(fields: Seq<(Seq<char>, Option<Seq<char>>)>) -> bool {
    &&& forall|i: int| 0 <= i < fields.len() ==> (#[trigger] fields[i]).0.len() > 0
    &&& forall|i: int, j: int|
        0 <= i < j < fields.len() ==> (#[trigger] fields[i]).0 != (#[trigger] fields[j]).0
}

/// The first `n` fields set their own keys and no others.
proof fn lemma_with_fields(
    attrs: Seq<model::KeyValueView>,
    fields: Seq<(Seq<char>, Option<Seq<char>>)>,
    n: nat,
    key: Seq<char>,
)
    requires
        keys_are_unique(attrs),
        fields_are_distinct(fields),
        n <= fields.len(),
    ensures
        keys_are_unique(with_fields(attrs, fields, n)),
        forall|i: int|
            0 <= i < n && (#[trigger] fields[i]).0 == key ==> value_of(with_fields(attrs, fields, n), key)
                == field_or(fields[i].1, value_of(attrs, key)),
        (forall|i: int| 0 <= i < n ==> (#[trigger] fields[i]).0 != key) ==> value_of(
            with_fields(attrs, fields, n),
            key,
        ) == value_of(attrs, key),
    decreases n,
{
    if n > 0 {
        let before = with_fields(attrs, fields, (n - 1) as nat);
        let (field_key, value) = fields[n - 1];
        lemma_with_fields(attrs, fields, (n - 1) as nat, key);
        assert(fields[n - 1].0.len() > 0);
        if let Some(text) = value {
            upserting_sets_one_key(
                before,
                model::KeyValueView { key: field_key, value: Some(model::ValueView::String(text)) },
                key,
            );
        }
        if field_key == key {
            assert forall|i: int| 0 <= i < n - 1 implies (#[trigger] fields[i]).0 != key by {
                assert(fields[i].0 != fields[n - 1].0);
            }
        }
    }
}

proof fn lemma_resource_fields_distinct(resource: ResourceView)
    ensures
        fields_are_distinct(resource_fields(resource)),
{
    reveal_strlit("service.name");
    reveal_strlit("service.namespace");
    reveal_strlit("service.version");
    reveal_strlit("service.instance.id");
    reveal_strlit("telemetry.sdk.name");
    reveal_strlit("telemetry.sdk.language");
    reveal_strlit("telemetry.sdk.version");
    reveal_strlit("host.name");
    reveal_strlit("host.arch");
    reveal_strlit("os.type");
    reveal_strlit("process.executable.name");
    let fields = resource_fields(resource);
    let lengths: Seq<int> = seq![12, 17, 15, 19, 18, 22, 21, 9, 9, 7, 23];
    assert forall|i: int| 0 <= i < fields.len() implies (#[trigger] fields[i]).0.len() == lengths[i] by {}
    assert forall|i: int, j: int| 0 <= i < j < fields.len() implies (#[trigger] fields[i]).0
        != (#[trigger] fields[j]).0 by {
        if lengths[i] == lengths[j] {
            assert(fields[i].0[5] != fields[j].0[5]);
        }
    }
}

/// The attributes of a resource have unique keys. A field that has a value sets its key, whatever the
/// free attributes say of it. A key whose field has no value, or that no field has, keeps the value
/// that the free attributes give it last.
pub proof fn resource_fields_win(resource: ResourceView, key: Seq<char>)
    ensures
        keys_are_unique(resource_attributes(resource)),
        forall|i: int|
            0 <= i < resource_fields(resource).len() && (#[trigger] resource_fields(resource)[i]).0 == key
                ==> value_of(resource_attributes(resource), key) == field_or(
                resource_fields(resource)[i].1,
                last_given(resource.attributes, key),
            ),
        (forall|i: int|
            0 <= i < resource_fields(resource).len() ==> (#[trigger] resource_fields(resource)[i]).0 != key)
            ==> value_of(resource_attributes(resource), key) == last_given(resource.attributes, key),
{
    let fields = resource_fields(resource);
    lemma_all_upserted(resource.attributes, key);
    lemma_resource_fields_distinct(resource);
    lemma_with_fields(all_upserted(resource.attributes), fields, fields.len(), key);
}

fn upsert_key_value(attrs: &mut Vec<KeyValue>, attr: KeyValue)
    ensures
        model::attrs_view(final(attrs)@) == upserted(model::attrs_view(old(attrs)@), attr@),
{
    if attr.key.as_str().is_empty() {
        return;
    }
    let ghost all = model::attrs_view(attrs@);
    let ghost key = attr@.key;
    let mut i: usize = 0;
    assert(key_position(all.take(0), key) is None);
    while i < attrs.len()
        invariant
            i <= attrs@.len(),
            attrs@ == old(attrs)@,
            all == model::attrs_view(attrs@),
            key == attr@.key,
            key.len() > 0,
            key_position(all.take(i as int), key) is None,
        decreases attrs@.len() - i,
    {
        assert(all.take(i + 1).drop_last() =~= all.take(i as int));
        assert(all.take(i + 1).last() == attrs@[i as int]@);
        if text::same_text(attrs[i].key.as_str(), attr.key.as_str()) {
            proof {
                lemma_position_of_prefix(all, key, i + 1);
            }
            attrs.set(i, attr);
            assert(model::attrs_view(attrs@) =~= all.update(i as int, attr@));
            return;
        }
        i = i + 1;
    }
    assert(all.take(i as int) =~= all);
    attrs.push(attr);
    assert(model::attrs_view(attrs@) =~= all.push(attr@));
}

proof fn lemma_position_of_prefix(attrs: Seq<model::KeyValueView>, key: Seq<char>, n: int)
    requires
        0 <= n <= attrs.len(),
        key_position(attrs.take(n), key) is Some,
    ensures
        key_position(attrs, key) == key_position(attrs.take(n), key),
    decreases attrs.len() - n,
{
    if n == attrs.len() {
        assert(attrs.take(n) =~= attrs);
    } else {
        assert(attrs.take(n + 1).drop_last() =~= attrs.take(n));
        lemma_position_of_prefix(attrs, key, n + 1);
    }
}

fn upsert_field(attrs: &mut Vec<KeyValue>, key: &'static str, value: Option<Str>)
    ensures
        model::attrs_view(final(attrs)@) == with_field(
            model::attrs_view(old(attrs)@),
            key@,
            text_view(value),
        ),
{
    if let Some(value) = value {
        let attr = KeyValue { key: Str::Cow(Cow::Borrowed(key)), value: Some(Value::String(value)) };
        upsert_key_value(attrs, attr);
    }
}

impl Resource {
    /// A resource of which nothing is known.
    pub fn empty() -> (r: Resource)
        ensures
            r@ == (ResourceView {
                service_name: None,
                service_namespace: None,
                service_version: None,
                service_instance_id: None,
                telemetry_sdk_name: None,
                telemetry_sdk_language: None,
                telemetry_sdk_version: None,
                host_name: None,
                host_arch: None,
                os_type: None,
                process_executable_name: None,
                attributes: Seq::empty(),
            }),
    {
        let r = Resource {
            service_name: None,
            service_namespace: None,
            service_version: None,
            service_instance_id: None,
            telemetry_sdk_name: None,
            telemetry_sdk_language: None,
            telemetry_sdk_version: None,
            host_name: None,
            host_arch: None,
            os_type: None,
            process_executable_name: None,
            attributes: Vec::new(),
        };
        assert(r@.attributes =~= Seq::<model::KeyValueView>::empty());
        r
    }

    /// The attributes of the resource: those given freely, then those of its fields, which replace them.
    pub fn into_attributes(self) -> (r: Vec<KeyValue>)
        ensures
            model::attrs_view(r@) == resource_attributes(self@),
    {
        let ghost all = model::attrs_view(self.attributes@);
        let mut rest = order::reversed(self.attributes);
        let mut attrs: Vec<KeyValue> = Vec::new();
        assert(model::attrs_view(attrs@) =~= all_upserted(all.take(0)));
        while rest.len() > 0
            invariant
                rest@.len() <= all.len(),
                forall|k: int| 0 <= k < rest@.len() ==> (#[trigger] rest@[k])@ == all[all.len() - 1 - k],
                model::attrs_view(attrs@) == all_upserted(all.take(all.len() - rest@.len())),
            decreases rest@.len(),
        {
            let ghost done = all.len() - rest@.len();
            if let Some(attr) = rest.pop() {
                assert(all[done] == attr@);
                assert(all.take(done + 1).drop_last() =~= all.take(done));
                upsert_key_value(&mut attrs, attr);
            }
        }
        assert(all.take(all.len() as int) =~= all);
        proof {
            reveal_with_fuel(with_fields, 12);
        }
        upsert_field(&mut attrs, "service.name", self.service_name);
        upsert_field(&mut attrs, "service.namespace", self.service_namespace);
        upsert_field(&mut attrs, "service.version", self.service_version);
        upsert_field(&mut attrs, "service.instance.id", self.service_instance_id);
        upsert_field(&mut attrs, "telemetry.sdk.name", self.telemetry_sdk_name);
        upsert_field(&mut attrs, "telemetry.sdk.language", self.telemetry_sdk_language);
        upsert_field(&mut attrs, "telemetry.sdk.version", self.telemetry_sdk_version);
        upsert_field(&mut attrs, "host.name", self.host_name);
        upsert_field(&mut attrs, "host.arch", self.host_arch);
        upsert_field(&mut attrs, "os.type", self.os_type);
        upsert_field(&mut attrs, "process.executable.name", self.process_executable_name);
        attrs
    }
}

/// What is known of the process and its host.
pub struct Environment {
    /// The value of `OTEL_SERVICE_NAME`, where it is set.
    pub service_name: Option<String>,
    /// The buffer that the host's name was written to, up to a zero byte.
    pub host_name: Vec<u8>,
    /// The architecture, as the Rust target has it.
    pub arch: String,
    /// The operating system, as the Rust target has it.
    pub os: String,
    /// The file name of the executable, where it is known.
    pub executable: Option<String>,
}

/// What the semantic conventions call an architecture.
pub open spec fn arch_name(arch: Seq<char>) -> Seq<char> {
    if arch == "x86_64"@ {
        "amd64"@
    } else if arch == "aarch64"@ {
        "arm64"@
    } else if arch == "arm"@ {
        "arm32"@
    } else if arch == "powerpc64"@ {
        "ppc64"@
    } else {
        arch
    }
}

/// What the semantic conventions call an operating system.
pub open spec fn os_name(os: Seq<char>) -> Seq<char> {
    if os == "macos"@ || os == "ios"@ {
        "darwin"@
    } else {
        os
    }
}

/// What stands before the first zero byte.
pub open spec fn before_zero(bytes: Seq<u8>) -> Seq<u8>
    decreases bytes.len(),
{
    if bytes.len() == 0 || bytes[0] == 0 {
        Seq::empty()
    } else {
        seq![bytes[0]] + before_zero(bytes.drop_first())
    }
}

/// What the semantic conventions call an architecture.
pub fn host_arch(arch: &str) -> (r: String)
    ensures
        r@ == arch_name(arch@),
{
    if text::same_text(arch, "x86_64") {
        "amd64".to_owned()
    } else if text::same_text(arch, "aarch64") {
        "arm64".to_owned()
    } else if text::same_text(arch, "arm") {
        "arm32".to_owned()
    } else if text::same_text(arch, "powerpc64") {
        "ppc64".to_owned()
    } else {
        arch.to_owned()
    }
}

/// What the semantic conventions call an operating system.
pub fn os_type(os: &str) -> (r: String)
    ensures
        r@ == os_name(os@),
{
    if text::same_text(os, "macos") || text::same_text(os, "ios") {
        "darwin".to_owned()
    } else {
        os.to_owned()
    }
}

/// What stands in a buffer before its first zero byte.
pub fn trim_at_zero(buffer: &Vec<u8>) -> (r: Vec<u8>)
    ensures
        r@ == before_zero(buffer@),
{
    let mut out: Vec<u8> = Vec::new();
    let mut i: usize = 0;
    assert(buffer@.skip(0) =~= buffer@);
    assert(out@ + before_zero(buffer@.skip(0)) =~= before_zero(buffer@));
    while i < buffer.len() && buffer[i] != 0
        invariant
            i <= buffer@.len(),
            out@ + before_zero(buffer@.skip(i as int)) == before_zero(buffer@),
        decreases buffer@.len() - i,
    {
        let ghost rest = buffer@.skip(i as int);
        let ghost before = out@;
        out.push(buffer[i]);
        assert(rest.drop_first() =~= buffer@.skip(i + 1));
        assert(out@ + before_zero(buffer@.skip(i + 1)) =~= before + before_zero(rest));
        i = i + 1;
    }
    assert(out@ =~= before_zero(buffer@));
    out
}

/// The name of this library, as resources and scopes report it.
pub fn sdk_name() -> (r: &'static str)
    ensures
        r@ == "ohnotel"@,
{
    "ohnotel"
}

/// The version of this library, as resources and scopes report it.
pub fn sdk_version() -> (r: &'static str)
    ensures
        r@ == "0.1.0"@,
{
    "0.1.0"
}

/// The resource of a process in its environment.
pub open spec fn detected_resource(
    service_name: Option<Seq<char>>,
    host_name: Seq<u8>,
    arch: Seq<char>,
    os: Seq<char>,
    executable: Option<Seq<char>>,
) -> ResourceView {
    ResourceView {
        service_name: match service_name {
            Some(name) => if name.len() == 0 {
                None
            } else {
                Some(name)
            },
            None => None,
        },
        service_namespace: None,
        service_version: None,
        service_instance_id: None,
        telemetry_sdk_name: Some("ohnotel"@),
        telemetry_sdk_language: Some("rust"@),
        telemetry_sdk_version: Some("0.1.0"@),
        host_name: Some(text::lossy_text(before_zero(host_name))),
        host_arch: Some(arch_name(arch)),
        os_type: Some(os_name(os)),
        process_executable_name: executable,
        attributes: Seq::empty(),
    }
}

/// A text that may be missing.
pub open spec fn string_view(text: Option<String>) -> Option<Seq<char>> {
    match text {
        Some(text) => Some(text@),
        None => None,
    }
}

fn owned(text: String) -> (r: Str)
    ensures
        r@ == text@,
{
    Str::Cow(Cow::Owned(text))
}

impl Resource {
    /// The resource of a process in its environment. An empty service name counts as none.
    pub fn detected(environment: Environment) -> (r: Resource)
        ensures
            r@ == detected_resource(
                string_view(environment.service_name),
                environment.host_name@,
                environment.arch@,
                environment.os@,
                string_view(environment.executable),
            ),
    {
        let host = trim_at_zero(&environment.host_name);
        let host_name = text::text_lossy(host.as_slice());
        let arch = host_arch(environment.arch.as_str());
        let os = os_type(environment.os.as_str());
        let service_name = match environment.service_name {
            Some(name) => if name.as_str().is_empty() {
                None
            } else {
                Some(owned(name))
            },
            None => None,
        };
        let executable = match environment.executable {
            Some(name) => Some(owned(name)),
            None => None,
        };
        let r = Resource {
            service_name,
            service_namespace: None,
            service_version: None,
            service_instance_id: None,
            telemetry_sdk_name: Some(Str::Cow(Cow::Borrowed(sdk_name()))),
            telemetry_sdk_language: Some(Str::Cow(Cow::Borrowed("rust"))),
            telemetry_sdk_version: Some(Str::Cow(Cow::Borrowed(sdk_version()))),
            host_name: Some(owned(host_name)),
            host_arch: Some(owned(arch)),
            os_type: Some(owned(os)),
            process_executable_name: executable,
            attributes: Vec::new(),
        };
        assert(r@.attributes =~= Seq::<model::KeyValueView>::empty());
        r
    }
}

/// Identifies the instrumentation.
#[derive(Debug)]
pub struct Scope {
    pub name: Str,
    pub version: Str,
    pub attributes: Vec<KeyValue>,
}

#[verifier::ext_equal]
pub ghost struct ScopeView {
    pub name: Seq<char>,
    pub version: Seq<char>,
    pub attributes: Seq<model::KeyValueView>,
}

impl View for Scope {
    type V = ScopeView;

    open spec fn view(&self) -> ScopeView {
        ScopeView {
            name: self.name@,
            version: self.version@,
            attributes: model::attrs_view(self.attributes@),
        }
    }
}

impl Default for Scope {
    fn default() -> (r: Scope)
        ensures
            r@ == (ScopeView { name: "ohnotel"@, version: "0.1.0"@, attributes: Seq::empty() }),
    {
        let r = Scope {
            name: Str::Cow(Cow::Borrowed(sdk_name())),
            version: Str::Cow(Cow::Borrowed(sdk_version())),
            attributes: Vec::new(),
        };
        assert(r@.attributes =~= Seq::<model::KeyValueView>::empty());
        r
    }
}

} // verus!
