//! Metrics as multi-line text: a header line and indented data points.

use crate::atomic::histogram;
use crate::dto;
use crate::dto::{CheckedWire, IntoWire, Kind, Series};
use crate::error;
use crate::error::Error;
use crate::model;
use crate::model::{KeyValue, NameIdentity, Temporality};
use crate::number;
use crate::number::{Number, OrderedNumber, ToNumber};
use crate::observe::Mode;
use crate::order;
use crate::order::{Comparable, Ranked};
use crate::text;
use crate::time::{Duration, SystemTime};
use std::sync::Arc;
use vstd::prelude::*;
use vstd::seq_lib::*;
use vstd::string::*;

verus! {

/// A metric that can be rendered.
#[derive(Debug, Clone, PartialEq, Eq)]
pub struct Metric {
    pub id: Arc<NameIdentity>,
    pub kind: Kind,
    pub temporality: Temporality,
    pub data_points: Vec<DataPoint>,
}

/// One data point of a metric.
#[derive(Debug, Clone, PartialEq, Eq)]
pub struct DataPoint {
    pub attributes: Vec<KeyValue>,
    pub start_time: SystemTime,
    pub time: SystemTime,
    pub value: DataPointValue,
}

/// The value of a data point.
#[derive(Debug, Clone, PartialEq, Eq)]
pub enum DataPointValue {
    Number(OrderedNumber),
    Histogram(Histogram),
}

/// The value of a histogram data point.
#[derive(Debug, Clone, PartialEq, Eq)]
pub struct Histogram {
    pub count: u64,
    pub sum: OrderedNumber,
    pub buckets: Vec<Bucket>,
    pub min: Option<OrderedNumber>,
    pub max: Option<OrderedNumber>,
}

/// One bucket of a histogram; the last one has no upper bound.
#[derive(Debug, Clone, PartialEq, Eq)]
pub struct Bucket {
    pub upper_bound: Option<OrderedNumber>,
    pub count: u64,
}

#[verifier::ext_equal]
pub ghost struct MetricView {
    pub id: model::NameIdentityView,
    pub kind: Kind,
    pub temporality: Temporality,
    pub data_points: Seq<DataPointView>,
}

#[verifier::ext_equal]
pub ghost struct DataPointView {
    pub attributes: Seq<model::KeyValueView>,
    pub start_time: int,
    pub time: int,
    pub value: DataPointValueView,
}

pub ghost enum DataPointValueView {
    Number(number::NumberView),
    Histogram(HistogramView),
}

#[verifier::ext_equal]
pub ghost struct HistogramView {
    pub count: u64,
    pub sum: number::NumberView,
    pub buckets: Seq<BucketView>,
    pub min: Option<number::NumberView>,
    pub max: Option<number::NumberView>,
}

#[verifier::ext_equal]
pub ghost struct BucketView {
    pub upper_bound: Option<number::NumberView>,
    pub count: u64,
}

impl View for Metric {
    type V = MetricView;

    open spec fn view(&self) -> MetricView {
        MetricView {
            id: self.id@,
            kind: self.kind,
            temporality: self.temporality,
            data_points: order::views(self.data_points@),
        }
    }
}

impl View for DataPoint {
    type V = DataPointView;

    open spec fn view(&self) -> DataPointView {
        DataPointView {
            attributes: model::attrs_view(self.attributes@),
            start_time: self.start_time@,
            time: self.time@,
            value: self.value@,
        }
    }
}

impl View for DataPointValue {
    type V = DataPointValueView;

    open spec fn view(&self) -> DataPointValueView {
        match self {
            DataPointValue::Number(value) => DataPointValueView::Number(value@),
            DataPointValue::Histogram(value) => DataPointValueView::Histogram(value@),
        }
    }
}

impl View for Histogram {
    type V = HistogramView;

    open spec fn view(&self) -> HistogramView {
        HistogramView {
            count: self.count,
            sum: self.sum@,
            buckets: order::views(self.buckets@),
            min: number::option_view(self.min),
            max: number::option_view(self.max),
        }
    }
}

impl View for Bucket {
    type V = BucketView;

    open spec fn view(&self) -> BucketView {
        BucketView { upper_bound: number::option_view(self.upper_bound), count: self.count }
    }
}

/// A bucket as text: its upper bound and its count.
pub open spec fn bucket_text(bucket: BucketView) -> Seq<char> {
    (match bucket.upper_bound {
        Some(bound) => number::double_text(bound.bits),
        None => seq!['\u{221e}'],
    }) + seq![':'] + text::decimal(bucket.count as nat)
}

impl Bucket {
    pub fn render(&self) -> (r: String)
        ensures
            r@ == bucket_text(self@),
    {
        let mut out = String::new();
        match &self.upper_bound {
            Some(bound) => out.append(bound.0.as_text()),
            None => out.push('\u{221e}'),
        }
        out.push(':');
        text::push_decimal(&mut out, self.count);
        assert(out@ =~= bucket_text(self@));
        out
    }
}

/// So many spaces.
pub open spec fn spaces(n: nat) -> Seq<char> {
    Seq::new(n, |i: int| ' ')
}

/// Appends spaces.
fn push_spaces(out: &mut String, n: usize)
    ensures
        final(out)@ == old(out)@ + spaces(n as nat),
{
    let mut i: usize = 0;
    assert(out@ =~= old(out)@ + spaces(0));
    while i < n
        invariant
            i <= n,
            out@ == old(out)@ + spaces(i as nat),
        decreases n - i,
    {
        out.push(' ');
        i = i + 1;
        assert(out@ =~= old(out)@ + spaces(i as nat));
    }
}

/// A text that is filled up to a width with spaces.
pub open spec fn padded(text: Seq<char>, width: nat) -> Seq<char> {
    text + spaces(
        if width > text.len() {
            (width - text.len()) as nat
        } else {
            0
        },
    )
}

/// The buckets of a histogram, each in its column where there are columns.
pub open spec fn buckets_text(buckets: Seq<BucketView>, widths: Option<Seq<nat>>) -> Seq<char>
    decreases buckets.len(),
{
    if buckets.len() == 0 {
        Seq::empty()
    } else {
        let i = buckets.len() - 1;
        let cell = bucket_text(buckets[i]);
        buckets_text(buckets.drop_last(), widths) + (if i > 0 {
            seq![' ']
        } else {
            Seq::empty()
        }) + match widths {
            Some(widths) => if i < widths.len() {
                padded(cell, widths[i])
            } else {
                cell
            },
            None => cell,
        }
    }
}

/// A bound of a histogram, where it has one.
pub open spec fn bound_text(name: Seq<char>, bound: Option<number::NumberView>) -> Seq<char> {
    match bound {
        Some(bound) => name + number::double_text(bound.bits),
        None => Seq::empty(),
    }
}

/// A histogram as text: buckets, count, sum and bounds.
pub open spec fn histogram_text(histogram: HistogramView, widths: Option<Seq<nat>>) -> Seq<char> {
    seq!['['] + buckets_text(histogram.buckets, widths) + "]  count="@ + text::decimal(
        histogram.count as nat,
    ) + " sum="@ + number::double_text(histogram.sum.bits) + bound_text(" min="@, histogram.min) + bound_text(
        " max="@,
        histogram.max,
    )
}

/// The widths of columns.
pub open spec fn widths_view(widths: Seq<usize>) -> Seq<nat> {
    widths.map_values(|width: usize| width as nat)
}

/// The widths of columns, where there are columns.
pub open spec fn columns_view(widths: Option<&[usize]>) -> Option<Seq<nat>> {
    match widths {
        Some(widths) => Some(widths_view(widths@)),
        None => None,
    }
}

fn push_bound(out: &mut String, name: &str, bound: &Option<OrderedNumber>)
    ensures
        final(out)@ == old(out)@ + bound_text(name@, number::option_view(*bound)),
{
    if let Some(bound) = bound {
        out.append(name);
        out.append(bound.0.as_text());
    }
    assert(final(out)@ =~= old(out)@ + bound_text(name@, number::option_view(*bound)));
}

impl Histogram {
    /// The histogram as text. Where widths are given, every bucket is filled up to that of its column.
    pub fn render(&self, widths: Option<&[usize]>) -> (r: String)
        ensures
            r@ == histogram_text(self@, columns_view(widths)),
    {
        let ghost all = self@.buckets;
        let ghost columns = columns_view(widths);
        let mut out = String::new();
        out.push('[');
        let mut i: usize = 0;
        assert(out@ =~= seq!['['] + buckets_text(all.take(0), columns));
        while i < self.buckets.len()
            invariant
                i <= self.buckets@.len(),
                all == self@.buckets,
                columns == columns_view(widths),
                out@ == seq!['['] + buckets_text(all.take(i as int), columns),
            decreases self.buckets@.len() - i,
        {
            let ghost before = out@;
            if i > 0 {
                out.push(' ');
            }
            let cell = self.buckets[i].render();
            out.append(cell.as_str());
            if let Some(widths) = widths {
                if i < widths.len() {
                    let width: usize = widths[i];
                    let length: usize = cell.as_str().unicode_len();
                    if width > length {
                        push_spaces(&mut out, width - length);
                    } else {
                        assert(out@ =~= out@ + spaces(0));
                    }
                }
            }
            proof {
                let taken = all.take(i + 1);
                assert(taken.drop_last() =~= all.take(i as int));
                assert(taken[i as int] == self.buckets@[i as int]@);
                assert(out@ =~= seq!['['] + buckets_text(taken, columns));
            }
            i = i + 1;
        }
        assert(all.take(i as int) =~= all);
        out.append("]  count=");
        text::push_decimal(&mut out, self.count);
        out.append(" sum=");
        out.append(self.sum.0.as_text());
        push_bound(&mut out, " min=", &self.min);
        push_bound(&mut out, " max=", &self.max);
        assert(out@ =~= histogram_text(self@, columns));
        out
    }
}

/// The decimal numeral of `n` with zeros in front up to a number of digits.
pub open spec fn zero_padded(n: nat, digits: nat) -> Seq<char> {
    let numeral = text::decimal(n);
    Seq::new(
        if digits > numeral.len() {
            (digits - numeral.len()) as nat
        } else {
            0
        },
        |i: int| '0',
    ) + numeral
}

fn push_two_digits(out: &mut String, n: u64)
    requires
        n < 100,
    ensures
        final(out)@ == old(out)@ + zero_padded(n as nat, 2),
{
    proof {
        reveal_with_fuel(text::decimal, 3);
    }
    if n < 10 {
        out.push('0');
    }
    text::push_decimal(out, n);
    assert(final(out)@ =~= old(out)@ + zero_padded(n as nat, 2));
}

fn push_three_digits(out: &mut String, n: u64)
    requires
        n < 1000,
    ensures
        final(out)@ == old(out)@ + zero_padded(n as nat, 3),
{
    proof {
        reveal_with_fuel(text::decimal, 4);
    }
    if n < 100 {
        out.push('0');
    }
    if n < 10 {
        out.push('0');
    }
    text::push_decimal(out, n);
    assert(final(out)@ =~= old(out)@ + zero_padded(n as nat, 3));
}

/// The time of day of a calendar moment, to milliseconds.
pub open spec fn time_text(nanos: int) -> Seq<char> {
    if nanos < 0 {
        "??:??:??.???"@
    } else {
        let secs = (nanos / 1_000_000_000) % 86_400;
        zero_padded((secs / 3_600) as nat, 2) + seq![':'] + zero_padded(((secs / 60) % 60) as nat, 2) + seq![
            ':',
        ] + zero_padded((secs % 60) as nat, 2) + seq!['.'] + zero_padded(
            ((nanos % 1_000_000_000) / 1_000_000) as nat,
            3,
        )
    }
}

/// Attributes in braces, separated by commas.
pub open spec fn attributes_text(attrs: Seq<model::KeyValueView>) -> Seq<char>
    decreases attrs.len(),
{
    if attrs.len() == 0 {
        seq!['{']
    } else {
        attributes_text(attrs.drop_last()) + (if attrs.len() > 1 {
            ", "@
        } else {
            Seq::empty()
        }) + model::attr_text(attrs.last())
    }
}

impl DataPoint {
    /// The time of day, to milliseconds.
    pub fn render_time(&self) -> (r: String)
        ensures
            r@ == time_text(self.time@),
    {
        let nanos: i128 = self.time.epoch_nanos();
        if nanos < 0 {
            return "??:??:??.???".to_owned();
        }
        let sec_of_day: u64 = ((nanos / 1_000_000_000) % 86_400) as u64;
        let h: u64 = sec_of_day / 3_600;
        let m: u64 = (sec_of_day / 60) % 60;
        let s: u64 = sec_of_day % 60;
        let ms: u64 = ((nanos % 1_000_000_000) / 1_000_000) as u64;
        let mut out = String::new();
        push_two_digits(&mut out, h);
        out.push(':');
        push_two_digits(&mut out, m);
        out.push(':');
        push_two_digits(&mut out, s);
        out.push('.');
        push_three_digits(&mut out, ms);
        assert(out@ =~= time_text(self.time@));
        out
    }

    /// The attributes in braces.
    pub fn render_attrs(&self) -> (r: String)
        ensures
            r@ == attributes_text(model::attrs_view(self.attributes@)) + seq!['}'],
    {
        let ghost all = model::attrs_view(self.attributes@);
        let mut out = String::new();
        out.push('{');
        let mut i: usize = 0;
        assert(out@ =~= attributes_text(all.take(0)));
        while i < self.attributes.len()
            invariant
                i <= self.attributes@.len(),
                all == model::attrs_view(self.attributes@),
                out@ == attributes_text(all.take(i as int)),
            decreases self.attributes@.len() - i,
        {
            if i > 0 {
                out.append(", ");
            }
            model::push_attr(&mut out, &self.attributes[i]);
            proof {
                let taken = all.take(i + 1);
                assert(taken.drop_last() =~= all.take(i as int));
                assert(taken.last() == self.attributes@[i as int]@);
                assert(out@ =~= attributes_text(taken));
            }
            i = i + 1;
        }
        assert(all.take(i as int) =~= all);
        out.push('}');
        assert(out@ =~= attributes_text(all) + seq!['}']);
        out
    }
}

/// Data points stand in the order of time, then of attributes.
impl Ranked for DataPointView {
    open spec fn rank(a: DataPointView, b: DataPointView) -> int {
        if a.time < b.time {
            -1
        } else if a.time > b.time {
            1
        } else {
            model::rank_attrs(a.attributes, b.attributes)
        }
    }

    proof fn rank_flip(a: DataPointView, b: DataPointView) {
        model::lemma_rank_attrs_flip(a.attributes, b.attributes);
    }

    proof fn rank_transitive(a: DataPointView, b: DataPointView, c: DataPointView) {
        if a.time == b.time && b.time == c.time {
            model::lemma_rank_attrs_transitive(a.attributes, b.attributes, c.attributes);
        }
    }
}

impl<'a> Comparable for &'a DataPoint {
    fn compare(&self, other: &&'a DataPoint) -> (r: i8) {
        let left: i128 = self.time.epoch_nanos();
        let right: i128 = other.time.epoch_nanos();
        if left < right {
            -1
        } else if left > right {
            1
        } else {
            model::compare_attrs(&self.attributes, &other.attributes)
        }
    }
}

/// What a kind is called.
pub open spec fn kind_name(kind: Kind) -> Seq<char> {
    match kind {
        Kind::Counter => "Counter"@,
        Kind::Gauge => "Gauge"@,
        Kind::Histogram => "Histogram"@,
    }
}

/// What a temporality is called.
pub open spec fn temporality_name(temporality: Temporality) -> Seq<char> {
    match temporality {
        Temporality::Cumulative => "Cumulative"@,
        Temporality::Delta => "Delta"@,
    }
}

/// The header line without unit and description: the temporality (but for gauges), the kind, the name.
pub open spec fn title_text(metric: MetricView) -> Seq<char> {
    (if metric.kind is Gauge {
        Seq::empty()
    } else {
        temporality_name(metric.temporality)
    }) + kind_name(metric.kind) + seq![' '] + metric.id.name
}

/// The header line.
pub open spec fn header_text(metric: MetricView) -> Seq<char> {
    title_text(metric) + (if metric.id.unit.len() == 0 {
        Seq::empty()
    } else {
        " unit="@ + metric.id.unit
    }) + (if metric.id.description.len() == 0 {
        Seq::empty()
    } else {
        " description="@ + text::debug_text(metric.id.description)
    })
}

/// The width of a column: that of the widest of its cells.
pub open spec fn column_width(points: Seq<DataPointView>, column: int) -> nat
    decreases points.len(),
{
    if points.len() == 0 {
        0
    } else {
        let before = column_width(points.drop_last(), column);
        let cell = bucket_text(points.last().value->Histogram_0.buckets[column]).len();
        if cell > before {
            cell
        } else {
            before
        }
    }
}

/// Whether a data point is a histogram with so many buckets.
pub open spec fn has_columns(point: DataPointView, n: nat) -> bool {
    point.value is Histogram && point.value->Histogram_0.buckets.len() == n
}

/// The widths of the columns of buckets: there are columns where all data points are histograms with as
/// many buckets as the first.
pub open spec fn column_widths(points: Seq<DataPointView>) -> Option<Seq<nat>> {
    if points.len() == 0 || points[0].value is Number {
        None
    } else {
        let n = points[0].value->Histogram_0.buckets.len();
        if forall|i: int| 0 <= i < points.len() ==> has_columns(#[trigger] points[i], n) {
            Some(Seq::new(n, |column: int| column_width(points, column)))
        } else {
            None
        }
    }
}

/// A value as text.
pub open spec fn value_text(value: DataPointValueView, widths: Option<Seq<nat>>) -> Seq<char> {
    match value {
        DataPointValueView::Histogram(histogram) => histogram_text(histogram, widths),
        DataPointValueView::Number(number) => number::double_text(number.bits),
    }
}

/// The line of a data point. The time is left out where it is that of the line before.
pub open spec fn point_text(
    previous: Option<int>,
    point: DataPointView,
    widths: Option<Seq<nat>>,
) -> Seq<char> {
    seq!['\n'] + (if previous == Some(point.time) {
        spaces(16)
    } else {
        "  "@ + time_text(point.time) + "  "@
    }) + (if point.attributes.len() == 0 {
        Seq::empty()
    } else {
        attributes_text(point.attributes) + "} "@
    }) + value_text(point.value, widths)
}

/// The lines of data points.
pub open spec fn points_text(points: Seq<DataPointView>, widths: Option<Seq<nat>>) -> Seq<char>
    decreases points.len(),
{
    if points.len() == 0 {
        Seq::empty()
    } else {
        let before = points.drop_last();
        points_text(before, widths) + point_text(
            if before.len() == 0 {
                None
            } else {
                Some(before.last().time)
            },
            points.last(),
            widths,
        )
    }
}

/// A metric as text: its header line, and its data points in the order of time and attributes.
pub open spec fn metric_text(metric: MetricView) -> Seq<char> {
    header_text(metric) + points_text(
        order::sorted(metric.data_points),
        column_widths(metric.data_points),
    )
}

/// A column is as wide as one of its cells, and no cell is wider.
proof fn lemma_widest_cell(points: Seq<DataPointView>, column: int)
    ensures
        forall|i: int|
            0 <= i < points.len() ==> bucket_text(
                (#[trigger] points[i]).value->Histogram_0.buckets[column],
            ).len() <= column_width(points, column),
        points.len() > 0 ==> exists|i: int|
            0 <= i < points.len() && bucket_text(
                (#[trigger] points[i]).value->Histogram_0.buckets[column],
            ).len() == column_width(points, column),
    decreases points.len(),
{
    if points.len() > 0 {
        let before = points.drop_last();
        let last = points.len() - 1;
        lemma_widest_cell(before, column);
        assert(points[last] == points.last());
        assert forall|i: int| 0 <= i < points.len() implies bucket_text(
            (#[trigger] points[i]).value->Histogram_0.buckets[column],
        ).len() <= column_width(points, column) by {
            if i < last {
                assert(before[i] == points[i]);
            }
        }
        if column_width(points, column) == column_width(before, column) && before.len() > 0 {
            let i = choose|i: int|
                0 <= i < before.len() && bucket_text(
                    (#[trigger] before[i]).value->Histogram_0.buckets[column],
                ).len() == column_width(before, column);
            assert(points[i] == before[i]);
        }
    }
}

proof fn lemma_no_narrower(a: Seq<DataPointView>, b: Seq<DataPointView>, column: int)
    requires
        forall|point: DataPointView| a.contains(point) ==> #[trigger] b.contains(point),
    ensures
        column_width(a, column) <= column_width(b, column),
{
    lemma_widest_cell(a, column);
    lemma_widest_cell(b, column);
    if a.len() > 0 {
        let i = choose|i: int|
            0 <= i < a.len() && bucket_text((#[trigger] a[i]).value->Histogram_0.buckets[column]).len()
                == column_width(a, column);
        assert(b.contains(a[i]));
        let j = choose|j: int| 0 <= j < b.len() && b[j] == a[i];
        assert(bucket_text(b[j].value->Histogram_0.buckets[column]).len() <= column_width(b, column));
    }
}

proof fn lemma_columns_alike(a: Seq<DataPointView>, b: Seq<DataPointView>)
    requires
        a.len() == b.len(),
        forall|point: DataPointView| a.contains(point) <==> #[trigger] b.contains(point),
        column_widths(a) is Some,
    ensures
        column_widths(b) == column_widths(a),
{
    let n = a[0].value->Histogram_0.buckets.len();
    assert forall|j: int| 0 <= j < b.len() implies has_columns(#[trigger] b[j], n) by {
        assert(b.contains(b[j]));
        let i = choose|i: int| 0 <= i < a.len() && a[i] == b[j];
        assert(has_columns(a[i], n));
    }
    assert(has_columns(b[0], n));
    assert forall|column: int| column_width(a, column) == column_width(b, column) by {
        lemma_no_narrower(a, b, column);
        lemma_no_narrower(b, a, column);
    }
    assert(column_widths(b)->0 =~= column_widths(a)->0);
}

/// The order in which data points come does not change the text, where no two share time and
/// attributes.
pub proof fn points_print_in_one_order(metric: MetricView, permuted: Seq<DataPointView>)
    requires
        permuted.to_multiset() =~= metric.data_points.to_multiset(),
        order::stand_apart(metric.data_points),
    ensures
        metric_text(MetricView { data_points: permuted, ..metric }) == metric_text(metric),
{
    broadcast use group_to_multiset_ensures;

    let all = metric.data_points;
    order::distinct_items_sort_alike(all, permuted);
    assert(all.len() == all.to_multiset().len());
    assert(permuted.len() == permuted.to_multiset().len());
    assert forall|point: DataPointView| all.contains(point) <==> #[trigger] permuted.contains(point) by {
        assert(all.contains(point) <==> all.to_multiset().count(point) > 0);
        assert(permuted.contains(point) <==> permuted.to_multiset().count(point) > 0);
    }
    if column_widths(all) is Some {
        lemma_columns_alike(all, permuted);
    } else if column_widths(permuted) is Some {
        assert forall|point: DataPointView| permuted.contains(point) <==> #[trigger] all.contains(point) by {
            assert(all.contains(point) <==> permuted.contains(point));
        }
        lemma_columns_alike(permuted, all);
    }
    assert(header_text(MetricView { data_points: permuted, ..metric }) == header_text(metric));
}

/// Widths that are at least so much as those of the cells of a data point.
fn widen(widths: &mut Vec<usize>, histogram: &Histogram, Ghost(points): Ghost<Seq<DataPointView>>)
    requires
        old(widths)@.len() == histogram.buckets@.len(),
        points.len() > 0,
        points.last().value == DataPointValueView::Histogram(histogram@),
        forall|c: int|
            0 <= c < old(widths)@.len() ==> (#[trigger] old(widths)@[c]) as nat == column_width(
                points.drop_last(),
                c,
            ),
    ensures
        final(widths)@.len() == old(widths)@.len(),
        forall|c: int|
            0 <= c < final(widths)@.len() ==> (#[trigger] final(widths)@[c]) as nat == column_width(points, c),
{
    let mut c: usize = 0;
    while c < widths.len()
        invariant
            c <= widths@.len(),
            widths@.len() == histogram.buckets@.len(),
            widths@.len() == old(widths)@.len(),
            points.len() > 0,
            points.last().value == DataPointValueView::Histogram(histogram@),
            forall|k: int| 0 <= k < c ==> (#[trigger] widths@[k]) as nat == column_width(points, k),
            forall|k: int|
                c <= k < widths@.len() ==> (#[trigger] widths@[k]) as nat == column_width(
                    points.drop_last(),
                    k,
                ),
        decreases widths@.len() - c,
    {
        let cell = histogram.buckets[c].render();
        let length: usize = cell.as_str().unicode_len();
        assert(histogram@.buckets[c as int] == histogram.buckets@[c as int]@);
        if length > widths[c] {
            widths.set(c, length);
        }
        c = c + 1;
    }
}

impl Metric {
    /// The metric as text: a header line, and a line for every data point.
    pub fn render(&self) -> (r: String)
        ensures
            r@ == metric_text(self@),
    {
        let mut out = self.header();
        if !self.id.unit.as_str().is_empty() {
            out.append(" unit=");
            out.append(self.id.unit.as_str());
        }
        if !self.id.description.as_str().is_empty() {
            out.append(" description=");
            out.append(text::debug_str(self.id.description.as_str()).as_str());
        }
        assert(out@ =~= header_text(self@));
        let points = self.sorted_points();
        let widths = self.histogram_column_widths();
        self.render_points(&points, &widths, &mut out);
        out
    }

    fn header(&self) -> (r: String)
        ensures
            r@ == title_text(self@),
    {
        let mut out = String::new();
        if self.kind != Kind::Gauge {
            out.append(match self.temporality {
                Temporality::Cumulative => "Cumulative",
                Temporality::Delta => "Delta",
            });
        }
        out.append(match self.kind {
            Kind::Counter => "Counter",
            Kind::Gauge => "Gauge",
            Kind::Histogram => "Histogram",
        });
        out.push(' ');
        out.append(self.id.name.as_str());
        assert(out@ =~= title_text(self@));
        out
    }

    fn sorted_points(&self) -> (r: Vec<&DataPoint>)
        ensures
            order::views(r@) == order::sorted(self@.data_points),
    {
        let ghost all = self@.data_points;
        let mut points: Vec<&DataPoint> = Vec::new();
        let mut i: usize = 0;
        assert(order::views(points@) =~= all.take(0));
        while i < self.data_points.len()
            invariant
                i <= self.data_points@.len(),
                all == self@.data_points,
                order::views(points@) == all.take(i as int),
            decreases self.data_points@.len() - i,
        {
            let ghost before = order::views(points@);
            points.push(&self.data_points[i]);
            assert(order::views(points@) =~= before.push(self.data_points@[i as int]@));
            assert(all.take(i + 1) =~= all.take(i as int).push(all[i as int]));
            i = i + 1;
        }
        assert(all.take(i as int) =~= all);
        order::sort(points)
    }

    fn histogram_column_widths(&self) -> (r: Option<Vec<usize>>)
        ensures
            match r {
                Some(widths) => column_widths(self@.data_points) == Some(widths_view(widths@)),
                None => column_widths(self@.data_points) is None,
            },
    {
        let ghost all = self@.data_points;
        if self.data_points.len() == 0 {
            return None;
        }
        assert(all[0] == self.data_points@[0]@);
        let n: usize = match &self.data_points[0].value {
            DataPointValue::Histogram(first) => first.buckets.len(),
            DataPointValue::Number(_) => {
                return None;
            },
        };
        let mut widths: Vec<usize> = Vec::new();
        while widths.len() < n
            invariant
                widths@.len() <= n,
                forall|c: int| 0 <= c < widths@.len() ==> #[trigger] widths@[c] == 0,
            decreases n - widths@.len(),
        {
            widths.push(0);
        }
        let mut i: usize = 0;
        while i < self.data_points.len()
            invariant
                i <= self.data_points@.len(),
                all == self@.data_points,
                all.len() > 0,
                all[0].value is Histogram,
                n == all[0].value->Histogram_0.buckets.len(),
                widths@.len() == n,
                forall|j: int| 0 <= j < i ==> has_columns(#[trigger] all[j], n as nat),
                forall|c: int|
                    0 <= c < n ==> (#[trigger] widths@[c]) as nat == column_width(all.take(i as int), c),
            decreases self.data_points@.len() - i,
        {
            assert(all[i as int] == self.data_points@[i as int]@);
            match &self.data_points[i].value {
                DataPointValue::Number(_) => {
                    assert(!has_columns(all[i as int], n as nat));
                    return None;
                },
                DataPointValue::Histogram(histogram) => {
                    if histogram.buckets.len() != n {
                        assert(!has_columns(all[i as int], n as nat));
                        return None;
                    }
                    assert(all.take(i + 1).drop_last() =~= all.take(i as int));
                    widen(&mut widths, histogram, Ghost(all.take(i + 1)));
                },
            }
            i = i + 1;
        }
        assert(all.take(i as int) =~= all);
        assert(widths_view(widths@) =~= Seq::new(n as nat, |column: int| column_width(all, column)));
        Some(widths)
    }

    fn render_points(&self, points: &Vec<&DataPoint>, widths: &Option<Vec<usize>>, out: &mut String)
        requires
            match widths {
                Some(widths) => column_widths(self@.data_points) == Some(widths_view(widths@)),
                None => column_widths(self@.data_points) is None,
            },
        ensures
            final(out)@ == old(out)@ + points_text(
                order::views(points@),
                column_widths(self@.data_points),
            ),
    {
        let ghost all = order::views(points@);
        let ghost columns = column_widths(self@.data_points);
        let mut i: usize = 0;
        assert(out@ =~= old(out)@ + points_text(all.take(0), columns));
        while i < points.len()
            invariant
                i <= points@.len(),
                all == order::views(points@),
                match widths {
                    Some(widths) => columns == Some(widths_view(widths@)),
                    None => columns is None,
                },
                out@ == old(out)@ + points_text(all.take(i as int), columns),
            decreases points@.len() - i,
        {
            let point = points[i];
            let same_time = i > 0 && points[i - 1].time.epoch_nanos() == point.time.epoch_nanos();
            let widths_ref: Option<&[usize]> = match widths {
                Some(widths) => Some(widths),
                None => None,
            };
            point.render_line(same_time, widths_ref, out);
            proof {
                let taken = all.take(i + 1);
                assert(taken.drop_last() =~= all.take(i as int));
                assert(taken.last() == point@);
                if i > 0 {
                    assert(all.take(i as int).last() == points@[i - 1]@);
                }
                assert(out@ =~= old(out)@ + points_text(taken, columns));
            }
            i = i + 1;
        }
        assert(all.take(i as int) =~= all);
    }
}

impl DataPointValue {
    /// The value as text. Where widths are given, the buckets of a histogram are filled up to them.
    pub fn render(&self, widths: Option<&[usize]>) -> (r: String)
        ensures
            r@ == value_text(self@, columns_view(widths)),
    {
        match self {
            DataPointValue::Histogram(histogram) => histogram.render(widths),
            DataPointValue::Number(number) => number.0.as_text().to_owned(),
        }
    }
}

impl DataPoint {
    /// Appends the line of the data point.
    fn render_line(&self, same_time: bool, widths: Option<&[usize]>, out: &mut String)
        ensures
            final(out)@ == old(out)@ + point_text(
                if same_time {
                    Some(self@.time)
                } else {
                    None
                },
                self@,
                columns_view(widths),
            ),
    {
        out.push('\n');
        if same_time {
            push_spaces(out, 16);
        } else {
            out.append("  ");
            out.append(self.render_time().as_str());
            out.append("  ");
        }
        if self.attributes.len() > 0 {
            out.append(self.render_attrs().as_str());
            out.push(' ');
            proof {
                reveal_strlit("} ");
                assert("} "@ =~= seq!['}'] + seq![' ']);
            }
        }
        out.append(self.value.render(widths).as_str());
        assert(final(out)@ =~= old(out)@ + point_text(
            if same_time {
                Some(self@.time)
            } else {
                None
            },
            self@,
            columns_view(widths),
        ));
    }
}

/// How values of a mode of observation relate in time: as they are, or since the poll before.
pub fn map_temporality(mode: Mode) -> (r: Temporality)
    ensures
        r == model::temporality_of(mode),
{
    match mode {
        Mode::Direct => Temporality::Cumulative,
        Mode::Delta => Temporality::Delta,
        Mode::Destructive => Temporality::Delta,
    }
}

/// What a look at a cell gives, as the value of a data point.
pub trait IntoConsoleValue: View + Sized {
    spec fn console_value(reading: Self::V) -> Result<DataPointValueView, error::ErrorView>;

    fn into_console_value(self) -> (r: Result<DataPointValue, Error>)
        ensures
            match r {
                Ok(value) => Self::console_value(self@) == Ok::<DataPointValueView, error::ErrorView>(value@),
                Err(error) => Self::console_value(self@) == Err::<DataPointValueView, error::ErrorView>(
                    error@,
                ),
            },
    ;
}

/// An amount as the value of a data point.
pub open spec fn number_value<T: ToNumber>(amount: T) -> Result<DataPointValueView, error::ErrorView> {
    match amount.number() {
        Some(number) => Ok(DataPointValueView::Number(number)),
        None => Err(error::ErrorView::ValueToF64),
    }
}

impl IntoConsoleValue for u64 {
    open spec fn console_value(reading: u64) -> Result<DataPointValueView, error::ErrorView> {
        number_value(reading)
    }

    fn into_console_value(self) -> (r: Result<DataPointValue, Error>) {
        match self.to_number() {
            Ok(number) => Ok(DataPointValue::Number(OrderedNumber(number))),
            Err(error) => Err(error),
        }
    }
}

impl IntoConsoleValue for i64 {
    open spec fn console_value(reading: i64) -> Result<DataPointValueView, error::ErrorView> {
        number_value(reading)
    }

    fn into_console_value(self) -> (r: Result<DataPointValue, Error>) {
        match self.to_number() {
            Ok(number) => Ok(DataPointValue::Number(OrderedNumber(number))),
            Err(error) => Err(error),
        }
    }
}

impl IntoConsoleValue for Number {
    open spec fn console_value(reading: number::NumberView) -> Result<DataPointValueView, error::ErrorView> {
        Ok(DataPointValueView::Number(reading))
    }

    fn into_console_value(self) -> (r: Result<DataPointValue, Error>) {
        Ok(DataPointValue::Number(OrderedNumber(self)))
    }
}

/// The bucket at a position: its upper bound is the boundary there, where there is one.
pub open spec fn bucket_at<T: ToNumber>(boundaries: Seq<T>, counts: Seq<u64>, i: int) -> Result<
    BucketView,
    error::ErrorView,
> {
    if i < boundaries.len() {
        match boundaries[i].number() {
            Some(bound) => Ok(BucketView { upper_bound: Some(bound), count: counts[i] }),
            None => Err(error::ErrorView::ValueToF64),
        }
    } else {
        Ok(BucketView { upper_bound: None, count: counts[i] })
    }
}

/// The first `n` buckets.
pub open spec fn buckets_of<T: ToNumber>(boundaries: Seq<T>, counts: Seq<u64>, n: nat) -> Result<
    Seq<BucketView>,
    error::ErrorView,
>
    decreases n,
{
    if n == 0 {
        Ok(Seq::empty())
    } else {
        match buckets_of(boundaries, counts, (n - 1) as nat) {
            Err(error) => Err(error),
            Ok(buckets) => match bucket_at(boundaries, counts, n - 1) {
                Err(error) => Err(error),
                Ok(bucket) => Ok(buckets.push(bucket)),
            },
        }
    }
}

proof fn lemma_buckets_error<T: ToNumber>(boundaries: Seq<T>, counts: Seq<u64>, n: nat, total: nat)
    requires
        n <= total,
        buckets_of(boundaries, counts, n) is Err,
    ensures
        buckets_of(boundaries, counts, total) == buckets_of(boundaries, counts, n),
    decreases total,
{
    if n < total {
        lemma_buckets_error(boundaries, counts, n, (total - 1) as nat);
    }
}

fn make_buckets<T: ToNumber>(boundaries: &Vec<T>, counts: &Vec<u64>) -> (r: Result<Vec<Bucket>, Error>)
    ensures
        match r {
            Ok(buckets) => buckets_of(boundaries@, counts@, counts@.len()) == Ok::<
                Seq<BucketView>,
                error::ErrorView,
            >(order::views(buckets@)),
            Err(error) => buckets_of(boundaries@, counts@, counts@.len()) == Err::<
                Seq<BucketView>,
                error::ErrorView,
            >(error@),
        },
{
    let mut buckets: Vec<Bucket> = Vec::new();
    let mut i: usize = 0;
    assert(order::views(buckets@) =~= Seq::<BucketView>::empty());
    while i < counts.len()
        invariant
            i <= counts@.len(),
            buckets_of(boundaries@, counts@, i as nat) == Ok::<Seq<BucketView>, error::ErrorView>(
                order::views(buckets@),
            ),
        decreases counts@.len() - i,
    {
        let upper_bound = if i < boundaries.len() {
            match boundaries[i].to_number() {
                Ok(bound) => Some(OrderedNumber(bound)),
                Err(error) => {
                    proof {
                        lemma_buckets_error(boundaries@, counts@, (i + 1) as nat, counts@.len());
                    }
                    return Err(error);
                },
            }
        } else {
            None
        };
        let ghost before = order::views(buckets@);
        let bucket = Bucket { upper_bound, count: counts[i] };
        buckets.push(bucket);
        assert(order::views(buckets@) =~= before.push(bucket@));
        i = i + 1;
    }
    Ok(buckets)
}

/// A bound as a double, where there is a bound.
pub open spec fn bound_number<T: ToNumber>(bound: Option<T>) -> Result<
    Option<number::NumberView>,
    error::ErrorView,
> {
    match bound {
        None => Ok(None),
        Some(bound) => match bound.number() {
            Some(number) => Ok(Some(number)),
            None => Err(error::ErrorView::ValueToF64),
        },
    }
}

/// A bound as a double, where there is a bound.
pub fn to_bound_number<T: ToNumber>(bound: &Option<T>) -> (r: Result<Option<OrderedNumber>, Error>)
    ensures
        match r {
            Ok(number) => bound_number(*bound) == Ok::<Option<number::NumberView>, error::ErrorView>(
                number::option_view(number),
            ),
            Err(error) => bound_number(*bound) == Err::<Option<number::NumberView>, error::ErrorView>(
                error@,
            ),
        },
{
    match bound {
        None => Ok(None),
        Some(bound) => match bound.to_number() {
            Ok(number) => Ok(Some(OrderedNumber(number))),
            Err(error) => Err(error),
        },
    }
}

impl<T: ToNumber> IntoConsoleValue for histogram::Snapshot<T> {
    open spec fn console_value(reading: histogram::SnapshotView<T>) -> Result<
        DataPointValueView,
        error::ErrorView,
    > {
        match buckets_of(reading.boundaries, reading.bucket_counts, reading.bucket_counts.len()) {
            Err(error) => Err(error),
            Ok(buckets) => match (
                reading.sum.number(),
                bound_number(reading.min),
                bound_number(reading.max),
            ) {
                (Some(sum), Ok(min), Ok(max)) => Ok(
                    DataPointValueView::Histogram(
                        HistogramView { count: reading.count, sum, buckets, min, max },
                    ),
                ),
                _ => Err(error::ErrorView::ValueToF64),
            },
        }
    }

    fn into_console_value(self) -> (r: Result<DataPointValue, Error>) {
        let buckets = match make_buckets(&self.boundaries, &self.bucket_counts) {
            Ok(buckets) => buckets,
            Err(error) => {
                return Err(error);
            },
        };
        let sum = match self.sum.to_number() {
            Ok(sum) => OrderedNumber(sum),
            Err(error) => {
                return Err(error);
            },
        };
        let min = match to_bound_number(&self.min) {
            Ok(min) => min,
            Err(error) => {
                return Err(error);
            },
        };
        let max = match to_bound_number(&self.max) {
            Ok(max) => max,
            Err(error) => {
                return Err(error);
            },
        };
        Ok(DataPointValue::Histogram(Histogram { count: self.count, sum, buckets, min, max }))
    }
}

/// The data point of a sample.
pub open spec fn data_point<T: IntoConsoleValue>(
    sample: dto::SampleView<T::V>,
    start: int,
    align: Option<nat>,
) -> Result<Option<DataPointView>, error::ErrorView> {
    match T::console_value(sample.1.value) {
        Err(error) => Err(error),
        Ok(value) => Ok(
            Some(
                DataPointView {
                    attributes: sample.0,
                    start_time: start,
                    time: dto::aligned_ts(sample.1.ts, sample.1.seq_id, start, align),
                    value,
                },
            ),
        ),
    }
}

/// The data points of a series, one attribute set after the other.
pub open spec fn data_points<T: IntoConsoleValue>(
    series: dto::SeriesView<T::V>,
    align: Option<nat>,
) -> Result<Seq<DataPointView>, error::ErrorView> {
    order::gathered(
        dto::samples(series.series),
        |sample: dto::SampleView<T::V>| data_point::<T>(sample, series.start_time, align),
    )
}

/// A series as a metric with all its data points, or nothing where there are none.
pub open spec fn wire<T: IntoConsoleValue>(series: dto::SeriesView<T::V>, align: Option<nat>) -> Result<
    Option<MetricView>,
    error::ErrorView,
> {
    match data_points::<T>(series, align) {
        Err(error) => Err(error),
        Ok(points) => if points.len() == 0 {
            Ok(None)
        } else {
            Ok(
                Some(
                    MetricView {
                        id: series.id,
                        kind: series.kind,
                        temporality: model::temporality_of(series.observe_mode),
                        data_points: points,
                    },
                ),
            )
        },
    }
}

/// Every snapshot of a series becomes one data point: nothing is dropped, and nothing is made up.
pub proof fn snapshots_become_points<T: IntoConsoleValue>(series: dto::SeriesView<T::V>, align: Option<nat>)
    requires
        forall|i: int|
            0 <= i < dto::samples(series.series).len() ==> T::console_value(
                (#[trigger] dto::samples(series.series)[i]).1.value,
            ) is Ok,
    ensures
        data_points::<T>(series, align) is Ok,
        data_points::<T>(series, align)->Ok_0.len() == dto::samples(series.series).len(),
        forall|i: int|
            0 <= i < dto::samples(series.series).len() ==> #[trigger] data_points::<T>(series, align)->Ok_0[i]
                == data_point::<T>(dto::samples(series.series)[i], series.start_time, align)->Ok_0->0,
{
    let samples = dto::samples(series.series);
    let give = |sample: dto::SampleView<T::V>| data_point::<T>(sample, series.start_time, align);
    assert forall|i: int| 0 <= i < samples.len() implies (#[trigger] give(samples[i])) is Ok && give(
        samples[i],
    )->Ok_0 is Some by {
        assert(T::console_value(samples[i].1.value) is Ok);
    }
    order::gathered_keeps_all(samples, give);
    assert forall|i: int| 0 <= i < samples.len() implies #[trigger] data_points::<T>(series, align)->Ok_0[i]
        == data_point::<T>(samples[i], series.start_time, align)->Ok_0->0 by {
        assert(order::gathered(samples, give)->Ok_0[i] == give(samples[i])->Ok_0->0);
    }
}

impl<T: IntoConsoleValue> IntoWire<Metric> for Series<T> {
    type Error = Error;

    open spec fn is_exportable(series: dto::SeriesView<T::V>, align: Option<nat>) -> bool {
        dto::reached_are_alignable(
            dto::samples(series.series),
            series.start_time,
            align,
            |sample: dto::SampleView<T::V>| data_point::<T>(sample, series.start_time, align),
        )
    }

    open spec fn becomes(
        series: dto::SeriesView<T::V>,
        align: Option<nat>,
        result: Result<Option<MetricView>, error::ErrorView>,
    ) -> bool {
        result == wire::<T>(series, align)
    }

    fn into_wire(self, align: Option<Duration>) -> (r: Result<Option<Metric>, Error>) {
        match self.checked_wire(align) {
            Some(result) => result,
            None => Ok(None),
        }
    }
}

impl<T: IntoConsoleValue> CheckedWire<Metric> for Series<T> {
    fn checked_wire(self, align: Option<Duration>) -> (r: Option<Result<Option<Metric>, Error>>) {
        let ghost series = self@;
        let ghost period = dto::span_of(align);
        let ghost give = |sample: dto::SampleView<T::V>| data_point::<T>(sample, series.start_time, period);
        let start_time = self.start_time;
        let id = model::share(&self.id);
        let kind = self.kind;
        let temporality = map_temporality(self.observe_mode);
        let samples = self.into_samples();
        let ghost all = order::views(samples@);
        let mut rest = order::reversed(samples);
        let mut data_points: Vec<DataPoint> = Vec::new();
        assert(all.take(0) =~= Seq::empty());
        assert(order::views(data_points@) =~= Seq::<DataPointView>::empty());
        while rest.len() > 0
            invariant
                rest@.len() <= all.len(),
                all == dto::samples(series.series),
                series == self@,
                period == dto::span_of(align),
                start_time@ == series.start_time,
                give == (|sample: dto::SampleView<T::V>|
                    data_point::<T>(sample, series.start_time, period)),
                forall|i: int|
                    0 <= i < all.len() - rest@.len() ==> dto::ts_is_alignable(
                        (#[trigger] all[i]).1.seq_id,
                        series.start_time,
                        period,
                    ),
                forall|k: int| 0 <= k < rest@.len() ==> (#[trigger] rest@[k])@ == all[all.len() - 1 - k],
                order::gathered(all.take(all.len() - rest@.len()), give) == Ok::<
                    Seq<DataPointView>,
                    error::ErrorView,
                >(order::views(data_points@)),
            decreases rest@.len(),
        {
            let ghost done = all.len() - rest@.len();
            if let Some(sample) = rest.pop() {
                assert(all[done] == sample@);
                assert(all.take(done + 1).drop_last() =~= all.take(done));
                assert(all.take(done + 1).last() == sample@);
                let time = match sample.snapshot.checked_align_ts(start_time, align) {
                    Some(time) => time,
                    None => {
                        assert(!dto::reached_are_alignable(all, series.start_time, period, give));
                        return None;
                    },
                };
                match sample.snapshot.value.into_console_value() {
                    Ok(value) => {
                        let ghost before = order::views(data_points@);
                        let point = DataPoint {
                            attributes: model::copy_attrs(&sample.attrs),
                            start_time,
                            time,
                            value,
                        };
                        data_points.push(point);
                        assert(order::views(data_points@) =~= before.push(point@));
                    },
                    Err(error) => {
                        proof {
                            order::lemma_gathered_error(all, give, done + 1);
                            dto::lemma_reached(all, series.start_time, period, give, done + 1);
                        }
                        return Some(Err(error));
                    },
                }
            }
        }
        assert(all.take(all.len() as int) =~= all);
        if data_points.len() == 0 {
            return Some(Ok(None));
        }
        Some(Ok(Some(Metric { id, kind, temporality, data_points })))
    }
}

} // verus!
