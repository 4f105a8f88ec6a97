use ohnotel::atomic::histogram::Snapshot;
use ohnotel::console::dto::{
    map_temporality, Bucket, DataPoint, DataPointValue, Histogram, IntoConsoleValue, Metric,
};
use ohnotel::console::sender::Stdout;
use ohnotel::dto::Kind;
use ohnotel::metric::{Counter, Gauge, Histogram as HistogramMetric};
use ohnotel::model::{KeyValue, NameIdentity, Str, Temporality};
use ohnotel::number::{Number, NumberView, OrderedNumber, ToNumber};
use ohnotel::observe::{DynObserver, MetricSource, Mode, Observed, SyncObserver};
use ohnotel::time::SystemTime;
use ohnotel::Error;
use std::borrow::Cow;
use std::sync::Arc;

fn identity() -> NameIdentity {
    NameIdentity {
        name: Str::Cow(Cow::Borrowed("name")),
        description: Str::Cow(Cow::Borrowed("description")),
        unit: Str::Cow(Cow::Borrowed("unit")),
    }
}

fn plain_identity(name: &'static str) -> Arc<NameIdentity> {
    Arc::new(NameIdentity {
        name: Str::Cow(Cow::Borrowed(name)),
        description: Str::Cow(Cow::Borrowed("")),
        unit: Str::Cow(Cow::Borrowed("")),
    })
}

fn number(value: f64) -> OrderedNumber {
    OrderedNumber(Number::from_parts(value.to_bits(), value.to_string()))
}

fn at(nanos: i128) -> SystemTime {
    SystemTime::from_epoch_nanos(nanos).unwrap()
}

#[test]
fn renders_counter() {
    let mut counter = Counter::<u64>::new(identity());
    counter.add(7, &vec![KeyValue::new("route", "/")]);

    let observer = SyncObserver::new(&counter, Mode::Direct).expect("counter observer");
    let mut observer = Observed { source: counter, observer };
    DynObserver::<Metric, Error>::observe(&mut observer, SystemTime::now());

    let metric: Metric = observer.export(None).expect("export").expect("metric");
    let rendered = metric.render();

    assert!(rendered.contains(&format!("CumulativeCounter {}", identity().name.as_str())));
    assert!(rendered.contains("{route=\"/\"} 7"));
}

#[test]
fn renders_histogram() {
    let mut histogram = HistogramMetric::<u64>::new(identity(), vec![10, 20]).expect("histogram");
    histogram.add(5, &vec![]);
    histogram.add(25, &vec![]);

    let observer = SyncObserver::new(&histogram, Mode::Direct).expect("histogram observer");
    let mut observer = Observed { source: histogram, observer };
    DynObserver::<Metric, Error>::observe(&mut observer, SystemTime::now());

    let metric: Metric = observer.export(None).expect("export").expect("metric");
    let rendered = metric.render();

    assert!(rendered.contains("count=2 sum=30"));
    assert!(rendered.contains("10:1"));
    assert!(rendered.contains("20:0"));
    assert!(rendered.contains("\u{221e}:1"));
}

#[test]
fn renders_exactly() {
    let point = |time, route: &'static str, value: f64| DataPoint {
        attributes: vec![KeyValue::new("route", route)],
        start_time: at(0),
        time: at(time),
        value: DataPointValue::Number(number(value)),
    };
    let mut id = identity();
    id.description = Str::from("what \"it\" is");
    let metric = Metric {
        id: Arc::new(id),
        kind: Kind::Counter,
        temporality: Temporality::Delta,
        data_points: vec![
            point(3_723_004_000_000, "/b", 2.5),
            point(86_400_000_000_000, "/a", -1.0),
            point(3_723_004_000_000, "/a", 1e21),
        ],
    };
    assert_eq!(
        metric.render(),
        "DeltaCounter name unit=unit description=\"what \\\"it\\\" is\"\n\
         \u{20} 01:02:03.004  {route=\"/a\"} 1000000000000000000000\n\
         \u{20}               {route=\"/b\"} 2.5\n\
         \u{20} 00:00:00.000  {route=\"/a\"} -1"
    );
}

#[test]
fn the_order_of_data_points_does_not_matter() {
    let bucket = |upper_bound: Option<f64>, count| Bucket {
        upper_bound: upper_bound.map(number),
        count,
    };
    let point = |time, route: &'static str, low| DataPoint {
        attributes: vec![KeyValue::new("route", route)],
        start_time: at(0),
        time: at(time),
        value: DataPointValue::Histogram(Histogram {
            count: low,
            sum: number(2.0),
            buckets: vec![bucket(Some(10.0), low), bucket(None, 0)],
            min: None,
            max: None,
        }),
    };
    let metric = |data_points| Metric {
        id: plain_identity("latency"),
        kind: Kind::Histogram,
        temporality: Temporality::Cumulative,
        data_points,
    };
    let ordered = metric(vec![point(0, "/a", 1), point(0, "/b", 20), point(1_000_000, "/a", 300)]);
    let permuted = metric(vec![point(1_000_000, "/a", 300), point(0, "/b", 20), point(0, "/a", 1)]);
    assert_eq!(
        ordered.render(),
        "CumulativeHistogram latency\n\
         \u{20} 00:00:00.000  {route=\"/a\"} [10:1   \u{221e}:0]  count=1 sum=2\n\
         \u{20}               {route=\"/b\"} [10:20  \u{221e}:0]  count=20 sum=2\n\
         \u{20} 00:00:00.001  {route=\"/a\"} [10:300 \u{221e}:0]  count=300 sum=2"
    );
    assert_eq!(permuted.render(), ordered.render());
}

#[test]
fn pads_histogram_columns() {
    let bucket = |upper_bound: Option<f64>, count| Bucket {
        upper_bound: upper_bound.map(number),
        count,
    };
    let point = |time, low, high| DataPoint {
        attributes: vec![],
        start_time: at(0),
        time: at(time),
        value: DataPointValue::Histogram(Histogram {
            count: low + high,
            sum: number(1.5),
            buckets: vec![bucket(Some(10.0), low), bucket(None, high)],
            min: Some(number(0.5)),
            max: None,
        }),
    };
    let mut metric = Metric {
        id: plain_identity("latency"),
        kind: Kind::Histogram,
        temporality: Temporality::Cumulative,
        data_points: vec![point(0, 1, 200), point(1_000_000, 1000, 3)],
    };
    assert_eq!(
        metric.render(),
        "CumulativeHistogram latency\n\
         \u{20} 00:00:00.000  [10:1    \u{221e}:200]  count=201 sum=1.5 min=0.5\n\
         \u{20} 00:00:00.001  [10:1000 \u{221e}:3  ]  count=1003 sum=1.5 min=0.5"
    );
    // One value that is no histogram, and no column is padded.
    metric.data_points.push(DataPoint {
        attributes: vec![],
        start_time: at(0),
        time: at(2_000_000),
        value: DataPointValue::Number(number(4.0)),
    });
    assert_eq!(
        metric.render(),
        "CumulativeHistogram latency\n\
         \u{20} 00:00:00.000  [10:1 \u{221e}:200]  count=201 sum=1.5 min=0.5\n\
         \u{20} 00:00:00.001  [10:1000 \u{221e}:3]  count=1003 sum=1.5 min=0.5\n\
         \u{20} 00:00:00.002  4"
    );
}

#[test]
fn gauges_have_no_temporality_and_early_times_no_clock() {
    let metric = Metric {
        id: plain_identity("depth"),
        kind: Kind::Gauge,
        temporality: Temporality::Cumulative,
        data_points: vec![DataPoint {
            attributes: vec![
                KeyValue::no_val("bare"),
                KeyValue::new("flag", true),
                KeyValue::new("n", -3),
            ],
            start_time: at(0),
            time: at(-1),
            value: DataPointValue::Number(number(f64::NAN)),
        }],
    };
    assert_eq!(
        metric.render(),
        "Gauge depth\n  ??:??:??.???  {bare, flag=true, n=-3} NaN"
    );
}

#[test]
fn batches_end_every_metric_with_a_line_feed() {
    let metric = |name| Metric {
        id: plain_identity(name),
        kind: Kind::Gauge,
        temporality: Temporality::Cumulative,
        data_points: vec![],
    };
    assert_eq!(Stdout.render(&vec![metric("a"), metric("b")]), "Gauge a\nGauge b\n");
    assert_eq!(Stdout.render(&vec![]), "");
}

#[test]
fn modes_have_temporalities() {
    assert_eq!(map_temporality(Mode::Direct), Temporality::Cumulative);
    assert_eq!(map_temporality(Mode::Delta), Temporality::Delta);
    assert_eq!(map_temporality(Mode::Destructive), Temporality::Delta);
}

#[test]
fn nothing_observed_is_nothing_exported() {
    let mut gauge = Gauge::<i64>::new(identity());
    assert_eq!(gauge.kind(), Kind::Gauge);
    let observer = SyncObserver::new(&gauge, Mode::Direct).expect("gauge observer");
    gauge.set(-4, &vec![]);
    let mut observer = Observed { source: gauge, observer };
    let before: Option<Metric> = observer.export(None).expect("export");
    assert!(before.is_none());
    DynObserver::<Metric, Error>::observe(&mut observer, at(5));
    let metric: Metric = observer.export(None).expect("export").expect("metric");
    assert_eq!(metric.data_points[0].time, at(5));
    assert_eq!(metric.data_points[0].value, DataPointValue::Number(number(-4.0)));
}

/// A value that no double stands for.
#[derive(Clone)]
struct Unrepresentable;

impl ohnotel::View for Unrepresentable {
    type V = Unrepresentable;

    fn view(&self) -> Unrepresentable {
        Unrepresentable
    }
}

impl ToNumber for Unrepresentable {
    fn number(&self) -> Option<NumberView> {
        unreachable!()
    }

    fn to_number(&self) -> Result<Number, Error> {
        Err(Error::ValueToF64)
    }
}

#[test]
fn values_without_a_double_are_refused() {
    let snapshot = Snapshot {
        boundaries: Arc::new(vec![Unrepresentable]),
        bucket_counts: vec![1, 0],
        count: 1,
        sum: Unrepresentable,
        min: None,
        max: None,
    };
    let err = snapshot.into_console_value().expect_err("no double");
    assert!(matches!(err, Error::ValueToF64), "{err:?}");
}
