use ohnotel::atomic::histogram;
use ohnotel::dto::Kind;
use ohnotel::metric::Histogram as HistogramMetric;
use ohnotel::model::{KeyValue, NameIdentity, Str};
use ohnotel::number::{Number, OrderedNumber};
use ohnotel::observe::MetricSource;
use ohnotel::prometheus::dto::{
    escape_help_into, escape_label_value_into, sanitize_label_name, sanitize_metric_name, write_f64,
    DataPoint, DataPointValue, HistogramValue, IntoDataPointValue, Metric,
};
use ohnotel::prometheus::Error as PrometheusError;
use ohnotel::Error;
use std::borrow::Cow;
use std::sync::Arc;

fn id(name: &'static str) -> NameIdentity {
    NameIdentity {
        name: Str::Cow(Cow::Borrowed(name)),
        description: Str::Cow(Cow::Borrowed("")),
        unit: Str::Cow(Cow::Borrowed("")),
    }
}

fn ordered(value: f64) -> OrderedNumber {
    OrderedNumber(number(value))
}

fn number(value: f64) -> Number {
    Number::from_parts(value.to_bits(), value.to_string())
}

fn number_metric(identity: NameIdentity, kind: Kind, value: f64) -> Metric {
    Metric {
        id: Arc::new(identity),
        kind,
        points: vec![DataPoint {
            attrs: Arc::new(vec![]),
            value: DataPointValue::Number(ordered(value)),
        }],
    }
}

fn gauge_with(attrs: Vec<KeyValue>) -> Metric {
    Metric {
        id: Arc::new(id("m")),
        kind: Kind::Gauge,
        points: vec![DataPoint {
            attrs: Arc::new(attrs),
            value: DataPointValue::Number(ordered(1.0)),
        }],
    }
}

#[test]
fn sanitizes_names() {
    assert_eq!(
        sanitize_metric_name("http.server.request.duration"),
        "http_server_request_duration"
    );
    assert_eq!(sanitize_metric_name("9lives"), "_9lives");
    assert_eq!(sanitize_metric_name("app:requests"), "app:requests");
    assert_eq!(sanitize_label_name("app:route"), "app_route");
    assert_eq!(sanitize_label_name("http.route"), "http_route");
    assert_eq!(sanitize_label_name("2xx"), "_2xx");
    assert_eq!(sanitize_label_name("__name__"), "label__name__");
}

#[test]
fn suffixes_counters_with_total() {
    let metric = number_metric(id("http.requests"), Kind::Counter, 1.0);
    assert_eq!(metric.family_name().unwrap(), "http_requests_total");

    let metric = number_metric(id("http.requests.total"), Kind::Counter, 1.0);
    assert_eq!(metric.family_name().unwrap(), "http_requests_total");

    let metric = number_metric(id("queue.depth"), Kind::Gauge, 1.0);
    assert_eq!(metric.family_name().unwrap(), "queue_depth");

    let metric = number_metric(id(""), Kind::Gauge, 1.0);
    assert!(matches!(
        metric.family_name(),
        Err(PrometheusError::EmptyMetricName),
    ));
}

#[test]
fn escapes_label_values() {
    let metric = gauge_with(vec![
        KeyValue::new("path", "C:\\temp\n\"x\""),
        KeyValue::new("code", 200_i32),
        KeyValue::no_val("ignored"),
    ]);

    let mut out = String::new();
    metric.render_into(&mut out).unwrap();
    assert!(
        out.contains(r#"m{code="200",path="C:\\temp\n\"x\""} 1"#),
        "{out}"
    );
}

#[test]
fn escapes_help_text() {
    let mut identity = id("m");
    identity.description = Str::Cow(Cow::Borrowed("line one\nback\\slash"));
    let metric = number_metric(identity, Kind::Gauge, 1.0);

    let mut out = String::new();
    metric.render_into(&mut out).unwrap();
    assert!(out.contains("# HELP m line one\\nback\\\\slash\n"), "{out}");
}

#[test]
fn skips_empty_description() {
    let metric = number_metric(id("m"), Kind::Gauge, 1.0);

    let mut out = String::new();
    metric.render_into(&mut out).unwrap();
    assert!(!out.contains("# HELP"), "{out}");
    assert!(out.contains("# TYPE m gauge\n"), "{out}");
}

#[test]
fn rejects_label_collisions_within_a_data_point() {
    let metric = gauge_with(vec![
        KeyValue::new("http.route", "/a"),
        KeyValue::new("http/route", "/b"),
    ]);

    let mut out = "prefix".to_owned();
    let err = metric.render_into(&mut out).expect_err("label collision");
    assert!(
        matches!(
            &err,
            PrometheusError::LabelCollision(label, name)
                if label == "http_route" && name == "m"
        ),
        "unexpected error: {err:?}",
    );
    assert_eq!(out, "prefix");
}

#[test]
fn rejects_le_attribute_on_histogram_points() {
    let metric = Metric {
        id: Arc::new(id("m")),
        kind: Kind::Histogram,
        points: vec![DataPoint {
            attrs: Arc::new(vec![KeyValue::new("le", "user")]),
            value: DataPointValue::Histogram(HistogramValue {
                boundaries: vec![number(1.0)],
                bucket_counts: vec![1],
                count: 1,
                sum: ordered(0.5),
            }),
        }],
    };

    let mut out = String::new();
    let err = metric.render_into(&mut out).expect_err("le collision");
    assert!(
        matches!(
            &err,
            PrometheusError::LabelCollision(label, name)
                if label == "le" && name == "m"
        ),
        "unexpected error: {err:?}",
    );
}

#[test]
fn allows_le_attribute_on_scalar_points() {
    let metric = gauge_with(vec![KeyValue::new("le", "user")]);

    let mut out = String::new();
    metric.render_into(&mut out).unwrap();
    assert!(out.contains("m{le=\"user\"} 1\n"), "{out}");
}

#[test]
fn renders_histogram_with_cumulative_buckets() {
    let identity = id("request.duration");
    let mut histogram = HistogramMetric::<u64>::new(identity.clone(), vec![10, 20]).unwrap();
    histogram.add(5, &vec![]);
    histogram.add(25, &vec![]);

    let snapshot = histogram.buckets().readings().pop().expect("recorded bucket").value;
    let value = snapshot.into_data_point_value(&identity).unwrap();
    let metric = Metric {
        id: Arc::new(identity),
        kind: Kind::Histogram,
        points: vec![DataPoint {
            attrs: Arc::new(vec![]),
            value,
        }],
    };
    let mut out = String::new();
    metric.render_into(&mut out).unwrap();

    assert!(out.contains("# TYPE request_duration histogram\n"), "{out}");
    assert!(out.contains("request_duration_bucket{le=\"10\"} 1\n"), "{out}");
    assert!(out.contains("request_duration_bucket{le=\"20\"} 1\n"), "{out}");
    assert!(out.contains("request_duration_bucket{le=\"+Inf\"} 2\n"), "{out}");
    assert!(out.contains("request_duration_sum 30\n"), "{out}");
    assert!(out.contains("request_duration_count 2\n"), "{out}");
}

/// Builds a histogram snapshot directly, so that boundaries that are not finite can reach the
/// conversion. Finite boundaries are covered by [`renders_histogram_with_cumulative_buckets`].
#[test]
fn rejects_non_finite_histogram_boundaries() {
    for boundaries in [&[f64::NAN][..], &[1.0, f64::INFINITY][..]] {
        let snapshot = histogram::Snapshot::<Number> {
            boundaries: Arc::new(boundaries.iter().map(|b| number(*b)).collect()),
            bucket_counts: vec![1; boundaries.len()],
            count: 1,
            sum: number(0.5),
            min: None,
            max: None,
        };
        let err = snapshot
            .into_data_point_value(&id("m"))
            .expect_err("non-finite boundary");
        assert!(
            matches!(&err, Error::Prometheus(PrometheusError::NonFiniteBoundary(name)) if name == "m"),
            "unexpected error: {err:?}",
        );
    }
}

#[test]
fn converts_scalar_snapshots_to_numbers() {
    assert_eq!(
        7_u64.into_data_point_value(&id("m")).unwrap(),
        DataPointValue::Number(ordered(7.0)),
    );
    assert_eq!(
        (-3_i64).into_data_point_value(&id("m")).unwrap(),
        DataPointValue::Number(ordered(-3.0)),
    );
}

#[test]
fn converted_numbers_print_as_doubles_do() {
    let DataPointValue::Number(big) = u64::MAX.into_data_point_value(&id("m")).unwrap() else {
        panic!("not a number");
    };
    assert_eq!(big.0.bits(), 18_446_744_073_709_551_615_f64.to_bits());
    assert_eq!(big.0.as_text(), "18446744073709552000");
    let DataPointValue::Number(low) = i64::MIN.into_data_point_value(&id("m")).unwrap() else {
        panic!("not a number");
    };
    assert_eq!(low.0.bits(), (-9_223_372_036_854_775_808_f64).to_bits());
    assert_eq!(low.0.as_text(), "-9223372036854776000");
}

#[test]
fn histogram_snapshots_convert_boundary_by_boundary() {
    let snapshot = histogram::Snapshot::<i64> {
        boundaries: Arc::new(vec![-1, 4]),
        bucket_counts: vec![1, 0, 2],
        count: 3,
        sum: 12,
        min: None,
        max: None,
    };
    let value = snapshot.into_data_point_value(&id("m")).unwrap();
    assert_eq!(
        value,
        DataPointValue::Histogram(HistogramValue {
            boundaries: vec![number(-1.0), number(4.0)],
            bucket_counts: vec![1, 0, 2],
            count: 3,
            sum: ordered(12.0),
        })
    );
}

#[test]
fn writes_special_doubles() {
    let mut out = String::new();
    write_f64(&mut out, &number(f64::NAN));
    write_f64(&mut out, &number(f64::INFINITY));
    write_f64(&mut out, &number(f64::NEG_INFINITY));
    write_f64(&mut out, &number(-0.25));
    assert_eq!(out, "NaN+Inf-Inf-0.25");
}

#[test]
fn escapes_can_be_read_back() {
    let text = "a\\b\"c\nd";
    let mut help = String::new();
    escape_help_into(text, &mut help);
    assert_eq!(help, "a\\\\b\"c\\nd");
    let mut label = String::new();
    escape_label_value_into(text, &mut label);
    assert_eq!(label, "a\\\\b\\\"c\\nd");
    assert!(!label.contains('\n'));
}

#[test]
fn labels_come_in_name_order_whatever_the_attribute_order() {
    let forward = gauge_with(vec![KeyValue::new("b", 2_i32), KeyValue::new("a", true)]);
    let backward = gauge_with(vec![KeyValue::new("a", true), KeyValue::new("b", 2_i32)]);
    let mut left = String::new();
    forward.render_into(&mut left).unwrap();
    let mut right = String::new();
    backward.render_into(&mut right).unwrap();
    assert_eq!(left, right);
    assert_eq!(left, "# TYPE m gauge\nm{a=\"true\",b=\"2\"} 1\n");
}

#[test]
fn samples_come_in_label_order_whatever_their_order() {
    let point = |route: &'static str, value: f64| DataPoint {
        attrs: Arc::new(vec![KeyValue::new("route", route)]),
        value: DataPointValue::Number(ordered(value)),
    };
    let metric = |points| Metric {
        id: Arc::new(id("m")),
        kind: Kind::Gauge,
        points,
    };
    let mut left = String::new();
    metric(vec![point("/b", 2.0), point("/a", 1.0)]).render_into(&mut left).unwrap();
    let mut right = String::new();
    metric(vec![point("/a", 1.0), point("/b", 2.0)]).render_into(&mut right).unwrap();
    assert_eq!(left, right);
}

#[test]
fn missing_counts_count_as_none_and_counts_saturate() {
    let value = HistogramValue {
        boundaries: vec![number(1.0), number(2.0), number(3.0)],
        bucket_counts: vec![u64::MAX, 5],
        count: 9,
        sum: ordered(1.5),
    };
    let mut out = String::new();
    value.render_into("h", "a=\"b\"", &mut out);
    assert_eq!(
        out,
        "h_bucket{a=\"b\",le=\"1\"} 18446744073709551615\n\
         h_bucket{a=\"b\",le=\"2\"} 18446744073709551615\n\
         h_bucket{a=\"b\",le=\"3\"} 18446744073709551615\n\
         h_bucket{a=\"b\",le=\"+Inf\"} 9\n\
         h_sum{a=\"b\"} 1.5\n\
         h_count{a=\"b\"} 9\n"
    );
}

#[test]
fn error_messages_name_label_and_metric() {
    let error = PrometheusError::LabelCollision("l".to_owned(), "m".to_owned());
    assert_eq!(
        error.message(),
        "metric 'm': attribute keys collide on prometheus label name 'l'"
    );
    assert_eq!(
        PrometheusError::EmptyMetricName.message(),
        "prometheus metric name must not be empty"
    );
    let _ = Error::Prometheus(error);
}

#[test]
fn boundaries_compare_as_doubles_and_sums_by_their_order() {
    let value = |boundary, sum| HistogramValue {
        boundaries: vec![number(boundary)],
        bucket_counts: vec![1, 0],
        count: 1,
        sum: ordered(sum),
    };
    assert_eq!(value(1.0, f64::NAN), value(1.0, -f64::NAN));
    assert_eq!(value(0.0, 1.0), value(-0.0, 1.0));
    assert_ne!(value(f64::NAN, 1.0), value(f64::NAN, 1.0));
    assert_ne!(value(1.0, 1.0), value(2.0, 1.0));
    assert_eq!(DataPointValue::Number(ordered(f64::NAN)), DataPointValue::Number(ordered(f64::NAN)));
}
