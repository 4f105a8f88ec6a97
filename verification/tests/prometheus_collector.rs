use ohnotel::collect::{Collection, Handle, Registrable};
use ohnotel::metric::{Counter, Gauge, Histogram};
use ohnotel::model::{KeyValue, NameIdentity, NameIdentityView, Str};
use ohnotel::observe::{MetricSource, Mode};
use ohnotel::prometheus::collector::{scrape_source, Collector, Source, SourceHandle};
use ohnotel::prometheus::dto::Metric;
use ohnotel::prometheus::Error as PrometheusError;
use ohnotel::Error;
use std::borrow::Cow;
use std::cell::RefCell;
use std::rc::Rc;
use std::sync::Arc;

fn id(name: &'static str) -> NameIdentity {
    NameIdentity {
        name: Str::Cow(Cow::Borrowed(name)),
        description: Str::Cow(Cow::Borrowed("")),
        unit: Str::Cow(Cow::Borrowed("")),
    }
}

/// A metric that the test goes on using after it was registered.
enum Shared {
    Unsigned(Rc<RefCell<Counter<u64>>>),
    Signed(Rc<RefCell<Gauge<i64>>>),
    Level(Rc<RefCell<Gauge<u64>>>),
    Spread(Rc<RefCell<Histogram<u64>>>),
}

impl Source for Shared {
    fn scrape(&self) -> Result<Option<Metric>, Error> {
        match self {
            Shared::Unsigned(metric) => scrape_source(&*metric.borrow()),
            Shared::Signed(metric) => scrape_source(&*metric.borrow()),
            Shared::Level(metric) => scrape_source(&*metric.borrow()),
            Shared::Spread(metric) => scrape_source(&*metric.borrow()),
        }
    }
}

impl Handle for Shared {
    fn share(&self) -> Shared {
        match self {
            Shared::Unsigned(metric) => Shared::Unsigned(Rc::clone(metric)),
            Shared::Signed(metric) => Shared::Signed(Rc::clone(metric)),
            Shared::Level(metric) => Shared::Level(Rc::clone(metric)),
            Shared::Spread(metric) => Shared::Spread(Rc::clone(metric)),
        }
    }
}

impl Registrable for Shared {
    fn identity(&self) -> NameIdentityView {
        unreachable!()
    }

    fn type_number(&self) -> u64 {
        unreachable!()
    }

    fn id(&self) -> Arc<NameIdentity> {
        match self {
            Shared::Unsigned(metric) => Arc::clone(metric.borrow().id()),
            Shared::Signed(metric) => Arc::clone(metric.borrow().id()),
            Shared::Level(metric) => Arc::clone(metric.borrow().id()),
            Shared::Spread(metric) => Arc::clone(metric.borrow().id()),
        }
    }

    fn type_key(&self) -> u64 {
        match self {
            Shared::Unsigned(_) => 0,
            Shared::Signed(_) => 1,
            Shared::Level(_) => 2,
            Shared::Spread(_) => 3,
        }
    }
}

fn counter(collector: &mut Collector<Shared>, name: &'static str) -> Rc<RefCell<Counter<u64>>> {
    let metric = Rc::new(RefCell::new(Counter::new(id(name))));
    collector.add(Shared::Unsigned(Rc::clone(&metric)));
    metric
}

fn gauge(collector: &mut Collector<Shared>, name: &'static str) -> Rc<RefCell<Gauge<i64>>> {
    let metric = Rc::new(RefCell::new(Gauge::new(id(name))));
    collector.add(Shared::Signed(Rc::clone(&metric)));
    metric
}

fn level(collector: &mut Collector<Shared>, name: &'static str) -> Rc<RefCell<Gauge<u64>>> {
    let metric = Rc::new(RefCell::new(Gauge::new(id(name))));
    collector.add(Shared::Level(Rc::clone(&metric)));
    metric
}

fn histogram(
    collector: &mut Collector<Shared>,
    name: &'static str,
    boundaries: Vec<u64>,
) -> Rc<RefCell<Histogram<u64>>> {
    let metric = Rc::new(RefCell::new(Histogram::new(id(name), boundaries).unwrap()));
    collector.add(Shared::Spread(Rc::clone(&metric)));
    metric
}

#[test]
fn renders_cumulative_totals_across_scrapes() {
    let mut collector = Collector::new();
    let counter = counter(&mut collector, "http.server.requests");

    counter.borrow_mut().add(5, &[]);
    let first = collector.render().unwrap();
    assert!(first.contains("http_server_requests_total 5\n"), "{first}");

    counter.borrow_mut().add(3, &[]);
    let second = collector.render().unwrap();
    assert!(second.contains("http_server_requests_total 8\n"), "{second}");
}

#[test]
fn collection_scrapes_report_state_regardless_of_requested_mode() {
    let mut collection = Collection::new((Collector::<Shared>::new(),));
    let metric = Rc::new(RefCell::new(Counter::new(id("http.server.requests"))));
    let added = collection
        .add(Shared::Unsigned(metric), Mode::Delta)
        .unwrap();
    let Shared::Unsigned(counter) = added else {
        panic!("another source came back");
    };
    let (prometheus,) = collection.collectors();

    counter.borrow_mut().add(5, &[]);
    let first = prometheus.render().unwrap();
    assert!(first.contains("http_server_requests_total 5\n"), "{first}");

    counter.borrow_mut().add(3, &[]);
    let second = prometheus.render().unwrap();
    assert!(second.contains("http_server_requests_total 8\n"), "{second}");
}

#[test]
fn untouched_source_renders_nothing() {
    let mut collector = Collector::new();
    let _counter = counter(&mut collector, "http.server.requests");
    assert_eq!(collector.render().unwrap(), "");
}

#[test]
fn gauge_reports_current_value() {
    let mut collector = Collector::new();
    let gauge = gauge(&mut collector, "queue.depth");

    gauge.borrow_mut().set(7, &[]);
    assert!(collector.render().unwrap().contains("queue_depth 7\n"));

    gauge.borrow_mut().set(3, &[]);
    let out = collector.render().unwrap();
    assert!(out.contains("queue_depth 3\n"), "{out}");
    assert!(!out.contains("queue_depth 7\n"), "{out}");
}

#[test]
fn renders_histograms_end_to_end() {
    let mut collector = Collector::new();
    let histogram = histogram(&mut collector, "http.server.request.duration", vec![10, 20]);
    histogram.borrow_mut().add(5, &[]);
    histogram.borrow_mut().add(25, &[]);

    let out = collector.render().unwrap();
    assert!(out.contains("# TYPE http_server_request_duration histogram\n"), "{out}");
    assert!(out.contains("http_server_request_duration_bucket{le=\"10\"} 1\n"), "{out}");
    assert!(out.contains("http_server_request_duration_bucket{le=\"+Inf\"} 2\n"), "{out}");
    assert!(out.contains("http_server_request_duration_sum 30\n"), "{out}");
    assert!(out.contains("http_server_request_duration_count 2\n"), "{out}");
}

#[test]
fn orders_families_deterministically() {
    let mut collector = Collector::new();
    let second = counter(&mut collector, "b.metric");
    let first = counter(&mut collector, "a.metric");
    second.borrow_mut().add(1, &[]);
    first.borrow_mut().add(1, &[]);

    let out = collector.render().unwrap();
    let first_pos = out.find("a_metric_total").expect("a family");
    let second_pos = out.find("b_metric_total").expect("b family");
    assert!(first_pos < second_pos, "{out}");
}

#[test]
fn orders_series_and_labels_deterministically() {
    let mut collector = Collector::new();
    let counter = counter(&mut collector, "requests");
    counter.borrow_mut().add(
        2,
        &[KeyValue::new("zone", "z"), KeyValue::new("method", "GET")],
    );
    counter.borrow_mut().add(
        1,
        &[KeyValue::new("zone", "a"), KeyValue::new("method", "GET")],
    );

    assert_eq!(
        collector.render().unwrap(),
        "# TYPE requests_total counter\n\
         requests_total{method=\"GET\",zone=\"a\"} 1\n\
         requests_total{method=\"GET\",zone=\"z\"} 2\n",
    );
}

#[test]
fn merges_families_with_equal_identity_and_kind() {
    let mut collector = Collector::new();
    let first = counter(&mut collector, "app.requests");
    let second = counter(&mut collector, "app.requests");
    first.borrow_mut().add(1, &[KeyValue::new("route", "/a")]);
    second.borrow_mut().add(2, &[KeyValue::new("route", "/b")]);

    let out = collector.render().unwrap();
    assert_eq!(
        out.matches("# TYPE app_requests_total counter").count(),
        1,
        "{out}"
    );
    assert!(out.contains("app_requests_total{route=\"/a\"} 1\n"), "{out}");
    assert!(out.contains("app_requests_total{route=\"/b\"} 2\n"), "{out}");
}

#[test]
fn rejects_distinct_metrics_colliding_on_family_name() {
    let mut collector = Collector::new();
    let first = counter(&mut collector, "app.requests");
    let second = counter(&mut collector, "app/requests");
    first.borrow_mut().add(1, &[]);
    second.borrow_mut().add(2, &[]);

    let err = collector.render().expect_err("family collision");
    assert!(
        matches!(&err, Error::Prometheus(PrometheusError::FamilyCollision(name)) if name == "app_requests_total"),
        "unexpected error: {err:?}",
    );
}

#[test]
fn rejects_kind_mismatch_colliding_on_family_name() {
    let mut collector = Collector::new();
    let counter = counter(&mut collector, "app.requests");
    let gauge = gauge(&mut collector, "app.requests.total");
    counter.borrow_mut().add(1, &[]);
    gauge.borrow_mut().set(2, &[]);

    let err = collector.render().expect_err("family collision");
    assert!(
        matches!(&err, Error::Prometheus(PrometheusError::FamilyCollision(name)) if name == "app_requests_total"),
        "unexpected error: {err:?}",
    );
}

#[test]
fn rejects_label_collision_within_a_sample() {
    let mut collector = Collector::new();
    let counter = counter(&mut collector, "app.requests");
    counter.borrow_mut().add(
        1,
        &[
            KeyValue::new("http.route", "/a"),
            KeyValue::new("http/route", "/b"),
        ],
    );

    let err = collector.render().expect_err("label collision");
    assert!(
        matches!(
            &err,
            Error::Prometheus(PrometheusError::LabelCollision(label, name))
                if label == "http_route" && name == "app.requests"
        ),
        "unexpected error: {err:?}",
    );
}

#[test]
fn rejects_duplicate_series_across_merged_sources() {
    let mut collector = Collector::new();
    let first = counter(&mut collector, "app.requests");
    let second = counter(&mut collector, "app.requests");
    first.borrow_mut().add(1, &[]);
    second.borrow_mut().add(2, &[]);

    let err = collector.render().expect_err("duplicate series");
    assert!(
        matches!(
            &err,
            Error::Prometheus(PrometheusError::DuplicateSeries(labels, name))
                if labels.is_empty() && name == "app.requests"
        ),
        "unexpected error: {err:?}",
    );
}

#[test]
fn rejects_attr_sets_sanitizing_to_equal_labels() {
    let mut collector = Collector::new();
    let counter = counter(&mut collector, "app.requests");
    counter.borrow_mut().add(1, &[KeyValue::new("a.b", "1")]);
    counter.borrow_mut().add(2, &[KeyValue::new("a/b", "1")]);

    let err = collector.render().expect_err("duplicate series");
    assert!(
        matches!(
            &err,
            Error::Prometheus(PrometheusError::DuplicateSeries(labels, name))
                if labels == "a_b=\"1\"" && name == "app.requests"
        ),
        "unexpected error: {err:?}",
    );
}

#[test]
fn rejects_duplicate_series_with_differently_ordered_sanitized_labels() {
    let mut collector = Collector::new();
    let counter = counter(&mut collector, "app.requests");
    counter
        .borrow_mut()
        .add(1, &[KeyValue::new("a.", "x"), KeyValue::new("a0", "y")]);
    counter
        .borrow_mut()
        .add(2, &[KeyValue::new("a~", "x"), KeyValue::new("a0", "y")]);

    let err = collector.render().expect_err("duplicate series");
    assert!(
        matches!(
            &err,
            Error::Prometheus(PrometheusError::DuplicateSeries(labels, name))
                if labels == "a0=\"y\",a_=\"x\"" && name == "app.requests"
        ),
        "unexpected error: {err:?}",
    );
}

#[test]
fn empty_registry_renders_empty_string() {
    assert_eq!(Collector::<Shared>::new().render().unwrap(), "");
    assert_eq!(Collector::<Shared>::default().render().unwrap(), "");
}

#[test]
fn rejects_empty_metric_names() {
    let mut collector = Collector::new();
    let gauge = level(&mut collector, "");
    gauge.borrow_mut().set(1, &[]);

    let err = collector.render().expect_err("empty metric name");
    assert!(
        matches!(err, Error::Prometheus(PrometheusError::EmptyMetricName)),
        "unexpected error: {err:?}",
    );
}

#[test]
fn rejects_empty_label_names() {
    let mut collector = Collector::new();
    let gauge = level(&mut collector, "m");
    gauge.borrow_mut().set(1, &[KeyValue::new("", "empty")]);

    let err = collector.render().expect_err("empty label name");
    assert!(
        matches!(&err, Error::Prometheus(PrometheusError::EmptyLabelName(name)) if name == "m"),
        "unexpected error: {err:?}",
    );
}

#[test]
fn remaps_reserved_label_names_and_skips_valueless_attributes() {
    let mut collector = Collector::new();
    let gauge = level(&mut collector, "m");
    gauge.borrow_mut().set(
        1,
        &[KeyValue::no_val(""), KeyValue::new("__name__", "reserved")],
    );

    assert_eq!(
        collector.render().unwrap(),
        "# TYPE m gauge\nm{label__name__=\"reserved\"} 1\n",
    );
}

#[test]
fn rejects_histogram_suffix_colliding_with_scalar_family() {
    let mut collector = Collector::new();
    let histogram = histogram(&mut collector, "request.duration", vec![10, 20]);
    let gauge = gauge(&mut collector, "request.duration.count");
    histogram.borrow_mut().add(5, &[]);
    gauge.borrow_mut().set(2, &[]);

    let err = collector.render().expect_err("emitted-name collision");
    assert!(
        matches!(
            &err,
            Error::Prometheus(PrometheusError::FamilyCollision(name)) if name == "request_duration_count"
        ),
        "unexpected error: {err:?}",
    );
}

#[test]
fn rejects_scalar_family_colliding_with_histogram_suffix() {
    let mut collector = Collector::new();
    let gauge = gauge(&mut collector, "request.duration.bucket");
    let histogram = histogram(&mut collector, "request.duration", vec![10, 20]);
    gauge.borrow_mut().set(1, &[]);
    histogram.borrow_mut().add(5, &[]);

    let err = collector.render().expect_err("emitted-name collision");
    assert!(
        matches!(
            &err,
            Error::Prometheus(PrometheusError::FamilyCollision(name)) if name == "request_duration_bucket"
        ),
        "unexpected error: {err:?}",
    );
}

#[test]
fn non_overlapping_families_render_together() {
    let mut collector = Collector::new();
    let histogram = histogram(&mut collector, "request.duration", vec![10, 20]);
    let gauge = gauge(&mut collector, "queue.depth");
    histogram.borrow_mut().add(5, &[]);
    gauge.borrow_mut().set(7, &[]);

    let out = collector.render().unwrap();
    assert!(out.contains("# TYPE request_duration histogram\n"), "{out}");
    assert!(out.contains("request_duration_count 1\n"), "{out}");
    assert!(out.contains("queue_depth 7\n"), "{out}");
}

#[test]
fn owned_sources_are_scraped_as_they_are() {
    let mut counter = Counter::<u64>::new(id("jobs"));
    counter.add(2, &[]);
    counter.add(3, &[KeyValue::new("queue", "slow")]);
    let mut collector = Collector::new();
    collector.add(SourceHandle { source: counter });
    assert_eq!(
        collector.render().unwrap(),
        "# TYPE jobs_total counter\njobs_total 2\njobs_total{queue=\"slow\"} 3\n"
    );
}

#[test]
fn source_order_does_not_change_the_text() {
    let build = |names: [&'static str; 3]| {
        let mut collector = Collector::new();
        for name in names {
            let metric = counter(&mut collector, name);
            metric.borrow_mut().add(name.len() as u64, &[KeyValue::new("n", name)]);
        }
        collector.render().unwrap()
    };
    assert_eq!(build(["a", "bb", "ccc"]), build(["ccc", "a", "bb"]));
}

#[test]
fn cells_are_scraped_one_by_one() {
    let mut collector = Collector::new();
    let gauge = gauge(&mut collector, "depth");
    for i in 0..3 {
        gauge.borrow_mut().set(-i, &[KeyValue::new("i", i)]);
    }
    gauge.borrow_mut().set(9, &[]);
    assert_eq!(
        collector.render().unwrap(),
        "# TYPE depth gauge\ndepth 9\ndepth{i=\"0\"} 0\ndepth{i=\"1\"} -1\ndepth{i=\"2\"} -2\n"
    );
}
