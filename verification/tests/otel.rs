use ohnotel::atomic::histogram::Snapshot;
use ohnotel::dto::{IntoWire, Kind};
use ohnotel::metric::{Counter, Gauge, Histogram};
use ohnotel::model::{KeyValue, NameIdentity, Str, Temporality, Value};
use ohnotel::number::{Number, NumberView, ToNumber};
use ohnotel::observe::{DynObserver, MetricSource, Mode, Observed, SyncObserver};
use ohnotel::otel::dto::{
    host_arch, map_time, os_type, sdk_name, sdk_version, trim_at_zero, Data, Environment,
    IntoNumberDataPointValue, IntoPoint, Metric, NumberValue, Resource, Scope,
};
use ohnotel::otel::sender::{PartialSuccess, Settings};
use ohnotel::time::{Duration, SystemTime};
use ohnotel::Error;
use std::borrow::Cow;
use std::sync::Arc;

fn identity() -> NameIdentity {
    NameIdentity {
        name: Str::Cow(Cow::Borrowed("name")),
        description: Str::Cow(Cow::Borrowed("description")),
        unit: Str::Cow(Cow::Borrowed("unit")),
    }
}

fn number(value: f64) -> Number {
    Number::from_parts(value.to_bits(), value.to_string())
}

fn at(nanos: i128) -> SystemTime {
    SystemTime::from_epoch_nanos(nanos).unwrap()
}

fn environment() -> Environment {
    Environment {
        service_name: Some("from-env".to_owned()),
        host_name: b"box\0\0leftover".to_vec(),
        arch: "x86_64".to_owned(),
        os: "macos".to_owned(),
        executable: Some("server".to_owned()),
    }
}

#[test]
fn monotonic_counters() {
    let mut c = Counter::<u64>::new(identity());
    let observer = SyncObserver::new(&c, Mode::Delta).expect("delta mode is supported");
    c.add(7, &vec![]);
    let mut obs = Observed { source: c, observer };
    DynObserver::<Metric, Error>::observe(&mut obs, SystemTime::now());
    let metric: Metric = obs
        .export(None)
        .expect("convert")
        .expect("metric was produced");
    match metric.data {
        Data::Sum {
            temporality,
            is_monotonic,
            ..
        } => {
            assert_eq!(temporality, Temporality::Delta);
            assert!(
                is_monotonic,
                "a counter must be monotonic regardless of temporality"
            );
        }
        other => panic!("expected sum, got {:?}", other),
    }
}

#[test]
fn gauges_become_gauges() {
    let mut g = Gauge::<i64>::new(identity());
    let mut observer = SyncObserver::new(&g, Mode::Direct).unwrap();
    observer.reset(at(100));
    g.set(-9, &vec![KeyValue::new("k", "v")]);
    observer.observe_impl(g.buckets_mut(), at(250));
    let metric: Metric = observer.take().into_wire(None).unwrap().unwrap();
    assert_eq!(metric.name, "name");
    assert_eq!(metric.description, "description");
    assert_eq!(metric.unit, "unit");
    let Data::Gauge { data_points } = metric.data else {
        panic!("expected a gauge");
    };
    assert_eq!(data_points.len(), 1);
    assert_eq!(data_points[0].start_time_unix_nano, 100);
    assert_eq!(data_points[0].time_unix_nano, 250);
    assert_eq!(data_points[0].value, NumberValue::AsInt(-9));
    assert_eq!(data_points[0].attributes, vec![KeyValue::new("k", "v")]);
}

#[test]
fn histograms_become_histograms() {
    let mut h = Histogram::<u64>::new(identity(), vec![10, 20]).unwrap();
    let mut observer = SyncObserver::new(&h, Mode::Direct).unwrap();
    observer.reset(at(1_000));
    for value in [5, 15, 25] {
        h.add(value, &vec![]);
    }
    observer.observe_impl(h.buckets_mut(), at(1_003));
    observer.observe_impl(h.buckets_mut(), at(1_017));
    let metric: Metric = observer
        .take()
        .into_wire(Some(Duration::from_nanos(10)))
        .unwrap()
        .unwrap();
    let Data::Histogram {
        data_points,
        temporality,
    } = metric.data
    else {
        panic!("expected a histogram");
    };
    assert_eq!(temporality, Temporality::Cumulative);
    let times: Vec<u64> = data_points.iter().map(|p| p.time_unix_nano).collect();
    assert_eq!(times, [1_000, 1_010]);
    let point = &data_points[1];
    assert_eq!(point.count, 3);
    assert_eq!(point.sum, number(45.0));
    assert_eq!(point.bucket_counts, [1, 1, 1]);
    assert_eq!(point.explicit_bounds, [number(10.0), number(20.0)]);
    assert_eq!(point.min, Some(number(5.0)));
    assert_eq!(point.max, Some(number(25.0)));
}

#[test]
fn large_values_do_not_fit() {
    assert_eq!(
        (i64::MAX as u64).into_number_value().unwrap(),
        NumberValue::AsInt(i64::MAX)
    );
    let err = (i64::MAX as u64 + 1).into_number_value().expect_err("too large");
    assert!(matches!(err, Error::ValueToI64), "{err:?}");
    assert_eq!(
        number(0.5).into_number_value().unwrap(),
        NumberValue::AsDouble(number(0.5))
    );
}

#[test]
fn times_count_from_the_epoch() {
    assert_eq!(map_time(at(0)).unwrap(), 0);
    assert_eq!(map_time(at(1_500_000_000)).unwrap(), 1_500_000_000);
    assert_eq!(map_time(at(i128::from(u64::MAX))).unwrap(), u64::MAX);
    let err = map_time(at(-1)).expect_err("before the epoch");
    assert!(matches!(err, Error::TimeBeforeEpoch), "{err:?}");
    let err = map_time(at(i128::from(u64::MAX) + 1)).expect_err("too late");
    assert!(matches!(err, Error::TimeOverflowsU64), "{err:?}");
}

/// A value that a double stands for where it is zero.
#[derive(Clone)]
struct Picky(u64);

impl ohnotel::View for Picky {
    type V = Picky;

    fn view(&self) -> Picky {
        self.clone()
    }
}

impl ToNumber for Picky {
    fn number(&self) -> Option<NumberView> {
        unreachable!()
    }

    fn to_number(&self) -> Result<Number, Error> {
        if self.0 == 0 {
            Ok(number(0.0))
        } else {
            Err(Error::ValueToF64)
        }
    }
}

#[test]
fn boundaries_without_a_double_are_refused() {
    let snapshot = |sum, boundary, min| Snapshot {
        boundaries: Arc::new(vec![Picky(0), Picky(boundary)]),
        bucket_counts: vec![0; 3],
        count: 0,
        sum: Picky(sum),
        min: Some(Picky(min)),
        max: None,
    };
    let result = |sum, boundary, min| snapshot(sum, boundary, min).into_point(vec![], 0, 0);
    assert!(result(0, 0, 0).is_ok());
    assert!(matches!(result(0, 1, 1), Err(Error::BoundaryToF64)));
    assert!(matches!(result(1, 1, 0), Err(Error::ValueToF64)));
    assert!(matches!(result(0, 0, 1), Err(Error::ValueToF64)));
}

#[test]
fn defaults_are_populated() {
    let attrs = Resource::detected(environment()).into_attributes();

    let has = |key: &str| attrs.iter().any(|kv| kv.key.as_str() == key);
    assert!(has("telemetry.sdk.language"));
    assert!(has("telemetry.sdk.name"));
    assert!(has("telemetry.sdk.version"));
}

#[test]
fn overrides_replace_without_erasing_defaults() {
    let resource = Resource {
        service_name: Some(Str::from("my-service")),
        attributes: vec![KeyValue::new("deployment.environment", "prod")],
        ..Resource::detected(environment())
    };
    let attrs = resource.into_attributes();

    let value_of = |key: &str| {
        attrs
            .iter()
            .find(|kv| kv.key.as_str() == key)
            .and_then(|kv| kv.value.clone())
    };

    // The override wins, and only one `service.name` entry exists.
    assert_eq!(
        attrs
            .iter()
            .filter(|kv| kv.key.as_str() == "service.name")
            .count(),
        1
    );
    assert_eq!(value_of("service.name"), Some(Value::from("my-service")));

    // The free-form attribute is emitted.
    assert_eq!(
        value_of("deployment.environment"),
        Some(Value::from("prod"))
    );

    // Untouched defaults survive.
    assert!(attrs
        .iter()
        .any(|kv| kv.key.as_str() == "telemetry.sdk.language"));
}

#[test]
fn fields_win_over_free_attributes() {
    let mut resource = Resource::empty();
    resource.attributes = vec![
        KeyValue::new("service.name", "free"),
        KeyValue::new("zone", "a"),
        KeyValue::new("zone", "b"),
    ];
    resource.service_name = Some(Str::from("field"));
    assert_eq!(
        resource.into_attributes(),
        vec![KeyValue::new("service.name", "field"), KeyValue::new("zone", "b")]
    );
}

#[test]
fn keys_of_missing_fields_keep_what_was_given_last() {
    let mut resource = Resource::empty();
    resource.attributes = vec![
        KeyValue::new("host.name", "first"),
        KeyValue::new("service.name", "free"),
        KeyValue::new("host.name", "second"),
        KeyValue::new("", "left out"),
    ];
    resource.service_name = Some(Str::from("field"));
    assert_eq!(
        resource.into_attributes(),
        vec![KeyValue::new("host.name", "second"), KeyValue::new("service.name", "field")]
    );
}

#[test]
fn environments_are_detected() {
    let text = |s: &Option<Str>| s.as_ref().map(|s| s.as_str().to_owned());
    let resource = Resource::detected(environment());
    assert_eq!(text(&resource.service_name).as_deref(), Some("from-env"));
    assert_eq!(text(&resource.host_name).as_deref(), Some("box"));
    assert_eq!(text(&resource.host_arch).as_deref(), Some("amd64"));
    assert_eq!(text(&resource.os_type).as_deref(), Some("darwin"));
    assert_eq!(text(&resource.process_executable_name).as_deref(), Some("server"));
    assert_eq!(text(&resource.telemetry_sdk_name).as_deref(), Some(sdk_name()));
    assert_eq!(text(&resource.telemetry_sdk_version).as_deref(), Some(sdk_version()));

    let resource = Resource::detected(Environment {
        service_name: Some(String::new()),
        host_name: vec![b'a', 0xff, b'b'],
        arch: "riscv64".to_owned(),
        os: "linux".to_owned(),
        executable: None,
    });
    assert!(resource.service_name.is_none());
    assert_eq!(text(&resource.host_name).as_deref(), Some("a\u{fffd}b"));
    assert_eq!(text(&resource.host_arch).as_deref(), Some("riscv64"));
    assert_eq!(text(&resource.os_type).as_deref(), Some("linux"));
    assert!(resource.process_executable_name.is_none());
}

#[test]
fn platforms_have_conventional_names() {
    assert_eq!(host_arch("aarch64"), "arm64");
    assert_eq!(host_arch("arm"), "arm32");
    assert_eq!(host_arch("powerpc64"), "ppc64");
    assert_eq!(host_arch("x86"), "x86");
    assert_eq!(os_type("ios"), "darwin");
    assert_eq!(os_type("windows"), "windows");
    assert_eq!(trim_at_zero(&vec![1, 2, 3]), [1, 2, 3]);
    assert_eq!(trim_at_zero(&vec![0, 1]), []);
}

#[test]
fn requests_bear_the_settings() {
    let settings = Settings::new(Resource::empty())
        .with_resource(Resource {
            service_name: Some(Str::from("svc")),
            ..Resource::empty()
        })
        .with_scope(Scope {
            name: Str::from("scope"),
            version: Str::from("9"),
            attributes: vec![KeyValue::new("a", 1)],
        })
        .with_schema_url("https://schema".to_owned());
    let metric = Metric {
        name: "m".to_owned(),
        description: String::new(),
        unit: String::new(),
        data: Data::Gauge { data_points: vec![] },
    };
    let request = settings.build_request(vec![metric.clone()]);
    assert_eq!(request.resource, vec![KeyValue::new("service.name", "svc")]);
    assert_eq!(request.scope.name.as_str(), "scope");
    assert_eq!(request.scope.attributes, vec![KeyValue::new("a", 1)]);
    assert_eq!(request.metrics, vec![metric]);
    assert_eq!(request.schema_url, "https://schema");
    let default = Settings::new(Resource::empty()).build_request(vec![]);
    assert_eq!(default.scope.name.as_str(), sdk_name());
    assert_eq!(default.schema_url, "");
}

#[test]
fn responses_are_judged() {
    let settings = Settings::new(Resource::empty());
    let partial = |rejected_data_points, message: &str| {
        Some(PartialSuccess {
            rejected_data_points,
            error_message: message.to_owned(),
        })
    };
    assert!(matches!(settings.judge(None), Ok(None)));
    assert!(matches!(settings.judge(partial(0, "")), Ok(None)));
    assert_eq!(settings.judge(partial(0, "slow")).unwrap().as_deref(), Some("slow"));
    let err = settings.judge(partial(3, "full")).expect_err("points were dropped");
    assert!(
        matches!(
            &err,
            Error::OtlpPartialExport { rejected_data_points: 3, error_message } if error_message == "full"
        ),
        "{err:?}"
    );
    let silent = settings.with_silent(true);
    assert!(matches!(silent.judge(partial(0, "slow")), Ok(None)));
    assert!(silent.judge(partial(1, "")).is_err());
}

#[test]
fn kinds_decide_on_monotonicity() {
    let data = <u64 as IntoPoint>::into_data(vec![], Kind::Gauge, Temporality::Cumulative);
    assert_eq!(data, Data::Gauge { data_points: vec![] });
    let data = <u64 as IntoPoint>::into_data(vec![], Kind::Counter, Temporality::Cumulative);
    assert_eq!(
        data,
        Data::Sum {
            data_points: vec![],
            temporality: Temporality::Cumulative,
            is_monotonic: true
        }
    );
}
