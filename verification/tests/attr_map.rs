use ohnotel::attr_map::{AttrMap, Entry};
use ohnotel::dto::{CheckedWire, IntoWire, Kind, Series, Snapshot};
use ohnotel::metric::Counter;
use ohnotel::model::{KeyValue, NameIdentity, Str, Value};
use ohnotel::number::Number;
use ohnotel::observe::Mode;
use ohnotel::order;
use ohnotel::prometheus::collector::to_family;
use ohnotel::time::{Duration, SystemTime, MAX_NANOS};
use ohnotel::{console, otel};
use std::sync::Arc;

fn number(value: f64) -> Number {
    Number::from_parts(value.to_bits(), value.to_string())
}

fn identity() -> NameIdentity {
    NameIdentity {
        name: Str::from("load"),
        description: Str::from(""),
        unit: Str::from(""),
    }
}

#[test]
fn equal_attributes_share_an_entry() {
    let mut map = AttrMap::new();
    map.push(Arc::new(vec![KeyValue::new("k", number(0.0))]), 1);
    map.push(Arc::new(vec![KeyValue::new("k", "0")]), 2);
    map.push(Arc::new(vec![]), 3);
    assert_eq!(map.find(&vec![KeyValue::new("k", number(-0.0))]), Some(0));
    assert_eq!(map.get(&vec![KeyValue::new("k", "0".to_owned())]), Some(&2));
    assert_eq!(map.get(&vec![]), Some(&3));
    assert_eq!(map.get(&vec![KeyValue::no_val("k")]), None);
    *map.value_at_mut(1) = 20;
    assert_eq!(map.take().into_iter().map(|entry| entry.value).collect::<Vec<_>>(), [1, 20, 3]);
    assert_eq!(map.len(), 0);
    assert_eq!(map.find(&vec![]), None);
}

#[test]
fn attributes_with_one_fingerprint_are_kept_apart() {
    // 31 * 'A' + 'b' is 31 * 'B' + 'C'.
    let texts = ["Ab", "BC", "AbAb", "AbBC", "BCAb", "BCBC"];
    let mut counter = Counter::<u64>::new(identity());
    for (i, text) in texts.iter().enumerate() {
        counter.add(i as u64 + 1, &vec![KeyValue::new("k", *text)]);
    }
    for (i, text) in texts.iter().enumerate() {
        assert_eq!(counter.get(&vec![KeyValue::new("k", *text)]), Some(i as u64 + 1));
    }
}

#[test]
fn sorting_is_stable() {
    let attr = |key: &'static str, value: Value| KeyValue::new(key, value);
    let sorted = order::sort(vec![
        attr("b", number(0.0).into()),
        attr("a", 2.into()),
        attr("b", number(-0.0).into()),
        attr("a", 1.into()),
    ]);
    let texts: Vec<String> = sorted.iter().map(KeyValue::to_text).collect();
    assert_eq!(texts, ["a=1", "a=2", "b=0", "b=-0"]);
}

fn series() -> Series<Number> {
    let mut map = AttrMap::new();
    let snapshot = |seq_id, value| Snapshot {
        ts: SystemTime::from_epoch_nanos(5).unwrap(),
        seq_id,
        value: number(value),
    };
    map.push(Arc::new(vec![]), vec![snapshot(0, 0.5), snapshot(1, -1.5)]);
    Series {
        start_time: SystemTime::unix_epoch(),
        id: Arc::new(identity()),
        series: map,
        observe_mode: Mode::Delta,
        kind: Kind::Counter,
    }
}

#[test]
fn doubles_are_exported_by_their_bits() {
    let metric: console::dto::Metric = series().into_wire(None).unwrap().unwrap();
    assert_eq!(
        metric.render(),
        "DeltaCounter load\n  00:00:00.000  0.5\n                -1.5"
    );
    let metric: otel::dto::Metric = series().into_wire(None).unwrap().unwrap();
    let otel::dto::Data::Sum {
        data_points,
        is_monotonic: true,
        ..
    } = metric.data
    else {
        panic!("expected a monotonic sum");
    };
    assert_eq!(
        data_points[1].value,
        otel::dto::NumberValue::AsDouble(number(-1.5))
    );
    let readings = vec![Entry {
        attrs: Arc::new(vec![]),
        value: number(f64::NEG_INFINITY),
    }];
    let family = to_family(&Arc::new(identity()), Kind::Gauge, readings)
        .unwrap()
        .unwrap();
    let mut out = String::new();
    family.render_into(&mut out).unwrap();
    assert_eq!(out, "# TYPE load gauge\nload -Inf\n");
    assert!(to_family::<Number>(&Arc::new(identity()), Kind::Gauge, vec![])
        .unwrap()
        .is_none());
}

type Exported<W> = Option<Result<Option<W>, ohnotel::Error>>;

#[test]
fn exports_fail_before_timestamps_that_are_never_reached() {
    let forever = Some(Duration::try_from_nanos(MAX_NANOS).unwrap());

    // The second snapshot cannot be aligned.
    let exported: Exported<otel::dto::Metric> = series().checked_wire(forever);
    assert!(exported.is_none());
    let exported: Exported<console::dto::Metric> = series().checked_wire(forever);
    assert!(exported.is_none());
    let exported: Exported<otel::dto::Metric> = series().checked_wire(None);
    assert!(matches!(exported, Some(Ok(Some(_)))));

    // A start before the epoch comes first.
    let early = || Series {
        start_time: SystemTime::from_epoch_nanos(-1).unwrap(),
        ..series()
    };
    let exported: Exported<otel::dto::Metric> = early().checked_wire(forever);
    assert!(matches!(exported, Some(Err(_))));
    let exported: Result<Option<otel::dto::Metric>, _> = early().into_wire(forever);
    assert!(exported.is_err());

    // So does a value that is no signed integer.
    let mut map = AttrMap::new();
    let snapshot = |seq_id, value| Snapshot {
        ts: SystemTime::unix_epoch(),
        seq_id,
        value,
    };
    map.push(Arc::new(vec![]), vec![snapshot(0, u64::MAX), snapshot(1, 1)]);
    let large = Series {
        start_time: SystemTime::unix_epoch(),
        id: Arc::new(identity()),
        series: map,
        observe_mode: Mode::Direct,
        kind: Kind::Counter,
    };
    let exported: Exported<otel::dto::Metric> = large.checked_wire(forever);
    assert!(matches!(exported, Some(Err(ohnotel::Error::ValueToI64))));
}

#[test]
fn kinds_matter_only_where_there_are_points() {
    let mut map = AttrMap::new();
    map.push(Arc::new(vec![]), vec![]);
    let empty = Series::<u64> {
        start_time: SystemTime::unix_epoch(),
        id: Arc::new(identity()),
        series: map,
        observe_mode: Mode::Direct,
        kind: Kind::Histogram,
    };
    let exported: Result<Option<otel::dto::Metric>, _> = empty.into_wire(None);
    assert!(matches!(exported, Ok(None)));

    let odd = Series {
        kind: Kind::Histogram,
        ..series()
    };
    let exported: Exported<otel::dto::Metric> = odd.checked_wire(None);
    assert!(exported.is_none());
}
