use ohnotel::metric::{Counter, Gauge, Histogram};
use ohnotel::model::{KeyValue, NameIdentity, Str};
use ohnotel::observe::MetricSource;
use ohnotel::Error;
use std::borrow::Cow;

fn identity() -> NameIdentity {
    NameIdentity {
        name: Str::Cow(Cow::Borrowed("name")),
        description: Str::Cow(Cow::Borrowed("description")),
        unit: Str::Cow(Cow::Borrowed("unit")),
    }
}

#[test]
fn gauge_set_no_attr() {
    let mut g = Gauge::<i64>::new(identity());

    assert_eq!(g.get(&[]), Some(0));
    g.set(42, &[]);
    assert_eq!(g.get(&[]), Some(42));

    g.set(7, &[]);
    assert_eq!(g.get(&[]), Some(7));

    g.add(100, &[]);
    assert_eq!(g.get(&[]), Some(107));
    g.set(-3, &[]);
    assert_eq!(g.get(&[]), Some(-3));
    g.sub(2, &[]);
    assert_eq!(g.get(&[]), Some(-5));
}

#[test]
fn gauge_set_attr() {
    let mut g = Gauge::<i64>::new(identity());
    let a = vec![KeyValue::new("route", "/a")];
    let b = vec![KeyValue::new("route", "/b")];

    g.set(10, &a);
    g.set(20, &b);

    assert_eq!(g.get(&a), Some(10));
    assert_eq!(g.get(&b), Some(20));
    assert_eq!(g.get(&[]), Some(0));

    g.set(11, &a);
    assert_eq!(g.get(&a), Some(11));
    assert_eq!(g.get(&b), Some(20));
}

#[test]
fn gauge_set_attr_shuffle() {
    let mut g = Gauge::<i64>::new(identity());
    let sorted = vec![KeyValue::new("a", 1_i32), KeyValue::new("b", 2_i32)];
    let shuffled = vec![KeyValue::new("b", 2_i32), KeyValue::new("a", 1_i32)];

    g.set(5, &sorted);
    assert_eq!(g.get(&sorted), Some(5));

    g.set(9, &shuffled);
    assert_eq!(g.get(&sorted), Some(9));
}

#[test]
fn histogram_wrapper() {
    let mut h = Histogram::<u64>::new(identity(), vec![1, 2, 3]).expect("valid boundaries");

    h.add(0, &[]);
    h.add(1, &[]);
    h.add(2, &[]);
    h.add(3, &[]);
    h.add(10, &[]);

    let snap = h.snapshot(&[]).expect("empty-attr snapshot exists");

    assert_eq!(snap.count, 5);
    assert_eq!(snap.sum, 16);
    assert_eq!(snap.bucket_counts, [2, 1, 1, 1]);

    let attrs = vec![KeyValue::new("route", "/api")];
    h.add(10, &attrs);

    let snap = h.snapshot(&attrs).expect("attr snapshot exists");

    assert_eq!(snap.count, 1);
    assert_eq!(snap.sum, 10);
    assert_eq!(snap.bucket_counts, [0, 0, 0, 1]);

    let old = h.take(&attrs).expect("attr snapshot exists");
    assert_eq!(old.count, 1);
    assert_eq!(old.sum, 10);

    let after = h.snapshot(&attrs).expect("attr snapshot exists");
    assert_eq!(after.count, 0);
    assert_eq!(after.sum, 0);
    assert_eq!(after.bucket_counts, [0, 0, 0, 0]);
}

#[test]
fn unknown_attribute_sets_have_no_value() {
    let mut c = Counter::<u64>::new(identity());
    let a = vec![KeyValue::new("route", "/a")];
    assert_eq!(c.get(&a), None);
    assert_eq!(c.reset(&a), 0);
    assert_eq!(c.get(&a), None);
    c.add(3, &a);
    c.add(4, &a);
    assert_eq!(c.get(&a), Some(7));
    assert_eq!(c.reset(&a), 7);
    assert_eq!(c.get(&a), Some(0));
    assert_eq!(c.get(&[]), Some(0));

    let mut h = Histogram::<u64>::new(identity(), vec![1]).expect("valid boundaries");
    assert!(h.snapshot(&a).is_none());
    assert!(h.take(&a).is_none());
    h.add(1, &a);
    h.add(1, &[]);
    h.clear();
    assert!(h.snapshot(&a).is_none());
    assert_eq!(h.snapshot(&[]).unwrap().count, 0);
    assert_eq!(h.buckets().len(), 0);
}

#[test]
fn many_attribute_sets_are_kept_apart() {
    let mut c = Counter::<u64>::new(identity());
    for i in 0..200_i64 {
        c.add(
            i as u64,
            &[KeyValue::new("i", i), KeyValue::new("s", format!("x{}", i % 7))],
        );
    }
    assert_eq!(c.buckets().len(), 200);
    for i in 0..200_i64 {
        let shuffled = vec![KeyValue::new("s", format!("x{}", i % 7)), KeyValue::new("i", i)];
        assert_eq!(c.get(&shuffled), Some(i as u64));
    }
}

#[test]
fn boundaries_are_checked() {
    assert!(matches!(
        Histogram::<u64>::new(identity(), vec![2, 1]),
        Err(Error::InvalidHistogramBoundaries)
    ));
}

#[test]
fn gauges_wrap() {
    let mut g = Gauge::<u64>::new(identity());
    g.sub(1, &[]);
    assert_eq!(g.get(&[]), Some(u64::MAX));
    g.add(1, &[]);
    assert_eq!(g.reset(&[]), 0);
}
