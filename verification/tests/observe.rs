use ohnotel::atomic::histogram::Snapshot;
use ohnotel::dto;
use ohnotel::metric::{Counter, Gauge, Histogram};
use ohnotel::model::{KeyValue, NameIdentity, Str};
use ohnotel::observe::{DynObserver, MetricSource, Mode, Observed, SyncObserver};
use ohnotel::time::{Duration, SystemTime};
use ohnotel::{Error, View};
use std::borrow::Cow;

fn identity() -> NameIdentity {
    NameIdentity {
        name: Str::Cow(Cow::Borrowed("name")),
        description: Str::Cow(Cow::Borrowed("description")),
        unit: Str::Cow(Cow::Borrowed("unit")),
    }
}

#[derive(Default, Clone)]
struct TestWire {
    u64_total: u64,
    i64_total: i64,
    histogram_count_total: u64,
}

impl View for TestWire {
    type V = TestWire;

    fn view(&self) -> TestWire {
        self.clone()
    }
}

impl TestWire {
    fn merge(&mut self, other: Option<&TestWire>) {
        let Some(other) = other else {
            return;
        };

        self.u64_total += other.u64_total;
        self.i64_total += other.i64_total;
        self.histogram_count_total += other.histogram_count_total;
    }
}

impl dto::IntoWire<TestWire> for dto::Series<u64> {
    type Error = Error;

    fn into_wire(self, _align: Option<Duration>) -> Result<Option<TestWire>, Error> {
        let mut out = TestWire::default();
        for sample in self.into_samples() {
            out.u64_total += sample.snapshot.value;
        }
        Ok(Some(out))
    }
}

impl dto::IntoWire<TestWire> for dto::Series<i64> {
    type Error = Error;

    fn into_wire(self, _align: Option<Duration>) -> Result<Option<TestWire>, Error> {
        let mut out = TestWire::default();
        for sample in self.into_samples() {
            out.i64_total += sample.snapshot.value;
        }
        Ok(Some(out))
    }
}

impl dto::IntoWire<TestWire> for dto::Series<Snapshot<u64>> {
    type Error = Error;

    fn into_wire(self, _align: Option<Duration>) -> Result<Option<TestWire>, Error> {
        let mut out = TestWire::default();
        for sample in self.into_samples() {
            out.histogram_count_total += sample.snapshot.value.count;
        }
        Ok(Some(out))
    }
}

fn attrs(pairs: &[(&'static str, i64)]) -> Vec<KeyValue> {
    pairs.iter().map(|(k, v)| KeyValue::new(*k, *v)).collect()
}

fn values<T: Clone>(snapshots: &[dto::Snapshot<T>]) -> Vec<T> {
    snapshots.iter().map(|m| m.value.clone()).collect()
}

#[test]
fn counter_cumulative() {
    let mut c = Counter::<u64>::new(identity());
    let mut obs = SyncObserver::new(&c, Mode::Direct).expect("direct mode is supported");

    c.add(2, &vec![]);
    obs.observe_impl(c.buckets_mut(), SystemTime::now());
    c.add(3, &vec![]);
    obs.observe_impl(c.buckets_mut(), SystemTime::now());

    let m = obs.take();
    let series = m.series.get(&vec![]).expect("series");

    assert_eq!(series[0].seq_id, 0);
    assert_eq!(series[0].value, 2);

    assert_eq!(series[1].seq_id, 1);
    assert_eq!(series[1].value, 5);
}

#[test]
fn observer_buckets() {
    let mut c = Counter::<u64>::new(identity());
    let a = attrs(&[("route", 1)]);
    let b = attrs(&[("route", 2)]);

    c.add(1, &a);
    c.add(2, &b);
    c.add(7, &vec![]);

    let mut obs = SyncObserver::new(&c, Mode::Direct).expect("direct mode is supported");
    obs.observe_impl(c.buckets_mut(), SystemTime::now());

    let m = obs.take();
    assert_eq!(m.series.len(), 3);

    assert_eq!(values(m.series.get(&a).expect("series a exists")), [1]);
    assert_eq!(values(m.series.get(&b).expect("series b exists")), [2]);
    assert_eq!(values(m.series.get(&vec![]).expect("empty series exists")), [7]);
}

#[test]
fn gauge_current() {
    let mut g = Gauge::<i64>::new(identity());
    let mut obs = SyncObserver::new(&g, Mode::Direct).expect("direct mode is supported");

    g.add(10, &vec![]);
    obs.observe_impl(g.buckets_mut(), SystemTime::now());
    g.sub(3, &vec![]);
    obs.observe_impl(g.buckets_mut(), SystemTime::now());

    let m = obs.take();

    assert_eq!(values(m.series.get(&vec![]).expect("series exists")), [10, 7]);
}

#[test]
fn counter_diffs() {
    let mut c = Counter::<u64>::new(identity());
    let mut obs = SyncObserver::new(&c, Mode::Delta).expect("delta mode is supported");

    c.add(2, &vec![]);
    obs.observe_impl(c.buckets_mut(), SystemTime::now());
    c.add(3, &vec![]);
    obs.observe_impl(c.buckets_mut(), SystemTime::now());
    c.add(10, &vec![]);
    obs.observe_impl(c.buckets_mut(), SystemTime::now());

    let m = obs.take();
    let series = m.series.get(&vec![]).expect("series");

    assert_eq!(series[0].value, 2);
    assert_eq!(series[1].value, 3);
    assert_eq!(series[2].value, 10);
}

#[test]
fn no_delta_gauge() {
    let g = Gauge::<i64>::new(identity());
    assert!(matches!(
        SyncObserver::new(&g, Mode::Delta),
        Err(Error::DeltaForGauge),
    ));
}

#[test]
fn dyn_sample() {
    let mut counter = Counter::<u64>::new(identity());
    let mut gauge = Gauge::<i64>::new(identity());
    let mut hist = Histogram::<u64>::new(identity(), vec![1, 2, 3]).expect("valid boundaries");

    counter.add(7, &vec![]);
    gauge.add(-3, &vec![]);
    hist.add(2, &vec![]);
    hist.add(10, &vec![]);

    let observer = SyncObserver::new(&counter, Mode::Direct).expect("direct mode is supported");
    let mut first = Observed { source: counter, observer };
    let observer = SyncObserver::new(&gauge, Mode::Direct).expect("direct mode is supported");
    let mut second = Observed { source: gauge, observer };
    let observer = SyncObserver::new(&hist, Mode::Direct).expect("direct mode is supported");
    let mut third = Observed { source: hist, observer };

    let now = SystemTime::now();
    DynObserver::<TestWire, Error>::observe(&mut first, now);
    DynObserver::<TestWire, Error>::observe(&mut second, now);
    DynObserver::<TestWire, Error>::observe(&mut third, now);

    let mut w = TestWire::default();
    for part in [first.export(None), second.export(None), third.export(None)] {
        w.merge(part.expect("never fails").as_ref());
    }

    assert_eq!(w.u64_total, 7);
    assert_eq!(w.i64_total, -3);
    assert_eq!(w.histogram_count_total, 2);
}

#[test]
fn histogram_delta_diffs() {
    let mut h = Histogram::<u64>::new(identity(), vec![1, 2, 3]).expect("valid boundaries");
    let mut obs = SyncObserver::new(&h, Mode::Delta).expect("delta mode is supported");

    h.add(1, &vec![]);
    h.add(2, &vec![]);
    obs.observe_impl(h.buckets_mut(), SystemTime::now());

    h.add(3, &vec![]);
    h.add(10, &vec![]);
    obs.observe_impl(h.buckets_mut(), SystemTime::now());

    let m = obs.take();
    let series = m.series.get(&vec![]).expect("series");

    assert_eq!(series[0].value.count, 2);
    assert_eq!(series[0].value.sum, 3);
    assert_eq!(series[0].value.bucket_counts, [1, 1, 0, 0]);

    assert_eq!(series[1].value.count, 2);
    assert_eq!(series[1].value.sum, 13);
    assert_eq!(series[1].value.bucket_counts, [0, 0, 1, 1]);
}

#[test]
fn destructive_seq_bump() {
    // Destructive mode must reset the source buckets between observations, and it should still
    // advance seq_id because we want alignment and for that we need correct seq_id.
    let mut c = Counter::<u64>::new(identity());
    let a = attrs(&[("route", 1)]);
    let mut obs = SyncObserver::new(&c, Mode::Destructive).expect("destructive mode is supported");

    c.add(2, &vec![]);
    c.add(4, &a);
    obs.observe_impl(c.buckets_mut(), SystemTime::now());

    c.add(3, &vec![]);
    c.add(1, &a);
    obs.observe_impl(c.buckets_mut(), SystemTime::now());

    let m = obs.take();

    let empty_series = m.series.get(&vec![]).expect("no-attr series");
    assert_eq!(values(empty_series), [2, 3]);
    assert_eq!(empty_series[0].seq_id, 0);
    assert_eq!(empty_series[1].seq_id, 1, "seq_id must advance");

    let a_series = m.series.get(&a).expect("attr series");
    assert_eq!(values(a_series), [4, 1], "attr bucket must be drained");
    assert_eq!(a_series[0].seq_id, 0);
    assert_eq!(a_series[1].seq_id, 1, "seq_id must advance");
}

#[test]
fn empty() {
    let mut c = Counter::<u64>::new(identity());
    let mut obs = SyncObserver::new(&c, Mode::Direct).expect("direct mode is supported");

    c.add(1, &vec![]);
    obs.observe_impl(c.buckets_mut(), SystemTime::now());

    let taken = obs.take();
    assert_eq!(taken.series.len(), 1);

    let m = obs.take();
    assert_eq!(m.series.len(), 0);
}

#[test]
fn decr_count_on_evict() {
    let mut g = Gauge::<i64>::new(identity());
    let a = attrs(&[("route", 1)]);

    g.add(7, &a);
    assert_eq!(g.buckets().len(), 1);

    g.buckets_mut().visit_bucket(|_, _| false);

    assert_eq!(
        g.buckets().len(),
        0,
        "count must be decremented when visit_bucket evicts entries"
    );
}

#[test]
fn eviction_keeps_what_it_is_told_to() {
    let mut g = Gauge::<i64>::new(identity());
    for i in 0..5 {
        g.set(i, &attrs(&[("route", i)]));
    }
    g.set(9, &vec![]);
    g.buckets_mut().visit_bucket(|_, cell| ohnotel::atomic::Scalar::get(cell) % 2 == 0);
    assert_eq!(g.buckets().len(), 3);
    assert_eq!(g.get(&attrs(&[("route", 2)])), Some(2));
    assert_eq!(g.get(&attrs(&[("route", 3)])), None);
    assert_eq!(g.get(&vec![]), Some(9));
}

#[test]
fn differences_skip_what_did_not_change_and_restart_after_a_fall() {
    let mut c = Counter::<u64>::new(identity());
    let mut obs = SyncObserver::new(&c, Mode::Delta).expect("delta mode is supported");
    let ts = SystemTime::unix_epoch();

    c.add(10, &vec![]);
    obs.observe_impl(c.buckets_mut(), ts);
    obs.observe_impl(c.buckets_mut(), ts);
    assert_eq!(c.reset(&vec![]), 10);
    c.add(4, &vec![]);
    obs.observe_impl(c.buckets_mut(), ts);
    c.add(2, &vec![]);
    obs.observe_impl(c.buckets_mut(), ts);

    let m = obs.take();
    let series = m.series.get(&vec![]).expect("series");
    assert_eq!(values(series), [10, 4, 2]);
    let polls: Vec<u64> = series.iter().map(|s| s.seq_id).collect();
    assert_eq!(polls, [0, 2, 3]);
}

#[test]
fn draining_reports_nothing_of_empty_cells() {
    let mut c = Counter::<u64>::new(identity());
    let a = attrs(&[("route", 1)]);
    let mut obs = SyncObserver::new(&c, Mode::Destructive).expect("destructive mode is supported");
    c.add(0, &a);
    c.add(0, &vec![]);
    obs.observe_impl(c.buckets_mut(), SystemTime::unix_epoch());
    assert_eq!(obs.take().series.len(), 0);
    assert_eq!(c.buckets().len(), 0);
}

#[test]
fn reset_forgets_everything() {
    let mut c = Counter::<u64>::new(identity());
    let mut obs = SyncObserver::new(&c, Mode::Delta).expect("delta mode is supported");
    c.add(5, &vec![]);
    obs.observe_impl(c.buckets_mut(), SystemTime::unix_epoch());
    let start = SystemTime::from_epoch_nanos(77).unwrap();
    obs.reset(start);
    obs.observe_impl(c.buckets_mut(), start);
    let m = obs.take();
    assert_eq!(m.start_time, start);
    let series = m.series.get(&vec![]).expect("series");
    assert_eq!(values(series), [5], "the earlier value must be forgotten");
    assert_eq!(series[0].seq_id, 0);
}

#[test]
fn aligned_timestamps_lie_on_a_grid() {
    let start = SystemTime::from_epoch_nanos(1_000).unwrap();
    let snapshot = |seq_id| dto::Snapshot {
        ts: SystemTime::from_epoch_nanos(4_321).unwrap(),
        seq_id,
        value: 0_u64,
    };
    let period = Some(Duration::from_nanos(10));
    assert_eq!(snapshot(0).align_ts(start, period).epoch_nanos(), 1_000);
    assert_eq!(snapshot(3).align_ts(start, period).epoch_nanos(), 1_030);
    assert_eq!(snapshot(3).align_ts(start, None).epoch_nanos(), 4_321);
    let last = u64::from(u32::MAX);
    assert_eq!(
        snapshot(last).align_ts(start, period).epoch_nanos(),
        1_000 + 10 * i128::from(last)
    );
    assert_eq!(snapshot(last + 1).align_ts(start, period).epoch_nanos(), 4_321);
}

#[test]
fn differences_add_up_over_polls_and_exports() {
    let mut c = Counter::<u64>::new(identity());
    let a = attrs(&[("route", 1)]);
    let mut obs = SyncObserver::new(&c, Mode::Delta).expect("delta mode is supported");
    let ts = SystemTime::unix_epoch();
    let mut exported = 0;

    for amount in [5, 0, 7, 1] {
        c.add(amount, &a);
        obs.observe_impl(c.buckets_mut(), ts);
        c.add(amount, &a);
        obs.observe_impl(c.buckets_mut(), ts);
        let taken = obs.take();
        if let Some(snapshots) = taken.series.get(&a) {
            exported += values(snapshots).iter().sum::<u64>();
        }
    }
    assert_eq!(exported, 26);

    c.add(4, &a);
    obs.observe_impl(c.buckets_mut(), ts);
    let pending = obs.take();
    assert_eq!(values(pending.series.get(&a).expect("series")), [4]);
}

#[test]
fn signed_and_histogram_differences_add_up() {
    let ts = SystemTime::unix_epoch();
    let mut c = Counter::<i64>::new(identity());
    let mut obs = SyncObserver::new(&c, Mode::Delta).expect("delta mode is supported");
    let mut exported = 0;
    c.add(-9, &[]);
    for amount in [4, 0, 20] {
        c.add(amount, &[]);
        obs.observe_impl(c.buckets_mut(), ts);
        if let Some(snapshots) = obs.take().series.get(&vec![]) {
            exported += values(snapshots).iter().sum::<i64>();
        }
    }
    assert_eq!(exported, 15);

    let mut h = Histogram::<u64>::new(identity(), vec![10]).expect("valid boundaries");
    let mut obs = SyncObserver::new(&h, Mode::Delta).expect("delta mode is supported");
    let (mut count, mut low, mut high) = (0, 0, 0);
    for amounts in [vec![1, 2, 30], vec![], vec![40, 5]] {
        for amount in amounts {
            h.add(amount, &[]);
        }
        obs.observe_impl(h.buckets_mut(), ts);
        if let Some(snapshots) = obs.take().series.get(&vec![]) {
            for snapshot in snapshots {
                count += snapshot.value.count;
                low += snapshot.value.bucket_counts[0];
                high += snapshot.value.bucket_counts[1];
            }
        }
    }
    assert_eq!((count, low, high), (5, 3, 2));
}
