use ohnotel::collect::periodic::{
    pass, Admissions, Capacity, CollectorCmd, Config, Gated, Reply, Worker, DEFAULT_BATCH_CAPACITY,
};
use ohnotel::collect::timer::CollectorTime;
use ohnotel::dto;
use ohnotel::metric::{Counter, Gauge};
use ohnotel::model::{NameIdentity, Str};
use ohnotel::observe::{Mode, Observed, SyncObserver};
use ohnotel::time::{Duration, Instant, SystemTime};
use ohnotel::{Error, View};
use std::borrow::Cow;
use std::sync::atomic::{AtomicBool, Ordering};
use std::sync::Arc;

fn identity() -> NameIdentity {
    NameIdentity {
        name: Str::Cow(Cow::Borrowed("name")),
        description: Str::Cow(Cow::Borrowed("description")),
        unit: Str::Cow(Cow::Borrowed("unit")),
    }
}

#[derive(Debug, Clone, PartialEq, Eq)]
struct TestWire {
    name: String,
    times: Vec<i128>,
}

impl View for TestWire {
    type V = TestWire;

    fn view(&self) -> TestWire {
        self.clone()
    }
}

impl dto::IntoWire<TestWire> for dto::Series<u64> {
    type Error = Error;

    fn into_wire(self, align: Option<Duration>) -> Result<Option<TestWire>, Error> {
        let name = self.id.name.as_str().to_owned();
        let start = self.start_time;
        let times: Vec<i128> = self
            .into_samples()
            .iter()
            .map(|sample| sample.snapshot.align_ts(start, align).epoch_nanos())
            .collect();
        if times.is_empty() {
            return Ok(None);
        }
        if times.len() > 100 {
            return Err(Error::TimeOverflowsU64);
        }
        Ok(Some(TestWire { name, times }))
    }
}

fn config(poll_millis: u64, export_millis: u64) -> Config {
    Config {
        poll_period: Duration::from_millis(poll_millis),
        export_period: Duration::from_millis(export_millis),
        align_timestamps: false,
        batch_capacity: None,
    }
}

fn instant(millis: u64) -> Instant {
    Instant::after_origin(Duration::from_millis(millis))
}

fn start() -> CollectorTime {
    CollectorTime {
        instant: instant(1_000),
        system: SystemTime::from_epoch_nanos(0).unwrap(),
    }
}

const MILLI: i128 = 1_000_000;

type Observer = Observed<Counter<u64>>;

fn add(worker: &mut Worker<TestWire, Observer>, observer: Observer) {
    let reply = worker.handle(CollectorCmd::Add(observer), instant(0));
    assert!(matches!(reply, Reply::Continue));
}

fn counting(mode: Mode) -> Observer {
    let mut source = Counter::new(identity());
    source.add(3, &vec![]);
    let observer = SyncObserver::new(&source, mode).unwrap();
    Observed { source, observer }
}

/// One round of the loop that a worker lives in: what is dispatched at `now`.
fn turn(worker: &mut Worker<TestWire, Observer>, now: Instant) -> Option<Vec<TestWire>> {
    if worker.maybe_observe(now) {
        worker.observe_done(now);
    }
    let export = worker.maybe_export(now)?;
    worker.export_done(now);
    assert!(export.failures.is_empty());
    export.into_batch()
}

#[test]
fn periodic_pushes_batches() {
    let mut worker = Worker::new(&config(10, 20), start()).unwrap();
    add(&mut worker, counting(Mode::Direct));

    let batch = turn(&mut worker, instant(1_000)).expect("sender task stopped");
    assert_eq!(
        batch,
        vec![TestWire {
            name: "name".to_owned(),
            times: vec![0],
        }]
    );
    // Polled twice before the next export.
    assert_eq!(turn(&mut worker, instant(1_012)), None);
    assert_eq!(turn(&mut worker, instant(1_015)), None);
    let batch = turn(&mut worker, instant(1_023)).unwrap();
    assert_eq!(batch[0].times, [12 * MILLI, 23 * MILLI]);
    let reply = worker.handle(CollectorCmd::Shutdown, instant(1_024));
    assert!(matches!(reply, Reply::Stop(None)));
    let reply = worker.handle(CollectorCmd::Shutdown, instant(1_040));
    assert!(matches!(reply, Reply::Stop(Some(export)) if export.batch.is_empty()));
}

#[test]
fn timestamps_are_aligned_to_polls() {
    let mut config = config(10, 20);
    config.align_timestamps = true;
    let mut worker = Worker::new(&config, start()).unwrap();
    add(&mut worker, counting(Mode::Direct));
    assert_eq!(turn(&mut worker, instant(1_003)).unwrap()[0].times, [0]);
    assert_eq!(turn(&mut worker, instant(1_012)), None);
    let batch = turn(&mut worker, instant(1_023)).unwrap();
    assert_eq!(batch[0].times, [10 * MILLI, 20 * MILLI]);
}

#[test]
fn late_observers_begin_at_the_next_poll() {
    let mut config = config(10, 20);
    config.align_timestamps = true;
    let mut worker: Worker<TestWire, Observer> = Worker::new(&config, start()).unwrap();
    assert_eq!(turn(&mut worker, instant(1_034)), None);
    add(&mut worker, counting(Mode::Delta));
    assert_eq!(turn(&mut worker, instant(1_035)), None);
    let batch = turn(&mut worker, instant(1_041)).unwrap();
    assert_eq!(batch[0].times, [40 * MILLI]);
}

#[test]
fn workers_wait_for_the_nearer_deadline() {
    let mut worker: Worker<TestWire, Observer> = Worker::new(&config(10, 25), start()).unwrap();
    assert_eq!(worker.timeout(instant(990)).as_nanos(), 10_000_000);
    let _ = turn(&mut worker, instant(1_000));
    assert_eq!(worker.timeout(instant(1_004)).as_nanos(), 6_000_000);
    let _ = turn(&mut worker, instant(1_020));
    assert_eq!(worker.timeout(instant(1_021)).as_nanos(), 4_000_000);
    assert_eq!(worker.timeout(instant(1_099)).as_nanos(), 0);
}

#[test]
fn failures_do_not_hold_back_the_rest() {
    let mut worker: Worker<TestWire, Observer> = Worker::new(&config(1, 1_000), start()).unwrap();
    add(&mut worker, counting(Mode::Direct));
    add(&mut worker, counting(Mode::Destructive));
    let _ = turn(&mut worker, instant(1_000));
    for millis in 1_001..1_200 {
        let _ = turn(&mut worker, instant(millis));
    }
    assert!(worker.maybe_observe(instant(2_000)));
    let export = worker.maybe_export(instant(2_000)).unwrap();
    assert_eq!(export.failures.len(), 1);
    assert!(matches!(export.failures[0], Error::TimeOverflowsU64));
    assert!(export.into_batch().is_none());
}

#[test]
fn no_empty_exports() {
    let mut worker: Worker<TestWire, Observer> = Worker::new(&config(10, 20), start()).unwrap();
    for millis in 1_000..1_100 {
        let got = turn(&mut worker, instant(millis));
        assert!(got.is_none(), "empty collector dispatched a batch");
    }
}

#[test]
fn rejects_duplicate_destructive() {
    let mut admissions = Admissions::new();
    let first = Counter::<u64>::new(identity());
    assert!(admissions.observer_for(&first, Mode::Destructive).is_ok());
    let second = Counter::<u64>::new(identity());
    let err = admissions
        .observer_for(&second, Mode::Destructive)
        .err()
        .expect("expected duplicate destructive to be rejected");
    assert!(
        matches!(err, Error::DuplicateDestructive),
        "expected DuplicateDestructive, got {err:?}",
    );
    // No other mode is free either.
    let third = Counter::<u64>::new(identity());
    assert!(matches!(
        admissions.observer_for(&third, Mode::Direct).err(),
        Some(Error::DuplicateDestructive)
    ));
    assert!(matches!(
        admissions.observer_for(&third, Mode::Delta).err(),
        Some(Error::DuplicateDestructive)
    ));
    // Other identities are free.
    let mut id = identity();
    id.unit = Str::from("other");
    let other = Counter::<u64>::new(id);
    assert!(admissions.observer_for(&other, Mode::Destructive).is_ok());
}

#[test]
fn gauges_have_no_deltas() {
    let gauge = Gauge::<i64>::new(identity());
    let err = Admissions::new().observer_for(&gauge, Mode::Delta).err();
    assert!(matches!(err, Some(Error::DeltaForGauge)));
}

#[test]
fn gated_drops() {
    let enabled = Arc::new(AtomicBool::new(true));
    let mut gated = Gated::with_enabled(Vec::<u8>::new(), Arc::clone(&enabled));
    let send = |gated: &mut Gated<Vec<u8>>, batch: u8| match gated.forward(batch) {
        Some((inner, batch)) => {
            inner.push(batch);
            inner.len()
        }
        None => 0,
    };
    assert_eq!(send(&mut gated, 1), 1);
    enabled.store(false, Ordering::Relaxed);
    assert!(!gated.is_enabled());
    assert_eq!(send(&mut gated, 2), 0, "disabled gated sender forwarded a batch");
    enabled.store(true, Ordering::Relaxed);
    assert_eq!(send(&mut gated, 3), 2);

    gated.set_enabled(false);
    assert!(!enabled.load(Ordering::Relaxed));
    gated.enabled_handle().store(true, Ordering::Relaxed);
    assert!(gated.is_enabled());
    assert!(Gated::new(()).is_enabled());
    assert_eq!(pass(true, 5), Some(5));
    assert_eq!(pass(false, 5), None);
}

#[test]
fn periods_are_checked() {
    assert!(config(10, 10).validate().is_ok());
    assert!(matches!(config(0, 20).validate(), Err(Error::ZeroPollPeriod)));
    assert!(matches!(config(10, 0).validate(), Err(Error::ZeroExportPeriod)));
    assert!(matches!(
        config(21, 20).validate(),
        Err(Error::PollPeriodExceedsExportPeriod)
    ));
    assert!(matches!(
        Worker::<TestWire, Observer>::new(&config(0, 0), start()).err(),
        Some(Error::ZeroPollPeriod)
    ));
}

#[test]
fn capacities_have_a_default() {
    let mut config = config(1, 1);
    assert_eq!(config.capacity(), DEFAULT_BATCH_CAPACITY);
    config.batch_capacity = Capacity::new(3);
    assert_eq!(config.capacity(), 3);
    assert!(Capacity::new(0).is_none());
}
