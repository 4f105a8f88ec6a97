use ohnotel::atomic::histogram::Snapshot;
use ohnotel::collect::{AddSource, Collection, CollectorTuple, Handle, Registrable};
use ohnotel::dto;
use ohnotel::metric::{Counter, Gauge, Histogram};
use ohnotel::model::{KeyValue, NameIdentity, NameIdentityView, Str};
use ohnotel::observe::{DynObserver, MetricSource, Mode, SyncObserver};
use ohnotel::time::{Duration, SystemTime};
use ohnotel::{Error, View};
use std::borrow::Cow;
use std::cell::RefCell;
use std::marker::PhantomData;
use std::rc::Rc;
use std::sync::atomic::{AtomicU64, Ordering};
use std::sync::Arc;

fn identity() -> NameIdentity {
    NameIdentity {
        name: Str::Cow(Cow::Borrowed("name")),
        description: Str::Cow(Cow::Borrowed("description")),
        unit: Str::Cow(Cow::Borrowed("unit")),
    }
}

#[derive(Default, Debug, Clone, PartialEq, Eq)]
struct UnsignedWire {
    total: u64,
}

#[derive(Default, Debug, Clone, PartialEq, Eq)]
struct TextWire {
    text: String,
}

#[derive(Default, Debug, Clone, PartialEq, Eq)]
struct HistogramWire {
    count: u64,
}

impl View for UnsignedWire {
    type V = UnsignedWire;

    fn view(&self) -> UnsignedWire {
        self.clone()
    }
}

impl View for TextWire {
    type V = TextWire;

    fn view(&self) -> TextWire {
        self.clone()
    }
}

impl View for HistogramWire {
    type V = HistogramWire;

    fn view(&self) -> HistogramWire {
        self.clone()
    }
}

impl dto::IntoWire<UnsignedWire> for dto::Series<u64> {
    type Error = Error;

    fn into_wire(self, _align: Option<Duration>) -> Result<Option<UnsignedWire>, Error> {
        let total = self.into_samples().iter().map(|s| s.snapshot.value).sum();
        Ok(Some(UnsignedWire { total }))
    }
}

impl dto::IntoWire<TextWire> for dto::Series<u64> {
    type Error = Error;

    fn into_wire(self, _align: Option<Duration>) -> Result<Option<TextWire>, Error> {
        let id = Arc::clone(&self.id);
        let mut text = String::new();
        for sample in self.into_samples() {
            text.push_str(&format!("{}={} ", id.name.as_str(), sample.snapshot.value));
        }
        Ok(Some(TextWire { text }))
    }
}

impl dto::IntoWire<HistogramWire> for dto::Series<Snapshot<u64>> {
    type Error = Error;

    fn into_wire(self, _align: Option<Duration>) -> Result<Option<HistogramWire>, Error> {
        let count = self.into_samples().iter().map(|s| s.snapshot.value.count).sum();
        Ok(Some(HistogramWire { count }))
    }
}

impl dto::IntoWire<HistogramWire> for dto::Series<u64> {
    type Error = Error;

    fn into_wire(self, _align: Option<Duration>) -> Result<Option<HistogramWire>, Error> {
        let count = u64::try_from(self.into_samples().len()).expect("snapshot count fits in u64");
        Ok(Some(HistogramWire { count }))
    }
}

impl dto::IntoWire<UnsignedWire> for dto::Series<Snapshot<u64>> {
    type Error = Error;

    fn into_wire(self, _align: Option<Duration>) -> Result<Option<UnsignedWire>, Error> {
        let total = self.into_samples().iter().map(|s| s.snapshot.value.count).sum();
        Ok(Some(UnsignedWire { total }))
    }
}

impl dto::IntoWire<TextWire> for dto::Series<Snapshot<u64>> {
    type Error = Error;

    fn into_wire(self, _align: Option<Duration>) -> Result<Option<TextWire>, Error> {
        let id = Arc::clone(&self.id);
        let mut text = String::new();
        for sample in self.into_samples() {
            text.push_str(&format!("{}#{} ", id.name.as_str(), sample.snapshot.value.count));
        }
        Ok(Some(TextWire { text }))
    }
}

type Shared<M> = Rc<RefCell<M>>;

/// A metric that the test goes on using after it was registered.
enum Metric {
    Counter(Shared<Counter<u64>>),
    Gauge(Shared<Gauge<u64>>),
    Histogram(Shared<Histogram<u64>>),
}

impl Handle for Metric {
    fn share(&self) -> Metric {
        match self {
            Metric::Counter(metric) => Metric::Counter(Rc::clone(metric)),
            Metric::Gauge(metric) => Metric::Gauge(Rc::clone(metric)),
            Metric::Histogram(metric) => Metric::Histogram(Rc::clone(metric)),
        }
    }
}

impl Registrable for Metric {
    fn identity(&self) -> NameIdentityView {
        unreachable!()
    }

    fn type_number(&self) -> u64 {
        unreachable!()
    }

    fn id(&self) -> Arc<NameIdentity> {
        match self {
            Metric::Counter(metric) => Arc::clone(metric.borrow().id()),
            Metric::Gauge(metric) => Arc::clone(metric.borrow().id()),
            Metric::Histogram(metric) => Arc::clone(metric.borrow().id()),
        }
    }

    fn type_key(&self) -> u64 {
        match self {
            Metric::Counter(_) => 0,
            Metric::Gauge(_) => 1,
            Metric::Histogram(_) => 2,
        }
    }
}

struct SharedObserver<M: MetricSource> {
    source: Shared<M>,
    observer: SyncObserver<M::Measure, M::Cell>,
}

impl<M: MetricSource> SharedObserver<M> {
    fn new(source: &Shared<M>, mode: Mode) -> Result<SharedObserver<M>, Error> {
        let observer = SyncObserver::new(&*source.borrow(), mode)?;
        Ok(SharedObserver {
            source: Rc::clone(source),
            observer,
        })
    }

    fn observe(&mut self, ts: SystemTime) {
        self.observer
            .observe_impl(self.source.borrow_mut().buckets_mut(), ts);
    }
}

enum Observer {
    Counter(SharedObserver<Counter<u64>>),
    Gauge(SharedObserver<Gauge<u64>>),
    Histogram(SharedObserver<Histogram<u64>>),
}

impl<W: View> DynObserver<W, Error> for Observer
where
    dto::Series<u64>: dto::IntoWire<W, Error = Error>,
    dto::Series<Snapshot<u64>>: dto::IntoWire<W, Error = Error>,
{
    fn observe(&mut self, ts: SystemTime) {
        match self {
            Observer::Counter(observer) => observer.observe(ts),
            Observer::Gauge(observer) => observer.observe(ts),
            Observer::Histogram(observer) => observer.observe(ts),
        }
    }

    fn reset(&mut self, start_time: SystemTime) {
        match self {
            Observer::Counter(observer) => observer.observer.reset(start_time),
            Observer::Gauge(observer) => observer.observer.reset(start_time),
            Observer::Histogram(observer) => observer.observer.reset(start_time),
        }
    }

    fn export(&mut self, align: Option<Duration>) -> Result<Option<W>, Error> {
        match self {
            Observer::Counter(observer) => dto::IntoWire::into_wire(observer.observer.take(), align),
            Observer::Gauge(observer) => dto::IntoWire::into_wire(observer.observer.take(), align),
            Observer::Histogram(observer) => {
                dto::IntoWire::into_wire(observer.observer.take(), align)
            }
        }
    }
}

struct InMemoryCollector<W> {
    observers: Vec<Observer>,
    wire: PhantomData<W>,
}

impl<W: View> InMemoryCollector<W>
where
    Observer: DynObserver<W, Error>,
{
    fn new() -> InMemoryCollector<W> {
        InMemoryCollector {
            observers: vec![],
            wire: PhantomData,
        }
    }

    fn drain_export(&mut self, ts: SystemTime) -> Vec<W> {
        let mut out = vec![];
        for observer in &mut self.observers {
            DynObserver::<W, Error>::observe(observer, ts);
            if let Some(batch) = observer.export(None).expect("export failed") {
                out.push(batch);
            }
        }
        out
    }

    fn len(&self) -> usize {
        self.observers.len()
    }
}

impl<W> AddSource<Metric> for InMemoryCollector<W> {
    fn add_source(&mut self, source: &Metric, mode: Mode) -> Result<(), Error> {
        self.observers.push(match source {
            Metric::Counter(metric) => Observer::Counter(SharedObserver::new(metric, mode)?),
            Metric::Gauge(metric) => Observer::Gauge(SharedObserver::new(metric, mode)?),
            Metric::Histogram(metric) => Observer::Histogram(SharedObserver::new(metric, mode)?),
        });
        Ok(())
    }
}

type Sinks = (
    InMemoryCollector<UnsignedWire>,
    InMemoryCollector<TextWire>,
    InMemoryCollector<HistogramWire>,
);

fn collection() -> Collection<Sinks, Metric> {
    Collection::new((
        InMemoryCollector::new(),
        InMemoryCollector::new(),
        InMemoryCollector::new(),
    ))
}

trait Register {
    fn register(&mut self, source: Metric, mode: Mode) -> Result<Metric, Error>;

    fn counter(&mut self, mode: Mode) -> Result<Shared<Counter<u64>>, Error> {
        let metric = Rc::new(RefCell::new(Counter::new(identity())));
        match self.register(Metric::Counter(metric), mode)? {
            Metric::Counter(metric) => Ok(metric),
            _ => panic!("another kind of metric came back"),
        }
    }

    fn gauge(&mut self, mode: Mode) -> Result<Shared<Gauge<u64>>, Error> {
        let metric = Rc::new(RefCell::new(Gauge::new(identity())));
        match self.register(Metric::Gauge(metric), mode)? {
            Metric::Gauge(metric) => Ok(metric),
            _ => panic!("another kind of metric came back"),
        }
    }

    fn histogram(&mut self, boundaries: Vec<u64>, mode: Mode) -> Result<Shared<Histogram<u64>>, Error> {
        let metric = Histogram::new(identity(), boundaries).expect("histogram setup failed");
        let metric = Rc::new(RefCell::new(metric));
        match self.register(Metric::Histogram(metric), mode)? {
            Metric::Histogram(metric) => Ok(metric),
            _ => panic!("another kind of metric came back"),
        }
    }
}

impl Register for Collection<Sinks, Metric> {
    fn register(&mut self, source: Metric, mode: Mode) -> Result<Metric, Error> {
        self.add(source, mode)
    }
}

impl Register for Collection<(InMemoryCollector<UnsignedWire>,), Metric> {
    fn register(&mut self, source: Metric, mode: Mode) -> Result<Metric, Error> {
        self.add(source, mode)
    }
}

#[test]
fn add_distributes_across_collectors() {
    let mut collectors = collection();

    let counter = collectors
        .counter(Mode::Direct)
        .expect("counter registration failed");
    let gauge = collectors
        .gauge(Mode::Direct)
        .expect("gauge registration failed");
    let histogram = collectors
        .histogram(vec![1, 10, 100], Mode::Direct)
        .expect("histogram registration failed");

    counter.borrow_mut().add(7, &[KeyValue::new("k", 1)]);
    gauge.borrow_mut().add(3, &[]);
    histogram.borrow_mut().add(50, &[]);
    histogram.borrow_mut().add(2, &[]);

    let ts = SystemTime::now();
    let (unsigned, text, hist) = collectors.collectors_mut();

    assert_eq!(unsigned.len(), 3, "unsigned sink missing observers");
    assert_eq!(text.len(), 3, "text sink missing observers");
    assert_eq!(hist.len(), 3, "hist sink missing observers");

    let unsigned_batches = unsigned.drain_export(ts);
    // counter=7, gauge=3, histogram count=2 (sum of bucket counts).
    let unsigned_total: u64 = unsigned_batches.iter().map(|w| w.total).sum();
    assert_eq!(
        unsigned_total,
        7 + 3 + 2,
        "unsigned wire totals incorrect: {unsigned_batches:?}",
    );

    let text_batches = text.drain_export(ts);
    assert_eq!(
        text_batches.len(),
        3,
        "text sink should produce 3 batches: {text_batches:?}",
    );
    assert_eq!(text_batches[0].text, "name=7 ");
    assert_eq!(text_batches[2].text, "name#2 ");

    let hist_batches = hist.drain_export(ts);
    let hist_total: u64 = hist_batches.iter().map(|w| w.count).sum();
    // counter contributes 1 datapoint, gauge 1, histogram 2 (50 and 2). The counter never
    // wrote to its no-attr bucket, so that pristine bucket must not be reported.
    assert_eq!(
        hist_total,
        1 + 1 + 2,
        "histogram wire saw {hist_total} events: {hist_batches:?}",
    );
}

#[test]
fn add_rejects_destructive_with_multiple_collectors() {
    let mut collectors = collection();
    let err = collectors
        .counter(Mode::Destructive)
        .err()
        .expect("destructive registration must fail with >1 collectors");
    assert!(
        matches!(err, Error::DestructiveWithMultipleCollectors),
        "expected DestructiveWithMultipleCollectors, got {err:?}",
    );
}

#[test]
fn add_allows_destructive_with_single_collector() {
    let mut collectors = Collection::new((InMemoryCollector::<UnsignedWire>::new(),));
    let _counter = collectors
        .counter(Mode::Destructive)
        .expect("single-collector destructive should succeed");
    assert_eq!(collectors.collectors().0.len(), 1);
}

#[test]
fn same_instance() {
    let mut collectors = collection();
    let c1 = collectors.counter(Mode::Direct).expect("adding counter failed");
    let c2 = collectors.counter(Mode::Direct).expect("adding counter failed");

    c1.borrow_mut().add(1, &[]);
    c2.borrow_mut().add(1, &[]);

    let res = c1.borrow().get(&[]).expect("get counter failed");
    assert_eq!(res, 2);
}

#[test]
fn add_rejects_mode_mismatch() {
    let mut collectors = collection();
    let _counter = collectors.counter(Mode::Direct).expect("adding counter failed");
    let err = collectors
        .counter(Mode::Delta)
        .err()
        .expect("re-adding under a different mode must fail");
    assert!(
        matches!(err, Error::ModeMismatch),
        "expected ModeMismatch, got {err:?}",
    );
}

#[test]
fn same_instance_different_types() {
    let mut collectors = collection();
    let g1 = collectors.gauge(Mode::Direct).expect("adding gauge failed");
    let c1 = collectors.counter(Mode::Direct).expect("adding counter failed");

    g1.borrow_mut().set(42, &[]);
    c1.borrow_mut().add(1, &[]);

    let res = g1.borrow().get(&[]).expect("get gauge failed");
    assert_eq!(res, 42);

    let res = c1.borrow().get(&[]).expect("get counter failed");
    assert_eq!(res, 1);
}

#[test]
fn no_clash() {
    let mut collectors = collection();

    let gauge1 = collectors.gauge(Mode::Direct).expect("adding gauge failed");
    let counter1 = collectors.counter(Mode::Direct).expect("adding counter failed");

    gauge1.borrow_mut().set(42, &[]);
    counter1.borrow_mut().add(1, &[]);

    let gauge2 = collectors.gauge(Mode::Direct).expect("re-adding gauge failed");
    let counter2 = collectors.counter(Mode::Direct).expect("re-adding counter failed");

    gauge2.borrow_mut().set(7, &[]);
    counter2.borrow_mut().add(1, &[]);

    assert_eq!(
        gauge1.borrow().get(&[]).expect("get gauge failed"),
        7,
        "re-added gauge must alias the original instance",
    );
    assert_eq!(
        counter1.borrow().get(&[]).expect("get counter failed"),
        2,
        "re-added counter must alias the original instance",
    );

    let (unsigned, text, hist) = collectors.collectors();
    assert_eq!(unsigned.len(), 2, "unsigned sink should hold 2 observers");
    assert_eq!(text.len(), 2, "text sink should hold 2 observers");
    assert_eq!(hist.len(), 2, "hist sink should hold 2 observers");
}

#[test]
fn a_refused_source_is_not_registered() {
    let mut collectors = collection();
    let err = collectors.gauge(Mode::Delta).err()
        .expect("a gauge has no deltas");
    assert!(matches!(err, Error::DeltaForGauge), "{err:?}");
    assert_eq!(collectors.collectors().0.len(), 0);
    let _ = collectors.gauge(Mode::Direct).expect("the mode is free again");
}

#[test]
fn tuples_know_their_length() {
    assert_eq!(<(u8,) as CollectorTuple>::LEN, 1);
    assert_eq!(<(u8, u8, u8) as CollectorTuple>::LEN, 3);
    assert_eq!(<(u8, u8, u8, u8, u8, u8, u8, u8) as CollectorTuple>::LEN, 8);
}

#[test]
fn arcs_are_handles() {
    let source = Arc::new(AtomicU64::new(1));
    source.share().fetch_add(2, Ordering::Relaxed);
    assert_eq!(source.load(Ordering::Relaxed), 3);
}

#[derive(Default)]
struct Keeper {
    kept: Vec<Arc<Counter<u64>>>,
}

impl AddSource<Arc<Counter<u64>>> for Keeper {
    fn add_source(&mut self, source: &Arc<Counter<u64>>, _mode: Mode) -> Result<(), Error> {
        self.kept.push(Arc::clone(source));
        Ok(())
    }
}

#[test]
fn sources_are_registered_under_their_own_identity() {
    let mut collectors = Collection::new((Keeper::default(),));
    let first = Arc::new(Counter::new(identity()));
    let added = collectors.add(Arc::clone(&first), Mode::Direct).expect("added");
    assert!(Arc::ptr_eq(&added, &first));
    let again = collectors
        .add(Arc::new(Counter::new(identity())), Mode::Direct)
        .expect("found");
    assert!(Arc::ptr_eq(&again, &first));

    let mut id = identity();
    id.unit = Str::from("other");
    let other = Arc::new(Counter::new(id));
    let added = collectors.add(Arc::clone(&other), Mode::Delta).expect("added");
    assert!(Arc::ptr_eq(&added, &other));
    assert_eq!(collectors.collectors().0.kept.len(), 2);
}
