use ohnotel::atomic;
use ohnotel::atomic::float::AtomicF64;
use ohnotel::atomic::histogram::Bucket;
use ohnotel::atomic::integers::{AtomicI64, AtomicU64};
use ohnotel::atomic::{Amount, IsInitial, Measure, Reading, Record, Scalar};
use ohnotel::{Error, View};

#[test]
fn integers_bucket() {
    let mut a = AtomicU64::new(0);
    a.add(1u64);
    a.add(4u64);
    assert_eq!(atomic::Scalar::get(&a), 5);
    assert_eq!(atomic::Scalar::reset(&mut a), 5);
    assert_eq!(atomic::Scalar::get(&a), 0);

    let mut a = AtomicU64::from_value(0);
    a.add(1u64);
    assert_eq!(atomic::Scalar::get(&a), 1);
}

#[test]
fn sample() {
    let mut a = AtomicU64::new(100);
    atomic::Scalar::fetch_min(&mut a, 50);
    assert_eq!(atomic::Scalar::get(&a), 50);
    atomic::Scalar::fetch_min(&mut a, 80);
    assert_eq!(atomic::Scalar::get(&a), 50);
    atomic::Scalar::fetch_max(&mut a, 70);
    assert_eq!(atomic::Scalar::get(&a), 70);
    atomic::Scalar::fetch_max(&mut a, 200);
    assert_eq!(atomic::Scalar::get(&a), 200);
}

#[test]
fn integers_wrap_and_come_back() {
    let mut a = AtomicU64::new(u64::MAX);
    a.add(2);
    assert_eq!(a.get(), 1);
    a.sub(2);
    assert_eq!(a.get(), u64::MAX);

    let mut b = AtomicI64::new(i64::MIN);
    b.sub(1);
    assert_eq!(b.get(), i64::MAX);
    b.add(1);
    assert_eq!(b.get(), i64::MIN);
    assert_eq!(b.swap(7), i64::MIN);
    b.store(9);
    assert_eq!(b.load(), 9);
    b.clear();
    assert!(b.current().is_initial());
}

/// A double as a measure, with the arithmetic that the cell itself leaves open.
#[derive(Debug, Clone, Copy, PartialEq)]
struct F64(f64);

#[derive(Debug)]
struct F64Cell(AtomicF64);

impl View for F64 {
    type V = F64;

    fn view(&self) -> F64 {
        *self
    }
}

impl View for F64Cell {
    type V = F64;

    fn view(&self) -> F64 {
        self.current()
    }
}

fn plus(left: u64, right: u64) -> u64 {
    (f64::from_bits(left) + f64::from_bits(right)).to_bits()
}

impl Amount for F64 {
    fn zero() -> F64 {
        F64(0.0)
    }
    fn highest() -> F64 {
        F64(f64::INFINITY)
    }
    fn lowest() -> F64 {
        F64(f64::NEG_INFINITY)
    }
    fn ordered(self) -> bool {
        !self.0.is_nan()
    }
    fn below(self, other: F64) -> bool {
        self.0 < other.0
    }
    fn alike(self, other: F64) -> bool {
        self.0 == other.0
    }
    fn plus(self, other: F64) -> F64 {
        if other.0.is_nan() {
            self
        } else {
            F64(self.0 + other.0)
        }
    }
    fn minus(self, other: F64) -> F64 {
        if other.0.is_nan() {
            self
        } else {
            F64(self.0 - other.0)
        }
    }
    fn zero_value() -> F64 {
        F64(0.0)
    }
    fn min_identity() -> F64 {
        F64(f64::INFINITY)
    }
    fn max_identity() -> F64 {
        F64(f64::NEG_INFINITY)
    }
    fn is_ordered(&self) -> bool {
        !self.0.is_nan()
    }
    fn is_below(&self, other: &F64) -> bool {
        self.0 < other.0
    }
    fn is_alike(&self, other: &F64) -> bool {
        self.0 == other.0
    }
    fn difference(self, other: F64) -> F64 {
        self.minus(other)
    }
    fn copy(&self) -> F64 {
        *self
    }
}

impl Measure for F64 {
    type Type = F64Cell;
}

impl IsInitial for F64 {
    fn initial(reading: F64) -> bool {
        reading.0 == 0.0
    }
    fn is_initial(&self) -> bool {
        self.0 == 0.0
    }
}

impl Reading for F64 {
    fn same(a: F64, b: F64) -> bool {
        a.0 == b.0
    }
    fn before(a: F64, b: F64) -> bool {
        a.0 < b.0
    }
    fn since(current: F64, previous: F64) -> F64 {
        F64(current.0 - previous.0)
    }
    fn equals(&self, other: &F64) -> bool {
        self.0 == other.0
    }
    fn precedes(&self, other: &F64) -> bool {
        self.0 < other.0
    }
    fn subtract(self, previous: F64) -> F64 {
        F64(self.0 - previous.0)
    }
    fn duplicate(&self) -> F64 {
        *self
    }
}

impl Record<F64> for F64Cell {
    type Snapshot = F64;

    fn valid(_: F64) -> bool {
        true
    }
    fn added(state: F64, value: F64) -> F64 {
        state.plus(value)
    }
    fn subtracted(state: F64, value: F64) -> F64 {
        state.minus(value)
    }
    fn cleared(_: F64) -> F64 {
        F64(0.0)
    }
    fn reading(state: F64) -> F64 {
        state
    }
    fn add(&mut self, value: F64) {
        self.0.add(value.0.to_bits(), plus);
    }
    fn sub(&mut self, value: F64) {
        self.0.add((-value.0).to_bits(), plus);
    }
    fn clear(&mut self) {
        self.0.clear();
    }
    fn current(&self) -> F64 {
        F64(f64::from_bits(self.0.load()))
    }
    fn fresh(&self) -> F64Cell {
        F64Cell(AtomicF64::new(0.0_f64.to_bits()))
    }
}

impl Scalar<F64> for F64Cell {
    fn scalar_laws(_: F64, _: F64) {}
    fn from_value(value: F64) -> F64Cell {
        F64Cell(AtomicF64::new(value.0.to_bits()))
    }
    fn fetch_min(&mut self, value: F64) {
        self.0.fetch_min(value.0.to_bits());
    }
    fn fetch_max(&mut self, value: F64) {
        self.0.fetch_max(value.0.to_bits());
    }
    fn swap(&mut self, value: F64) -> F64 {
        F64(f64::from_bits(self.0.swap(value.0.to_bits())))
    }
    fn load(&self) -> F64 {
        self.current()
    }
    fn store(&mut self, value: F64) {
        self.0.store(value.0.to_bits());
    }
    fn reset(&mut self) -> F64 {
        F64(f64::from_bits(self.0.reset()))
    }
}

#[test]
fn f64_sample() {
    let mut a = AtomicF64::new(0.0_f64.to_bits());
    let value = |a: &AtomicF64| f64::from_bits(a.load());
    a.fetch_max(std::f64::consts::PI.to_bits());
    a.fetch_max(2.71_f64.to_bits());
    a.fetch_max(f64::NAN.to_bits()); // ignored
    assert!((value(&a) - std::f64::consts::PI).abs() < 1e-12);

    a.fetch_min((-1.0_f64).to_bits());
    a.fetch_min(f64::NAN.to_bits()); // ignored
    assert!((value(&a) - (-1.0)).abs() < 1e-12);
}

#[test]
fn doubles_are_never_poisoned() {
    let mut a = AtomicF64::new(1.5_f64.to_bits());
    a.store(f64::NAN.to_bits());
    assert_eq!(f64::from_bits(a.load()), 1.5);
    a.add(f64::NAN.to_bits(), plus);
    assert_eq!(f64::from_bits(a.load()), 1.5);
    a.add(2.0_f64.to_bits(), plus);
    assert_eq!(f64::from_bits(a.load()), 3.5);
    a.update_with(|bits| (f64::from_bits(bits) * 2.0).to_bits());
    assert_eq!(f64::from_bits(a.reset()), 7.0);
    assert_eq!(a.load(), 0.0_f64.to_bits());
    // The two zeros compare as equal, so the one held stays.
    a.fetch_min((-0.0_f64).to_bits());
    assert_eq!(a.load(), 0.0_f64.to_bits());
    a.fetch_min(f64::NEG_INFINITY.to_bits());
    assert_eq!(f64::from_bits(a.load()), f64::NEG_INFINITY);
}

#[test]
fn histogram_bucket() {
    let mut a = Bucket::new(vec![1u64, 2, 3]).expect("valid boundaries");
    a.add(0u64); // bucket 0 (x <= 1)
    a.add(1u64); // bucket 0 (x <= 1)
    a.add(2u64); // bucket 1 (1 < x <= 2)
    a.add(3u64); // bucket 2 (2 < x <= 3)
    a.add(10u64); // bucket 3 (x > 3, overflow)

    let snap = a.snapshot();
    assert_eq!(snap.count, 5);
    assert_eq!(snap.bucket_counts, [2, 1, 1, 1]);
    assert_eq!(snap.sum, 16);
    assert_eq!(snap.min, Some(0));
    assert_eq!(snap.max, Some(10));
}

#[test]
fn reset() {
    let mut h = Bucket::new(vec![10u64, 20, 30]).expect("valid boundaries");
    h.add(5);
    h.add(15);
    h.add(25);
    h.add(100);

    let snap = h.snapshot();
    assert_eq!(snap.sum, 145);
    assert_eq!(snap.count, 4);
    assert_eq!(snap.min, Some(5));
    assert_eq!(snap.max, Some(100));

    let prev = h.take();
    assert_eq!(prev.sum, 145);
    assert_eq!(prev.min, Some(5));
    assert_eq!(prev.max, Some(100));

    let after = h.snapshot();
    assert_eq!(after.bucket_counts, [0, 0, 0, 0]);
    assert_eq!(after.count, 0);
    assert_eq!(after.sum, 0);
    assert_eq!(after.min, None);
    assert_eq!(after.max, None);
}

#[test]
fn min_max_f64() {
    let mut h = Bucket::<F64>::new(vec![F64(1.0), F64(2.0)]).expect("valid boundaries");
    h.add(F64(0.5));
    h.add(F64(1.5));
    h.add(F64(3.0));
    h.add(F64(-2.0));

    let snap = h.snapshot();
    assert_eq!(snap.count, 4);
    assert_eq!(snap.min, Some(F64(-2.0)));
    assert_eq!(snap.max, Some(F64(3.0)));
}

#[test]
fn broken_boundaries() {
    assert!(matches!(
        Bucket::new(vec![3u64, 2, 1]),
        Err(Error::InvalidHistogramBoundaries),
    ));
    assert!(matches!(
        Bucket::<u64>::new(vec![]),
        Err(Error::InvalidHistogramBoundaries),
    ));
    assert!(matches!(
        Bucket::new(vec![1u64, 1]),
        Err(Error::InvalidHistogramBoundaries),
    ));
    assert!(matches!(
        Bucket::new(vec![F64(1.0), F64(f64::NAN)]),
        Err(Error::InvalidHistogramBoundaries),
    ));
}

#[test]
fn no_nan_poison() {
    let mut h = Bucket::<F64>::new(vec![F64(1.0), F64(2.0)]).expect("valid boundaries");
    h.add(F64(0.5));
    h.add(F64(f64::NAN)); // should be ignored for count, buckets, and sum
    h.add(F64(1.5));

    let snap = h.snapshot();
    assert!(!snap.sum.0.is_nan(), "poisoned with nan: {:?}", snap.sum);
    assert_eq!(snap.sum, F64(2.0));
    assert_eq!(snap.count, 2, "NaN was counted: {:?}", snap);
    assert_eq!(
        snap.bucket_counts,
        [1, 1, 0],
        "NaN landed in a bucket: {:?}",
        snap
    );
    assert_eq!(snap.min, Some(F64(0.5)));
    assert_eq!(snap.max, Some(F64(1.5)));
}

#[test]
fn subtracting_undoes_adding() {
    let mut h = Bucket::new(vec![10i64, 20]).expect("valid boundaries");
    h.add(3);
    h.add(15);
    h.sub(15);
    let snap = h.snapshot();
    assert_eq!(snap.bucket_counts, [1, 0, 0]);
    assert_eq!(snap.count, 1);
    assert_eq!(snap.sum, 3);
    // The bounds keep what was recorded.
    assert_eq!(snap.max, Some(15));
}

#[test]
fn counts_of_all_buckets_are_the_count() {
    let mut h = Bucket::new(vec![1u64, 5, 9]).expect("valid boundaries");
    for value in 0..40 {
        h.add(value % 12);
    }
    h.sub(3);
    let snap = h.snapshot();
    assert_eq!(snap.bucket_counts.iter().sum::<u64>(), snap.count);
    assert_eq!(snap.count, 39);
}

#[test]
fn differences_saturate_at_zero() {
    let mut h = Bucket::new(vec![10u64]).expect("valid boundaries");
    h.add(4);
    let low = h.snapshot();
    h.add(40);
    h.add(7);
    let high = h.snapshot();
    assert!(low.precedes(&high));

    let change = high.duplicate().subtract(low.duplicate());
    assert_eq!(change.bucket_counts, [1, 1]);
    assert_eq!(change.count, 2);
    assert_eq!(change.sum, 47);
    assert_eq!(change.min, None);
    assert_eq!(change.max, None);

    let nothing = low.subtract(high);
    assert_eq!(nothing.bucket_counts, [0, 0]);
    assert_eq!(nothing.count, 0);
    assert_eq!(nothing.sum, 0);
    assert!(nothing.is_initial());
}

#[test]
fn snapshots_are_equal_in_every_part() {
    let mut h = Bucket::new(vec![10u64]).expect("valid boundaries");
    h.add(4);
    let first = h.snapshot();
    assert!(first.equals(&first.duplicate()));
    h.add(5);
    assert!(!first.equals(&h.snapshot()));
    h.sub(5);
    // The maximum is another one now.
    assert!(!first.equals(&h.snapshot()));
}

#[test]
fn snapshots_tally_what_was_recorded_since_the_last_reset() {
    let mut h = Bucket::new(vec![10u64, 20]).expect("valid boundaries");
    h.add(99);
    h.clear();
    let empty = h.snapshot();
    assert_eq!(empty.bucket_counts, [0, 0, 0]);
    assert_eq!((empty.count, empty.sum, empty.min, empty.max), (0, 0, None, None));

    for value in [5, 10, 11, 30] {
        h.add(value);
    }
    let before = h.snapshot();
    let taken = h.take();
    assert_eq!(before, taken);
    assert_eq!(taken.bucket_counts, [2, 1, 1]);
    assert_eq!(taken.bucket_counts.iter().sum::<u64>(), taken.count);
    assert_eq!((taken.count, taken.sum, taken.min, taken.max), (4, 56, Some(5), Some(30)));

    h.add(20);
    let after = h.snapshot();
    assert_eq!(after.bucket_counts, [0, 1, 0]);
    assert_eq!((after.count, after.sum, after.min, after.max), (1, 20, Some(20), Some(20)));
}
