//! Histograms: counts of values between boundaries, with their sum and bounds.

use crate::atomic;
use crate::atomic::{Amount, IsInitial, Measure, Reading, Record, Scalar};
use crate::error;
use crate::error::Error;
use crate::model;
use std::sync::Arc;
use vstd::prelude::*;

verus! {

/// A [`Bucket`] at one moment.
#[derive(Debug, Clone, PartialEq)]
pub struct Snapshot<T> {
    pub boundaries: Arc<Vec<T>>,
    pub bucket_counts: Vec<u64>,
    pub count: u64,
    pub sum: T,
    pub min: Option<T>,
    pub max: Option<T>,
}

#[verifier::ext_equal]
pub ghost struct SnapshotView<T> {
    pub boundaries: Seq<T>,
    pub bucket_counts: Seq<u64>,
    pub count: u64,
    pub sum: T,
    pub min: Option<T>,
    pub max: Option<T>,
}

impl<T> View for Snapshot<T> {
    type V = SnapshotView<T>;

    open spec fn view(&self) -> SnapshotView<T> {
        SnapshotView {
            boundaries: self.boundaries@,
            bucket_counts: self.bucket_counts@,
            count: self.count,
            sum: self.sum,
            min: self.min,
            max: self.max,
        }
    }
}

/// Whether two lists of amounts compare as equal, one by one.
pub open spec fn all_alike<T: Amount>(a: Seq<T>, b: Seq<T>) -> bool {
    a.len() == b.len() && forall|i: int| 0 <= i < a.len() ==> (#[trigger] a[i]).alike(b[i])
}

/// Whether two amounts that may be missing compare as equal.
pub open spec fn both_alike<T: Amount>(a: Option<T>, b: Option<T>) -> bool {
    match (a, b) {
        (None, None) => true,
        (Some(x), Some(y)) => x.alike(y),
        _ => false,
    }
}

/// What `a` has beyond `b`, or nothing.
pub open spec fn excess(a: u64, b: u64) -> u64 {
    if a > b {
        (a - b) as u64
    } else {
        0
    }
}

/// What counts have beyond others, one by one.
pub open spec fn excesses(a: Seq<u64>, b: Seq<u64>) -> Seq<u64> {
    Seq::new(
        if a.len() < b.len() {
            a.len()
        } else {
            b.len()
        },
        |i: int| excess(a[i], b[i]),
    )
}

fn amounts_alike<T: Amount>(a: &Vec<T>, b: &Vec<T>) -> (r: bool)
    ensures
        r == all_alike(a@, b@),
{
    if a.len() != b.len() {
        return false;
    }
    let mut i: usize = 0;
    while i < a.len()
        invariant
            i <= a@.len(),
            a@.len() == b@.len(),
            forall|j: int| 0 <= j < i ==> (#[trigger] a@[j]).alike(b@[j]),
        decreases a@.len() - i,
    {
        if !a[i].is_alike(&b[i]) {
            return false;
        }
        i = i + 1;
    }
    true
}

fn options_alike<T: Amount>(a: &Option<T>, b: &Option<T>) -> (r: bool)
    ensures
        r == both_alike(*a, *b),
{
    match (a, b) {
        (None, None) => true,
        (Some(x), Some(y)) => x.is_alike(y),
        _ => false,
    }
}

fn counts_equal(a: &Vec<u64>, b: &Vec<u64>) -> (r: bool)
    ensures
        r == (a@ == b@),
{
    if a.len() != b.len() {
        return false;
    }
    let mut i: usize = 0;
    while i < a.len()
        invariant
            i <= a@.len(),
            a@.len() == b@.len(),
            forall|j: int| 0 <= j < i ==> #[trigger] a@[j] == b@[j],
        decreases a@.len() - i,
    {
        if a[i] != b[i] {
            return false;
        }
        i = i + 1;
    }
    assert(a@ =~= b@);
    true
}

fn copy_counts(counts: &Vec<u64>) -> (r: Vec<u64>)
    ensures
        r@ == counts@,
{
    let mut out: Vec<u64> = Vec::new();
    let mut i: usize = 0;
    while i < counts.len()
        invariant
            i <= counts@.len(),
            out@ == counts@.take(i as int),
        decreases counts@.len() - i,
    {
        out.push(counts[i]);
        assert(counts@.take(i + 1) =~= counts@.take(i as int).push(counts@[i as int]));
        i = i + 1;
    }
    assert(counts@.take(i as int) =~= counts@);
    out
}

fn copy_option<T: Amount>(amount: &Option<T>) -> (r: Option<T>)
    ensures
        r == *amount,
{
    match amount {
        Some(amount) => Some(amount.copy()),
        None => None,
    }
}

fn subtract_counts(a: &Vec<u64>, b: &Vec<u64>) -> (r: Vec<u64>)
    ensures
        r@ == excesses(a@, b@),
{
    let mut out: Vec<u64> = Vec::new();
    let mut i: usize = 0;
    while i < a.len() && i < b.len()
        invariant
            i <= a@.len(),
            i <= b@.len(),
            out@.len() == i,
            forall|j: int| 0 <= j < i ==> #[trigger] out@[j] == excess(a@[j], b@[j]),
        decreases a@.len() - i,
    {
        out.push(a[i].saturating_sub(b[i]));
        i = i + 1;
    }
    assert(out@ =~= excesses(a@, b@));
    out
}

impl<T: Amount> IsInitial for Snapshot<T> {
    open spec fn initial(reading: SnapshotView<T>) -> bool {
        reading.count == 0
    }

    fn is_initial(&self) -> (r: bool) {
        self.count == 0
    }
}

/// Snapshots are ordered by their counts, and what one has beyond an earlier one is the change of a
/// cumulative histogram.
///
/// In that difference counts and `sum` saturate at zero. `min` and `max` cannot be recovered across
/// it and are always missing.
impl<T: Amount> Reading for Snapshot<T> {
    open spec fn same(a: SnapshotView<T>, b: SnapshotView<T>) -> bool {
        &&& all_alike(a.boundaries, b.boundaries)
        &&& a.bucket_counts == b.bucket_counts
        &&& a.count == b.count
        &&& a.sum.alike(b.sum)
        &&& both_alike(a.min, b.min)
        &&& both_alike(a.max, b.max)
    }

    open spec fn before(a: SnapshotView<T>, b: SnapshotView<T>) -> bool {
        a.count < b.count
    }

    open spec fn since(current: SnapshotView<T>, previous: SnapshotView<T>) -> SnapshotView<T> {
        SnapshotView {
            boundaries: current.boundaries,
            bucket_counts: excesses(current.bucket_counts, previous.bucket_counts),
            count: excess(current.count, previous.count),
            sum: if previous.sum.below(current.sum) {
                current.sum.minus(previous.sum)
            } else {
                T::zero()
            },
            min: None,
            max: None,
        }
    }

    fn equals(&self, other: &Snapshot<T>) -> (r: bool) {
        amounts_alike(&self.boundaries, &other.boundaries) && counts_equal(
            &self.bucket_counts,
            &other.bucket_counts,
        ) && self.count == other.count && self.sum.is_alike(&other.sum) && options_alike(
            &self.min,
            &other.min,
        ) && options_alike(&self.max, &other.max)
    }

    fn precedes(&self, other: &Snapshot<T>) -> (r: bool) {
        self.count < other.count
    }

    fn subtract(self, previous: Snapshot<T>) -> (r: Snapshot<T>) {
        let bucket_counts = subtract_counts(&self.bucket_counts, &previous.bucket_counts);
        let count: u64 = self.count.saturating_sub(previous.count);
        let sum = if previous.sum.is_below(&self.sum) {
            self.sum.difference(previous.sum)
        } else {
            T::zero_value()
        };
        Snapshot { boundaries: self.boundaries, bucket_counts, count, sum, min: None, max: None }
    }

    fn duplicate(&self) -> (r: Snapshot<T>) {
        Snapshot {
            boundaries: model::share(&self.boundaries),
            bucket_counts: copy_counts(&self.bucket_counts),
            count: self.count,
            sum: self.sum.copy(),
            min: copy_option(&self.min),
            max: copy_option(&self.max),
        }
    }
}

/// The state of a [`Bucket`]: what was recorded since it began.
#[verifier::ext_equal]
pub ghost struct BucketView<T> {
    pub boundaries: Seq<T>,
    pub bucket_counts: Seq<u64>,
    pub sum: T,
    pub min: T,
    pub max: T,
    pub count: u64,
}

struct State<T: Measure> {
    bucket_counts: Vec<u64>,
    sum: T::Type,
    min: T::Type,
    max: T::Type,
    count: u64,
}

/// A histogram.
pub struct Bucket<T: Measure> {
    boundaries: Arc<Vec<T>>,
    state: State<T>,
}

impl<T: Measure> View for Bucket<T> {
    type V = BucketView<T>;

    closed spec fn view(&self) -> BucketView<T> {
        BucketView {
            boundaries: self.boundaries@,
            bucket_counts: self.state.bucket_counts@,
            sum: self.state.sum@,
            min: self.state.min@,
            max: self.state.max@,
            count: self.state.count,
        }
    }
}

/// Whether boundaries are in strictly increasing order.
pub open spec fn increasing<T: Amount>(boundaries: Seq<T>) -> bool {
    forall|i: int| 0 < i < boundaries.len() ==> boundaries[i - 1].below(#[trigger] boundaries[i])
}

/// The bucket that a value falls into: the first one whose boundary is not below the value, or the
/// one behind all boundaries.
pub open spec fn bucket_of<T: Amount>(boundaries: Seq<T>, value: T) -> int
    decreases boundaries.len(),
{
    if boundaries.len() == 0 || !boundaries[0].below(value) {
        0
    } else {
        1 + bucket_of(boundaries.drop_first(), value)
    }
}

/// A bucket holds the values that are above the boundary before it and not above its own.
pub proof fn buckets_lie_between_boundaries<T: Amount>(boundaries: Seq<T>, value: T)
    ensures
        0 <= bucket_of(boundaries, value) <= boundaries.len(),
        forall|i: int| 0 <= i < bucket_of(boundaries, value) ==> (#[trigger] boundaries[i]).below(value),
        bucket_of(boundaries, value) < boundaries.len() ==> !boundaries[bucket_of(
            boundaries,
            value,
        )].below(value),
    decreases boundaries.len(),
{
    if boundaries.len() > 0 && boundaries[0].below(value) {
        let rest = boundaries.drop_first();
        buckets_lie_between_boundaries(rest, value);
        assert forall|i: int| 0 <= i < bucket_of(boundaries, value) implies (#[trigger] boundaries[i]).below(
            value,
        ) by {
            if i > 0 {
                assert(rest[i - 1].below(value));
            }
        }
    }
}

/// The state of a histogram in which nothing is recorded.
pub open spec fn empty_state<T: Amount>(boundaries: Seq<T>) -> BucketView<T> {
    BucketView {
        boundaries,
        bucket_counts: Seq::new(boundaries.len() + 1, |i: int| 0u64),
        sum: T::zero(),
        min: T::highest(),
        max: T::lowest(),
        count: 0,
    }
}

fn zeros(n: usize) -> (r: Vec<u64>)
    ensures
        r@ == Seq::new(n as nat, |i: int| 0u64),
{
    let mut out: Vec<u64> = Vec::new();
    let mut i: usize = 0;
    while i < n
        invariant
            i <= n,
            out@ == Seq::new(i as nat, |j: int| 0u64),
        decreases n - i,
    {
        out.push(0);
        i = i + 1;
        assert(out@ =~= Seq::new(i as nat, |j: int| 0u64));
    }
    out
}

impl<T: Measure> State<T> {
    fn new(bucket_count: usize) -> (r: State<T>)
        ensures
            r.bucket_counts@ == Seq::new(bucket_count as nat, |i: int| 0u64),
            r.sum@ == T::zero(),
            r.min@ == T::highest(),
            r.max@ == T::lowest(),
            r.count == 0,
    {
        State {
            bucket_counts: zeros(bucket_count),
            sum: T::Type::from_value(T::zero_value()),
            min: T::Type::from_value(T::min_identity()),
            max: T::Type::from_value(T::max_identity()),
            count: 0,
        }
    }

    fn snapshot(&self, boundaries: &Arc<Vec<T>>) -> (r: Snapshot<T>)
        ensures
            r@ == (SnapshotView {
                boundaries: boundaries@,
                bucket_counts: self.bucket_counts@,
                count: self.count,
                sum: self.sum@,
                min: if self.count == 0 { None } else { Some(self.min@) },
                max: if self.count == 0 { None } else { Some(self.max@) },
            }),
    {
        let (min, max) = if self.count == 0 {
            (None, None)
        } else {
            (Some(self.min.get()), Some(self.max.get()))
        };
        Snapshot {
            boundaries: model::share(boundaries),
            bucket_counts: copy_counts(&self.bucket_counts),
            count: self.count,
            sum: self.sum.get(),
            min,
            max,
        }
    }
}

impl<T: Measure> Bucket<T> {
    /// Builds a histogram with the given bucket boundaries.
    ///
    /// Boundaries must not be empty, and must be in strictly increasing order.
    pub fn new(boundaries: Vec<T>) -> (r: Result<Bucket<T>, Error>)
        requires
            boundaries@.len() < usize::MAX,
        ensures
            match r {
                Ok(bucket) => boundaries@.len() > 0 && increasing(boundaries@) && bucket@ == empty_state(
                    boundaries@,
                ),
                Err(error) => !(boundaries@.len() > 0 && increasing(boundaries@)) && error@
                    == error::ErrorView::InvalidHistogramBoundaries,
            },
    {
        match Bucket::checked_boundaries(boundaries) {
            Ok(boundaries) => Ok(Bucket::from_checked_boundaries(boundaries)),
            Err(error) => Err(error),
        }
    }

    /// Boundaries that a histogram can have.
    pub fn checked_boundaries(boundaries: Vec<T>) -> (r: Result<Arc<Vec<T>>, Error>)
        ensures
            match r {
                Ok(checked) => boundaries@.len() > 0 && increasing(boundaries@) && checked@ == boundaries@,
                Err(error) => !(boundaries@.len() > 0 && increasing(boundaries@)) && error@
                    == error::ErrorView::InvalidHistogramBoundaries,
            },
    {
        if boundaries.len() == 0 {
            return Err(Error::InvalidHistogramBoundaries);
        }
        let mut i: usize = 1;
        while i < boundaries.len()
            invariant
                1 <= i <= boundaries@.len(),
                forall|j: int| 0 < j < i ==> boundaries@[j - 1].below(#[trigger] boundaries@[j]),
            decreases boundaries@.len() - i,
        {
            if !boundaries[i - 1].is_below(&boundaries[i]) {
                return Err(Error::InvalidHistogramBoundaries);
            }
            i = i + 1;
        }
        Ok(Arc::new(boundaries))
    }

    /// A histogram with boundaries that were checked before.
    pub fn from_checked_boundaries(boundaries: Arc<Vec<T>>) -> (r: Bucket<T>)
        requires
            boundaries@.len() < usize::MAX,
        ensures
            r@ == empty_state(boundaries@),
    {
        let state = State::new(boundaries.len() + 1);
        let r = Bucket { boundaries, state };
        assert(r@ =~= empty_state(r.boundaries@));
        r
    }

    /// The bucket that a value falls into.
    fn bucket_index(&self, value: &T) -> (r: usize)
        ensures
            r as int == bucket_of(self.boundaries@, *value),
    {
        let ghost all = self.boundaries@;
        let mut i: usize = 0;
        assert(all.skip(0) =~= all);
        while i < self.boundaries.len() && self.boundaries[i as usize].is_below(value)
            invariant
                i <= self.boundaries@.len(),
                all == self.boundaries@,
                bucket_of(all, *value) == i + bucket_of(all.skip(i as int), *value),
            decreases self.boundaries@.len() - i,
        {
            assert(all.skip(i as int).drop_first() =~= all.skip(i + 1));
            i = i + 1;
        }
        i
    }

    /// The current cumulative state.
    pub fn snapshot(&self) -> (r: Snapshot<T>)
        ensures
            r@ == <Bucket<T> as Record<T>>::reading(self@),
    {
        self.state.snapshot(&self.boundaries)
    }

    /// The current cumulative state; nothing is left of it afterwards.
    pub fn take(&mut self) -> (r: Snapshot<T>)
        requires
            <Bucket<T> as Record<T>>::valid(old(self)@),
        ensures
            r@ == <Bucket<T> as Record<T>>::reading(old(self)@),
            final(self)@ == <Bucket<T> as Record<T>>::cleared(old(self)@),
    {
        let mut state = State::new(self.state.bucket_counts.len());
        std::mem::swap(&mut state, &mut self.state);
        assert(self@ =~= empty_state(self.boundaries@));
        state.snapshot(&self.boundaries)
    }
}

impl<T: Measure> Record<T> for Bucket<T> {
    type Snapshot = Snapshot<T>;

    /// There is one bucket more than there are boundaries.
    open spec fn valid(state: BucketView<T>) -> bool {
        state.bucket_counts.len() == state.boundaries.len() + 1
    }

    open spec fn added(state: BucketView<T>, value: T) -> BucketView<T> {
        let i = bucket_of(state.boundaries, value);
        if !value.ordered() {
            state
        } else {
            BucketView {
                boundaries: state.boundaries,
                bucket_counts: state.bucket_counts.update(i, state.bucket_counts[i].wrapping_add(1)),
                sum: state.sum.plus(value),
                min: atomic::lowered(state.min, value),
                max: atomic::raised(state.max, value),
                count: state.count.wrapping_add(1),
            }
        }
    }

    open spec fn subtracted(state: BucketView<T>, value: T) -> BucketView<T> {
        let i = bucket_of(state.boundaries, value);
        if !value.ordered() {
            state
        } else {
            BucketView {
                boundaries: state.boundaries,
                bucket_counts: state.bucket_counts.update(i, state.bucket_counts[i].wrapping_sub(1)),
                sum: state.sum.minus(value),
                min: state.min,
                max: state.max,
                count: state.count.wrapping_sub(1),
            }
        }
    }

    open spec fn cleared(state: BucketView<T>) -> BucketView<T> {
        empty_state(state.boundaries)
    }

    open spec fn reading(state: BucketView<T>) -> SnapshotView<T> {
        SnapshotView {
            boundaries: state.boundaries,
            bucket_counts: state.bucket_counts,
            count: state.count,
            sum: state.sum,
            min: if state.count == 0 {
                None
            } else {
                Some(state.min)
            },
            max: if state.count == 0 {
                None
            } else {
                Some(state.max)
            },
        }
    }

    /// Records `value`. Counts and `sum` wrap on overflow; use `i64` for negative sums. What does not
    /// compare to itself is ignored.
    fn add(&mut self, value: T) {
        if !value.is_ordered() {
            return;
        }
        let index: usize = self.bucket_index(&value);
        proof {
            buckets_lie_between_boundaries(self.boundaries@, value);
            <T::Type as Scalar<T>>::scalar_laws(self.state.sum@, value);
        }
        self.state.sum.add(value.copy());
        self.state.min.fetch_min(value.copy());
        self.state.max.fetch_max(value);
        let counted: u64 = self.state.bucket_counts[index].wrapping_add(1);
        self.state.bucket_counts.set(index, counted);
        self.state.count = self.state.count.wrapping_add(1);
        assert(self@ =~= Self::added(old(self)@, value));
    }

    /// Undoes a matching `add`. Counts and `sum` wrap on underflow, so subtracting a value that was
    /// not recorded corrupts the snapshot. Use `i64` for negative sums.
    fn sub(&mut self, value: T) {
        if !value.is_ordered() {
            return;
        }
        let index: usize = self.bucket_index(&value);
        proof {
            buckets_lie_between_boundaries(self.boundaries@, value);
            <T::Type as Scalar<T>>::scalar_laws(self.state.sum@, value);
        }
        let ghost amount = value;
        self.state.sum.sub(value);
        let counted: u64 = self.state.bucket_counts[index].wrapping_sub(1);
        self.state.bucket_counts.set(index, counted);
        self.state.count = self.state.count.wrapping_sub(1);
        assert(self@ =~= Self::subtracted(old(self)@, amount));
    }

    fn clear(&mut self) {
        let _ = self.take();
    }

    fn current(&self) -> (r: Snapshot<T>) {
        self.snapshot()
    }

    fn fresh(&self) -> (r: Bucket<T>) {
        let r = Bucket {
            boundaries: model::share(&self.boundaries),
            state: State::new(self.state.bucket_counts.len()),
        };
        assert(r@ =~= empty_state(self.boundaries@));
        r
    }
}

/// The sum of all counts.
pub open spec fn total(counts: Seq<u64>) -> nat
    decreases counts.len(),
{
    if counts.len() == 0 {
        0
    } else {
        total(counts.drop_last()) + counts.last() as nat
    }
}

proof fn lemma_total_update(counts: Seq<u64>, i: int, count: u64)
    requires
        0 <= i < counts.len(),
    ensures
        total(counts.update(i, count)) == total(counts) - counts[i] + count,
    decreases counts.len(),
{
    if i == counts.len() - 1 {
        assert(counts.update(i, count).drop_last() =~= counts.drop_last());
    } else {
        assert(counts.update(i, count).drop_last() =~= counts.drop_last().update(i, count));
        lemma_total_update(counts.drop_last(), i, count);
    }
}

proof fn lemma_total_zeros(n: nat)
    ensures
        total(Seq::new(n, |i: int| 0u64)) == 0,
    decreases n,
{
    let zeros = Seq::new(n, |i: int| 0u64);
    if n > 0 {
        assert(zeros.drop_last() =~= Seq::new((n - 1) as nat, |i: int| 0u64));
        lemma_total_zeros((n - 1) as nat);
    }
}

/// Whether the count is that of all buckets together, as far as 64 bits can say.
pub open spec fn balanced<T>(state: BucketView<T>) -> bool {
    total(state.bucket_counts) % 0x1_0000_0000_0000_0000 == state.count
}

proof fn lemma_wrapped_sum(sum: int, part: u64, count: u64)
    requires
        part <= sum,
        sum % 0x1_0000_0000_0000_0000 == count,
    ensures
        (sum - part + part.wrapping_add(1)) % 0x1_0000_0000_0000_0000 == count.wrapping_add(1),
        (sum - part + part.wrapping_sub(1)) % 0x1_0000_0000_0000_0000 == count.wrapping_sub(1),
{
    let m: int = 0x1_0000_0000_0000_0000;
    let q = sum / m;
    vstd::arithmetic::div_mod::lemma_fundamental_div_mod(sum, m);
    let up = sum - part + part.wrapping_add(1);
    let up_q = q + (if count == u64::MAX {
        1int
    } else {
        0
    }) - (if part == u64::MAX {
        1int
    } else {
        0
    });
    vstd::arithmetic::div_mod::lemma_fundamental_div_mod_converse(up, m, up_q, count.wrapping_add(1) as int);
    let down = sum - part + part.wrapping_sub(1);
    let down_q = q - (if count == 0 {
        1int
    } else {
        0
    }) + (if part == 0 {
        1int
    } else {
        0
    });
    vstd::arithmetic::div_mod::lemma_fundamental_div_mod_converse(
        down,
        m,
        down_q,
        count.wrapping_sub(1) as int,
    );
}

proof fn lemma_part_of_total(counts: Seq<u64>, i: int)
    requires
        0 <= i < counts.len(),
    ensures
        counts[i] <= total(counts),
    decreases counts.len(),
{
    if i < counts.len() - 1 {
        lemma_part_of_total(counts.drop_last(), i);
    }
}

/// The count is that of all buckets together: so in the beginning, and whatever is added, subtracted
/// or cleared.
pub proof fn counts_stay_balanced<T: Measure>(state: BucketView<T>, value: T)
    requires
        <Bucket<T> as Record<T>>::valid(state),
        balanced(state),
    ensures
        balanced(<Bucket<T> as Record<T>>::added(state, value)),
        balanced(<Bucket<T> as Record<T>>::subtracted(state, value)),
        balanced(<Bucket<T> as Record<T>>::cleared(state)),
{
    let i = bucket_of(state.boundaries, value);
    buckets_lie_between_boundaries(state.boundaries, value);
    lemma_total_update(state.bucket_counts, i, state.bucket_counts[i].wrapping_add(1));
    lemma_total_update(state.bucket_counts, i, state.bucket_counts[i].wrapping_sub(1));
    lemma_part_of_total(state.bucket_counts, i);
    lemma_wrapped_sum(total(state.bucket_counts) as int, state.bucket_counts[i], state.count);
    lemma_total_zeros(state.boundaries.len() + 1);
}

/// What happens to a histogram, but for subtractions: values are recorded, and the state is taken or
/// cleared.
pub ghost enum Change<T> {
    Added(T),
    Taken,
    Cleared,
}

/// The state of a histogram after changes, one after the other.
pub open spec fn changed<T: Measure>(boundaries: Seq<T>, history: Seq<Change<T>>) -> BucketView<T>
    decreases history.len(),
{
    if history.len() == 0 {
        empty_state(boundaries)
    } else {
        let before = changed(boundaries, history.drop_last());
        match history.last() {
            Change::Added(value) => <Bucket<T> as Record<T>>::added(before, value),
            Change::Taken => <Bucket<T> as Record<T>>::cleared(before),
            Change::Cleared => <Bucket<T> as Record<T>>::cleared(before),
        }
    }
}

/// The values that were recorded since the state was last taken or cleared.
pub open spec fn recorded<T: Amount>(history: Seq<Change<T>>) -> Seq<T>
    decreases history.len(),
{
    if history.len() == 0 {
        Seq::empty()
    } else {
        match history.last() {
            Change::Added(value) => if value.ordered() {
                recorded(history.drop_last()).push(value)
            } else {
                recorded(history.drop_last())
            },
            Change::Taken => Seq::empty(),
            Change::Cleared => Seq::empty(),
        }
    }
}

/// How many values fall into a bucket.
pub open spec fn fallen<T: Amount>(boundaries: Seq<T>, values: Seq<T>, i: int) -> nat
    decreases values.len(),
{
    if values.len() == 0 {
        0
    } else {
        fallen(boundaries, values.drop_last(), i) + if bucket_of(boundaries, values.last()) == i {
            1nat
        } else {
            0
        }
    }
}

/// The sum of values, one after the other.
pub open spec fn summed<T: Amount>(values: Seq<T>) -> T
    decreases values.len(),
{
    if values.len() == 0 {
        T::zero()
    } else {
        summed(values.drop_last()).plus(values.last())
    }
}

/// The least of values.
pub open spec fn least<T: Amount>(values: Seq<T>) -> T
    decreases values.len(),
{
    if values.len() == 0 {
        T::highest()
    } else {
        atomic::lowered(least(values.drop_last()), values.last())
    }
}

/// The greatest of values.
pub open spec fn greatest<T: Amount>(values: Seq<T>) -> T
    decreases values.len(),
{
    if values.len() == 0 {
        T::lowest()
    } else {
        atomic::raised(greatest(values.drop_last()), values.last())
    }
}

proof fn lemma_fallen_bound<T: Amount>(boundaries: Seq<T>, values: Seq<T>, i: int)
    ensures
        fallen(boundaries, values, i) <= values.len(),
    decreases values.len(),
{
    if values.len() > 0 {
        lemma_fallen_bound(boundaries, values.drop_last(), i);
    }
}

proof fn lemma_changed_shape<T: Measure>(boundaries: Seq<T>, history: Seq<Change<T>>)
    ensures
        changed(boundaries, history).boundaries == boundaries,
        <Bucket<T> as Record<T>>::valid(changed(boundaries, history)),
    decreases history.len(),
{
    if history.len() > 0 {
        lemma_changed_shape(boundaries, history.drop_last());
        if let Change::Added(value) = history.last() {
            buckets_lie_between_boundaries(boundaries, value);
        }
    }
}

proof fn lemma_changed_state<T: Measure>(boundaries: Seq<T>, history: Seq<Change<T>>)
    requires
        recorded(history).len() <= u64::MAX,
    ensures
        ({
            let state = changed(boundaries, history);
            let values = recorded(history);
            &&& state.count == values.len()
            &&& forall|i: int|
                0 <= i <= boundaries.len() ==> #[trigger] state.bucket_counts[i] == fallen(
                    boundaries,
                    values,
                    i,
                )
            &&& total(state.bucket_counts) == values.len()
            &&& state.sum == summed(values)
            &&& state.min == least(values)
            &&& state.max == greatest(values)
        }),
    decreases history.len(),
{
    let state = changed(boundaries, history);
    let values = recorded(history);
    lemma_changed_shape(boundaries, history);
    lemma_total_zeros(boundaries.len() + 1);
    if history.len() > 0 {
        let before = changed(boundaries, history.drop_last());
        lemma_changed_shape(boundaries, history.drop_last());
        if let Change::Added(value) = history.last() {
            lemma_changed_state(boundaries, history.drop_last());
            if value.ordered() {
                let earlier = recorded(history.drop_last());
                assert(values.drop_last() =~= earlier);
                let at = bucket_of(boundaries, value);
                buckets_lie_between_boundaries(boundaries, value);
                lemma_fallen_bound(boundaries, earlier, at);
                assert(before.bucket_counts[at] == fallen(boundaries, earlier, at));
                lemma_total_update(before.bucket_counts, at, before.bucket_counts[at].wrapping_add(1));
                assert forall|i: int| 0 <= i <= boundaries.len() implies #[trigger] state.bucket_counts[i]
                    == fallen(boundaries, values, i) by {
                    assert(before.bucket_counts[i] == fallen(boundaries, earlier, i));
                }
            }
        }
    }
}

/// A snapshot is consistent, whatever was recorded, taken and cleared before it, one after the other:
/// each bucket counts the values that fell into it since the state was last taken or cleared, the
/// count is that of all buckets together, and the sum and the bounds are those of the same values.
/// Bounds are missing exactly where nothing was recorded. What is taken is the snapshot just before.
pub proof fn snapshots_are_consistent<T: Measure>(boundaries: Seq<T>, history: Seq<Change<T>>)
    requires
        recorded(history).len() <= u64::MAX,
    ensures
        ({
            let snapshot = <Bucket<T> as Record<T>>::reading(changed(boundaries, history));
            let values = recorded(history);
            &&& snapshot.boundaries == boundaries
            &&& snapshot.bucket_counts.len() == boundaries.len() + 1
            &&& forall|i: int|
                0 <= i <= boundaries.len() ==> #[trigger] snapshot.bucket_counts[i] == fallen(
                    boundaries,
                    values,
                    i,
                )
            &&& snapshot.count == total(snapshot.bucket_counts)
            &&& snapshot.count == values.len()
            &&& snapshot.sum == summed(values)
            &&& snapshot.min == if values.len() == 0 {
                None
            } else {
                Some(least(values))
            }
            &&& snapshot.max == if values.len() == 0 {
                None
            } else {
                Some(greatest(values))
            }
        }),
{
    lemma_changed_shape(boundaries, history);
    lemma_changed_state(boundaries, history);
}

/// Subtracting a value undoes adding it, but for the bounds: counts and sum are as before, wherever
/// the arithmetic of the amounts undoes the sum.
pub proof fn subtracting_undoes_adding<T: Measure>(state: BucketView<T>, value: T)
    requires
        <Bucket<T> as Record<T>>::valid(state),
        state.sum.plus(value).minus(value) == state.sum,
    ensures
        ({
            let back = <Bucket<T> as Record<T>>::subtracted(
                <Bucket<T> as Record<T>>::added(state, value),
                value,
            );
            &&& back.bucket_counts == state.bucket_counts
            &&& back.count == state.count
            &&& back.sum == state.sum
            &&& back.boundaries == state.boundaries
        }),
{
    let i = bucket_of(state.boundaries, value);
    buckets_lie_between_boundaries(state.boundaries, value);
    let back = <Bucket<T> as Record<T>>::subtracted(<Bucket<T> as Record<T>>::added(state, value), value);
    assert(back.bucket_counts =~= state.bucket_counts);
}

/// What a snapshot has beyond an earlier one, together with the earlier one, is the later one: in
/// every bucket, and in the count.
pub proof fn differences_add_up<T: Amount>(current: SnapshotView<T>, previous: SnapshotView<T>, i: int)
    requires
        current.bucket_counts.len() == previous.bucket_counts.len(),
        0 <= i < current.bucket_counts.len(),
        previous.bucket_counts[i] <= current.bucket_counts[i],
        previous.count <= current.count,
    ensures
        ({
            let change = <Snapshot<T> as Reading>::since(current, previous);
            &&& change.bucket_counts.len() == current.bucket_counts.len()
            &&& previous.bucket_counts[i] + change.bucket_counts[i] == current.bucket_counts[i]
            &&& previous.count + change.count == current.count
        }),
{
}

} // verus!
