//! Amounts, the cells that hold them, and histograms of them.

use crate::atomic;
use crate::atomic::histogram;
use crate::atomic::histogram::{Bucket, BucketView, Change, Snapshot, SnapshotView};
use crate::atomic::integers::{AtomicI64, AtomicU64};
use crate::atomic::{Amount, IsInitial, Measure, Reading, Record};
use vstd::prelude::*;

verus! {

/// Unsigned amounts compare, add and subtract as integers do, and wrap where 64 bits end. None is above
/// the one that a minimum starts from, and none is below the one that a maximum starts from.
pub proof fn unsigned_amounts_are_integers(a: u64, b: u64)
    ensures
        a.ordered(),
        a.below(b) <==> a < b,
        a.alike(b) <==> a == b,
        a.plus(b) == if a + b > u64::MAX {
            a + b - 0x1_0000_0000_0000_0000
        } else {
            a + b
        },
        a.minus(b) == if a < b {
            a - b + 0x1_0000_0000_0000_0000
        } else {
            a - b
        },
        <u64 as Amount>::zero() == 0,
        a <= <u64 as Amount>::highest(),
        <u64 as Amount>::lowest() <= a,
{
}

/// Signed amounts compare, add and subtract as integers do, and wrap where 64 bits end. None is above
/// the one that a minimum starts from, and none is below the one that a maximum starts from.
pub proof fn signed_amounts_are_integers(a: i64, b: i64)
    ensures
        a.ordered(),
        a.below(b) <==> a < b,
        a.alike(b) <==> a == b,
        a.plus(b) == if a + b > i64::MAX {
            a + b - 0x1_0000_0000_0000_0000
        } else if a + b < i64::MIN {
            a + b + 0x1_0000_0000_0000_0000
        } else {
            a + b
        },
        a.minus(b) == if a - b > i64::MAX {
            a - b - 0x1_0000_0000_0000_0000
        } else if a - b < i64::MIN {
            a - b + 0x1_0000_0000_0000_0000
        } else {
            a - b
        },
        <i64 as Amount>::zero() == 0,
        a <= <i64 as Amount>::highest(),
        <i64 as Amount>::lowest() <= a,
{
}

/// A reading of an unsigned cell is initial where it is zero, and what it holds beyond an earlier one
/// leads from there to it.
pub proof fn unsigned_readings_are_integers(current: u64, previous: u64)
    ensures
        <u64 as IsInitial>::initial(current) <==> current == 0,
        <u64 as Reading>::same(current, previous) <==> current == previous,
        <u64 as Reading>::before(previous, current) <==> previous < current,
        previous <= current ==> previous + <u64 as Reading>::since(current, previous) == current,
{
}

/// A reading of a signed cell is initial where it is zero, and what it holds beyond an earlier one leads
/// from there to it, as far as a signed integer can say.
pub proof fn signed_readings_are_integers(current: i64, previous: i64)
    ensures
        <i64 as IsInitial>::initial(current) <==> current == 0,
        <i64 as Reading>::same(current, previous) <==> current == previous,
        <i64 as Reading>::before(previous, current) <==> previous < current,
        i64::MIN <= current - previous <= i64::MAX ==> previous + <i64 as Reading>::since(
            current,
            previous,
        ) == current,
{
}

/// A look at an unsigned cell gives what was added to it less what was subtracted, from the beginning on.
pub proof fn unsigned_cells_accumulate(state: u64, value: u64)
    ensures
        <AtomicU64 as Record<u64>>::reading(state) == state,
        state + value <= u64::MAX ==> <AtomicU64 as Record<u64>>::reading(
            <AtomicU64 as Record<u64>>::added(state, value),
        ) == state + value,
        value <= state ==> <AtomicU64 as Record<u64>>::reading(
            <AtomicU64 as Record<u64>>::subtracted(state, value),
        ) == state - value,
        <AtomicU64 as Record<u64>>::added(state, value) == state.plus(value),
        <AtomicU64 as Record<u64>>::subtracted(state, value) == state.minus(value),
        <AtomicU64 as Record<u64>>::reading(<AtomicU64 as Record<u64>>::cleared(state)) == 0,
{
}

/// A look at a signed cell gives what was added to it less what was subtracted, from the beginning on.
pub proof fn signed_cells_accumulate(state: i64, value: i64)
    ensures
        <AtomicI64 as Record<i64>>::reading(state) == state,
        i64::MIN <= state + value <= i64::MAX ==> <AtomicI64 as Record<i64>>::reading(
            <AtomicI64 as Record<i64>>::added(state, value),
        ) == state + value,
        i64::MIN <= state - value <= i64::MAX ==> <AtomicI64 as Record<i64>>::reading(
            <AtomicI64 as Record<i64>>::subtracted(state, value),
        ) == state - value,
        <AtomicI64 as Record<i64>>::added(state, value) == state.plus(value),
        <AtomicI64 as Record<i64>>::subtracted(state, value) == state.minus(value),
        <AtomicI64 as Record<i64>>::reading(<AtomicI64 as Record<i64>>::cleared(state)) == 0,
{
}

/// A minimum becomes the smaller of itself and a value, a maximum the larger, and a stored value takes
/// the place of what was there.
pub proof fn unsigned_bounds_are_tight(state: u64, value: u64)
    ensures
        atomic::lowered(state, value) == if value < state {
            value
        } else {
            state
        },
        atomic::raised(state, value) == if value > state {
            value
        } else {
            state
        },
        atomic::stored(state, value) == value,
{
}

/// A minimum becomes the smaller of itself and a value, a maximum the larger, and a stored value takes
/// the place of what was there.
pub proof fn signed_bounds_are_tight(state: i64, value: i64)
    ensures
        atomic::lowered(state, value) == if value < state {
            value
        } else {
            state
        },
        atomic::raised(state, value) == if value > state {
            value
        } else {
            state
        },
        atomic::stored(state, value) == value,
{
}

/// What does not compare is never recorded: it is no minimum, no maximum, and nothing to be stored.
pub proof fn what_does_not_compare_is_ignored<T: Measure>(
    state: T,
    histogram: BucketView<T>,
    value: T,
)
    requires
        !value.ordered(),
    ensures
        atomic::lowered(state, value) == state,
        atomic::raised(state, value) == state,
        atomic::stored(state, value) == state,
        <Bucket<T> as Record<T>>::added(histogram, value) == histogram,
        <Bucket<T> as Record<T>>::subtracted(histogram, value) == histogram,
{
}

/// The sum of unsigned values, without bounds.
pub open spec fn unsigned_sum(values: Seq<u64>) -> int
    decreases values.len(),
{
    if values.len() == 0 {
        0
    } else {
        unsigned_sum(values.drop_last()) + values.last()
    }
}

/// The sum of signed values, without bounds.
pub open spec fn signed_sum(values: Seq<i64>) -> int
    decreases values.len(),
{
    if values.len() == 0 {
        0
    } else {
        signed_sum(values.drop_last()) + values.last()
    }
}

/// How often 2^64 must be taken from a sum for it to be `wrapped`.
proof fn lemma_wraps(total: int, wraps: int, wrapped: int, low: int, high: int)
    requires
        wrapped == total - wraps * 0x1_0000_0000_0000_0000,
        low <= wrapped <= high,
        low <= total <= high,
        high - low < 0x1_0000_0000_0000_0000,
    ensures
        wrapped == total,
{
    assert(wraps == 0) by (nonlinear_arith)
        requires
            wrapped == total - wraps * 0x1_0000_0000_0000_0000,
            -0x1_0000_0000_0000_0000 < wrapped - total < 0x1_0000_0000_0000_0000,
    ;
}

proof fn lemma_unsigned_values(values: Seq<u64>) -> (wraps: int)
    ensures
        histogram::summed(values) == unsigned_sum(values) - wraps * 0x1_0000_0000_0000_0000,
        values.len() > 0 ==> values.contains(histogram::least(values)),
        values.len() > 0 ==> values.contains(histogram::greatest(values)),
        forall|i: int| 0 <= i < values.len() ==> histogram::least(values) <= #[trigger] values[i],
        forall|i: int| 0 <= i < values.len() ==> #[trigger] values[i] <= histogram::greatest(values),
    decreases values.len(),
{
    if values.len() == 0 {
        0
    } else {
        let before = values.drop_last();
        let last = values.len() - 1;
        let wraps = lemma_unsigned_values(before);
        assert(values[last] == values.last());
        assert forall|i: int| 0 <= i < values.len() implies histogram::least(values) <= #[trigger] values[i]
            && values[i] <= histogram::greatest(values) by {
            if i < last {
                assert(before[i] == values[i]);
            }
        }
        if histogram::least(values) != values.last() {
            if before.len() > 0 {
                let i = choose|i: int| 0 <= i < before.len() && before[i] == histogram::least(before);
                assert(values[i] == histogram::least(values));
            }
        }
        if histogram::greatest(values) != values.last() {
            if before.len() > 0 {
                let i = choose|i: int| 0 <= i < before.len() && before[i] == histogram::greatest(before);
                assert(values[i] == histogram::greatest(values));
            }
        }
        if histogram::summed(before) + values.last() > u64::MAX {
            wraps + 1
        } else {
            wraps
        }
    }
}

proof fn lemma_signed_values(values: Seq<i64>) -> (wraps: int)
    ensures
        histogram::summed(values) == signed_sum(values) - wraps * 0x1_0000_0000_0000_0000,
        values.len() > 0 ==> values.contains(histogram::least(values)),
        values.len() > 0 ==> values.contains(histogram::greatest(values)),
        forall|i: int| 0 <= i < values.len() ==> histogram::least(values) <= #[trigger] values[i],
        forall|i: int| 0 <= i < values.len() ==> #[trigger] values[i] <= histogram::greatest(values),
    decreases values.len(),
{
    if values.len() == 0 {
        0
    } else {
        let before = values.drop_last();
        let last = values.len() - 1;
        let wraps = lemma_signed_values(before);
        assert(values[last] == values.last());
        assert forall|i: int| 0 <= i < values.len() implies histogram::least(values) <= #[trigger] values[i]
            && values[i] <= histogram::greatest(values) by {
            if i < last {
                assert(before[i] == values[i]);
            }
        }
        if histogram::least(values) != values.last() {
            if before.len() > 0 {
                let i = choose|i: int| 0 <= i < before.len() && before[i] == histogram::least(before);
                assert(values[i] == histogram::least(values));
            }
        }
        if histogram::greatest(values) != values.last() {
            if before.len() > 0 {
                let i = choose|i: int| 0 <= i < before.len() && before[i] == histogram::greatest(before);
                assert(values[i] == histogram::greatest(values));
            }
        }
        if histogram::summed(before) + values.last() > i64::MAX {
            wraps + 1
        } else if histogram::summed(before) + values.last() < i64::MIN {
            wraps - 1
        } else {
            wraps
        }
    }
}

/// The minimum of a snapshot is one of the values that were recorded since the last reset, and none of
/// them is below it; so with the maximum. Bounds are there exactly where something was recorded. The sum
/// is that of the values, where 64 bits hold it.
pub proof fn unsigned_snapshots_bound_their_values(boundaries: Seq<u64>, history: Seq<Change<u64>>)
    requires
        histogram::recorded(history).len() <= u64::MAX,
    ensures
        ({
            let snapshot = <Bucket<u64> as Record<u64>>::reading(histogram::changed(boundaries, history));
            let values = histogram::recorded(history);
            &&& snapshot.min is Some <==> values.len() > 0
            &&& snapshot.max is Some <==> values.len() > 0
            &&& snapshot.min matches Some(min) ==> values.contains(min) && forall|i: int|
                0 <= i < values.len() ==> min <= #[trigger] values[i]
            &&& snapshot.max matches Some(max) ==> values.contains(max) && forall|i: int|
                0 <= i < values.len() ==> #[trigger] values[i] <= max
            &&& unsigned_sum(values) <= u64::MAX ==> snapshot.sum == unsigned_sum(values)
        }),
{
    let values = histogram::recorded(history);
    histogram::snapshots_are_consistent(boundaries, history);
    let wraps = lemma_unsigned_values(values);
    if unsigned_sum(values) <= u64::MAX {
        lemma_unsigned_sum_is_positive(values);
        lemma_wraps(unsigned_sum(values), wraps, histogram::summed(values) as int, 0, u64::MAX as int);
    }
}

proof fn lemma_unsigned_sum_is_positive(values: Seq<u64>)
    ensures
        unsigned_sum(values) >= 0,
    decreases values.len(),
{
    if values.len() > 0 {
        lemma_unsigned_sum_is_positive(values.drop_last());
    }
}

/// The minimum of a snapshot is one of the values that were recorded since the last reset, and none of
/// them is below it; so with the maximum. Bounds are there exactly where something was recorded. The sum
/// is that of the values, where 64 bits hold it.
pub proof fn signed_snapshots_bound_their_values(boundaries: Seq<i64>, history: Seq<Change<i64>>)
    requires
        histogram::recorded(history).len() <= u64::MAX,
    ensures
        ({
            let snapshot = <Bucket<i64> as Record<i64>>::reading(histogram::changed(boundaries, history));
            let values = histogram::recorded(history);
            &&& snapshot.min is Some <==> values.len() > 0
            &&& snapshot.max is Some <==> values.len() > 0
            &&& snapshot.min matches Some(min) ==> values.contains(min) && forall|i: int|
                0 <= i < values.len() ==> min <= #[trigger] values[i]
            &&& snapshot.max matches Some(max) ==> values.contains(max) && forall|i: int|
                0 <= i < values.len() ==> #[trigger] values[i] <= max
            &&& i64::MIN <= signed_sum(values) <= i64::MAX ==> snapshot.sum == signed_sum(values)
        }),
{
    let values = histogram::recorded(history);
    histogram::snapshots_are_consistent(boundaries, history);
    let wraps = lemma_signed_values(values);
    if i64::MIN <= signed_sum(values) <= i64::MAX {
        lemma_wraps(
            signed_sum(values),
            wraps,
            histogram::summed(values) as int,
            i64::MIN as int,
            i64::MAX as int,
        );
    }
}

/// Every recorded value is remembered until the state is next taken or cleared, the last one last.
pub proof fn recorded_values_are_remembered(
    history: Seq<Change<u64>>,
    signed: Seq<Change<i64>>,
    a: u64,
    b: i64,
)
    ensures
        histogram::recorded(history.push(Change::Added(a))) == histogram::recorded(history).push(a),
        histogram::recorded(signed.push(Change::Added(b))) == histogram::recorded(signed).push(b),
        histogram::recorded(history.push(Change::Taken)) == Seq::<u64>::empty(),
        histogram::recorded(history.push(Change::Cleared)) == Seq::<u64>::empty(),
        histogram::recorded(signed.push(Change::Taken)) == Seq::<i64>::empty(),
        histogram::recorded(signed.push(Change::Cleared)) == Seq::<i64>::empty(),
{
    assert(history.push(Change::Added(a)).drop_last() =~= history);
    assert(signed.push(Change::Added(b)).drop_last() =~= signed);
}

/// Recording, subtracting and clearing keep the boundaries of a histogram and the number of its buckets,
/// and what was subtracted leaves the bounds as they were.
pub proof fn histograms_keep_their_shape<T: Measure>(state: BucketView<T>, value: T)
    requires
        state.bucket_counts.len() == state.boundaries.len() + 1,
    ensures
        <Bucket<T> as Record<T>>::valid(state),
        ({
            let added = <Bucket<T> as Record<T>>::added(state, value);
            let subtracted = <Bucket<T> as Record<T>>::subtracted(state, value);
            let cleared = <Bucket<T> as Record<T>>::cleared(state);
            &&& added.boundaries == state.boundaries
            &&& added.bucket_counts.len() == state.bucket_counts.len()
            &&& subtracted.boundaries == state.boundaries
            &&& subtracted.bucket_counts.len() == state.bucket_counts.len()
            &&& subtracted.min == state.min
            &&& subtracted.max == state.max
            &&& cleared.boundaries == state.boundaries
            &&& cleared.bucket_counts.len() == state.bucket_counts.len()
        }),
{
    histogram::buckets_lie_between_boundaries(state.boundaries, value);
}

/// A value changes the count of exactly one bucket: the one whose upper boundary is the first that is
/// not below the value.
pub proof fn values_change_one_bucket<T: Measure>(state: BucketView<T>, value: T, bucket: int)
    requires
        state.bucket_counts.len() == state.boundaries.len() + 1,
        value.ordered(),
        0 <= bucket <= state.boundaries.len(),
        forall|i: int| 0 <= i < bucket ==> (#[trigger] state.boundaries[i]).below(value),
        bucket < state.boundaries.len() ==> !state.boundaries[bucket].below(value),
    ensures
        ({
            let added = <Bucket<T> as Record<T>>::added(state, value);
            let subtracted = <Bucket<T> as Record<T>>::subtracted(state, value);
            &&& forall|i: int|
                0 <= i < state.bucket_counts.len() && i != bucket ==> #[trigger] added.bucket_counts[i]
                    == state.bucket_counts[i]
            &&& forall|i: int|
                0 <= i < state.bucket_counts.len() && i != bucket ==> #[trigger] subtracted.bucket_counts[i]
                    == state.bucket_counts[i]
            &&& state.bucket_counts[bucket] < u64::MAX ==> added.bucket_counts[bucket]
                == state.bucket_counts[bucket] + 1
            &&& state.bucket_counts[bucket] > 0 ==> subtracted.bucket_counts[bucket]
                == state.bucket_counts[bucket] - 1
            &&& state.count < u64::MAX ==> added.count == state.count + 1
            &&& state.count > 0 ==> subtracted.count == state.count - 1
            &&& added.sum == state.sum.plus(value)
            &&& subtracted.sum == state.sum.minus(value)
        }),
{
    histogram::buckets_lie_between_boundaries(state.boundaries, value);
    let found = histogram::bucket_of(state.boundaries, value);
    if found < bucket {
        assert(state.boundaries[found].below(value));
    } else if bucket < found {
        assert(state.boundaries[bucket].below(value));
    }
}

/// Boundaries that a histogram accepts are those each of which is above all before it.
pub proof fn boundaries_increase(unsigned: Seq<u64>, signed: Seq<i64>)
    ensures
        histogram::increasing(unsigned) <==> forall|i: int, j: int|
            0 <= i < j < unsigned.len() ==> #[trigger] unsigned[i] < #[trigger] unsigned[j],
        histogram::increasing(signed) <==> forall|i: int, j: int|
            0 <= i < j < signed.len() ==> #[trigger] signed[i] < #[trigger] signed[j],
{
    if histogram::increasing(unsigned) {
        assert forall|i: int, j: int| 0 <= i < j < unsigned.len() implies #[trigger] unsigned[i]
            < #[trigger] unsigned[j] by {
            lemma_unsigned_increase(unsigned, i, j);
        }
    }
    if histogram::increasing(signed) {
        assert forall|i: int, j: int| 0 <= i < j < signed.len() implies #[trigger] signed[i]
            < #[trigger] signed[j] by {
            lemma_signed_increase(signed, i, j);
        }
    }
}

proof fn lemma_unsigned_increase(boundaries: Seq<u64>, i: int, j: int)
    requires
        histogram::increasing(boundaries),
        0 <= i < j < boundaries.len(),
    ensures
        boundaries[i] < boundaries[j],
    decreases j - i,
{
    assert(boundaries[j - 1].below(boundaries[j]));
    if i < j - 1 {
        lemma_unsigned_increase(boundaries, i, j - 1);
    }
}

proof fn lemma_signed_increase(boundaries: Seq<i64>, i: int, j: int)
    requires
        histogram::increasing(boundaries),
        0 <= i < j < boundaries.len(),
    ensures
        boundaries[i] < boundaries[j],
    decreases j - i,
{
    assert(boundaries[j - 1].below(boundaries[j]));
    if i < j - 1 {
        lemma_signed_increase(boundaries, i, j - 1);
    }
}

/// The larger of a difference and zero.
pub open spec fn gain(current: int, previous: int) -> int {
    if current > previous {
        current - previous
    } else {
        0
    }
}

/// What a snapshot has beyond an earlier one keeps its boundaries, so of two snapshots of one histogram it
/// still has one bucket more than boundaries. Every bucket that both have, and the count, has what it
/// gained. Bounds cannot be told apart, so there are none.
pub proof fn histogram_differences_keep_boundaries<T: Amount>(
    current: SnapshotView<T>,
    previous: SnapshotView<T>,
)
    ensures
        ({
            let change = <Snapshot<T> as Reading>::since(current, previous);
            &&& change.boundaries == current.boundaries
            &&& current.boundaries == previous.boundaries && current.bucket_counts.len()
                == current.boundaries.len() + 1 && previous.bucket_counts.len() == previous.boundaries.len() + 1
                ==> change.bucket_counts.len() == change.boundaries.len() + 1
            &&& change.bucket_counts.len() == if current.bucket_counts.len() < previous.bucket_counts.len() {
                current.bucket_counts.len()
            } else {
                previous.bucket_counts.len()
            }
            &&& forall|i: int|
                0 <= i < change.bucket_counts.len() ==> #[trigger] change.bucket_counts[i] == gain(
                    current.bucket_counts[i] as int,
                    previous.bucket_counts[i] as int,
                )
            &&& change.count == gain(current.count as int, previous.count as int)
            &&& change.min is None
            &&& change.max is None
        }),
{
}

/// The sum that a snapshot has beyond an earlier one is what it gained, or zero where it did not.
pub proof fn histogram_differences_have_the_gain(
    unsigned: SnapshotView<u64>,
    unsigned_before: SnapshotView<u64>,
    signed: SnapshotView<i64>,
    signed_before: SnapshotView<i64>,
)
    ensures
        <Snapshot<u64> as Reading>::since(unsigned, unsigned_before).sum == gain(
            unsigned.sum as int,
            unsigned_before.sum as int,
        ),
        signed.sum - signed_before.sum <= i64::MAX ==> <Snapshot<i64> as Reading>::since(
            signed,
            signed_before,
        ).sum == gain(signed.sum as int, signed_before.sum as int),
{
}

/// Snapshots of integers are the same exactly where all they hold is. They are ordered by their counts,
/// and initial where they count nothing.
pub proof fn histogram_readings_compare(
    unsigned: SnapshotView<u64>,
    other_unsigned: SnapshotView<u64>,
    signed: SnapshotView<i64>,
    other_signed: SnapshotView<i64>,
)
    ensures
        <Snapshot<u64> as Reading>::same(unsigned, other_unsigned) <==> unsigned == other_unsigned,
        <Snapshot<i64> as Reading>::same(signed, other_signed) <==> signed == other_signed,
        <Snapshot<u64> as Reading>::before(unsigned, other_unsigned) <==> unsigned.count
            < other_unsigned.count,
        <Snapshot<i64> as Reading>::before(signed, other_signed) <==> signed.count < other_signed.count,
        <Snapshot<u64> as IsInitial>::initial(unsigned) <==> unsigned.count == 0,
        <Snapshot<i64> as IsInitial>::initial(signed) <==> signed.count == 0,
{
    if <Snapshot<u64> as Reading>::same(unsigned, other_unsigned) {
        assert(unsigned =~= other_unsigned);
    }
    if <Snapshot<i64> as Reading>::same(signed, other_signed) {
        assert(signed =~= other_signed);
    }
}

/// A snapshot as it is held is what is said of it: no part stands for another.
pub proof fn snapshots_are_seen_as_they_are<T>(snapshot: Snapshot<T>)
    ensures
        snapshot@.boundaries == snapshot.boundaries@,
        snapshot@.bucket_counts == snapshot.bucket_counts@,
        snapshot@.count == snapshot.count,
        snapshot@.sum == snapshot.sum,
        snapshot@.min == snapshot.min,
        snapshot@.max == snapshot.max,
{
}

} // verus!
