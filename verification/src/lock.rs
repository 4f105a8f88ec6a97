//! A sequence lock: readers take what they read only where no write went on meanwhile.

use std::sync::atomic::{AtomicU64, Ordering};
use vstd::prelude::*;

verus! {

/// A sequence lock that returns a consistent snapshot of `inner` under many writers.
///
/// It does not keep writers apart. Where two writers run at the same time, what they do to `inner`
/// is interleaved in any way, and the final state may be a mix of both writers' work. That is fine as
/// long as all that writers do to `inner` is commutative, so that any interleaving leads to the same
/// end state. A plain store inside breaks it.
pub struct SeqLock<T> {
    start: AtomicU64,
    end: AtomicU64,
    inner: T,
}

/// `std::sync::atomic::fence` with acquire order. Nothing is stated of it: it returns nothing.
#[verifier::external_body]
fn acquire_fence() {
    std::sync::atomic::fence(Ordering::Acquire)
}

/// `std::hint::spin_loop`. Nothing is stated of it: it returns nothing.
#[verifier::external_body]
fn spin() {
    std::hint::spin_loop()
}

/// Whether a reader that found `end_before` writes finished, then `start_before` writes begun, then
/// read, and then found `start_after` writes begun may take what it read.
pub fn undisturbed(end_before: u64, start_before: u64, start_after: u64) -> (r: bool)
    ensures
        r == (start_before == end_before && start_after == start_before),
{
    start_before == end_before && start_after == start_before
}

/// What a reader that found these counts takes of what it read.
pub fn taken<R>(end_before: u64, start_before: u64, start_after: u64, read: R) -> (r: Option<R>)
    ensures
        r == if start_before == end_before && start_after == start_before {
            Some(read)
        } else {
            None::<R>
        },
{
    if undisturbed(end_before, start_before, start_after) {
        Some(read)
    } else {
        None
    }
}

impl<T> SeqLock<T> {
    /// What the lock guards.
    pub closed spec fn inner(&self) -> T {
        self.inner
    }

    pub fn new(inner: T) -> (r: SeqLock<T>)
        ensures
            r.inner() == inner,
    {
        SeqLock { start: AtomicU64::new(0), end: AtomicU64::new(0), inner }
    }

    /// Writes. Use no operation in `cb` for which the order matters.
    pub fn write<R, F: FnOnce(&T) -> R>(&self, cb: F) -> (r: R)
        requires
            cb.requires((&self.inner(),)),
        ensures
            cb.ensures((&self.inner(),), r),
    {
        let _ = self.start.fetch_add(1, Ordering::AcqRel);
        let r = cb(&self.inner);
        let _ = self.end.fetch_add(1, Ordering::Release);
        r
    }

    /// One attempt to read: nothing where a write went on meanwhile. Writers may come at any time, so
    /// nothing is stated of when that is; [`taken`] says what is taken for given counts.
    pub fn try_read<R, F: Fn(&T) -> R>(&self, cb: &F) -> (r: Option<R>)
        requires
            cb.requires((&self.inner(),)),
        ensures
            r matches Some(read) ==> cb.ensures((&self.inner(),), read),
    {
        let end_before: u64 = self.end.load(Ordering::Acquire);
        let start_before: u64 = self.start.load(Ordering::Acquire);
        if start_before != end_before {
            return None;
        }
        let read = cb(&self.inner);
        acquire_fence();
        let start_after: u64 = self.start.load(Ordering::Relaxed);
        taken(end_before, start_before, start_after, read)
    }

    /// Reads, in at most as many attempts as given: nothing where a write went on during each.
    pub fn read<R, F: Fn(&T) -> R>(&self, cb: F, attempts: usize) -> (r: Option<R>)
        requires
            cb.requires((&self.inner(),)),
        ensures
            r matches Some(read) ==> cb.ensures((&self.inner(),), read),
            attempts == 0 ==> r is None,
    {
        let mut left: usize = attempts;
        while left > 0
            invariant
                cb.requires((&self.inner(),)),
                left <= attempts,
            decreases left,
        {
            if let Some(read) = self.try_read(&cb) {
                return Some(read);
            }
            spin();
            left = left - 1;
        }
        None
    }
}

/// How many writes had begun and how many had finished, at each moment.
pub ghost struct Trace {
    pub begun: spec_fn(nat) -> nat,
    pub finished: spec_fn(nat) -> nat,
}

impl Trace {
    /// Counts do not fall, and a write begins before it finishes.
    pub open spec fn wf(self) -> bool {
        &&& forall|s: nat, t: nat| s <= t ==> #[trigger] (self.begun)(s) <= #[trigger] (self.begun)(t)
        &&& forall|s: nat, t: nat|
            s <= t ==> #[trigger] (self.finished)(s) <= #[trigger] (self.finished)(t)
        &&& forall|t: nat| #[trigger] (self.finished)(t) <= (self.begun)(t)
    }

    /// Whether no write is under way at any moment of a span.
    pub open spec fn quiet(self, from: nat, to: nat) -> bool {
        forall|t: nat| from <= t <= to ==> #[trigger] (self.begun)(t) == (self.finished)(t)
    }
}

/// What a counter of 64 bits shows of a count.
pub open spec fn shown(count: nat) -> u64 {
    (count % 0x1_0000_0000_0000_0000) as u64
}

/// A reader that is told to take what it read was disturbed by no write from the moment at which it
/// began to read to the moment at which it was done, as long as fewer than 2^64 writes begin meanwhile.
pub proof fn taken_reads_are_undisturbed(trace: Trace, first: nat, second: nat, third: nat)
    requires
        trace.wf(),
        first <= second <= third,
        (trace.begun)(third) - (trace.finished)(first) < 0x1_0000_0000_0000_0000,
        shown((trace.begun)(second)) == shown((trace.finished)(first)),
        shown((trace.begun)(third)) == shown((trace.begun)(second)),
    ensures
        trace.quiet(second, third),
{
    assert((trace.finished)(first) <= (trace.finished)(second) <= (trace.begun)(second) <= (trace.begun)(
        third,
    ));
    assert((trace.begun)(second) == (trace.finished)(first));
    assert((trace.begun)(third) == (trace.begun)(second));
    assert forall|t: nat| second <= t <= third implies #[trigger] (trace.begun)(t) == (trace.finished)(t) by {
        assert((trace.begun)(second) <= (trace.begun)(t) <= (trace.begun)(third));
        assert((trace.finished)(second) <= (trace.finished)(t));
    }
}

/// A reader that no write disturbs is told to take what it read.
pub proof fn undisturbed_reads_are_taken(trace: Trace, first: nat, second: nat, third: nat)
    requires
        trace.wf(),
        first <= second <= third,
        trace.quiet(first, third),
        (trace.begun)(first) == (trace.begun)(third),
    ensures
        shown((trace.begun)(second)) == shown((trace.finished)(first)),
        shown((trace.begun)(third)) == shown((trace.begun)(second)),
{
    assert((trace.begun)(first) == (trace.finished)(first));
    assert((trace.begun)(first) <= (trace.begun)(second) <= (trace.begun)(third));
}

} // verus!
