//! A collector that polls its observers on a fixed grid and exports what they saw in batches.

use crate::collect::timer;
use crate::collect::timer::{CollectorTime, GridTimer};
use crate::dto;
use crate::error;
use crate::error::Error;
use crate::model;
use crate::model::NameIdentity;
use crate::observe;
use crate::observe::{DynObserver, MetricSource, Mode, SyncObserver};
use crate::order;
use crate::time;
use crate::time::{Duration, Instant};
use std::marker::PhantomData;
use std::sync::atomic::{AtomicBool, Ordering};
use std::sync::Arc;
use vstd::prelude::*;

verus! {

/// The capacity of the channel for export batches where [`Config::batch_capacity`] gives none.
pub const DEFAULT_BATCH_CAPACITY: usize = 64;

/// A number of batches that is not zero.
#[derive(Debug, Clone, Copy)]
pub struct Capacity {
    batches: usize,
}

impl View for Capacity {
    type V = usize;

    closed spec fn view(&self) -> usize {
        self.batches
    }
}

impl Capacity {
    #[verifier::type_invariant]
    spec fn some(self) -> bool {
        self.batches > 0
    }

    pub fn new(batches: usize) -> (r: Option<Capacity>)
        ensures
            match r {
                Some(capacity) => batches > 0 && capacity@ == batches,
                None => batches == 0,
            },
    {
        if batches == 0 {
            None
        } else {
            Some(Capacity { batches })
        }
    }

    pub fn get(&self) -> (r: usize)
        ensures
            r == self@,
            r > 0,
    {
        proof {
            use_type_invariant(self);
        }
        self.batches
    }
}

/// A sender whose forwarding can be switched at any time through a shared handle. While it is off,
/// batches are dropped instead of being handed to the inner sender.
///
/// It makes it easier to use collectors for debugging, such as the one for the console, in production:
/// they can just be switched off while they are not needed.
#[derive(Debug)]
pub struct Gated<S> {
    inner: S,
    enabled: Arc<AtomicBool>,
}

/// What is forwarded: a batch where forwarding is on, nothing where it is off.
pub fn pass<B>(enabled: bool, batch: B) -> (r: Option<B>)
    ensures
        r == if enabled {
            Some(batch)
        } else {
            None::<B>
        },
{
    if enabled {
        Some(batch)
    } else {
        None
    }
}

impl<S> Gated<S> {
    pub closed spec fn inner(&self) -> S {
        self.inner
    }

    /// The switch that is shared with its handles.
    pub closed spec fn switch(&self) -> Arc<AtomicBool> {
        self.enabled
    }

    /// A sender with a switch of its own, which is on.
    pub fn new(inner: S) -> (r: Gated<S>)
        ensures
            r.inner() == inner,
    {
        Gated::with_enabled(inner, Arc::new(AtomicBool::new(true)))
    }

    /// A sender with a given switch.
    pub fn with_enabled(inner: S, enabled: Arc<AtomicBool>) -> (r: Gated<S>)
        ensures
            r.inner() == inner,
            r.switch() == enabled,
    {
        Gated { inner, enabled }
    }

    /// Sets the switch. Whoever shares it may set it again at any time, so nothing is stated of what
    /// is read afterwards.
    pub fn set_enabled(&self, enabled: bool) {
        self.enabled.store(enabled, Ordering::Relaxed);
    }

    /// Reads the switch. Whoever shares it may set it at any time, so nothing is stated of what is
    /// read.
    pub fn is_enabled(&self) -> (r: bool) {
        self.enabled.load(Ordering::Relaxed)
    }

    /// A second handle to the switch.
    pub fn enabled_handle(&self) -> (r: Arc<AtomicBool>)
        ensures
            r == self.switch(),
    {
        model::share(&self.enabled)
    }

    /// The inner sender together with a batch that it is to send, where the switch is on.
    pub fn forward<B>(&mut self, batch: B) -> (r: Option<(&mut S, B)>)
        ensures
            match r {
                Some((inner, admitted)) => admitted == batch && *inner == old(self).inner() && final(self).inner() == *final(inner) && final(self).switch() == old(self).switch(),
                None => *final(self) == *old(self),
            },
    {
        let enabled = self.is_enabled();
        match pass(enabled, batch) {
            Some(admitted) => Some((&mut self.inner, admitted)),
            None => None,
        }
    }
}

/// The configuration of a periodic collector.
#[derive(Debug, Clone, Copy)]
pub struct Config {
    /// Observers are polled once in every such span.
    pub poll_period: Duration,
    /// What they saw is exported once in every such span.
    pub export_period: Duration,
    /// Whether timestamps are derived from the start of the observers and the poll index, which makes
    /// them uniform.
    pub align_timestamps: bool,
    /// The capacity of the channel for export batches that wait for the sender. While it is full, new
    /// batches are discarded. [`DEFAULT_BATCH_CAPACITY`] where there is none.
    pub batch_capacity: Option<Capacity>,
}

/// What is wrong with periods, where something is.
pub open spec fn period_error(poll: nat, export: nat) -> Option<error::ErrorView> {
    if poll == 0 {
        Some(error::ErrorView::ZeroPollPeriod)
    } else if export == 0 {
        Some(error::ErrorView::ZeroExportPeriod)
    } else if poll > export {
        Some(error::ErrorView::PollPeriodExceedsExportPeriod)
    } else {
        None
    }
}

impl Config {
    /// Checks the periods: neither may be zero, and polls may not be rarer than exports.
    pub fn validate(&self) -> (r: Result<(), Error>)
        ensures
            match r {
                Ok(()) => period_error(self.poll_period@, self.export_period@) is None,
                Err(error) => period_error(self.poll_period@, self.export_period@) == Some(error@),
            },
    {
        if self.poll_period.is_zero() {
            return Err(Error::ZeroPollPeriod);
        }
        if self.export_period.is_zero() {
            return Err(Error::ZeroExportPeriod);
        }
        if self.poll_period.as_nanos() > self.export_period.as_nanos() {
            return Err(Error::PollPeriodExceedsExportPeriod);
        }
        Ok(())
    }

    /// The capacity of the channel for export batches.
    pub fn capacity(&self) -> (r: usize)
        ensures
            r > 0,
            r == match self.batch_capacity {
                Some(capacity) => capacity@,
                None => DEFAULT_BATCH_CAPACITY,
            },
    {
        match self.batch_capacity {
            Some(capacity) => capacity.get(),
            None => DEFAULT_BATCH_CAPACITY,
        }
    }
}

/// The identities of sources that are drained. Draining resets a source's buckets, so any other
/// observer of the same identity, whatever its mode, would race against the one that drains it.
pub struct Admissions {
    destructive_ids: Vec<Arc<NameIdentity>>,
}

impl View for Admissions {
    type V = Seq<model::NameIdentityView>;

    closed spec fn view(&self) -> Seq<model::NameIdentityView> {
        self.destructive_ids@.map_values(|id: Arc<NameIdentity>| id@)
    }
}

/// What is wrong with observing a source, where something is.
pub open spec fn admission_error(
    drained: Seq<model::NameIdentityView>,
    id: model::NameIdentityView,
    kind: dto::Kind,
    mode: Mode,
) -> Option<error::ErrorView> {
    if mode is Delta && kind is Gauge {
        Some(error::ErrorView::DeltaForGauge)
    } else if drained.contains(id) {
        Some(error::ErrorView::DuplicateDestructive)
    } else {
        None
    }
}

impl Admissions {
    pub fn new() -> (r: Admissions)
        ensures
            r@ == Seq::<model::NameIdentityView>::empty(),
    {
        let r = Admissions { destructive_ids: Vec::new() };
        assert(r@ =~= Seq::<model::NameIdentityView>::empty());
        r
    }

    fn is_drained(&self, id: &NameIdentity) -> (r: bool)
        ensures
            r == self@.contains(id@),
    {
        let mut i: usize = 0;
        while i < self.destructive_ids.len()
            invariant
                i <= self.destructive_ids@.len(),
                forall|j: int| 0 <= j < i ==> (#[trigger] self.destructive_ids@[j])@ != id@,
            decreases self.destructive_ids@.len() - i,
        {
            if *self.destructive_ids[i] == *id {
                assert(self@[i as int] == id@);
                return true;
            }
            i = i + 1;
        }
        assert forall|j: int| 0 <= j < self@.len() implies #[trigger] self@[j] != id@ by {
            assert(self.destructive_ids@[j]@ != id@);
        }
        false
    }

    /// An observer for a source. A gauge cannot be observed by its differences, and an identity that
    /// is drained cannot be observed again, in any mode.
    pub fn observer_for<Src: MetricSource>(&mut self, source: &Src, mode: Mode) -> (r: Result<
        SyncObserver<Src::Measure, Src::Cell>,
        Error,
    >)
        ensures
            match r {
                Ok(observer) => {
                    &&& admission_error(old(self)@, source.identity(), source.metric_kind(), mode) is None
                    &&& observer.wf()
                    &&& observer@ == observe::fresh_observer::<
                        <<Src::Cell as crate::atomic::Record<Src::Measure>>::Snapshot as View>::V,
                    >(observer@.start_time, source.identity(), mode, source.metric_kind())
                    &&& final(self)@ == if mode is Destructive {
                        old(self)@.push(source.identity())
                    } else {
                        old(self)@
                    }
                },
                Err(error) => admission_error(
                    old(self)@,
                    source.identity(),
                    source.metric_kind(),
                    mode,
                ) == Some(error@) && final(self)@ == old(self)@,
            },
    {
        let observer = match SyncObserver::new(source, mode) {
            Ok(observer) => observer,
            Err(error) => {
                return Err(error);
            },
        };
        if self.is_drained(source.id()) {
            return Err(Error::DuplicateDestructive);
        }
        if mode == Mode::Destructive {
            let ghost before = self@;
            self.destructive_ids.push(model::share(source.id()));
            assert(self@ =~= before.push(source.identity()));
        }
        Ok(observer)
    }
}

/// Once a source has been registered for draining, every other registration of its identity is
/// refused, whatever its mode and whatever was registered in between. Other identities are not
/// refused on its account.
pub proof fn drained_identities_are_refused(
    drained: Seq<model::NameIdentityView>,
    later: Seq<model::NameIdentityView>,
    id: model::NameIdentityView,
    other: model::NameIdentityView,
    kind: dto::Kind,
    mode: Mode,
)
    ensures
        admission_error(drained.push(id) + later, id, kind, mode) == Some(
            if mode is Delta && kind is Gauge {
                error::ErrorView::DeltaForGauge
            } else {
                error::ErrorView::DuplicateDestructive
            },
        ),
        other != id ==> admission_error(drained.push(id) + later, other, kind, mode)
            == admission_error(drained + later, other, kind, mode),
{
    let all = drained.push(id) + later;
    let rest = drained + later;
    assert(all[drained.len() as int] == id);
    if other != id {
        if all.contains(other) {
            let i = choose|i: int| 0 <= i < all.len() && all[i] == other;
            assert(rest[if i < drained.len() { i } else { i - 1 }] == other);
        }
        if rest.contains(other) {
            let i = choose|i: int| 0 <= i < rest.len() && rest[i] == other;
            assert(all[if i < drained.len() { i } else { i + 1 }] == other);
        }
    }
}

/// What a worker is told to do.
pub enum CollectorCmd<O> {
    Add(O),
    Shutdown,
}

/// Whether a worker goes on.
pub enum Reply<W> {
    Continue,
    /// It stops, after a last export where one was due.
    Stop(Option<Export<W>>),
}

/// What an export gave: a batch, and what went wrong.
pub struct Export<W> {
    pub batch: Vec<W>,
    pub failures: Vec<Error>,
}

impl<W: View> Export<W> {
    /// The batch, where there is something in it.
    pub fn into_batch(self) -> (r: Option<Vec<W>>)
        ensures
            match r {
                Some(batch) => self.batch@.len() > 0 && batch == self.batch,
                None => self.batch@.len() == 0,
            },
    {
        if self.batch.len() == 0 {
            None
        } else {
            Some(self.batch)
        }
    }
}

/// What the results of exports put into a batch.
pub open spec fn batch_of<V>(results: Seq<Result<Option<V>, error::ErrorView>>) -> Seq<V>
    decreases results.len(),
{
    if results.len() == 0 {
        Seq::empty()
    } else {
        let before = batch_of(results.drop_last());
        match results.last() {
            Ok(Some(metric)) => before.push(metric),
            _ => before,
        }
    }
}

/// What went wrong in exports.
pub open spec fn failures_of<V>(results: Seq<Result<Option<V>, error::ErrorView>>) -> Seq<error::ErrorView>
    decreases results.len(),
{
    if results.len() == 0 {
        Seq::empty()
    } else {
        let before = failures_of(results.drop_last());
        match results.last() {
            Err(error) => before.push(error),
            _ => before,
        }
    }
}

/// Polls and exports observers, each on its grid.
pub struct Worker<W: View, O: DynObserver<W, Error>> {
    observers: Vec<O>,
    start: CollectorTime,
    observe_timer: GridTimer,
    export_timer: GridTimer,
    poll_period: Duration,
    align_timestamps: bool,
    wire: PhantomData<W>,
}

#[verifier::ext_equal]
pub ghost struct WorkerView<O> {
    pub observers: Seq<O>,
    pub start_instant: nat,
    pub start_system: int,
    pub observe_timer: timer::GridTimerView,
    pub export_timer: timer::GridTimerView,
    pub poll_period: nat,
    pub align_timestamps: bool,
}

impl<W: View, O: DynObserver<W, Error>> View for Worker<W, O> {
    type V = WorkerView<O>;

    closed spec fn view(&self) -> WorkerView<O> {
        WorkerView {
            observers: self.observers@,
            start_instant: self.start.instant@,
            start_system: self.start.system@,
            observe_timer: self.observe_timer@,
            export_timer: self.export_timer@,
            poll_period: self.poll_period@,
            align_timestamps: self.align_timestamps,
        }
    }
}

/// The calendar moment that a worker gives to a moment of its steady clock.
pub open spec fn worker_date<O>(worker: WorkerView<O>, at: nat) -> int {
    timer::date_of(worker.start_instant, worker.start_system, at)
}

/// How a worker aligns timestamps.
pub open spec fn worker_align<O>(worker: WorkerView<O>) -> Option<nat> {
    if worker.align_timestamps {
        Some(worker.poll_period)
    } else {
        None
    }
}

/// Whether a worker can export at a moment: what its observers saw can be exported where the time has
/// come.
pub open spec fn is_exportable_at<W: View, O: DynObserver<W, Error>>(worker: WorkerView<O>, now: nat) -> bool {
    now >= worker.export_timer.deadline ==> forall|i: int|
        0 <= i < worker.observers.len() ==> (#[trigger] worker.observers[i]).is_exportable(
            worker_align(worker),
        )
}

/// Whether an export is what a worker gives at a moment, and `after` what is left of the worker: where
/// the time has come, the batch and the failures of all its observers, and otherwise nothing.
pub open spec fn is_export_at<W: View, O: DynObserver<W, Error>>(
    before: WorkerView<O>,
    now: nat,
    export: Option<Export<W>>,
    after: WorkerView<O>,
) -> bool {
    match export {
        None => now < before.export_timer.deadline && after == before,
        Some(export) => {
            &&& now >= before.export_timer.deadline
            &&& after == (WorkerView { observers: after.observers, ..before })
            &&& after.observers.len() == before.observers.len()
            &&& exists|results: Seq<Result<Option<W::V>, error::ErrorView>>|
                {
                    &&& results.len() == before.observers.len()
                    &&& forall|i: int|
                        0 <= i < results.len() ==> before.observers[i].exported(
                            worker_align(before),
                            #[trigger] results[i],
                            after.observers[i],
                        )
                    &&& order::views(export.batch@) == #[trigger] batch_of(results)
                    &&& order::views(export.failures@) == failures_of(results)
                }
        },
    }
}

impl<W: View, O: DynObserver<W, Error>> Worker<W, O> {
    /// Every observer is valid, and no period is zero.
    pub open spec fn wf(&self) -> bool {
        &&& forall|i: int| 0 <= i < self@.observers.len() ==> (#[trigger] self@.observers[i]).wf()
        &&& self@.observe_timer.period > 0
        &&& self@.export_timer.period > 0
    }

    /// A worker without observers, whose grids begin at `start`.
    pub fn new(config: &Config, start: CollectorTime) -> (r: Result<Worker<W, O>, Error>)
        ensures
            match r {
                Ok(worker) => {
                    &&& period_error(config.poll_period@, config.export_period@) is None
                    &&& worker.wf()
                    &&& worker@ == (WorkerView {
                        observers: Seq::<O>::empty(),
                        start_instant: start.instant@,
                        start_system: start.system@,
                        observe_timer: timer::GridTimerView {
                            start: start.instant@,
                            period: config.poll_period@,
                            deadline: start.instant@,
                        },
                        export_timer: timer::GridTimerView {
                            start: start.instant@,
                            period: config.export_period@,
                            deadline: start.instant@,
                        },
                        poll_period: config.poll_period@,
                        align_timestamps: config.align_timestamps,
                    })
                },
                Err(error) => period_error(config.poll_period@, config.export_period@) == Some(error@),
            },
    {
        if let Err(error) = config.validate() {
            return Err(error);
        }
        Ok(
            Worker {
                observers: Vec::new(),
                start,
                observe_timer: GridTimer::new(start.instant, config.poll_period),
                export_timer: GridTimer::new(start.instant, config.export_period),
                poll_period: config.poll_period,
                align_timestamps: config.align_timestamps,
                wire: PhantomData,
            },
        )
    }

    /// Polls every observer, where the time for that has come. All get the same timestamp.
    pub fn maybe_observe(&mut self, now: Instant) -> (r: bool)
        requires
            old(self).wf(),
            now@ >= old(self)@.observe_timer.deadline ==> time::is_date(worker_date(old(self)@, now@)),
        ensures
            final(self).wf(),
            r == (now@ >= old(self)@.observe_timer.deadline),
            !r ==> final(self)@ == old(self)@,
            r ==> {
                &&& final(self)@.observers.len() == old(self)@.observers.len()
                &&& forall|i: int|
                    0 <= i < old(self)@.observers.len() ==> (#[trigger] old(self)@.observers[i]).polled(
                        worker_date(old(self)@, now@),
                        final(self)@.observers[i],
                    )
                &&& final(self)@ == (WorkerView { observers: final(self)@.observers, ..old(self)@ })
            },
    {
        if !self.observe_timer.due(now) {
            return false;
        }
        let ts = self.start.at(now).system;
        let mut i: usize = 0;
        while i < self.observers.len()
            invariant
                i <= self.observers@.len(),
                self.observers@.len() == old(self)@.observers.len(),
                self@ == (WorkerView { observers: self@.observers, ..old(self)@ }),
                ts@ == worker_date(old(self)@, now@),
                forall|j: int| 0 <= j < self.observers@.len() ==> (#[trigger] self.observers@[j]).wf(),
                forall|j: int|
                    0 <= j < i ==> (#[trigger] old(self)@.observers[j]).polled(ts@, self.observers@[j]),
                forall|j: int|
                    i <= j < self.observers@.len() ==> #[trigger] self.observers@[j] == old(self)@.observers[j],
            decreases self.observers@.len() - i,
        {
            self.observers[i].observe(ts);
            i = i + 1;
        }
        true
    }

    /// Moves the poll deadline to the first grid point after `now`: after a poll, with the moment at
    /// which it was done.
    pub fn observe_done(&mut self, now: Instant)
        requires
            old(self).wf(),
        ensures
            final(self).wf(),
            final(self)@ == (WorkerView {
                observe_timer: timer::GridTimerView {
                    deadline: timer::next_deadline(
                        old(self)@.observe_timer.start,
                        old(self)@.observe_timer.period,
                        now@,
                    ),
                    ..old(self)@.observe_timer
                },
                ..old(self)@
            }),
    {
        self.observe_timer.advance(now);
    }

    /// Takes what every observer saw out, where the time for that has come. What cannot be exported
    /// does not keep the rest back.
    pub fn maybe_export(&mut self, now: Instant) -> (r: Option<Export<W>>)
        requires
            old(self).wf(),
            is_exportable_at::<W, O>(old(self)@, now@),
        ensures
            final(self).wf(),
            is_export_at(old(self)@, now@, r, final(self)@),
    {
        if !self.export_timer.due(now) {
            return None;
        }
        let align = if self.align_timestamps {
            Some(self.poll_period)
        } else {
            None
        };
        let mut batch: Vec<W> = Vec::new();
        let mut failures: Vec<Error> = Vec::new();
        let ghost mut results: Seq<Result<Option<W::V>, error::ErrorView>> = Seq::empty();
        let mut i: usize = 0;
        assert(order::views(batch@) =~= batch_of(results));
        assert(order::views(failures@) =~= failures_of(results));
        while i < self.observers.len()
            invariant
                i <= self.observers@.len(),
                self.observers@.len() == old(self)@.observers.len(),
                self@ == (WorkerView { observers: self@.observers, ..old(self)@ }),
                dto::span_of(align) == worker_align(old(self)@),
                results.len() == i,
                order::views(batch@) == batch_of(results),
                order::views(failures@) == failures_of(results),
                forall|j: int| 0 <= j < self.observers@.len() ==> (#[trigger] self.observers@[j]).wf(),
                forall|j: int|
                    0 <= j < old(self)@.observers.len() ==> (#[trigger] old(self)@.observers[j]).is_exportable(
                        worker_align(old(self)@),
                    ),
                forall|j: int|
                    0 <= j < i ==> old(self)@.observers[j].exported(
                        worker_align(old(self)@),
                        #[trigger] results[j],
                        self.observers@[j],
                    ),
                forall|j: int|
                    i <= j < self.observers@.len() ==> #[trigger] self.observers@[j] == old(self)@.observers[j],
            decreases self.observers@.len() - i,
        {
            let ghost before = results;
            let ghost batched = order::views(batch@);
            let ghost failed = order::views(failures@);
            assert(self.observers@[i as int] == old(self)@.observers[i as int]);
            let result = self.observers[i].export(align);
            proof {
                results = results.push(dto::outcome_view(result));
                assert(results.drop_last() =~= before);
                assert forall|j: int| 0 <= j < i + 1 implies old(self)@.observers[j].exported(
                    worker_align(old(self)@),
                    #[trigger] results[j],
                    self.observers@[j],
                ) by {
                    if j < i {
                        assert(results[j] == before[j]);
                    }
                }
            }
            match result {
                Ok(Some(metric)) => {
                    batch.push(metric);
                    assert(order::views(batch@) =~= batched.push(metric@));
                },
                Ok(None) => {},
                Err(error) => {
                    failures.push(error);
                    assert(order::views(failures@) =~= failed.push(error@));
                },
            }
            i = i + 1;
        }
        assert(order::views(batch@) == batch_of(results));
        Some(Export { batch, failures })
    }

    /// Moves the export deadline to the first grid point after `now`: after an export, with the moment
    /// at which it was done.
    pub fn export_done(&mut self, now: Instant)
        requires
            old(self).wf(),
        ensures
            final(self).wf(),
            final(self)@ == (WorkerView {
                export_timer: timer::GridTimerView {
                    deadline: timer::next_deadline(
                        old(self)@.export_timer.start,
                        old(self)@.export_timer.period,
                        now@,
                    ),
                    ..old(self)@.export_timer
                },
                ..old(self)@
            }),
    {
        self.export_timer.advance(now);
    }

    /// How long to wait from `now` on: until the nearer deadline.
    pub fn timeout(&self, now: Instant) -> (r: Duration)
        ensures
            ({
                let deadline = if self@.observe_timer.deadline <= self@.export_timer.deadline {
                    self@.observe_timer.deadline
                } else {
                    self@.export_timer.deadline
                };
                r@ == if deadline > now@ {
                    (deadline - now@) as nat
                } else {
                    0
                }
            }),
    {
        let observe = self.observe_timer.deadline();
        let export = self.export_timer.deadline();
        let deadline = if observe.reached_at(export) {
            observe
        } else {
            export
        };
        deadline.saturating_duration_since(now)
    }

    /// Does what it is told at `now`, and says whether to go on. A new observer begins at the next grid
    /// point. What is due is exported before the worker stops.
    pub fn handle(&mut self, cmd: CollectorCmd<O>, now: Instant) -> (r: Reply<W>)
        requires
            old(self).wf(),
            match cmd {
                CollectorCmd::Add(observer) => observer.wf() && time::is_date(
                    worker_date(old(self)@, old(self)@.observe_timer.deadline),
                ),
                CollectorCmd::Shutdown => is_exportable_at::<W, O>(old(self)@, now@),
            },
        ensures
            final(self).wf(),
            match cmd {
                CollectorCmd::Add(observer) => {
                    &&& r is Continue
                    &&& exists|added: O|
                        {
                            &&& #[trigger] observer.restarted(
                                worker_date(old(self)@, old(self)@.observe_timer.deadline),
                                added,
                            )
                            &&& final(self)@ == (WorkerView {
                                observers: old(self)@.observers.push(added),
                                ..old(self)@
                            })
                        }
                },
                CollectorCmd::Shutdown => r matches Reply::Stop(export) && is_export_at(
                    old(self)@,
                    now@,
                    export,
                    final(self)@,
                ),
            },
    {
        match cmd {
            CollectorCmd::Add(observer) => {
                let mut added = observer;
                let next_tick = self.observe_timer.deadline();
                added.reset(self.start.at(next_tick).system);
                let ghost before = self@.observers;
                self.observers.push(added);
                assert(self@.observers =~= before.push(added));
                Reply::Continue
            },
            CollectorCmd::Shutdown => Reply::Stop(self.maybe_export(now)),
        }
    }
}

/// How many results are empty.
pub open spec fn empty_results<V>(results: Seq<Result<Option<V>, error::ErrorView>>) -> nat
    decreases results.len(),
{
    if results.len() == 0 {
        0
    } else {
        empty_results(results.drop_last()) + if results.last() == Ok::<Option<V>, error::ErrorView>(None) {
            1nat
        } else {
            0
        }
    }
}

/// No metric is lost or made up between observers and batch: every result is in the batch, among the
/// failures, or empty.
pub proof fn exports_are_accounted_for<V>(results: Seq<Result<Option<V>, error::ErrorView>>)
    ensures
        batch_of(results).len() + failures_of(results).len() + empty_results(results) == results.len(),
        forall|i: int|
            0 <= i < results.len() ==> match #[trigger] results[i] {
                Ok(Some(metric)) => batch_of(results).contains(metric),
                Ok(None) => true,
                Err(error) => failures_of(results).contains(error),
            },
    decreases results.len(),
{
    if results.len() > 0 {
        let before = results.drop_last();
        exports_are_accounted_for(before);
        assert forall|i: int| 0 <= i < results.len() implies match #[trigger] results[i] {
            Ok(Some(metric)) => batch_of(results).contains(metric),
            Ok(None) => true,
            Err(error) => failures_of(results).contains(error),
        } by {
            if i < before.len() {
                assert(before[i] == results[i]);
                match results[i] {
                    Ok(Some(metric)) => {
                        let k = choose|k: int| 0 <= k < batch_of(before).len() && batch_of(before)[k] == metric;
                        assert(batch_of(results)[k] == metric);
                    },
                    Ok(None) => {},
                    Err(error) => {
                        let k = choose|k: int|
                            0 <= k < failures_of(before).len() && failures_of(before)[k] == error;
                        assert(failures_of(results)[k] == error);
                    },
                }
            } else {
                match results[i] {
                    Ok(Some(metric)) => {
                        assert(batch_of(results).last() == metric);
                    },
                    Ok(None) => {},
                    Err(error) => {
                        assert(failures_of(results).last() == error);
                    },
                }
            }
        }
    }
}

} // verus!
