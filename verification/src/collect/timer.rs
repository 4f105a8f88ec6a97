//! Deadlines on a fixed grid, and calendar time that follows a steady clock.

use crate::time;
use crate::time::{Duration, Instant, SystemTime};
use vstd::prelude::*;

verus! {

/// A moment on the steady clock and in the calendar. The calendar time that is reported is derived:
/// it moves with the steady clock, so that it stays consistent where the system clock jumps.
#[derive(Debug, Clone, Copy)]
pub struct CollectorTime {
    pub instant: Instant,
    pub system: SystemTime,
}

/// `std::time::Instant`: a moment of the system's steady clock.
#[verifier::external_type_specification]
#[verifier::external_body]
pub struct ExStdInstant(std::time::Instant);

/// `std::time::Instant::now`. Nothing is stated of the moment.
#[verifier::external_body]
fn steady_now() -> (r: std::time::Instant) {
    std::time::Instant::now()
}

/// `std::time::Instant::elapsed`, in nanoseconds. Nothing is stated of the span but that a
/// `std::time::Duration` holds it.
#[verifier::external_body]
fn nanos_since(origin: &std::time::Instant) -> (r: u128)
    ensures
        r <= time::MAX_NANOS,
{
    origin.elapsed().as_nanos()
}

/// The moment so many nanoseconds after a clock began.
pub fn moment_at(nanos: u128) -> (r: Instant)
    requires
        nanos <= time::MAX_NANOS,
    ensures
        r@ == nanos,
{
    match Duration::try_from_nanos(nanos) {
        Some(span) => Instant::after_origin(span),
        None => Instant::after_origin(Duration::from_nanos(0)),
    }
}

/// A steady clock. It begins when it is made.
pub struct Clock {
    origin: std::time::Instant,
}

impl Clock {
    /// A clock that begins now. Nothing is stated of when that is.
    pub fn start() -> (r: Clock) {
        Clock { origin: steady_now() }
    }

    /// The present moment of the clock. Nothing is stated of it but that the clock reaches it.
    pub fn now(&self) -> (r: Instant)
        ensures
            time::is_span(r@),
    {
        moment_at(nanos_since(&self.origin))
    }
}

/// The calendar moment that belongs to a moment of the steady clock, by the distance from one pair.
pub open spec fn date_of(instant: nat, system: int, at: nat) -> int {
    system + at - instant
}

impl CollectorTime {
    /// The present moment. Nothing is stated of it but that clock and calendar reach it, so that
    /// [`CollectorTime::at`] can be asked for that moment itself.
    pub fn now(clock: &Clock) -> (r: CollectorTime)
        ensures
            time::is_span(r.instant@),
            time::is_date(r.system@),
    {
        CollectorTime { instant: clock.now(), system: SystemTime::now() }
    }

    /// The pair for another moment of the steady clock.
    pub fn at(&self, at: Instant) -> (r: CollectorTime)
        requires
            time::is_date(date_of(self.instant@, self.system@, at@)),
        ensures
            r.instant@ == at@,
            r.system@ == date_of(self.instant@, self.system@, at@),
    {
        let system = if self.instant.reached_at(at) {
            self.system.plus(at.saturating_duration_since(self.instant))
        } else {
            self.system.minus(self.instant.saturating_duration_since(at))
        };
        CollectorTime { instant: at, system }
    }
}

/// Calendar time keeps the distances of the steady clock.
pub proof fn dates_keep_distances(instant: nat, system: int, first: nat, second: nat)
    ensures
        date_of(instant, system, second) - date_of(instant, system, first) == second - first,
        date_of(instant, system, instant) == system,
{
}

/// A timer whose deadlines lie on a grid: a start, and every period after it.
pub struct GridTimer {
    start: Instant,
    period: Duration,
    deadline: Instant,
}

#[verifier::ext_equal]
pub ghost struct GridTimerView {
    pub start: nat,
    pub period: nat,
    pub deadline: nat,
}

impl View for GridTimer {
    type V = GridTimerView;

    closed spec fn view(&self) -> GridTimerView {
        GridTimerView { start: self.start@, period: self.period@, deadline: self.deadline@ }
    }
}

/// How many periods after the start the first grid point after `now` lies.
pub open spec fn next_tick(start: nat, period: nat, now: nat) -> nat {
    ((if now > start {
        (now - start) as nat
    } else {
        0
    }) / period) + 1
}

/// The first grid point after `now`. Where the clock does not reach it, the moment one period after
/// `now`, or `now` itself where the clock does not reach that either.
pub open spec fn next_deadline(start: nat, period: nat, now: nat) -> nat {
    let offset = period * next_tick(start, period, now);
    if time::is_span(offset) && time::is_span(start + offset) {
        start + offset
    } else if time::is_span(now + period) {
        now + period
    } else {
        now
    }
}

impl GridTimer {
    pub fn new(start: Instant, period: Duration) -> (r: GridTimer)
        ensures
            r@ == (GridTimerView { start: start@, period: period@, deadline: start@ }),
    {
        GridTimer { start, period, deadline: start }
    }

    pub fn deadline(&self) -> (r: Instant)
        ensures
            r@ == self@.deadline,
    {
        self.deadline
    }

    pub fn due(&self, now: Instant) -> (r: bool)
        ensures
            r == (now@ >= self@.deadline),
    {
        self.deadline.reached_at(now)
    }

    /// Moves the deadline to the first grid point after `now`.
    pub fn advance(&mut self, now: Instant)
        requires
            old(self)@.period > 0,
        ensures
            final(self)@ == (GridTimerView {
                deadline: next_deadline(old(self)@.start, old(self)@.period, now@),
                ..old(self)@
            }),
    {
        self.deadline = self.next(now);
    }

    fn next(&self, now: Instant) -> (r: Instant)
        requires
            self@.period > 0,
        ensures
            r@ == next_deadline(self@.start, self@.period, now@),
    {
        let elapsed: u128 = now.saturating_duration_since(self.start).as_nanos();
        let period: u128 = self.period.as_nanos();
        proof {
            assert(elapsed / period <= elapsed) by (nonlinear_arith)
                requires
                    period > 0,
            ;
        }
        let tick: u128 = elapsed / period + 1;
        assert(tick == next_tick(self@.start, self@.period, now@));
        let later = match now.checked_add(self.period) {
            Some(later) => later,
            None => now,
        };
        match self.period.checked_mul(tick) {
            Some(offset) => match self.start.checked_add(offset) {
                Some(next) => next,
                None => later,
            },
            None => later,
        }
    }
}

/// Where the clock reaches it, the next deadline lies on the grid, after `now` and at most one period
/// after it (or one period after the start, where that is still to come).
pub proof fn deadlines_lie_on_the_grid(start: nat, period: nat, now: nat)
    requires
        period > 0,
        time::is_span(start + period * next_tick(start, period, now)),
    ensures
        ({
            let deadline = next_deadline(start, period, now);
            &&& deadline > now
            &&& deadline > start
            &&& deadline == start + period * next_tick(start, period, now)
            &&& (deadline - start) % (period as int) == 0
            &&& now >= start ==> deadline - now <= period
            &&& now < start ==> deadline == start + period
        }),
{
    let elapsed = if now > start {
        (now - start) as nat
    } else {
        0
    };
    let tick = next_tick(start, period, now);
    vstd::arithmetic::div_mod::lemma_fundamental_div_mod(elapsed as int, period as int);
    assert(period * tick == period * (elapsed / period) + period) by (nonlinear_arith)
        requires
            tick == elapsed / period + 1,
    ;
    assert(0 <= elapsed % period < period);
    vstd::arithmetic::div_mod::lemma_mod_multiples_basic(tick as int, period as int);
    assert((period * tick) as int == tick * period) by (nonlinear_arith);
    assert(elapsed < period ==> elapsed / period == 0) by {
        if elapsed < period {
            vstd::arithmetic::div_mod::lemma_basic_div(elapsed as int, period as int);
        }
    }
    assert(period * 0 == 0) by (nonlinear_arith);
}

/// Advancing at a deadline leads to the deadline one period later, where the clock reaches it.
pub proof fn deadlines_are_a_period_apart(start: nat, period: nat, ticks: nat)
    requires
        period > 0,
        time::is_span(start + period * (ticks + 1)),
    ensures
        next_deadline(start, period, start + period * ticks) == start + period * ticks + period,
{
    let now = start + period * ticks;
    assert(period * ticks >= 0) by (nonlinear_arith);
    assert(period * (ticks + 1) == period * ticks + period) by (nonlinear_arith);
    assert((period * ticks) / period == ticks) by {
        vstd::arithmetic::div_mod::lemma_div_multiples_vanish(ticks as int, period as int);
    }
    if ticks == 0 {
        assert(period * 0 == 0) by (nonlinear_arith);
    }
    assert(next_tick(start, period, now) == ticks + 1);
}

} // verus!
