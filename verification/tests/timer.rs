use ohnotel::collect::timer::{moment_at, Clock, CollectorTime, GridTimer};
use ohnotel::time::{Duration, Instant, SystemTime, MAX_NANOS};

fn period() -> Duration {
    Duration::from_secs(1)
}

fn start() -> Instant {
    Instant::after_origin(Duration::from_secs(1_000))
}

fn after(instant: Instant, nanos: u64) -> Instant {
    instant.checked_add(Duration::from_nanos(nanos)).unwrap()
}

fn before(instant: Instant, nanos: u128) -> Instant {
    let span = Duration::try_from_nanos(instant.since_origin().as_nanos() - nanos).unwrap();
    Instant::after_origin(span)
}

fn timer() -> (Instant, GridTimer) {
    (start(), GridTimer::new(start(), period()))
}

const MILLI: u64 = 1_000_000;
const SEC: u64 = 1_000_000_000;

#[test]
fn due_on_start() {
    let (start, t) = timer();
    assert_eq!(t.deadline(), start);
    assert!(t.due(start));
}

#[test]
fn due_threshold() {
    let (start, mut t) = timer();
    t.advance(start);
    let deadline = t.deadline();
    assert!(!t.due(before(deadline, 1)));
    assert!(t.due(deadline));
    assert!(t.due(after(deadline, 1)));
}

#[test]
fn advance_from_start() {
    let (start, mut t) = timer();
    t.advance(start);
    assert_eq!(t.deadline(), after(start, SEC));
}

#[test]
fn advance_mid_period() {
    let (start, mut t) = timer();
    t.advance(after(start, 250 * MILLI));
    assert_eq!(t.deadline(), after(start, SEC));
}

#[test]
fn advance_on_grid_jumps_next() {
    let (start, mut t) = timer();
    t.advance(after(start, 2 * SEC));
    assert_eq!(t.deadline(), after(start, 3 * SEC));
}

#[test]
fn skip_missed() {
    let (start, mut t) = timer();
    t.advance(after(start, 3_500 * MILLI));
    assert_eq!(t.deadline(), after(start, 4 * SEC));
}

#[test]
fn advance_past() {
    let now = start();
    let mut t = GridTimer::new(after(now, 10 * SEC), period());
    t.advance(now);
    assert_eq!(t.deadline(), after(now, 11 * SEC));
}

#[test]
fn monotonic() {
    let (start, mut t) = timer();
    let mut prev = start;
    for _ in 0..5 {
        t.advance(t.deadline());
        assert!(t.deadline().since_origin().as_nanos() > prev.since_origin().as_nanos());
        prev = t.deadline();
    }
}

#[test]
fn deadline_falls_back_where_the_grid_leaves_the_clock() {
    let last = Instant::after_origin(Duration::try_from_nanos(MAX_NANOS).unwrap());
    let near = before(last, 10);
    // The next grid point is out of reach, the moment one period later as well.
    let mut t = GridTimer::new(near, period());
    t.advance(near);
    assert_eq!(t.deadline(), near);

    // The next grid point is out of reach, the moment one period later is not.
    let mut t = GridTimer::new(before(last, 1_500_000_000), period());
    t.advance(before(last, 400_000_000));
    assert_eq!(t.deadline(), before(last, 400_000_000));
    t.advance(before(last, 1_500_000_000));
    assert_eq!(t.deadline(), before(last, 500_000_000));
}

#[test]
fn calendar_follows_the_steady_clock() {
    let base = CollectorTime {
        instant: start(),
        system: SystemTime::from_epoch_nanos(5_000).unwrap(),
    };
    assert_eq!(base.at(after(start(), 70)).system.epoch_nanos(), 5_070);
    assert_eq!(base.at(before(start(), 70)).system.epoch_nanos(), 4_930);
    assert_eq!(base.at(start()).system.epoch_nanos(), 5_000);
}

#[test]
fn clocks_do_not_run_backwards() {
    let clock = Clock::start();
    let first = CollectorTime::now(&clock);
    let second = clock.now();
    assert!(second.since_origin().as_nanos() >= first.instant.since_origin().as_nanos());
    // 2020-01-01: the wrapped calendar is that of the system, not a constant.
    assert!(first.system.epoch_nanos() > 1_577_836_800_000_000_000);
    assert_eq!(first.at(first.instant).system, first.system);
}

#[test]
fn moments_count_from_the_beginning_of_the_clock() {
    assert_eq!(moment_at(0).since_origin().as_nanos(), 0);
    assert_eq!(moment_at(1_234).since_origin().as_nanos(), 1_234);
    assert_eq!(moment_at(MAX_NANOS).since_origin().as_nanos(), MAX_NANOS);
}
