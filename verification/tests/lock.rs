use ohnotel::lock::{taken, undisturbed, SeqLock};
use std::sync::atomic::{AtomicU64, Ordering};

struct Pair {
    x: AtomicU64,
    y: AtomicU64,
}

impl Pair {
    fn read(&self) -> (u64, u64) {
        (
            self.x.load(Ordering::Relaxed),
            self.y.load(Ordering::Relaxed),
        )
    }
}

fn pair() -> SeqLock<Pair> {
    SeqLock::new(Pair {
        x: AtomicU64::new(0),
        y: AtomicU64::new(0),
    })
}

#[test]
fn quiet_reads_see_finished_writes() {
    let lock = pair();
    let returned = lock.write(|pair| {
        pair.x.fetch_add(2, Ordering::Relaxed);
        pair.y.fetch_add(3, Ordering::Relaxed);
        "done"
    });
    assert_eq!(returned, "done");
    assert_eq!(lock.try_read(&Pair::read), Some((2, 3)));
    assert_eq!(lock.read(Pair::read, 1), Some((2, 3)));
    assert_eq!(lock.read(Pair::read, 0), None);
}

#[test]
fn reads_inside_a_write_are_refused() {
    let lock = pair();
    lock.write(|pair| {
        pair.x.fetch_add(1, Ordering::Relaxed);
        assert_eq!(lock.try_read(&Pair::read), None);
        assert_eq!(lock.read(Pair::read, 5), None);
        pair.y.fetch_add(1, Ordering::Relaxed);
    });
    assert_eq!(lock.read(Pair::read, 1), Some((1, 1)));
}

#[test]
fn reads_around_a_write_are_refused() {
    let lock = pair();
    let torn = |seen: &Pair| {
        let x = seen.x.load(Ordering::Relaxed);
        lock.write(|pair| {
            pair.x.fetch_add(1, Ordering::Relaxed);
            pair.y.fetch_add(1, Ordering::Relaxed);
        });
        (x, seen.y.load(Ordering::Relaxed))
    };
    assert_eq!(lock.try_read(&torn), None);
    assert_eq!(lock.try_read(&Pair::read), Some((1, 1)));
}

#[test]
fn plain_stores_of_overlapping_writers_mix() {
    let lock = pair();
    lock.write(|first| {
        first.x.store(0, Ordering::Relaxed);
        lock.write(|second| {
            second.x.store(1, Ordering::Relaxed);
            second.y.store(1, Ordering::Relaxed);
        });
        first.y.store(0, Ordering::Relaxed);
    });
    assert_eq!(lock.read(Pair::read, 1), Some((1, 0)));
}

#[test]
fn readers_decide_by_the_counts() {
    assert!(undisturbed(4, 4, 4));
    assert!(!undisturbed(3, 4, 4));
    assert!(!undisturbed(4, 4, 5));
    assert_eq!(taken(4, 4, 4, 'r'), Some('r'));
    assert_eq!(taken(3, 4, 4, 'r'), None);
    assert_eq!(taken(4, 4, 5, 'r'), None);
}
