//! Spans, moments of a steady clock, and moments of the calendar, in nanoseconds.

use vstd::prelude::*;

verus! {

/// The longest span: the nanoseconds of `u64::MAX` seconds and 999,999,999 more.
pub const MAX_NANOS: u128 = 18_446_744_073_709_551_615_999_999_999;

/// The last moment of the calendar, in nanoseconds since the Unix epoch.
pub const LAST_NANOS: i128 = 9_223_372_036_854_775_807_999_999_999;

/// The first moment of the calendar, in nanoseconds since the Unix epoch.
pub const FIRST_NANOS: i128 = -9_223_372_036_854_775_808_000_000_000;

pub const NANOS_PER_SEC: u128 = 1_000_000_000;

/// A span of time.
#[derive(Debug, Clone, Copy, PartialEq, Eq, Structural)]
pub struct Duration {
    nanos: u128,
}

/// A moment of a steady clock, by the span since the clock began.
#[derive(Debug, Clone, Copy, PartialEq, Eq, Structural)]
pub struct Instant {
    nanos: u128,
}

/// A moment of the calendar.
#[derive(Debug, Clone, Copy, PartialEq, Eq, Structural)]
pub struct SystemTime {
    nanos: i128,
}

impl View for Duration {
    type V = nat;

    closed spec fn view(&self) -> nat {
        self.nanos as nat
    }
}

impl View for Instant {
    type V = nat;

    closed spec fn view(&self) -> nat {
        self.nanos as nat
    }
}

impl View for SystemTime {
    type V = int;

    closed spec fn view(&self) -> int {
        self.nanos as int
    }
}

/// Whether a span is one that durations and steady clocks reach.
pub open spec fn is_span(nanos: nat) -> bool {
    nanos <= MAX_NANOS
}

/// Whether a moment is one that the calendar reaches.
pub open spec fn is_date(nanos: int) -> bool {
    FIRST_NANOS <= nanos <= LAST_NANOS
}

impl Duration {
    #[verifier::type_invariant]
    spec fn within(self) -> bool {
        self.nanos <= MAX_NANOS
    }

    pub fn from_nanos(nanos: u64) -> (r: Duration)
        ensures
            r@ == nanos,
    {
        Duration { nanos: nanos as u128 }
    }

    pub fn from_millis(millis: u64) -> (r: Duration)
        ensures
            r@ == millis * 1_000_000,
    {
        Duration { nanos: millis as u128 * 1_000_000 }
    }

    pub fn from_secs(secs: u64) -> (r: Duration)
        ensures
            r@ == secs * NANOS_PER_SEC,
    {
        Duration { nanos: secs as u128 * NANOS_PER_SEC }
    }

    /// The span of so many nanoseconds, where it is one.
    pub fn try_from_nanos(nanos: u128) -> (r: Option<Duration>)
        ensures
            match r {
                Some(span) => is_span(nanos as nat) && span@ == nanos,
                None => !is_span(nanos as nat),
            },
    {
        if nanos <= MAX_NANOS {
            Some(Duration { nanos })
        } else {
            None
        }
    }

    pub fn as_nanos(&self) -> (r: u128)
        ensures
            r == self@,
            is_span(r as nat),
    {
        proof {
            use_type_invariant(self);
        }
        self.nanos
    }

    pub fn is_zero(&self) -> (r: bool)
        ensures
            r == (self@ == 0),
    {
        self.nanos == 0
    }

    /// The span `n` times over, where it is one.
    pub fn checked_mul(&self, n: u128) -> (r: Option<Duration>)
        ensures
            match r {
                Some(span) => is_span(self@ * (n as nat)) && span@ == self@ * (n as nat),
                None => !is_span(self@ * (n as nat)),
            },
    {
        match self.nanos.checked_mul(n) {
            Some(nanos) => Duration::try_from_nanos(nanos),
            None => None,
        }
    }
}

impl Instant {
    #[verifier::type_invariant]
    spec fn within(self) -> bool {
        self.nanos <= MAX_NANOS
    }

    /// The moment at a span after the clock began.
    pub fn after_origin(span: Duration) -> (r: Instant)
        ensures
            r@ == span@,
    {
        proof {
            use_type_invariant(&span);
        }
        Instant { nanos: span.nanos }
    }

    /// The span since the clock began.
    pub fn since_origin(&self) -> (r: Duration)
        ensures
            r@ == self@,
            is_span(self@),
    {
        proof {
            use_type_invariant(self);
        }
        Duration { nanos: self.nanos }
    }

    /// The moment a span later, where the clock reaches it.
    pub fn checked_add(&self, span: Duration) -> (r: Option<Instant>)
        ensures
            match r {
                Some(moment) => is_span(self@ + span@) && moment@ == self@ + span@,
                None => !is_span(self@ + span@),
            },
    {
        proof {
            use_type_invariant(self);
            use_type_invariant(&span);
        }
        let nanos: u128 = self.nanos + span.nanos;
        if nanos <= MAX_NANOS {
            Some(Instant { nanos })
        } else {
            None
        }
    }

    /// The span since an earlier moment, or none where that moment is not earlier.
    pub fn saturating_duration_since(&self, earlier: Instant) -> (r: Duration)
        ensures
            r@ == if self@ > earlier@ {
                self@ - earlier@
            } else {
                0
            },
    {
        proof {
            use_type_invariant(self);
        }
        if self.nanos > earlier.nanos {
            Duration { nanos: self.nanos - earlier.nanos }
        } else {
            Duration { nanos: 0 }
        }
    }

    /// Whether the moment has come at another one.
    pub fn reached_at(&self, now: Instant) -> (r: bool)
        ensures
            r == (now@ >= self@),
    {
        now.nanos >= self.nanos
    }
}

/// `std::time::SystemTime::now`, by its distance from the Unix epoch in nanoseconds: `Ok` where the
/// epoch is past, `Err` where it is still to come. Nothing is stated of the distance.
#[verifier::external_body]
fn nanos_from_epoch() -> (r: Result<u128, u128>) {
    match std::time::SystemTime::now().duration_since(std::time::SystemTime::UNIX_EPOCH) {
        Ok(past) => Ok(past.as_nanos()),
        Err(ahead) => Err(ahead.duration().as_nanos()),
    }
}

/// The calendar moment at a distance from the Unix epoch; the nearest one where the calendar does not
/// reach that far.
pub open spec fn nearest_date(distance: Result<u128, u128>) -> int {
    match distance {
        Ok(past) => if past > LAST_NANOS {
            LAST_NANOS as int
        } else {
            past as int
        },
        Err(ahead) => if -ahead < FIRST_NANOS {
            FIRST_NANOS as int
        } else {
            -ahead
        },
    }
}

/// The calendar moment at a distance from the Unix epoch; the nearest one where the calendar does not
/// reach that far.
pub fn date_at(distance: Result<u128, u128>) -> (r: SystemTime)
    ensures
        r@ == nearest_date(distance),
{
    let nanos: i128 = match distance {
        Ok(past) => if past > LAST_NANOS as u128 {
            LAST_NANOS
        } else {
            past as i128
        },
        Err(ahead) => if ahead > 9_223_372_036_854_775_808_000_000_000 {
            FIRST_NANOS
        } else {
            -(ahead as i128)
        },
    };
    match SystemTime::from_epoch_nanos(nanos) {
        Some(moment) => moment,
        None => SystemTime::unix_epoch(),
    }
}

impl SystemTime {
    #[verifier::type_invariant]
    spec fn within(self) -> bool {
        FIRST_NANOS <= self.nanos <= LAST_NANOS
    }

    /// The moment at so many nanoseconds since the Unix epoch, where the calendar reaches it.
    pub fn from_epoch_nanos(nanos: i128) -> (r: Option<SystemTime>)
        ensures
            match r {
                Some(moment) => is_date(nanos as int) && moment@ == nanos,
                None => !is_date(nanos as int),
            },
    {
        if FIRST_NANOS <= nanos && nanos <= LAST_NANOS {
            Some(SystemTime { nanos })
        } else {
            None
        }
    }

    /// The present moment. Nothing is stated of it but that the calendar reaches it.
    pub fn now() -> (r: SystemTime)
        ensures
            is_date(r@),
    {
        date_at(nanos_from_epoch())
    }

    pub fn unix_epoch() -> (r: SystemTime)
        ensures
            r@ == 0,
    {
        SystemTime { nanos: 0 }
    }

    pub fn epoch_nanos(&self) -> (r: i128)
        ensures
            r == self@,
            is_date(r as int),
    {
        proof {
            use_type_invariant(self);
        }
        self.nanos
    }

    /// The moment a span later, where the calendar reaches it.
    pub fn checked_add(&self, span: Duration) -> (r: Option<SystemTime>)
        ensures
            match r {
                Some(moment) => is_date(self@ + span@) && moment@ == self@ + span@,
                None => !is_date(self@ + span@),
            },
    {
        proof {
            use_type_invariant(self);
            use_type_invariant(&span);
        }
        SystemTime::from_epoch_nanos(self.nanos + span.nanos as i128)
    }

    /// The moment a span later.
    pub fn plus(&self, span: Duration) -> (r: SystemTime)
        requires
            is_date(self@ + span@),
        ensures
            r@ == self@ + span@,
    {
        proof {
            use_type_invariant(self);
            use_type_invariant(&span);
        }
        SystemTime { nanos: self.nanos + span.nanos as i128 }
    }

    /// The moment a span earlier.
    pub fn minus(&self, span: Duration) -> (r: SystemTime)
        requires
            is_date(self@ - span@),
        ensures
            r@ == self@ - span@,
    {
        proof {
            use_type_invariant(self);
            use_type_invariant(&span);
        }
        SystemTime { nanos: self.nanos - span.nanos as i128 }
    }
}

} // verus!
