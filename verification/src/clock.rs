//! Monotonic time.

use vstd::prelude::*;

verus! {

/// A length of time in nanoseconds.
#[derive(Clone, Copy, Debug, PartialEq, Eq, Structural)]
pub struct Duration {
    pub nanos: u128,
}

/// The longest length of time: the seconds fill 64 bits.
pub const LONGEST_NANOS: u128 = 18_446_744_073_709_551_615_999_999_999;

/// A point on a monotonic clock, in nanoseconds since some point of its own.
#[derive(Clone, Copy, Debug, PartialEq, Eq, Structural)]
pub struct Instant {
    pub nanos: u64,
}

/// Nanoseconds in a second.
pub const NANOS_PER_SEC: u64 = 1_000_000_000;

/// Nanoseconds in a millisecond.
pub const NANOS_PER_MS: u64 = 1_000_000;

impl Duration {
    /// A number of seconds.
    pub fn from_secs(secs: u64) -> (r: Self)
        ensures
            r.nanos == secs * NANOS_PER_SEC,
    {
        Duration { nanos: secs as u128 * 1_000_000_000 }
    }

    /// A number of milliseconds.
    pub fn from_millis(millis: u64) -> (r: Self)
        ensures
            r.nanos == millis * NANOS_PER_MS,
    {
        Duration { nanos: millis as u128 * 1_000_000 }
    }

    /// This length of time so many times; the longest where that is beyond it.
    pub fn saturating_mul(self, times: u32) -> (r: Self)
        ensures
            r.nanos == if self.nanos * times <= LONGEST_NANOS {
                self.nanos * times
            } else {
                LONGEST_NANOS as int
            },
    {
        match self.nanos.checked_mul(times as u128) {
            Some(nanos) => if nanos <= LONGEST_NANOS {
                Duration { nanos }
            } else {
                Duration { nanos: LONGEST_NANOS }
            },
            None => Duration { nanos: LONGEST_NANOS },
        }
    }
}

impl Instant {
    /// The time that has passed since an earlier instant; none if it is not earlier.
    pub open spec fn since(self, earlier: Instant) -> int {
        if self.nanos >= earlier.nanos {
            self.nanos - earlier.nanos
        } else {
            0
        }
    }

    /// The time that has passed since an earlier instant; none if it is not earlier.
    pub fn duration_since(self, earlier: Instant) -> (r: Duration)
        ensures
            r.nanos == self.since(earlier),
    {
        if self.nanos >= earlier.nanos {
            Duration { nanos: (self.nanos - earlier.nanos) as u128 }
        } else {
            Duration { nanos: 0 }
        }
    }
}

/// A clock to tell monotonic time by.
pub trait Clock {
    fn now(&self) -> Instant;
}

/// `std::time::Instant`, a reading of the operating system's monotonic clock.
#[verifier::external_type_specification]
#[verifier::external_body]
pub struct ExStdInstant(std::time::Instant);

/// `std::time::Instant::now` reads the operating system's monotonic clock; nothing is said
/// of the reading.
#[verifier::external_body]
fn read_clock() -> std::time::Instant {
    std::time::Instant::now()
}

/// `std::time::Instant::elapsed` gives the time that has passed since a reading; nothing is
/// said of how long that is.
#[verifier::external_body]
fn elapsed_since(start: &std::time::Instant) -> std::time::Duration {
    start.elapsed()
}

/// `std::time::Duration::as_nanos` gives the nanoseconds of a span; nothing is said of how
/// many there are.
#[verifier::external_body]
fn whole_nanos(span: &std::time::Duration) -> u128 {
    span.as_nanos()
}

/// Where a new clock starts, so that there are instants before its creation.
pub const CLOCK_START: u64 = 4_611_686_018_427_387_904;

/// The operating system's monotonic clock, counted from the creation of the value.
#[derive(Debug)]
pub struct SystemClock {
    start: std::time::Instant,
}

impl SystemClock {
    /// Whether the clock counts from a reading of the operating system's.
    pub closed spec fn is_started(self) -> bool {
        call_ensures(read_clock, (), self.start)
    }

    /// Whether so many nanoseconds may have passed since the clock was started.
    pub closed spec fn may_have_passed(self, nanos: u64) -> bool {
        exists|span: std::time::Duration, n: u128| #[trigger]
            call_ensures(elapsed_since, (&self.start,), span) && #[trigger] call_ensures(
                whole_nanos,
                (&span,),
                n,
            ) && nanos == n as u64
    }

    pub fn new() -> (r: Self)
        ensures
            r.is_started(),
    {
        let start = read_clock();
        assert(call_ensures(read_clock, (), start));
        SystemClock { start }
    }
}

impl Clock for SystemClock {
    fn now(&self) -> (r: Instant)
        ensures
            exists|nanos: u64| #[trigger]
                self.may_have_passed(nanos) && r.nanos == CLOCK_START.saturating_add(nanos),
    {
        let span = elapsed_since(&self.start);
        assert(call_ensures(elapsed_since, (&self.start,), span));
        let n: u128 = whole_nanos(&span);
        assert(call_ensures(whole_nanos, (&span,), n));
        let passed: u64 = n as u64;
        assert(self.may_have_passed(passed));
        Instant { nanos: CLOCK_START.saturating_add(passed) }
    }
}

/// Whether a clock may show an instant.
pub open spec fn may_show<C: Clock>(clock: C, now: Instant) -> bool {
    call_ensures(C::now, (&clock,), now)
}

}
