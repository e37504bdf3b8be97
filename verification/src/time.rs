//! Points in time and spans of time, measured in nanoseconds.
//!
//! An `Instant` is a count of nanoseconds since the origin of a `Clock`, and a
//! `Duration` is a non-negative count of nanoseconds. Both are plain integers,
//! so that the logic that compares them can be verified; only `Clock::now`
//! reads the machine's monotonic clock, and it never gives a reading earlier
//! than one it gave before.
use vstd::prelude::*;

verus! {

/// Nanoseconds in one millisecond.
pub const NANOS_PER_MILLI: u128 = 1_000_000;

/// Nanoseconds in one second.
pub const NANOS_PER_SEC: u128 = 1_000_000_000;

/// A span of time, in nanoseconds.
#[derive(Clone, Copy, Debug, PartialEq, Eq, Structural)]
pub struct Duration {
    pub nanos: u128,
}

/// A point in time: nanoseconds since the origin of the clock that produced it.
#[derive(Clone, Copy, Debug, PartialEq, Eq, Structural)]
pub struct Instant {
    pub nanos: u128,
}

impl Duration {
    /// A duration of `secs` seconds and `nanos` nanoseconds; nanoseconds beyond a
    /// second carry into the seconds.
    pub fn new(secs: u64, nanos: u32) -> (d: Duration)
        requires
            secs + (nanos as int) / 1_000_000_000int <= u64::MAX,
        ensures
            d.nanos == secs * NANOS_PER_SEC + nanos,
    {
        assert(secs * NANOS_PER_SEC <= u64::MAX * NANOS_PER_SEC) by (nonlinear_arith)
            requires secs <= u64::MAX;
        Duration { nanos: (secs as u128) * NANOS_PER_SEC + (nanos as u128) }
    }

    /// A duration of `millis` milliseconds.
    pub fn from_millis(millis: u64) -> (d: Duration)
        ensures
            d.nanos == millis * NANOS_PER_MILLI,
    {
        assert(millis * NANOS_PER_MILLI <= u64::MAX * NANOS_PER_MILLI) by (nonlinear_arith)
            requires millis <= u64::MAX;
        Duration { nanos: (millis as u128) * NANOS_PER_MILLI }
    }

    /// A duration of `nanos` nanoseconds.
    pub fn from_nanos(nanos: u64) -> (d: Duration)
        ensures
            d.nanos == nanos,
    {
        Duration { nanos: nanos as u128 }
    }

    /// The whole milliseconds in this duration.
    pub fn as_millis(&self) -> (m: u128)
        ensures
            m == self.nanos / NANOS_PER_MILLI,
    {
        self.nanos / NANOS_PER_MILLI
    }

    /// The nanoseconds in this duration.
    pub fn as_nanos(&self) -> (n: u128)
        ensures
            n == self.nanos,
    {
        self.nanos
    }
}

impl Instant {
    /// The time elapsed from `earlier` to `self`, or zero when `earlier` is later.
    pub fn duration_since(&self, earlier: Instant) -> (d: Duration)
        ensures
            d.nanos == if self.nanos >= earlier.nanos { self.nanos - earlier.nanos } else { 0 },
    {
        if self.nanos >= earlier.nanos {
            Duration { nanos: self.nanos - earlier.nanos }
        } else {
            Duration { nanos: 0 }
        }
    }

    /// The instant that lies `d` after `self`.
    pub fn add_duration(&self, d: Duration) -> (later: Instant)
        requires
            self.nanos + d.nanos <= u128::MAX,
        ensures
            later.nanos == self.nanos + d.nanos,
    {
        Instant { nanos: self.nanos + d.nanos }
    }
}

#[verifier::external_type_specification]
#[verifier::external_body]
pub struct ExStdInstant(std::time::Instant);

/// Reads the machine's monotonic clock: calls `std::time::Instant::now`.
/// Nothing is claimed of the instant it returns.
#[verifier::external_body]
fn std_instant_now() -> std::time::Instant {
    std::time::Instant::now()
}

/// Calls `std::time::Instant::elapsed` on `origin`: the time since `origin`.
/// The result depends on the clock, so nothing is claimed of it.
#[verifier::external_body]
fn std_elapsed(origin: &std::time::Instant) -> std::time::Duration {
    origin.elapsed()
}

/// Calls `std::time::Duration::as_nanos`. The duration is opaque here, so
/// nothing is claimed of the count it returns.
#[verifier::external_body]
fn std_duration_nanos(d: &std::time::Duration) -> u128 {
    d.as_nanos()
}

/// A monotonic clock whose readings are `Instant`s counted from its origin. It
/// remembers its latest reading, so that no reading it gives is earlier than
/// one it gave before, and counts its readings.
#[derive(Clone, Copy)]
pub struct Clock {
    origin: std::time::Instant,
    latest: u128,
    reads: Ghost<nat>,
}

impl Clock {
    /// The latest reading this clock gave, in nanoseconds since its origin:
    /// zero before its first reading.
    pub closed spec fn latest(&self) -> u128 {
        self.latest
    }

    /// The moment this clock counts from.
    pub closed spec fn origin(&self) -> std::time::Instant {
        self.origin
    }

    /// How many readings this clock has given.
    pub closed spec fn reads(&self) -> nat {
        self.reads@
    }

    /// A clock whose origin is the present moment.
    pub fn start() -> (c: Clock)
        ensures
            c.latest() == 0,
            c.reads() == 0,
    {
        Clock { origin: std_instant_now(), latest: 0, reads: Ghost(0) }
    }

    /// The present moment, as nanoseconds since the clock's origin. The reading
    /// is never earlier than the clock's latest reading, which it becomes: the
    /// machine's clock is monotonic, and a reading behind the latest one is
    /// taken as the latest one.
    pub fn now(&mut self) -> (t: Instant)
        ensures
            t.nanos >= old(self).latest(),
            final(self).latest() == t.nanos,
            final(self).origin() == old(self).origin(),
            final(self).reads() == old(self).reads() + 1,
    {
        let elapsed = std_elapsed(&self.origin);
        let reading = std_duration_nanos(&elapsed);
        let nanos = if reading < self.latest { self.latest } else { reading };
        self.latest = nanos;
        self.reads = Ghost(self.reads@ + 1);
        Instant { nanos }
    }
}

} // verus!
