//! Points in time as plain numbers, and the clock that reads them.

use vstd::prelude::*;

verus! {

/// Nanoseconds in one second.
pub const NANOS_PER_SEC: u32 = 1_000_000_000;

/// A point in time: whole seconds since 1970-01-01 00:00:00 UTC, and the
/// nanoseconds past that second.
#[derive(Clone, Copy, Debug, PartialEq, Eq, Structural)]
pub struct Timestamp {
    pub secs: i64,
    pub nanos: u32,
}

/// Whole seconds from `from` to `to`, rounded toward zero; negative where
/// `to` is the earlier one.
pub open spec fn whole_seconds_between(from: Timestamp, to: Timestamp) -> int {
    let nanos = (to.secs - from.secs) * NANOS_PER_SEC + (to.nanos - from.nanos);
    if nanos >= 0 {
        nanos / (NANOS_PER_SEC as int)
    } else {
        -((-nanos) / (NANOS_PER_SEC as int))
    }
}

impl Timestamp {
    /// The nanoseconds stay below one second.
    pub open spec fn wf(self) -> bool {
        self.nanos < NANOS_PER_SEC
    }

    /// A well-formed time at or after the epoch: what the system clock
    /// reports.
    pub open spec fn is_clock_reading(self) -> bool {
        self.wf() && 0 <= self.secs
    }

    /// `self` is strictly later than `other`.
    pub open spec fn later_than(self, other: Timestamp) -> bool {
        self.secs > other.secs || (self.secs == other.secs && self.nanos > other.nanos)
    }

    /// The time `secs` whole seconds after the epoch.
    pub fn from_secs(secs: i64) -> (time: Timestamp)
        ensures
            time == (Timestamp { secs, nanos: 0 }),
    {
        Timestamp { secs, nanos: 0 }
    }

    /// Whether `self` is strictly later than `other`.
    pub fn is_later_than(&self, other: &Timestamp) -> (later: bool)
        ensures
            later == self.later_than(*other),
    {
        self.secs > other.secs || (self.secs == other.secs && self.nanos > other.nanos)
    }

    /// Whole seconds from `self` to `later`, rounded toward zero. `None`
    /// where the two are further apart than 64 bits can count.
    pub fn seconds_until(&self, later: &Timestamp) -> (seconds: Option<i64>)
        requires
            self.wf(),
            later.wf(),
        ensures
            seconds is Some <==> i64::MIN <= later.secs - self.secs <= i64::MAX,
            seconds matches Some(s) ==> s == whole_seconds_between(*self, *later),
    {
        match later.secs.checked_sub(self.secs) {
            None => None,
            Some(secs) => {
                let ghost nanos = secs * NANOS_PER_SEC + (later.nanos - self.nanos);
                if secs > 0 && later.nanos < self.nanos {
                    assert(nanos / (NANOS_PER_SEC as int) == secs - 1) by (nonlinear_arith)
                        requires
                            nanos == secs * 1_000_000_000 + (later.nanos - self.nanos),
                            -1_000_000_000 < later.nanos - self.nanos < 0,
                            NANOS_PER_SEC == 1_000_000_000,
                            secs > 0,
                    ;
                    Some(secs - 1)
                } else if secs < 0 && later.nanos > self.nanos {
                    assert((-nanos) / (NANOS_PER_SEC as int) == -secs - 1) by (nonlinear_arith)
                        requires
                            nanos == secs * 1_000_000_000 + (later.nanos - self.nanos),
                            0 < later.nanos - self.nanos < 1_000_000_000,
                            NANOS_PER_SEC == 1_000_000_000,
                            secs < 0,
                    ;
                    Some(secs + 1)
                } else {
                    proof {
                        let d = later.nanos - self.nanos;
                        if secs > 0 {
                            assert(nanos >= 0 && nanos / (NANOS_PER_SEC as int) == secs)
                                by (nonlinear_arith)
                                requires
                                    nanos == secs * 1_000_000_000 + d,
                                    NANOS_PER_SEC == 1_000_000_000,
                                    secs > 0,
                                    0 <= d < 1_000_000_000,
                            ;
                        } else if secs < 0 {
                            assert(nanos < 0 && (-nanos) / (NANOS_PER_SEC as int) == -secs)
                                by (nonlinear_arith)
                                requires
                                    nanos == secs * 1_000_000_000 + d,
                                    NANOS_PER_SEC == 1_000_000_000,
                                    secs < 0,
                                    -1_000_000_000 < d <= 0,
                            ;
                        } else {
                            assert(nanos == d);
                        }
                    }
                    Some(secs)
                }
            },
        }
    }
}

/// Whether `secs` seconds since the epoch fall on a date that the calendar
/// library can hold.
pub uninterp spec fn representable_secs(secs: i64) -> bool;

/// `chrono::DateTime::from_timestamp` with no nanoseconds: a time exists for
/// `secs` exactly where the date is in range, and then reads back the same
/// seconds and no nanoseconds.
#[verifier::external_body]
pub(crate) fn time_from_secs(secs: i64) -> (time: Option<Timestamp>)
    ensures
        time is Some <==> representable_secs(secs),
        time matches Some(t) ==> t == (Timestamp { secs, nanos: 0 }),
{
    match chrono::DateTime::from_timestamp(secs, 0) {
        Some(time) => Some(
            Timestamp { secs: time.timestamp(), nanos: time.timestamp_subsec_nanos() },
        ),
        None => None,
    }
}

/// `chrono::Utc::now`, read as seconds and nanoseconds since the epoch. The
/// clock's answer is not predicted; whatever it is, it lies at or after the
/// epoch and its nanoseconds stay below one second. (The call does not return
/// where the system clock is set before 1970.)
#[verifier::external_body]
pub(crate) fn now() -> (time: Timestamp)
    ensures
        time.is_clock_reading(),
{
    let time = chrono::Utc::now();
    Timestamp { secs: time.timestamp(), nanos: time.timestamp_subsec_nanos() }
}

} // verus!
