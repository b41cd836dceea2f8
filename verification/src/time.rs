use vstd::prelude::*;

verus! {

/// Seconds in one UTC day.
pub const SECONDS_PER_DAY: i64 = 86400;

/// The hour (UTC) of the daily reset.
pub const DAILY_RESET_HOUR: u32 = 17;

/// The seconds of the earliest and latest instants for which the daily reset
/// is computed: well inside the dates that the calendar library represents.
pub const CALENDAR_SECONDS_BOUND: i64 = 8_000_000_000_000;

/// An instant in UTC: whole seconds since 1970-01-01T00:00:00Z (negative
/// before it) and the nanoseconds within that second.
///
/// Instants are ordered by seconds first and nanoseconds second, which is the
/// order of the calendar times they name.
#[derive(Clone, Copy, Debug, PartialEq, Eq, Structural)]
pub struct Timestamp {
    pub secs: i64,
    pub nanos: u32,
}

impl Timestamp {
    /// `self` is strictly earlier than `other`.
    pub open spec fn precedes(self, other: Timestamp) -> bool {
        self.secs < other.secs || (self.secs == other.secs && self.nanos < other.nanos)
    }

    /// `self` is earlier than or equal to `other`.
    pub open spec fn not_after(self, other: Timestamp) -> bool {
        !other.precedes(self)
    }

    /// The later of `self` and `other`; `other` when they are equal.
    pub open spec fn later_of(self, other: Timestamp) -> Timestamp {
        if other.precedes(self) {
            self
        } else {
            other
        }
    }

    pub fn new(secs: i64, nanos: u32) -> (t: Timestamp)
        ensures
            t.secs == secs,
            t.nanos == nanos,
    {
        Timestamp { secs, nanos }
    }

    /// The instant at a whole number of seconds since the epoch.
    pub fn from_secs(secs: i64) -> (t: Timestamp)
        ensures
            t.secs == secs,
            t.nanos == 0,
    {
        Timestamp { secs, nanos: 0 }
    }

    /// Whole seconds since the epoch.
    pub fn timestamp(&self) -> (s: i64)
        ensures
            s == self.secs,
    {
        self.secs
    }

    pub fn is_before(&self, other: &Timestamp) -> (r: bool)
        ensures
            r == self.precedes(*other),
    {
        self.secs < other.secs || (self.secs == other.secs && self.nanos < other.nanos)
    }

    /// The later of the two instants (`other` when they are equal).
    pub fn max(self, other: Timestamp) -> (r: Timestamp)
        ensures
            r == self.later_of(other),
    {
        if other.is_before(&self) {
            self
        } else {
            other
        }
    }
}

/// The instant of a snapshot is usable: after the epoch and not in the future.
pub open spec fn is_valid_time(time: Timestamp, now: Timestamp) -> bool {
    time.secs > 0 && time.not_after(now)
}

pub fn valid_time(time: Timestamp, now: Timestamp) -> (r: bool)
    ensures
        r == is_valid_time(time, now),
{
    time.secs > 0 && !now.is_before(&time)
}

/// The seconds of `hour:minute:second` UTC on the UTC day that contains
/// second `secs`.
pub open spec fn time_on_day(secs: int, hour: int, minute: int, second: int) -> int {
    (secs / SECONDS_PER_DAY as int) * SECONDS_PER_DAY as int + hour * 3600 + minute * 60 + second
}

/// The seconds of the daily reset on the UTC day that contains second `secs`.
pub open spec fn reset_time_of_day(secs: int) -> int {
    time_on_day(secs, DAILY_RESET_HOUR as int, 0, 0)
}

/// The most recent daily reset (17:00 UTC) at or before `now`.
pub open spec fn last_daily_reset(now: Timestamp) -> int {
    let same_day = reset_time_of_day(now.secs as int);
    if now.secs < same_day {
        same_day - SECONDS_PER_DAY as int
    } else {
        same_day
    }
}

pub open spec fn within_calendar(secs: int) -> bool {
    -CALENDAR_SECONDS_BOUND <= secs <= CALENDAR_SECONDS_BOUND
}

/// Calls chrono: the UTC date of the instant `secs` seconds after the epoch
/// (`DateTime::from_timestamp` then `date_naive`), at `hour:minute:second`
/// (`NaiveDate::and_hms_opt`), as seconds since the epoch (`and_utc`, then
/// `timestamp`). chrono's documentation gives the UTC date of the instant,
/// accepts any hour below 24 and minute and second below 60, and counts
/// `timestamp` in whole days of 86400 seconds plus the seconds of the day.
/// `from_timestamp` fails only outside the dates that chrono represents,
/// which lie beyond the bound stated here.
#[verifier::external_body]
fn chrono_time_on_day(secs: i64, hour: u32, minute: u32, second: u32) -> (r: Option<i64>)
    requires
        hour < 24,
        minute < 60,
        second < 60,
    ensures
        within_calendar(secs as int) ==> r is Some,
        r matches Some(v) ==> v == time_on_day(secs as int, hour as int, minute as int, second as int),
{
    let day = chrono::DateTime::from_timestamp(secs, 0)?.date_naive();
    let at = day.and_hms_opt(hour, minute, second)?;
    Some(at.and_utc().timestamp())
}

/// The cut-off for today's clears: the reset hour today if that is not
/// after `now`, else the reset hour yesterday. `None` when chrono cannot name the day
/// of `now`.
pub fn daily_reset_cutoff(now: Timestamp) -> (r: Option<Timestamp>)
    ensures
        within_calendar(now.secs as int) ==> r is Some,
        r matches Some(t) ==> t.secs == last_daily_reset(now) && t.nanos == 0,
{
    match chrono_time_on_day(now.secs, DAILY_RESET_HOUR, 0, 0) {
        Some(reset) => {
            assert(reset_time_of_day(now.secs as int) <= now.secs + 61200) by {
                let s = now.secs as int;
                let d = SECONDS_PER_DAY as int;
                assert((s / d) * d <= s) by (nonlinear_arith)
                    requires d == 86400;
            }
            assert(reset_time_of_day(now.secs as int) > now.secs - SECONDS_PER_DAY + 61200) by {
                let s = now.secs as int;
                let d = SECONDS_PER_DAY as int;
                assert((s / d) * d > s - d) by (nonlinear_arith)
                    requires d == 86400;
            }
            let cutoff = Timestamp::from_secs(reset);
            if now.is_before(&cutoff) {
                match reset.checked_sub(SECONDS_PER_DAY) {
                    Some(previous) => Some(Timestamp::from_secs(previous)),
                    None => None,
                }
            } else {
                Some(cutoff)
            }
        },
        None => None,
    }
}

/// The daily cut-off is a reset time (the reset hour of a UTC day), not
/// after `now`, and less than a day before it: the last reset that has
/// happened.
pub proof fn lemma_last_daily_reset_is_last_reset(now: Timestamp)
    ensures
        last_daily_reset(now) <= now.secs,
        now.secs < last_daily_reset(now) + SECONDS_PER_DAY,
        last_daily_reset(now) % (SECONDS_PER_DAY as int) == DAILY_RESET_HOUR as int * 3600,
{
    let s = now.secs as int;
    let d = SECONDS_PER_DAY as int;
    assert((s / d) * d <= s && s < (s / d) * d + d) by (nonlinear_arith)
        requires d == 86400;
    let base = (s / d) * d;
    assert((base + 61200) % d == 61200 && (base - 86400 + 61200) % d == 61200) by (nonlinear_arith)
        requires d == 86400, base == (s / d) * d;
}

} // verus!
