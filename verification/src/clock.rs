//! Wall-clock times, as they stand beside records and in names of log files.
use vstd::prelude::*;

#[allow(unused_imports)]
use crate::text;

verus! {

/// The earliest second of the calendar: 1 January of the year -262143.
pub const FIRST_SECOND: i64 = -8_334_601_228_800;

/// The last second of the calendar: the end of the year 262142.
pub const LAST_SECOND: i64 = 8_210_266_876_799;

/// A local wall-clock time: seconds since the start of 1970 on the local clock,
/// and nanoseconds within the second.
#[derive(Debug, Clone, Copy, PartialEq, Eq, Structural)]
pub struct Timestamp {
    secs: i64,
    nanos: u32,
}

/// What `chrono` writes for a local time under a format pattern.
pub uninterp spec fn strftime(secs: i64, nanos: u32, pattern: Seq<char>) -> Seq<char>;

/// Two decimal digits.
pub open spec fn two_digits(n: nat) -> Seq<char> {
    seq![text::digit(n / 10), text::digit(n % 10)]
}

/// Three decimal digits.
pub open spec fn three_digits(n: nat) -> Seq<char> {
    seq![text::digit(n / 100), text::digit(n / 10 % 10), text::digit(n % 10)]
}

/// Hours, minutes, seconds and milliseconds of a local time, the rest cut off:
/// `19:04:12.331`.
pub open spec fn time_of_day(secs: int, nanos: nat) -> Seq<char> {
    let s = (secs % 86400) as nat;
    two_digits(s / 3600) + seq![':'] + two_digits(s / 60 % 60) + seq![':'] + two_digits(s % 60)
        + seq!['.'] + three_digits(nanos / 1_000_000)
}

/// Writes a local time under one of the patterns in use.
///
/// Calls `chrono::DateTime::from_timestamp` and `chrono::NaiveDateTime::format`.
/// The range of `secs` and `nanos` is the one on which the first gives a time.
/// The contract names the text, and for the time of day says what it is: hour,
/// minute and second in two digits each, and the milliseconds, cut off, in three.
#[verifier::external_body]
fn format_local(secs: i64, nanos: u32, pattern: &str) -> (s: String)
    requires
        FIRST_SECOND <= secs <= LAST_SECOND,
        nanos < 1_000_000_000,
        pattern@ == "%H:%M:%S%.3f"@ || pattern@ == "%Y%m%d-%H%M%S"@ || pattern@
            == "%Y-%m-%d %H:%M:%S"@,
    ensures
        s@ == strftime(secs, nanos, pattern@),
        pattern@ == "%H:%M:%S%.3f"@ ==> s@ == time_of_day(secs as int, nanos as nat),
{
    chrono::DateTime::from_timestamp(secs, nanos)
        .expect("a time within the calendar")
        .naive_utc()
        .format(pattern)
        .to_string()
}

/// Reads the local clock.
///
/// Calls `chrono::Local::now`. The time lies within the calendar and the
/// nanoseconds within the second; beyond that it is whatever the clock shows.
#[verifier::external_body]
fn local_now() -> (r: (i64, u32))
    ensures
        FIRST_SECOND <= r.0 <= LAST_SECOND,
        r.1 < 1_000_000_000,
{
    let now = chrono::Local::now().naive_local().and_utc();
    (now.timestamp(), now.timestamp_subsec_nanos())
}

impl Timestamp {
    #[verifier::type_invariant]
    spec fn in_calendar(self) -> bool {
        FIRST_SECOND <= self.secs <= LAST_SECOND && self.nanos < 1_000_000_000
    }

    /// Seconds since the start of 1970 on the local clock.
    pub closed spec fn secs(self) -> i64 {
        self.secs
    }

    /// Nanoseconds within the second.
    pub closed spec fn nanos(self) -> u32 {
        self.nanos
    }

    /// The time of day to the millisecond.
    pub open spec fn time(self) -> Seq<char> {
        time_of_day(self.secs() as int, self.nanos() as nat)
    }

    /// A time, or `None` outside the calendar.
    pub fn new(secs: i64, nanos: u32) -> (r: Option<Timestamp>)
        ensures
            r is Some <==> FIRST_SECOND <= secs <= LAST_SECOND && nanos < 1_000_000_000,
            r matches Some(t) ==> t.secs() == secs && t.nanos() == nanos,
    {
        if FIRST_SECOND <= secs && secs <= LAST_SECOND && nanos < 1_000_000_000 {
            Some(Timestamp { secs, nanos })
        } else {
            None
        }
    }

    /// The time that the local clock shows. Nothing is said of it but that it
    /// lies within the calendar.
    pub fn now() -> (t: Timestamp)
        ensures
            FIRST_SECOND <= t.secs() <= LAST_SECOND,
            t.nanos() < 1_000_000_000,
    {
        let (secs, nanos) = local_now();
        Timestamp { secs, nanos }
    }

    /// The time of day to the millisecond, as in `19:04:12.331`.
    pub fn time_text(&self) -> (s: String)
        ensures
            s@ == self.time(),
    {
        proof {
            use_type_invariant(self);
        }
        format_local(self.secs, self.nanos, "%H:%M:%S%.3f")
    }

    /// Date and time run together, as in `20240131-190412`.
    pub fn file_stamp(&self) -> (s: String)
        ensures
            s@ == strftime(self.secs(), self.nanos(), "%Y%m%d-%H%M%S"@),
    {
        proof {
            use_type_invariant(self);
        }
        format_local(self.secs, self.nanos, "%Y%m%d-%H%M%S")
    }

    /// Date and time, as in `2024-01-31 19:04:12`.
    pub fn date_time(&self) -> (s: String)
        ensures
            s@ == strftime(self.secs(), self.nanos(), "%Y-%m-%d %H:%M:%S"@),
    {
        proof {
            use_type_invariant(self);
        }
        format_local(self.secs, self.nanos, "%Y-%m-%d %H:%M:%S")
    }
}

} // verus!
