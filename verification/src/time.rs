//! Moments, spans of time, and the clock.
use crate::calendar::{decimal, digit, is_stamp, with_number, FIRST_SECOND, LAST_SECOND};
use vstd::prelude::*;
use vstd::string::*;

verus! {

/// The date format used when writing timestamps into the names of log files with
/// [chrono](https://docs.rs/chrono/latest/chrono/format/strftime/).
pub const DATE_FORMAT: &'static str = "%Y-%m-%d-%H-%M-%S%.6f";

/// A moment in UTC: seconds since 1970-01-01 00:00:00, and the nanoseconds past that second.
#[derive(Clone, Copy, Debug, PartialEq, Eq, Structural)]
pub struct Timestamp {
    pub secs: i64,
    pub nanos: u32,
}

/// A span of time, which may be negative: whole seconds, rounded down, and the nanoseconds above
/// them.
#[derive(Clone, Copy, Debug, PartialEq, Eq, Structural)]
pub struct TimeDelta {
    pub secs: i64,
    pub nanos: u32,
}

impl Timestamp {
    /// Whether this is a moment that the calendar can name.
    pub open spec fn is_valid(self) -> bool {
        FIRST_SECOND <= self.secs <= LAST_SECOND && self.nanos < 1_000_000_000
    }

    /// The nanoseconds since 1970-01-01 00:00:00.
    pub open spec fn total_nanos(self) -> int {
        self.secs * 1_000_000_000 + self.nanos
    }

    /// The whole microseconds since 1970-01-01 00:00:00.
    pub open spec fn total_micros(self) -> int {
        self.secs * 1_000_000 + self.nanos as int / 1_000
    }

    /// The current time. What the clock shows is open; it is always a moment with a name.
    pub fn now() -> (res: Timestamp)
        ensures
            res.is_valid(),
    {
        let (secs, nanos): (i64, u32) = utc_now();
        Timestamp { secs, nanos }
    }

    /// How the moment is spelled in the name of a log file.
    pub fn stamp(self) -> (res: String)
        requires
            self.is_valid(),
        ensures
            is_stamp(self.secs as int, self.nanos as int, res@),
    {
        format_utc(self.secs, self.nanos, DATE_FORMAT)
    }

    /// Whether at least `span` lies between `began` and this moment.
    pub fn is_past(self, began: Timestamp, span: TimeDelta) -> (res: bool)
        ensures
            res == (self.total_nanos() - began.total_nanos() >= span.total_nanos()),
    {
        let now: i128 = self.secs as i128 * 1_000_000_000 + self.nanos as i128;
        let then: i128 = began.secs as i128 * 1_000_000_000 + began.nanos as i128;
        let least: i128 = span.secs as i128 * 1_000_000_000 + span.nanos as i128;
        now - then >= least
    }
}

/// A digit as text.
fn digit_text(n: u64) -> (res: &'static str)
    requires
        n < 10,
    ensures
        res@ == seq![digit(n as int)],
{
    proof {
        reveal_strlit("0");
        reveal_strlit("1");
        reveal_strlit("2");
        reveal_strlit("3");
        reveal_strlit("4");
        reveal_strlit("5");
        reveal_strlit("6");
        reveal_strlit("7");
        reveal_strlit("8");
        reveal_strlit("9");
    }
    let res = match n {
        0 => "0",
        1 => "1",
        2 => "2",
        3 => "3",
        4 => "4",
        5 => "5",
        6 => "6",
        7 => "7",
        8 => "8",
        _ => "9",
    };
    assert(res@ =~= seq![digit(n as int)]);
    res
}

/// A number in decimal digits.
fn decimal_text(n: u64) -> (res: String)
    ensures
        res@ == decimal(n as int),
    decreases n,
{
    if n < 10 {
        return String::from_str(digit_text(n));
    }
    let mut res = decimal_text(n / 10);
    res.append(digit_text(n % 10));
    assert(res@ =~= decimal(n as int));
    res
}

/// The spelling of a moment, a dash and a number.
pub fn numbered_stamp(stamp: &str, number: u64) -> (res: String)
    ensures
        res@ == with_number(stamp@, number as int),
{
    let mut res = String::from_str(stamp);
    res.append("-");
    let digits = decimal_text(number);
    res.append(digits.as_str());
    proof {
        reveal_strlit("-");
        assert(res@ =~= with_number(stamp@, number as int));
    }
    res
}

impl TimeDelta {
    /// The span of so many seconds and nanoseconds, both of which may be negative.
    pub fn new(secs: i64, nanos: i32) -> (res: TimeDelta)
        requires
            i64::MIN < secs,
            -1_000_000_000 < nanos < 1_000_000_000,
        ensures
            res.total_nanos() == secs * 1_000_000_000 + nanos,
            res.nanos < 1_000_000_000,
    {
        if nanos < 0 {
            TimeDelta { secs: secs - 1, nanos: (nanos + 1_000_000_000) as u32 }
        } else {
            TimeDelta { secs, nanos: nanos as u32 }
        }
    }

    /// The length of the span in nanoseconds.
    pub open spec fn total_nanos(self) -> int {
        self.secs * 1_000_000_000 + self.nanos
    }
}

/// Reads the clock with `chrono::Utc::now` and takes the result apart with
/// `DateTime::timestamp` and `DateTime::timestamp_subsec_nanos`.
///
/// Trusted: the moment lies in the range of `DateTime<Utc>` and in no leap second. Which moment it
/// is stays open. With a system clock set before 1970, `Utc::now` panics; no argument of this
/// function can rule that out.
#[verifier::external_body]
fn utc_now() -> (res: (i64, u32))
    ensures
        FIRST_SECOND <= res.0 <= LAST_SECOND,
        res.1 < 1_000_000_000,
{
    let now = chrono::Utc::now();
    (now.timestamp(), now.timestamp_subsec_nanos())
}

/// Formats a moment with `chrono::DateTime::format`, having made the `DateTime<Utc>` with
/// `DateTime::from_timestamp`.
///
/// Trusted: for the one format that log files are named with, the text is the date and time of day
/// of that moment in the proleptic Gregorian calendar, each number zero-padded to its width: four
/// digits for the year (with a sign in front outside 0 to 9999), two for each of the others, six
/// for the microseconds, which are cut off and not rounded.
#[verifier::external_body]
fn format_utc(secs: i64, nanos: u32, format: &str) -> (res: String)
    requires
        FIRST_SECOND <= secs <= LAST_SECOND,
        nanos < 1_000_000_000,
        format@ == DATE_FORMAT@,
    ensures
        is_stamp(secs as int, nanos as int, res@),
{
    chrono::DateTime::from_timestamp(secs, nanos).unwrap().format(format).to_string()
}

} // verus!
