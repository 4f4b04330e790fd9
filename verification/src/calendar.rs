//! Instants and calendar dates as plain values.
//!
//! An instant is an `i64` count of milliseconds since 1970-01-01T00:00:00Z,
//! restricted to the range a `chrono::DateTime<Utc>` can represent. A
//! calendar date is a year with its day of the year. Parsing and calendar
//! validation are done by `chrono`, through the trusted items below.
use vstd::prelude::*;

verus! {

pub const SECOND_MS: i64 = 1000;

pub const MINUTE_MS: i64 = 60000;

pub const HOUR_MS: i64 = 3600000;

pub const DAY_MS: i64 = 86400000;

/// Earliest representable instant: -262143-01-01T00:00:00Z.
pub const EARLIEST_INSTANT_MS: i64 = -8334601315200000;

/// Latest representable instant: +262142-12-31T23:59:59.999Z.
pub const LATEST_INSTANT_MS: i64 = 8210266876799999;

/// Earliest and latest year of a calendar date.
pub const MIN_YEAR: i32 = -262143;

pub const MAX_YEAR: i32 = 262142;

/// `t` is an instant that a UTC date-time can hold.
pub open spec fn is_instant(t: int) -> bool {
    EARLIEST_INSTANT_MS <= t <= LATEST_INSTANT_MS
}

/// Proleptic Gregorian leap year.
pub open spec fn is_leap_year(year: int) -> bool {
    year % 4 == 0 && (year % 100 != 0 || year % 400 == 0)
}

pub open spec fn days_in_month(year: int, month: int) -> int {
    if month == 2 {
        if is_leap_year(year) {
            29
        } else {
            28
        }
    } else if month == 4 || month == 6 || month == 9 || month == 11 {
        30
    } else {
        31
    }
}

/// Days in the months of `year` before `month`.
pub open spec fn days_before_month(year: int, month: int) -> int
    decreases month,
{
    if month <= 1 {
        0
    } else {
        days_before_month(year, month - 1) + days_in_month(year, month - 1)
    }
}

/// `year-month-day` is a date of the calendar, within the supported years.
pub open spec fn is_valid_ymd(year: int, month: int, day: int) -> bool {
    &&& MIN_YEAR <= year <= MAX_YEAR
    &&& 1 <= month <= 12
    &&& 1 <= day <= days_in_month(year, month)
}

/// Day of the year, counting January 1st as 1.
pub open spec fn day_of_year(year: int, month: int, day: int) -> int {
    days_before_month(year, month) + day
}

/// What `chrono` makes of a string in the `%Y-%m-%d` format: the year and
/// day of the year, or `None` where it refuses the string.
pub uninterp spec fn parsed_date(s: Seq<char>) -> Option<(i32, u32)>;

/// What `chrono` makes of a string in the `%Y-%m-%dT%H:%M` format, read as
/// UTC: the instant in milliseconds, or `None` where it refuses the string.
pub uninterp spec fn parsed_hourly_instant(s: Seq<char>) -> Option<i64>;

/// What `chrono` makes of a 12-hour clock string in the `%I:%M:%S %p`
/// format: whole seconds since midnight and the nanosecond field (which
/// exceeds 999_999_999 only for a leap second), or `None` where it refuses
/// the string.
pub uninterp spec fn parsed_clock_time(s: Seq<char>) -> Option<(u32, u32)>;

/// Calls `chrono::NaiveDate::from_ymd_opt` and reads the day of the year of
/// the result (`Datelike::ordinal`). Trusted: the date exists exactly when
/// the year is in chrono's range and the month and day name a day of the
/// proleptic Gregorian calendar, and the ordinal counts January 1st as 1.
#[verifier::external_body]
fn chrono_ordinal(year: i32, month: u32, day: u32) -> (r: Option<u32>)
    ensures
        r is Some <==> is_valid_ymd(year as int, month as int, day as int),
        r matches Some(o) ==> o == day_of_year(year as int, month as int, day as int),
{
    match chrono::NaiveDate::from_ymd_opt(year, month, day) {
        Some(d) => Some(chrono::Datelike::ordinal(&d)),
        None => None,
    }
}

/// Calls `chrono::NaiveDate::parse_from_str(s, "%Y-%m-%d")` and reads the
/// year and day of the year of the result. Trusted: the result is the named
/// value `parsed_date`; a parsed date has a day of the year from 1 to 366
/// and a year in chrono's range.
#[verifier::external_body]
fn chrono_parse_date(s: &str) -> (r: Option<(i32, u32)>)
    ensures
        r == parsed_date(s@),
        r matches Some(p) ==> 1 <= p.1 <= 366 && MIN_YEAR <= p.0 <= MAX_YEAR,
{
    match chrono::NaiveDate::parse_from_str(s, "%Y-%m-%d") {
        Ok(d) => Some((chrono::Datelike::year(&d), chrono::Datelike::ordinal(&d))),
        Err(_) => None,
    }
}

/// Calls `chrono::NaiveDateTime::parse_from_str(s, "%Y-%m-%dT%H:%M")` and
/// reads the result as UTC milliseconds (`and_utc().timestamp_millis()`).
/// Trusted: the result is the named value `parsed_hourly_instant`, and a
/// parsed date-time is a representable instant.
#[verifier::external_body]
fn chrono_parse_hourly(s: &str) -> (r: Option<i64>)
    ensures
        r == parsed_hourly_instant(s@),
        r matches Some(t) ==> is_instant(t as int),
{
    match chrono::NaiveDateTime::parse_from_str(s, "%Y-%m-%dT%H:%M") {
        Ok(n) => Some(n.and_utc().timestamp_millis()),
        Err(_) => None,
    }
}

/// Calls `chrono::NaiveTime::parse_from_str(s, "%I:%M:%S %p")` and reads the
/// seconds since midnight and the nanosecond field of the result. Trusted:
/// the result is the named value `parsed_clock_time`; a `NaiveTime` has
/// fewer than 86400 seconds since midnight and a nanosecond field below
/// 2_000_000_000.
#[verifier::external_body]
fn chrono_parse_clock(s: &str) -> (r: Option<(u32, u32)>)
    ensures
        r == parsed_clock_time(s@),
        r matches Some(p) ==> p.0 < 86400 && p.1 < 2000000000,
{
    match chrono::NaiveTime::parse_from_str(s, "%I:%M:%S %p") {
        Ok(t) => Some(
            (chrono::Timelike::num_seconds_from_midnight(&t), chrono::Timelike::nanosecond(&t)),
        ),
        Err(_) => None,
    }
}

/// Milliseconds since midnight of a parsed clock time (a leap second counts
/// as the first millisecond of the next second).
pub open spec fn clock_millis(p: (u32, u32)) -> int {
    p.0 * 1000 + p.1 / 1000000
}

/// Parses a 12-hour clock time such as `11:39:35 AM` into milliseconds
/// since midnight.
pub fn parse_clock_time(s: &str) -> (r: Option<u32>)
    ensures
        r is None <==> parsed_clock_time(s@) is None,
        r matches Some(ms) ==> (parsed_clock_time(s@) matches Some(p) && ms == clock_millis(p)),
        r matches Some(ms) ==> ms < 86402000,
{
    match chrono_parse_clock(s) {
        Some((secs, nanos)) => Some(secs * 1000 + nanos / 1000000),
        None => None,
    }
}

/// Parses an hourly `YYYY-MM-DDTHH:MM` time stamp (UTC).
pub fn parse_hourly_time(s: &str) -> (r: Option<i64>)
    ensures
        r == parsed_hourly_instant(s@),
        r matches Some(t) ==> is_instant(t as int),
{
    chrono_parse_hourly(s)
}

/// A day of the calendar: a year and the day of that year.
#[derive(Clone, Copy, Debug, PartialEq, Eq, Structural)]
pub struct CalendarDate {
    year: i32,
    ordinal: u32,
}

impl CalendarDate {
    pub closed spec fn year_of(self) -> int {
        self.year as int
    }

    pub closed spec fn ordinal_of(self) -> int {
        self.ordinal as int
    }

    /// The date `year-month-day`, or `None` where that day does not exist.
    pub fn from_ymd_opt(year: i32, month: u32, day: u32) -> (r: Option<CalendarDate>)
        ensures
            r is Some <==> is_valid_ymd(year as int, month as int, day as int),
            r matches Some(d) ==> d.year_of() == year && d.ordinal_of() == day_of_year(
                year as int,
                month as int,
                day as int,
            ),
    {
        match chrono_ordinal(year, month, day) {
            Some(o) => Some(CalendarDate { year, ordinal: o }),
            None => None,
        }
    }

    /// Parses a `YYYY-MM-DD` date.
    pub fn parse(s: &str) -> (r: Option<CalendarDate>)
        ensures
            r is Some <==> parsed_date(s@) is Some,
            r matches Some(d) ==> (parsed_date(s@) matches Some(p) && d.year_of() == p.0
                && d.ordinal_of() == p.1),
    {
        match chrono_parse_date(s) {
            Some((y, o)) => Some(CalendarDate { year: y, ordinal: o }),
            None => None,
        }
    }

    pub fn year(&self) -> (r: i32)
        ensures
            r == self.year_of(),
    {
        self.year
    }

    /// Day of the year, January 1st being 1.
    pub fn ordinal(&self) -> (r: u32)
        ensures
            r == self.ordinal_of(),
    {
        self.ordinal
    }

    /// Strict chronological order.
    pub open spec fn spec_before(self, other: CalendarDate) -> bool {
        self.year_of() < other.year_of() || (self.year_of() == other.year_of()
            && self.ordinal_of() < other.ordinal_of())
    }

    pub fn is_before(&self, other: &CalendarDate) -> (r: bool)
        ensures
            r == self.spec_before(*other),
    {
        self.year < other.year || (self.year == other.year && self.ordinal < other.ordinal)
    }
}

} // verus!
