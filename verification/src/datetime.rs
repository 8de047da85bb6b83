//! Calendar date-times of the proleptic Gregorian calendar, with the
//! current local time and the time between two date-times taken from
//! `chrono`.
use vstd::prelude::*;
use chrono::{Datelike, Timelike};
use std::fmt::Write;

verus! {

/// A local date and time, as `chrono::NaiveDateTime` holds it.
#[derive(Clone, Copy, Debug, PartialEq, Eq, Structural)]
pub struct DateTime {
    pub year: i32,
    pub month: u32,
    pub day: u32,
    pub hour: u32,
    pub minute: u32,
    pub second: u32,
    pub nanosecond: u32,
}

/// The earliest year of `chrono::NaiveDate`.
pub open spec fn min_year() -> int {
    -262143
}

/// The latest year of `chrono::NaiveDate`.
pub open spec fn max_year() -> int {
    262142
}

pub open spec fn is_leap_year(y: int) -> bool {
    (y % 4 == 0 && y % 100 != 0) || y % 400 == 0
}

pub open spec fn days_in_month(y: int, m: int) -> int {
    if m == 2 {
        if is_leap_year(y) {
            29
        } else {
            28
        }
    } else if m == 4 || m == 6 || m == 9 || m == 11 {
        30
    } else {
        31
    }
}

/// A date that `chrono::NaiveDate::from_ymd_opt` accepts.
pub open spec fn valid_date(y: int, m: int, d: int) -> bool {
    min_year() <= y <= max_year() && 1 <= m <= 12 && 1 <= d <= days_in_month(y, m)
}

/// A time of day that `chrono::NaiveDate::and_hms_opt` accepts.
pub open spec fn valid_time(h: int, mi: int, s: int) -> bool {
    0 <= h < 24 && 0 <= mi < 60 && 0 <= s < 60
}

/// A date-time of the calendar, outside any leap second.
pub open spec fn valid_datetime(dt: DateTime) -> bool {
    valid_date(dt.year as int, dt.month as int, dt.day as int) && valid_time(
        dt.hour as int,
        dt.minute as int,
        dt.second as int,
    ) && dt.nanosecond < 1_000_000_000
}

/// The days from 0001-01-01 to January 1 of year `y`.
pub open spec fn days_before_year(y: int) -> int {
    let p = y - 1;
    365 * p + p / 4 - p / 100 + p / 400
}

/// The days from January 1 to the first day of month `m` of year `y`.
pub open spec fn days_before_month(y: int, m: int) -> int {
    let common: int = if m == 1 {
        0
    } else if m == 2 {
        31
    } else if m == 3 {
        59
    } else if m == 4 {
        90
    } else if m == 5 {
        120
    } else if m == 6 {
        151
    } else if m == 7 {
        181
    } else if m == 8 {
        212
    } else if m == 9 {
        243
    } else if m == 10 {
        273
    } else if m == 11 {
        304
    } else {
        334
    };
    if m > 2 && is_leap_year(y) {
        common + 1
    } else {
        common
    }
}

/// The nanoseconds from 0001-01-01T00:00:00 to `dt`.
pub open spec fn instant_nanos(dt: DateTime) -> int {
    let days = days_before_year(dt.year as int) + days_before_month(dt.year as int, dt.month as int)
        + dt.day - 1;
    let secs = days * 86400 + dt.hour * 3600 + dt.minute * 60 + dt.second;
    secs * 1_000_000_000 + dt.nanosecond
}

/// The whole seconds from `then` to `now`, rounded toward zero, as
/// `(now - then).num_seconds()` gives them.
pub open spec fn elapsed_seconds(now: DateTime, then: DateTime) -> int {
    let d = instant_nanos(now) - instant_nanos(then);
    if d >= 0 {
        d / 1_000_000_000
    } else {
        -((-d) / 1_000_000_000)
    }
}

/// 1970-01-01T00:00:00.
pub open spec fn epoch() -> DateTime {
    DateTime { year: 1970, month: 1, day: 1, hour: 0, minute: 0, second: 0, nanosecond: 0 }
}

pub proof fn lemma_epoch_valid()
    ensures
        valid_datetime(epoch()),
{
}

/// The current local date and time, with the local offset from UTC in
/// seconds, from `chrono::Local::now()` (`naive_local` and
/// `offset().local_minus_utc()`). Taken on trust: the date-time is one of
/// the calendar outside any leap second (chrono builds it from the system
/// clock's seconds and sub-second nanoseconds, shifted by the local
/// offset), and the offset is less than a day either way, as chrono's
/// `FixedOffset` keeps it. Which moment it is is left unsaid. Like chrono,
/// it panics where the system clock reads before 1970.
#[verifier::external_body]
pub(crate) fn local_now_and_offset() -> (r: (DateTime, i32))
    ensures
        valid_datetime(r.0),
        -86400 < r.1 < 86400,
{
    let n = chrono::Local::now();
    let l = n.naive_local();
    let dt = DateTime {
        year: l.year(),
        month: l.month(),
        day: l.day(),
        hour: l.hour(),
        minute: l.minute(),
        second: l.second(),
        nanosecond: l.nanosecond(),
    };
    (dt, n.offset().local_minus_utc())
}

/// The current local date and time.
pub(crate) fn local_now() -> (r: DateTime)
    ensures
        valid_datetime(r),
{
    local_now_and_offset().0
}

/// The date-time of the given parts, as
/// `chrono::NaiveDate::from_ymd_opt(..).and_hms_opt(..)` builds it: `None`
/// for a date outside chrono's years, a month or day that does not exist,
/// or an hour, minute or second out of range.
#[verifier::external_body]
pub(crate) fn datetime_from_parts(year: i32, month: u32, day: u32, hour: u32, minute: u32, second: u32)
    -> (r: Option<DateTime>)
    ensures
        r == (if valid_date(year as int, month as int, day as int) && valid_time(
            hour as int,
            minute as int,
            second as int,
        ) {
            Some(DateTime { year, month, day, hour, minute, second, nanosecond: 0 })
        } else {
            None
        }),
{
    match chrono::NaiveDate::from_ymd_opt(year, month, day) {
        Some(date) => match date.and_hms_opt(hour, minute, second) {
            Some(n) => Some(DateTime {
                year: n.year(),
                month: n.month(),
                day: n.day(),
                hour: n.hour(),
                minute: n.minute(),
                second: n.second(),
                nanosecond: n.nanosecond(),
            }),
            None => None,
        },
        None => None,
    }
}

/// `now.signed_duration_since(then).num_seconds()` of chrono: the whole
/// seconds between the two date-times, rounded toward zero.
#[verifier::external_body]
pub(crate) fn elapsed_whole_seconds(now: &DateTime, then: &DateTime) -> (r: i64)
    requires
        valid_datetime(*now),
        valid_datetime(*then),
    ensures
        r as int == elapsed_seconds(*now, *then),
{
    let to_naive = |d: &DateTime| {
        chrono::NaiveDate::from_ymd_opt(d.year, d.month, d.day)
            .expect("valid date")
            .and_hms_nano_opt(d.hour, d.minute, d.second, d.nanosecond)
            .expect("valid time")
    };
    to_naive(now).signed_duration_since(to_naive(then)).num_seconds()
}

/// The text that chrono writes for the date-time `dt` at `offset` seconds
/// east of UTC in the strftime format `fmt`, or `None` where it cannot.
pub uninterp spec fn strftime_text(fmt: Seq<char>, dt: DateTime, offset: i32) -> Option<Seq<char>>;

/// The date-time `dt` at `offset` seconds east of UTC, written in the
/// strftime format `fmt` by chrono: `DateTime<FixedOffset>::format(fmt)`
/// written with `write!`, whose error gives `None`, as does a date-time
/// that chrono cannot place at that offset. A `DateTime<Local>` is a
/// `DateTime<FixedOffset>` with the local offset, so the current local
/// time is written as chrono writes it. Taken on trust: the result is a
/// function of `fmt`, `dt` and `offset`, named `strftime_text` (chrono
/// reads no locale or clock when it formats).
#[verifier::external_body]
pub(crate) fn format_datetime(fmt: &str, dt: &DateTime, offset: i32) -> (r: Option<String>)
    ensures
        crate::config::opt_view(r) == strftime_text(fmt@, *dt, offset),
{
    let naive = chrono::NaiveDate::from_ymd_opt(dt.year, dt.month, dt.day)?
        .and_hms_nano_opt(dt.hour, dt.minute, dt.second, dt.nanosecond)?;
    let at = naive.and_local_timezone(chrono::FixedOffset::east_opt(offset)?).single()?;
    let mut out = String::new();
    match write!(out, "{}", at.format(fmt)) {
        Ok(()) => Some(out),
        Err(_) => None,
    }
}

/// Whether chrono reads `text` as a date in the strftime format `fmt`.
pub uninterp spec fn strftime_reads(fmt: Seq<char>, text: Seq<char>) -> bool;

/// Whether `chrono::format::parse` reads the whole of `text` in the
/// strftime format `fmt` (into a fresh `Parsed`, without checking that
/// the fields make a date). Taken on trust: the answer is a function of
/// `fmt` and `text`, named `strftime_reads`.
#[verifier::external_body]
pub(crate) fn reads_in_format(fmt: &str, text: &str) -> (r: bool)
    ensures
        r == strftime_reads(fmt@, text@),
{
    let mut parsed = chrono::format::Parsed::new();
    chrono::format::parse(&mut parsed, text, chrono::format::StrftimeItems::new(fmt)).is_ok()
}

} // verus!
