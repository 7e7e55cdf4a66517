//! Calendar days, and the local day of a timestamp with a fixed offset.
use std::fmt::Write;
use chrono::Datelike;
use vstd::prelude::*;

verus! {

/// Seconds in a day.
pub const SECONDS_PER_DAY: i64 = 86400;

/// The day number of 1970-01-01, the day that Unix time counts from.
pub const UNIX_EPOCH_DAY: i64 = 719163;

/// The day number of `year`-`month`-`day` in the proleptic Gregorian
/// calendar, or `None` where no such date exists in chrono's range.
pub uninterp spec fn ce_day_of_ymd(year: int, month: int, day: int) -> Option<int>;

/// The text that chrono writes for the date of day number `days` under the
/// strftime-style `pattern`.
pub uninterp spec fn date_text(days: int, pattern: Seq<char>) -> Seq<char>;

/// Relies on chrono's `NaiveDate::from_ymd_opt`, which rejects dates that do
/// not exist, and `Datelike::num_days_from_ce`, which numbers the day.
#[verifier::external_body]
fn days_of_ymd(year: i32, month: u32, day: u32) -> (r: Option<i32>)
    ensures
        r is Some <==> ce_day_of_ymd(year as int, month as int, day as int) is Some,
        r is Some ==> ce_day_of_ymd(year as int, month as int, day as int) == Some(
            r->0 as int,
        ),
{
    match chrono::NaiveDate::from_ymd_opt(year, month, day) {
        Some(d) => Some(d.num_days_from_ce()),
        None => None,
    }
}

/// Relies on chrono's `NaiveDate::from_num_days_from_ce_opt` and
/// `NaiveDate::format`: the text of a day under a pattern.
#[verifier::external_body]
fn format_days(days: i32, pattern: &str) -> (r: String)
    ensures
        r@ == date_text(days as int, pattern@),
{
    let mut text = String::new();
    if let Some(d) = chrono::NaiveDate::from_num_days_from_ce_opt(days) {
        let _ = write!(text, "{}", d.format(pattern));
    }
    text
}

/// A calendar day, without time of day.
#[derive(Clone, Copy, Debug, PartialEq, Eq, Structural, Hash, PartialOrd, Ord)]
pub struct Date {
    /// Days counted in the proleptic Gregorian calendar, 0001-01-01 being
    /// day 1 (chrono's `num_days_from_ce`).
    pub days: i32,
}

impl View for Date {
    type V = int;

    open spec fn view(&self) -> int {
        self.days as int
    }
}

impl Date {
    pub fn from_days_from_ce(days: i32) -> (r: Date)
        ensures
            r.days == days,
    {
        Date { days }
    }

    /// The date `year`-`month`-`day`, where it exists.
    pub fn from_ymd(year: i32, month: u32, day: u32) -> (r: Option<Date>)
        ensures
            r is Some <==> ce_day_of_ymd(year as int, month as int, day as int) is Some,
            r is Some ==> ce_day_of_ymd(year as int, month as int, day as int) == Some(
                r->0@,
            ),
    {
        match days_of_ymd(year, month, day) {
            Some(days) => Some(Date { days }),
            None => None,
        }
    }

    /// The date written under a strftime-style pattern, such as `%Y-%m-%d`.
    pub fn format(&self, pattern: &str) -> (r: String)
        ensures
            r@ == date_text(self@, pattern@),
    {
        format_days(self.days, pattern)
    }
}

/// The calendar day, in local time, of the instant `utc_seconds` after the
/// Unix epoch at an offset of `offset_seconds` east of UTC.
pub open spec fn local_day(utc_seconds: int, offset_seconds: int) -> int {
    (utc_seconds + offset_seconds) / (SECONDS_PER_DAY as int) + UNIX_EPOCH_DAY
}

/// An instant together with the fixed offset from UTC of its local time.
#[derive(Clone, Copy, Debug, PartialEq, Eq)]
pub struct ZonedTime {
    utc_seconds: i64,
    offset_seconds: i32,
}

impl View for ZonedTime {
    /// Seconds since the Unix epoch, and the offset in seconds east of UTC.
    type V = (int, int);

    closed spec fn view(&self) -> (int, int) {
        (self.utc_seconds as int, self.offset_seconds as int)
    }
}

/// An offset of less than a day, whose local day is numbered by an `i32`.
pub open spec fn zoned_time_in_range(utc_seconds: int, offset_seconds: int) -> bool {
    &&& -SECONDS_PER_DAY < offset_seconds < SECONDS_PER_DAY
    &&& i32::MIN <= local_day(utc_seconds, offset_seconds) <= i32::MAX
}

impl ZonedTime {
    #[verifier::type_invariant]
    spec fn in_range(self) -> bool {
        zoned_time_in_range(self.utc_seconds as int, self.offset_seconds as int)
    }

    /// The instant `utc_seconds` after the Unix epoch, seen at an offset of
    /// `offset_seconds` east of UTC; `None` where the offset is a day or
    /// more, or the local day lies beyond what a `Date` holds.
    pub fn new(utc_seconds: i64, offset_seconds: i32) -> (r: Option<ZonedTime>)
        ensures
            r is Some <==> zoned_time_in_range(utc_seconds as int, offset_seconds as int),
            r is Some ==> r->0@ == (utc_seconds as int, offset_seconds as int),
    {
        if offset_seconds <= -86400 || offset_seconds >= 86400 {
            return None;
        }
        let day = floor_day(utc_seconds as i128 + offset_seconds as i128) + 719163;
        if day < i32::MIN as i128 || day > i32::MAX as i128 {
            return None;
        }
        Some(ZonedTime { utc_seconds, offset_seconds })
    }

    /// The calendar day of the instant in its local time.
    pub fn local_date(&self) -> (r: Date)
        ensures
            r@ == local_day(self@.0, self@.1),
    {
        proof {
            use_type_invariant(self);
        }
        let day = floor_day(self.utc_seconds as i128 + self.offset_seconds as i128) + 719163;
        Date { days: day as i32 }
    }
}

/// Whole days in `seconds`, rounded towards negative infinity.
fn floor_day(seconds: i128) -> (r: i128)
    requires
        -0x1_0000_0000_0000_0000 <= seconds <= 0x1_0000_0000_0000_0000,
    ensures
        r == seconds as int / 86400,
        -0x1_0000_0000_0000_0000 <= r <= 0x1_0000_0000_0000_0000,
{
    if seconds >= 0 {
        let m = seconds as u128;
        let q = (m / 86400) as i128;
        q
    } else {
        let m = (0 - seconds) as u128;
        let q = ((m + 86399) / 86400) as i128;
        proof {
            let s = seconds as int;
            let qi = q as int;
            assert(qi == (-s + 86399) / 86400);
            assert(-qi == s / 86400) by (nonlinear_arith)
                requires
                    qi == (-s + 86399) / 86400,
                    s < 0,
            {
                assert(86400 * qi <= -s + 86399 < 86400 * qi + 86400);
                assert(s / 86400 * 86400 <= s < s / 86400 * 86400 + 86400);
            }
        }
        0 - q
    }
}

} // verus!
