//! Calendar dates in the proleptic Gregorian calendar.
use vstd::prelude::*;

verus! {

/// Smallest year a date may carry.
pub const MIN_YEAR: i32 = -9999;

/// Largest year a date may carry.
pub const MAX_YEAR: i32 = 9999;

/// A calendar day. Fields compare in declaration order, so the derived
/// ordering is the chronological one.
#[derive(Clone, Copy, Debug, PartialEq, Eq, Structural, PartialOrd, Ord, Hash)]
pub struct Date {
    pub year: i32,
    pub month: u8,
    pub day: u8,
}

/// Whether `year` is a leap year of the Gregorian calendar.
pub open spec fn is_leap_year(year: int) -> bool {
    year % 4 == 0 && (year % 100 != 0 || year % 400 == 0)
}

/// Number of days of `month` (1 to 12) in `year`.
pub open spec fn days_in_month(year: int, month: int) -> int {
    if month == 2 {
        if is_leap_year(year) { 29 } else { 28 }
    } else if month == 4 || month == 6 || month == 9 || month == 11 {
        30
    } else {
        31
    }
}

/// Whether the triple names an existing day of the supported year range.
pub open spec fn is_valid_date(year: int, month: int, day: int) -> bool {
    &&& MIN_YEAR <= year <= MAX_YEAR
    &&& 1 <= month <= 12
    &&& 1 <= day <= days_in_month(year, month)
}

impl Date {
    /// The date names an existing day.
    pub open spec fn wf(self) -> bool {
        is_valid_date(self.year as int, self.month as int, self.day as int)
    }

    /// Chronological order: `self` is not later than `other`.
    pub open spec fn spec_le(self, other: Date) -> bool {
        ||| self.year < other.year
        ||| self.year == other.year && self.month < other.month
        ||| self.year == other.year && self.month == other.month && self.day <= other.day
    }

    /// Builds a date from its year, month and day; `None` when no such day exists.
    pub fn from_calendar_date(year: i32, month: u8, day: u8) -> (r: Option<Date>)
        ensures
            r is Some <==> is_valid_date(year as int, month as int, day as int),
            r matches Some(d) ==> d.year == year && d.month == month && d.day == day,
    {
        if year < MIN_YEAR || year > MAX_YEAR || month < 1 || month > 12 || day < 1 {
            return None;
        }
        let leap = year % 4 == 0 && (year % 100 != 0 || year % 400 == 0);
        let length: u8 = if month == 2 {
            if leap { 29 } else { 28 }
        } else if month == 4 || month == 6 || month == 9 || month == 11 {
            30
        } else {
            31
        };
        if day > length {
            None
        } else {
            Some(Date { year, month, day })
        }
    }

    /// Chronological comparison: `self` is not later than `other`.
    pub fn le(&self, other: &Date) -> (r: bool)
        ensures
            r == self.spec_le(*other),
    {
        self.year < other.year || (self.year == other.year && (self.month < other.month || (
        self.month == other.month && self.day <= other.day)))
    }

    /// The later of two dates.
    pub fn max(self, other: Date) -> (r: Date)
        ensures
            r == (if other.spec_le(self) { self } else { other }),
    {
        if other.le(&self) { self } else { other }
    }

    /// The earlier of two dates.
    pub fn min(self, other: Date) -> (r: Date)
        ensures
            r == (if self.spec_le(other) { self } else { other }),
    {
        if self.le(&other) { self } else { other }
    }
}

/// The date as a (year, month, day) triple.
pub open spec fn triple(d: Date) -> (i32, u8, u8) {
    (d.year, d.month, d.day)
}

/// The day that `time`'s ISO 8601 date parsing reads from `text`, as
/// (year, month, day); `None` when it refuses the text.
pub uninterp spec fn iso_date(text: Seq<char>) -> Option<(i32, u8, u8)>;

/// Calls `time::Date::parse` with the ISO 8601 date format
/// (`YYYY-MM-DD`) and converts the day it reads. The contract claims that the
/// outcome is `iso_date` of the text, and that a day read is a valid day of
/// the years -9999 to 9999, the range of every `time::Date` of this build.
#[verifier::external_body]
fn read_iso_date(text: &str) -> (r: Option<Date>)
    ensures
        r is Some <==> iso_date(text@) is Some,
        r matches Some(d) ==> d.wf() && Some(triple(d)) == iso_date(text@),
{
    match time::Date::parse(text, &time::format_description::well_known::Iso8601::DATE) {
        Ok(day) => Some(Date { year: day.year(), month: u8::from(day.month()), day: day.day() }),
        Err(_) => None,
    }
}

/// Reads a `YYYY-MM-DD` day; `None` when the text names no day.
pub fn parse_iso_date(text: &str) -> (r: Option<Date>)
    ensures
        r is Some <==> iso_date(text@) is Some,
        r matches Some(d) ==> d.wf() && Some(triple(d)) == iso_date(text@),
{
    read_iso_date(text)
}

/// The day a market snapshot is taken on: the requested `YYYY-MM-DD` day,
/// or `last` when none is requested; `None` when the requested text names
/// no day.
pub fn snapshot_day(requested: Option<&str>, last: Date) -> (r: Option<Date>)
    ensures
        requested is None ==> r == Some(last),
        requested matches Some(text) ==> {
            &&& r is Some <==> iso_date(text@) is Some
            &&& r matches Some(d) ==> d.wf() && Some(triple(d)) == iso_date(text@)
        },
{
    match requested {
        Some(text) => read_iso_date(text),
        None => Some(last),
    }
}

/// The order is chronological: a later year comes later; within a year a
/// later month comes later, whatever the days; within a month a later day.
pub proof fn lemma_date_order_chronological(a: Date, b: Date)
    ensures
        a.year < b.year ==> a.spec_le(b) && !b.spec_le(a),
        a.year == b.year && a.month < b.month ==> a.spec_le(b) && !b.spec_le(a),
        a.year == b.year && a.month == b.month ==> (a.spec_le(b) <==> a.day <= b.day),
{
}

/// The months have their Gregorian lengths: 30 days for April, June,
/// September and November, 28 or 29 for February as the year is common or
/// leap, 31 for the others; so a year has 365 or 366 days, and only the
/// days of those lengths exist.
pub proof fn lemma_month_lengths(year: int)
    ensures
        forall|m: int| (m == 4 || m == 6 || m == 9 || m == 11) ==> #[trigger] days_in_month(year, m) == 30,
        forall|m: int|
            (m == 1 || m == 3 || m == 5 || m == 7 || m == 8 || m == 10 || m == 12) ==> #[trigger] days_in_month(
                year,
                m,
            ) == 31,
        days_in_month(year, 2) == (if is_leap_year(year) { 29int } else { 28int }),
        days_in_month(year, 1) + days_in_month(year, 2) + days_in_month(year, 3) + days_in_month(year, 4)
            + days_in_month(year, 5) + days_in_month(year, 6) + days_in_month(year, 7) + days_in_month(year, 8)
            + days_in_month(year, 9) + days_in_month(year, 10) + days_in_month(year, 11) + days_in_month(year, 12)
            == (if is_leap_year(year) { 366int } else { 365int }),
        forall|m: int, d: int| #[trigger] is_valid_date(year, m, d) ==> 1 <= m <= 12 && 1 <= d <= 31,
        !is_valid_date(year, 4, 31) && !is_valid_date(year, 6, 31) && !is_valid_date(year, 9, 31)
            && !is_valid_date(year, 11, 31) && !is_valid_date(year, 2, 30),
        is_leap_year(year) <==> (year % 4 == 0 && year % 100 != 0) || year % 400 == 0,
        MIN_YEAR <= year <= MAX_YEAR ==> forall|m: int, d: int|
            1 <= m <= 12 && 1 <= d <= 28 ==> #[trigger] is_valid_date(year, m, d),
        MIN_YEAR <= year <= MAX_YEAR ==> is_valid_date(year, 4, 30) && is_valid_date(year, 6, 30) && is_valid_date(
            year,
            9,
            30,
        ) && is_valid_date(year, 11, 30) && is_valid_date(year, 12, 31) && is_valid_date(year, 1, 31),
        MIN_YEAR <= year <= MAX_YEAR ==> (is_valid_date(year, 2, 29) <==> is_leap_year(year)),
{
}

/// `le` is a total order.
pub proof fn lemma_date_order(a: Date, b: Date, c: Date)
    ensures
        a.spec_le(a),
        a.spec_le(b) || b.spec_le(a),
        a.spec_le(b) && b.spec_le(a) ==> a == b,
        a.spec_le(b) && b.spec_le(c) ==> a.spec_le(c),
{
}

} // verus!
