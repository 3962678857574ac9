//! Calendar dates and instants as the schedule and the calendar need them.
//!
//! A date is a day of the Gregorian calendar in the years 1 to 9999, the
//! years that a four-digit year field can carry. Dates are ordered as the
//! days they name, and `day_number` counts days from 1 January of year 1.

use crate::text::{append_decimal, append_fixed_decimal, decimal, fixed_digits};
use chrono::Datelike;
use vstd::prelude::*;

verus! {

/// The mathematical model of a date: a year, a month and a day of the month.
pub struct CivilDate {
    pub year: int,
    pub month: int,
    pub day: int,
}

/// Whether `year` has a 29 February.
pub open spec fn is_leap_year(year: int) -> bool {
    year % 4 == 0 && (year % 100 != 0 || year % 400 == 0)
}

/// The number of days of `month` in `year`.
pub open spec fn days_in_month(year: int, month: int) -> int {
    if month == 2 {
        if is_leap_year(year) {
            29
        } else {
            28
        }
    } else if month == 4 || month == 6 || month == 9 || month == 11 {
        30
    } else {
        31
    }
}

/// The number of days of `year`.
pub open spec fn days_in_year(year: int) -> int {
    if is_leap_year(year) {
        366
    } else {
        365
    }
}

/// The number of days in the years 1 to `year - 1`.
pub open spec fn days_before_year(year: int) -> int
    decreases year,
{
    if year <= 1 {
        0
    } else {
        days_before_year(year - 1) + days_in_year(year - 1)
    }
}

/// The number of days of `year` in the months before `month`.
pub open spec fn days_before_month(year: int, month: int) -> int
    decreases month,
{
    if month <= 1 {
        0
    } else {
        days_before_month(year, month - 1) + days_in_month(year, month - 1)
    }
}

impl CivilDate {
    /// The day exists, in a year that four digits can write.
    pub open spec fn is_valid(self) -> bool {
        &&& 1 <= self.year <= 9999
        &&& 1 <= self.month <= 12
        &&& 1 <= self.day <= days_in_month(self.year, self.month)
    }

    /// `self` is an earlier day than `other`.
    pub open spec fn precedes(self, other: CivilDate) -> bool {
        ||| self.year < other.year
        ||| self.year == other.year && self.month < other.month
        ||| self.year == other.year && self.month == other.month && self.day < other.day
    }

    /// The number of the day, where 1 January of year 1 is day 1.
    pub open spec fn day_number(self) -> int {
        days_before_year(self.year) + days_before_month(self.year, self.month) + self.day
    }

    /// The day after `self`.
    pub open spec fn next(self) -> CivilDate {
        if self.day < days_in_month(self.year, self.month) {
            CivilDate { year: self.year, month: self.month, day: self.day + 1 }
        } else if self.month < 12 {
            CivilDate { year: self.year, month: self.month + 1, day: 1 }
        } else {
            CivilDate { year: self.year + 1, month: 1, day: 1 }
        }
    }
}

/// The number of days before each month: 31 before February, and from
/// March on one more in a leap year than in other years.
pub proof fn lemma_days_before_month(year: int, month: int)
    requires
        1 <= month <= 12,
    ensures
        days_before_month(year, month) == (if month == 1 {
            0int
        } else if month == 2 {
            31
        } else {
            (if is_leap_year(year) {
                1int
            } else {
                0
            }) + (if month == 3 {
                59int
            } else if month == 4 {
                90
            } else if month == 5 {
                120
            } else if month == 6 {
                151
            } else if month == 7 {
                181
            } else if month == 8 {
                212
            } else if month == 9 {
                243
            } else if month == 10 {
                273
            } else if month == 11 {
                304
            } else {
                334
            })
        }),
{
    reveal_with_fuel(days_before_month, 13);
}

/// The days before a year, counted by the rule of the leap years: every
/// fourth year has a day more, but for the hundreds that 400 does not
/// divide.
pub proof fn lemma_days_before_year(year: int)
    requires
        1 <= year,
    ensures
        days_before_year(year) == 365 * (year - 1) + (year - 1) / 4 - (year - 1) / 100 + (year
            - 1) / 400,
    decreases year,
{
    if year > 1 {
        lemma_days_before_year(year - 1);
    }
}

/// The twelve months of a year hold the days of the year.
pub proof fn lemma_year_length(year: int)
    ensures
        days_before_month(year, 12) + 31 == days_in_year(year),
{
    lemma_days_before_month(year, 12);
}

/// The years before a later year hold at least as many days.
pub proof fn lemma_days_before_year_grows(earlier: int, later: int)
    requires
        1 <= earlier <= later,
    ensures
        days_before_year(earlier) <= days_before_year(later),
    decreases later - earlier,
{
    if earlier < later {
        lemma_days_before_year_grows(earlier, later - 1);
    }
}

/// The day after a day has the next day number.
pub proof fn lemma_next_day_number(date: CivilDate)
    requires
        date.is_valid(),
    ensures
        date.next().day_number() == date.day_number() + 1,
        1 <= date.next().month <= 12,
        1 <= date.next().day <= days_in_month(date.next().year, date.next().month),
        date.precedes(date.next()),
{
    lemma_days_before_month(date.year, date.month);
    if date.day < days_in_month(date.year, date.month) {
    } else if date.month < 12 {
        lemma_days_before_month(date.year, date.month + 1);
    } else {
        lemma_year_length(date.year);
        lemma_days_before_month(date.year + 1, 1);
    }
}

/// Dates are ordered as their day numbers are.
pub proof fn lemma_precedes_is_day_order(a: CivilDate, b: CivilDate)
    requires
        a.is_valid(),
        b.is_valid(),
    ensures
        a.precedes(b) <==> a.day_number() < b.day_number(),
        a == b <==> a.day_number() == b.day_number(),
{
    lemma_days_before_month(a.year, a.month);
    lemma_days_before_month(b.year, b.month);
    if a.year < b.year {
        lemma_year_length(a.year);
        lemma_days_before_year_grows(a.year + 1, b.year);
    } else if b.year < a.year {
        lemma_year_length(b.year);
        lemma_days_before_year_grows(b.year + 1, a.year);
    }
}

/// The year in digits: four of them, or more where four cannot hold it.
pub open spec fn year_digits(year: int) -> Seq<char> {
    if year < 10000 {
        fixed_digits(year as nat, 10, 4)
    } else {
        decimal(year as nat)
    }
}

/// The date as eight digits, as in `20240603`.
pub open spec fn compact_date(date: CivilDate) -> Seq<char> {
    year_digits(date.year) + fixed_digits(date.month as nat, 10, 2) + fixed_digits(
        date.day as nat,
        10,
        2,
    )
}

/// The date with dashes, as in `2024-06-03`.
pub open spec fn iso_date(date: CivilDate) -> Seq<char> {
    year_digits(date.year) + "-"@ + fixed_digits(date.month as nat, 10, 2) + "-"@ + fixed_digits(
        date.day as nat,
        10,
        2,
    )
}

fn append_year(out: &mut String, year: u16)
    ensures
        final(out)@ == old(out)@ + year_digits(year as int),
{
    if year < 10000 {
        append_fixed_decimal(out, year as u64, 4);
    } else {
        append_decimal(out, year as u64);
    }
}

/// Appends the day of the given year, month and day to `out` as eight
/// digits.
pub fn append_compact_date(out: &mut String, year: u16, month: u8, day: u8)
    ensures
        final(out)@ == old(out)@ + compact_date(
            CivilDate { year: year as int, month: month as int, day: day as int },
        ),
{
    append_year(out, year);
    append_fixed_decimal(out, month as u64, 2);
    append_fixed_decimal(out, day as u64, 2);
    assert(final(out)@ =~= old(out)@ + compact_date(
        CivilDate { year: year as int, month: month as int, day: day as int },
    ));
}

/// A day of the Gregorian calendar in the years 1 to 9999.
#[derive(Clone, Copy, Debug, PartialEq, Eq, Structural)]
pub struct Date {
    year: u16,
    month: u8,
    day: u8,
}

impl View for Date {
    type V = CivilDate;

    closed spec fn view(&self) -> CivilDate {
        CivilDate { year: self.year as int, month: self.month as int, day: self.day as int }
    }
}

impl Date {
    #[verifier::type_invariant]
    spec fn exists_in_calendar(self) -> bool {
        self@.is_valid()
    }

    /// The date of the given year, month and day, where there is such a day
    /// in the years 1 to 9999.
    pub fn new(year: i32, month: u32, day: u32) -> (date: Option<Date>)
        ensures
            match date {
                Some(d) => d@ == (CivilDate {
                    year: year as int,
                    month: month as int,
                    day: day as int,
                }) && d@.is_valid(),
                None => !(CivilDate {
                    year: year as int,
                    month: month as int,
                    day: day as int,
                }).is_valid(),
            },
    {
        if year < 1 || year > 9999 || month < 1 || month > 12 || day < 1 {
            return None;
        }
        if day > month_length(year as u16, month as u8) as u32 {
            return None;
        }
        Some(Date { year: year as u16, month: month as u8, day: day as u8 })
    }

    /// The year, from 1 to 9999.
    pub fn year(&self) -> (year: u16)
        ensures
            year == self@.year,
            self@.is_valid(),
    {
        proof {
            use_type_invariant(self);
        }
        self.year
    }

    /// The month, from 1 to 12.
    pub fn month(&self) -> (month: u8)
        ensures
            month == self@.month,
            self@.is_valid(),
    {
        proof {
            use_type_invariant(self);
        }
        self.month
    }

    /// The day of the month, from 1.
    pub fn day(&self) -> (day: u8)
        ensures
            day == self@.day,
            self@.is_valid(),
    {
        proof {
            use_type_invariant(self);
        }
        self.day
    }

    /// Whether `self` is an earlier day than `other`.
    pub fn is_before(&self, other: &Date) -> (before: bool)
        ensures
            before == self@.precedes(other@),
    {
        if self.year != other.year {
            self.year < other.year
        } else if self.month != other.month {
            self.month < other.month
        } else {
            self.day < other.day
        }
    }

    /// Whether `self` and `other` are the same day.
    pub fn is_same_day(&self, other: &Date) -> (same: bool)
        ensures
            same == (self@ == other@),
    {
        self.year == other.year && self.month == other.month && self.day == other.day
    }

    /// The number of the day, where 1 January of year 1 is day 1.
    pub fn day_number(&self) -> (number: u32)
        ensures
            number == self@.day_number(),
            1 <= number <= 3652059,
    {
        proof {
            use_type_invariant(self);
            lemma_days_before_year(self.year as int);
            lemma_days_before_month(self.year as int, self.month as int);
        }
        let y: u32 = (self.year - 1) as u32;
        let before_year: u32 = 365 * y + y / 4 - y / 100 + y / 400;
        let leap: u32 = if self.month > 2 && leap_year(self.year) {
            1
        } else {
            0
        };
        let before_month: u32 = if self.month == 1 {
            0
        } else if self.month == 2 {
            31
        } else if self.month == 3 {
            59
        } else if self.month == 4 {
            90
        } else if self.month == 5 {
            120
        } else if self.month == 6 {
            151
        } else if self.month == 7 {
            181
        } else if self.month == 8 {
            212
        } else if self.month == 9 {
            243
        } else if self.month == 10 {
            273
        } else if self.month == 11 {
            304
        } else {
            334
        };
        before_year + before_month + leap + self.day as u32
    }

    /// The number of days from `origin` to `self`: negative where `self` is
    /// the earlier day.
    pub fn days_since(&self, origin: &Date) -> (days: i32)
        ensures
            days == self@.day_number() - origin@.day_number(),
    {
        let to: u32 = self.day_number();
        let from: u32 = origin.day_number();
        to as i32 - from as i32
    }

    /// The date as eight digits, as in `20240603`.
    pub fn to_compact(&self) -> (digits: String)
        ensures
            digits@ == compact_date(self@),
    {
        let mut digits = String::new();
        append_compact_date(&mut digits, self.year, self.month, self.day);
        assert(digits@ =~= compact_date(self@));
        digits
    }

    /// The date with dashes, as in `2024-06-03`.
    pub fn to_iso(&self) -> (text: String)
        ensures
            text@ == iso_date(self@),
    {
        let mut text = String::new();
        append_year(&mut text, self.year);
        text.append("-");
        append_fixed_decimal(&mut text, self.month as u64, 2);
        text.append("-");
        append_fixed_decimal(&mut text, self.day as u64, 2);
        assert(text@ =~= iso_date(self@));
        text
    }

    /// The year, month and day of the day after `self`. After the last day
    /// of year 9999 the year is 10000.
    pub fn day_after(&self) -> (next: (u16, u8, u8))
        ensures
            self@.next() == (CivilDate {
                year: next.0 as int,
                month: next.1 as int,
                day: next.2 as int,
            }),
            self@.is_valid(),
    {
        proof {
            use_type_invariant(self);
        }
        if self.day < month_length(self.year, self.month) {
            (self.year, self.month, self.day + 1)
        } else if self.month < 12 {
            (self.year, self.month + 1, 1)
        } else {
            (self.year + 1, 1, 1)
        }
    }
}

fn leap_year(year: u16) -> (leap: bool)
    ensures
        leap == is_leap_year(year as int),
{
    year % 4 == 0 && (year % 100 != 0 || year % 400 == 0)
}

fn month_length(year: u16, month: u8) -> (days: u8)
    ensures
        days == days_in_month(year as int, month as int),
{
    if month == 2 {
        if leap_year(year) {
            29
        } else {
            28
        }
    } else if month == 4 || month == 6 || month == 9 || month == 11 {
        30
    } else {
        31
    }
}

/// The format of the dates on the council's page, in the notation of
/// `chrono::format::strftime`: an abbreviated weekday, a dash, the day of
/// the month, an abbreviated month name and the year.
pub const DATE_FORMAT: &'static str = "%a - %d %b %Y";

/// What `chrono::NaiveDate::parse_from_str` makes of `text` under `format`:
/// the year, month and day of the date it returns, or `None` where it
/// returns an error.
pub uninterp spec fn chrono_parsed(text: Seq<char>, format: Seq<char>) -> Option<(i32, u32, u32)>;

/// Calls `chrono::NaiveDate::parse_from_str` and takes the year, month and
/// day out of the date. Trusted: the result is `chrono_parsed` of the two
/// arguments, which says no more than that chrono's answer depends on the
/// text and the format alone.
#[verifier::external_body]
fn parse_with_chrono(text: &str, format: &str) -> (parts: Option<(i32, u32, u32)>)
    ensures
        parts == chrono_parsed(text@, format@),
{
    match chrono::NaiveDate::parse_from_str(text, format) {
        Ok(date) => Some((date.year(), date.month(), date.day())),
        Err(_) => None,
    }
}

/// The date that the year, month and day stand for, if there is one.
pub open spec fn date_of_parts(parts: Option<(i32, u32, u32)>) -> Option<CivilDate> {
    match parts {
        Some((year, month, day)) => {
            let date = CivilDate { year: year as int, month: month as int, day: day as int };
            if date.is_valid() {
                Some(date)
            } else {
                None
            }
        },
        None => None,
    }
}

/// The date that `text` stands for: the date that chrono reads from it
/// under `DATE_FORMAT`, where that is a day in the years 1 to 9999.
pub open spec fn date_of_text(text: Seq<char>) -> Option<CivilDate> {
    date_of_parts(chrono_parsed(text, DATE_FORMAT@))
}

/// The date for what the parser found.
pub fn date_from_parts(parts: Option<(i32, u32, u32)>) -> (date: Option<Date>)
    ensures
        match date_of_parts(parts) {
            Some(civil) => date matches Some(d) && d@ == civil,
            None => date is None,
        },
{
    match parts {
        Some((year, month, day)) => Date::new(year, month, day),
        None => None,
    }
}

/// Reads a date such as `Mon - 03 Jun 2024`.
pub fn parse_date(text: &str) -> (date: Option<Date>)
    ensures
        match date_of_text(text@) {
            Some(civil) => date matches Some(d) && d@ == civil,
            None => date is None,
        },
{
    date_from_parts(parse_with_chrono(text, DATE_FORMAT))
}

/// The model of an instant: a date and a time of day, in UTC.
pub struct Instant {
    pub date: CivilDate,
    pub hour: int,
    pub minute: int,
    pub second: int,
}

/// A date and a time of day to the second, in UTC.
#[derive(Clone, Copy, Debug, PartialEq, Eq, Structural)]
pub struct Timestamp {
    date: Date,
    hour: u8,
    minute: u8,
    second: u8,
}

impl View for Timestamp {
    type V = Instant;

    closed spec fn view(&self) -> Instant {
        Instant {
            date: self.date@,
            hour: self.hour as int,
            minute: self.minute as int,
            second: self.second as int,
        }
    }
}

impl Instant {
    /// The date exists and the time is a time of day.
    pub open spec fn is_valid(self) -> bool {
        &&& self.date.is_valid()
        &&& 0 <= self.hour < 24
        &&& 0 <= self.minute < 60
        &&& 0 <= self.second < 60
    }
}

/// The instant as in `20240603T061500Z`: the date as eight digits, the
/// letter T, the time as six digits and the letter Z for UTC.
pub open spec fn compact_instant(instant: Instant) -> Seq<char> {
    compact_date(instant.date) + "T"@ + fixed_digits(instant.hour as nat, 10, 2) + fixed_digits(
        instant.minute as nat,
        10,
        2,
    ) + fixed_digits(instant.second as nat, 10, 2) + "Z"@
}

impl Timestamp {
    #[verifier::type_invariant]
    spec fn is_time_of_day(self) -> bool {
        self@.is_valid()
    }

    /// The instant as in `20240603T061500Z`.
    pub fn to_compact(&self) -> (text: String)
        ensures
            text@ == compact_instant(self@),
    {
        let mut text = self.date.to_compact();
        text.append("T");
        append_fixed_decimal(&mut text, self.hour as u64, 2);
        append_fixed_decimal(&mut text, self.minute as u64, 2);
        append_fixed_decimal(&mut text, self.second as u64, 2);
        text.append("Z");
        assert(text@ =~= compact_instant(self@));
        text
    }

    /// The instant at the given time of the given day, where the hour is
    /// under 24 and the minute and second are under 60.
    pub fn new(date: Date, hour: u8, minute: u8, second: u8) -> (stamp: Option<Timestamp>)
        ensures
            match stamp {
                Some(s) => s@ == (Instant {
                    date: date@,
                    hour: hour as int,
                    minute: minute as int,
                    second: second as int,
                }) && s@.is_valid(),
                None => hour >= 24 || minute >= 60 || second >= 60,
            },
    {
        if hour >= 24 || minute >= 60 || second >= 60 {
            return None;
        }
        let _ = date.year();
        Some(Timestamp { date, hour, minute, second })
    }

    /// The day.
    pub fn date(&self) -> (date: Date)
        ensures
            date@ == self@.date,
            self@.is_valid(),
    {
        proof {
            use_type_invariant(self);
        }
        self.date
    }

    /// The hour, under 24.
    pub fn hour(&self) -> (hour: u8)
        ensures
            hour == self@.hour,
            self@.is_valid(),
    {
        proof {
            use_type_invariant(self);
        }
        self.hour
    }

    /// The minute, under 60.
    pub fn minute(&self) -> (minute: u8)
        ensures
            minute == self@.minute,
            self@.is_valid(),
    {
        proof {
            use_type_invariant(self);
        }
        self.minute
    }

    /// The second, under 60.
    pub fn second(&self) -> (second: u8)
        ensures
            second == self@.second,
            self@.is_valid(),
    {
        proof {
            use_type_invariant(self);
        }
        self.second
    }
}

} // verus!
