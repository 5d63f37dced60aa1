//! Calendar dates as they stand in a task line: four digits of year, two of
//! month and two of day, joined by hyphens.

use chrono::Datelike;
use vstd::prelude::*;

verus! {

/// A day of the proleptic Gregorian calendar.
#[derive(Clone, Copy, Debug, PartialEq, Eq, Structural)]
pub struct Date {
    pub year: i32,
    pub month: u32,
    pub day: u32,
}

/// Whether year `y` has a 29th of February.
pub open spec fn is_leap_year(y: int) -> bool {
    y % 4 == 0 && (y % 100 != 0 || y % 400 == 0)
}

/// The number of days of month `m` in year `y`; 0 where `m` is no month.
pub open spec fn days_in_month(y: int, m: int) -> int {
    if m == 1 || m == 3 || m == 5 || m == 7 || m == 8 || m == 10 || m == 12 {
        31
    } else if m == 4 || m == 6 || m == 9 || m == 11 {
        30
    } else if m == 2 {
        if is_leap_year(y) {
            29
        } else {
            28
        }
    } else {
        0
    }
}

/// Whether the calendar has a day `d` in month `m` of year `y`.
pub open spec fn is_calendar_date(y: int, m: int, d: int) -> bool {
    1 <= m <= 12 && 1 <= d <= days_in_month(y, m)
}

/// The day after `date`.
pub open spec fn day_after(date: Date) -> Date {
    if date.day < days_in_month(date.year as int, date.month as int) {
        Date { year: date.year, month: date.month, day: (date.day + 1) as u32 }
    } else if date.month < 12 {
        Date { year: date.year, month: (date.month + 1) as u32, day: 1 }
    } else {
        Date { year: (date.year + 1) as i32, month: 1, day: 1 }
    }
}

/// Whether `c` is one of the ten ASCII digits.
pub open spec fn is_digit(c: char) -> bool {
    '0' <= c <= '9'
}

/// The number that the digit `c` stands for.
pub open spec fn digit_value(c: char) -> int {
    c as u32 - 0x30
}

/// The digit that stands for `n`, for `n` from 0 to 9.
pub open spec fn digit_char(n: int) -> char {
    ((0x30 + n) as u8) as char
}

/// Whether the ten characters of `s` from `i` on are four digits, a hyphen,
/// two digits, a hyphen and two digits.
pub open spec fn date_shape_at(s: Seq<char>, i: int) -> bool {
    &&& 0 <= i
    &&& i + 10 <= s.len()
    &&& is_digit(s[i])
    &&& is_digit(s[i + 1])
    &&& is_digit(s[i + 2])
    &&& is_digit(s[i + 3])
    &&& s[i + 4] == '-'
    &&& is_digit(s[i + 5])
    &&& is_digit(s[i + 6])
    &&& s[i + 7] == '-'
    &&& is_digit(s[i + 8])
    &&& is_digit(s[i + 9])
}

/// The year that four digits from `i` on stand for.
pub open spec fn year_at(s: Seq<char>, i: int) -> int {
    1000 * digit_value(s[i]) + 100 * digit_value(s[i + 1]) + 10 * digit_value(s[i + 2])
        + digit_value(s[i + 3])
}

/// The number that two digits from `i` on stand for.
pub open spec fn two_digits_at(s: Seq<char>, i: int) -> int {
    10 * digit_value(s[i]) + digit_value(s[i + 1])
}

/// The date written in `s` from `i` on, if the ten characters there have the
/// shape of a date and name a day that the calendar has.
pub open spec fn date_at(s: Seq<char>, i: int) -> Option<Date> {
    if date_shape_at(s, i) && is_calendar_date(
        year_at(s, i),
        two_digits_at(s, i + 5),
        two_digits_at(s, i + 8),
    ) {
        Some(
            Date {
                year: year_at(s, i) as i32,
                month: two_digits_at(s, i + 5) as u32,
                day: two_digits_at(s, i + 8) as u32,
            },
        )
    } else {
        None
    }
}

/// The ten characters that `date` is written as.
pub open spec fn date_text(date: Date) -> Seq<char> {
    seq![
        digit_char(date.year as int / 1000),
        digit_char(date.year as int / 100 % 10),
        digit_char(date.year as int / 10 % 10),
        digit_char(date.year as int % 10),
        '-',
        digit_char(date.month as int / 10),
        digit_char(date.month as int % 10),
        '-',
        digit_char(date.day as int / 10),
        digit_char(date.day as int % 10),
    ]
}

/// `chrono::NaiveDate::from_ymd_opt`: for a year from 0 to 9999 it returns a
/// date exactly when the calendar has that day of that month.
#[verifier::external_body]
fn calendar_has(year: i32, month: u32, day: u32) -> (r: bool)
    requires
        0 <= year <= 9999,
    ensures
        r == is_calendar_date(year as int, month as int, day as int),
{
    chrono::NaiveDate::from_ymd_opt(year, month, day).is_some()
}

/// `chrono::NaiveDate::succ_opt`: the next calendar day, given here as year,
/// month and day; for a year up to 9999 there always is one.
#[verifier::external_body]
fn successor(date: Date) -> (r: Option<Date>)
    requires
        date.well_formed(),
    ensures
        r == Some(day_after(date)),
{
    match chrono::NaiveDate::from_ymd_opt(date.year, date.month, date.day) {
        Some(day) => match day.succ_opt() {
            Some(next) => Some(Date { year: next.year(), month: next.month(), day: next.day() }),
            None => None,
        },
        None => None,
    }
}

/// `chrono::NaiveDate::format` with the pattern `%Y-%m-%d`: for a year from
/// 0 to 9999 the text is the year in four digits, the month in two and the
/// day in two, padded with zeros and joined by hyphens.
#[verifier::external_body]
fn formatted(date: Date) -> (r: String)
    requires
        date.well_formed(),
    ensures
        r@ == date_text(date),
{
    match chrono::NaiveDate::from_ymd_opt(date.year, date.month, date.day) {
        Some(day) => day.format("%Y-%m-%d").to_string(),
        None => String::new(),
    }
}

impl Date {
    /// A date of the calendar with a year that four digits can hold.
    pub open spec fn well_formed(&self) -> bool {
        0 <= self.year <= 9999 && is_calendar_date(
            self.year as int,
            self.month as int,
            self.day as int,
        )
    }

    /// The date with the given year, month and day, if the year lies between
    /// 0 and 9999 and the calendar has that day.
    pub fn from_ymd(year: i32, month: u32, day: u32) -> (r: Option<Date>)
        ensures
            r == if 0 <= year <= 9999 && is_calendar_date(year as int, month as int, day as int) {
                Some(Date { year, month, day })
            } else {
                None
            },
    {
        if 0 <= year && year <= 9999 && calendar_has(year, month, day) {
            Some(Date { year, month, day })
        } else {
            None
        }
    }

    /// The date as text, `YYYY-MM-DD`.
    pub fn to_text(&self) -> (r: String)
        requires
            self.well_formed(),
        ensures
            r@ == date_text(*self),
    {
        formatted(*self)
    }

    /// The day after this one, unless its year would pass 9999.
    pub fn tomorrow(&self) -> (r: Option<Date>)
        requires
            self.well_formed(),
        ensures
            r == if day_after(*self).year <= 9999 {
                Some(day_after(*self))
            } else {
                None
            },
            r matches Some(next) ==> next.well_formed(),
    {
        match successor(*self) {
            Some(next) => {
                if next.year <= 9999 {
                    Some(next)
                } else {
                    None
                }
            },
            None => None,
        }
    }

    /// Whether this date comes before `other` in the calendar.
    pub open spec fn is_before(&self, other: &Date) -> bool {
        self.year < other.year || (self.year == other.year && (self.month < other.month || (
        self.month == other.month && self.day < other.day)))
    }

    /// Decides `is_before`.
    pub fn precedes(&self, other: &Date) -> (r: bool)
        ensures
            r == self.is_before(other),
    {
        self.year < other.year || (self.year == other.year && (self.month < other.month || (
        self.month == other.month && self.day < other.day)))
    }
}

/// Decides `is_digit`.
pub fn is_digit_char(c: char) -> (r: bool)
    ensures
        r == is_digit(c),
{
    '0' <= c && c <= '9'
}

/// Decides `date_shape_at`.
pub fn has_date_shape(v: &Vec<char>, i: usize) -> (r: bool)
    requires
        i <= v.len(),
    ensures
        r == date_shape_at(v@, i as int),
{
    if v.len() - i < 10 {
        return false;
    }
    is_digit_char(v[i]) && is_digit_char(v[i + 1]) && is_digit_char(v[i + 2]) && is_digit_char(
        v[i + 3],
    ) && v[i + 4] == '-' && is_digit_char(v[i + 5]) && is_digit_char(v[i + 6]) && v[i + 7] == '-'
        && is_digit_char(v[i + 8]) && is_digit_char(v[i + 9])
}

fn digit_of(c: char) -> (n: u32)
    requires
        is_digit(c),
    ensures
        n == digit_value(c),
        n <= 9,
{
    c as u32 - 0x30
}

/// Reads the date written in `v` from `i` on.
pub fn read_date(v: &Vec<char>, i: usize) -> (r: Option<Date>)
    requires
        i <= v.len(),
    ensures
        r == date_at(v@, i as int),
        r matches Some(d) ==> d.well_formed(),
{
    if !has_date_shape(v, i) {
        return None;
    }
    let year: u32 = 1000 * digit_of(v[i]) + 100 * digit_of(v[i + 1]) + 10 * digit_of(v[i + 2])
        + digit_of(v[i + 3]);
    let month: u32 = 10 * digit_of(v[i + 5]) + digit_of(v[i + 6]);
    let day: u32 = 10 * digit_of(v[i + 8]) + digit_of(v[i + 9]);
    Date::from_ymd(year as i32, month, day)
}

/// A well-formed date is read back from its own text.
pub proof fn lemma_date_text_reads_back(date: Date)
    requires
        date.well_formed(),
    ensures
        date_text(date).len() == 10,
        date_shape_at(date_text(date), 0),
        date_at(date_text(date), 0) == Some(date),
{
    let s = date_text(date);
    let y = date.year as int;
    assert(0 <= y / 1000 <= 9);
    assert(digit_value(digit_char(y / 1000)) == y / 1000);
    assert(digit_value(digit_char(y / 100 % 10)) == y / 100 % 10);
    assert(digit_value(digit_char(y / 10 % 10)) == y / 10 % 10);
    assert(digit_value(digit_char(y % 10)) == y % 10);
    assert(year_at(s, 0) == y);
}

} // verus!
