//! Dates and times of day, held as day numbers and minutes, with their text
//! forms `YYYY-MM-DD`, `YYYY-MM`, `HH:MM` and `YYYY-MM-DD HH:MM`.
use vstd::prelude::*;

use crate::calendar::{
    civil_of, days_from_ce, lemma_civil_of_unique, max_year, min_year, valid_civil, valid_day,
};
use crate::text::{
    decimal, digit_value, four_digits, is_digit, push_char, push_decimal, push_four_digits,
    push_two_digits, two_digits,
};

verus! {

/// A calendar date, held as its day number (0001-01-01 is day 1).
#[derive(Clone, Copy, Debug, PartialEq, Eq, Structural)]
pub struct Date {
    pub day: i32,
}

/// A date with a time of day to the minute: `minute` counts from midnight.
#[derive(Clone, Copy, Debug, PartialEq, Eq, Structural)]
pub struct DateTime {
    pub day: i32,
    pub minute: u32,
}

/// Days since the most recent Monday, for a day number.
pub open spec fn weekday_index(day: int) -> int {
    (day - 1) % 7
}

/// A time of day to the minute, counted from midnight.
#[derive(Clone, Copy, Debug, PartialEq, Eq, Structural)]
pub struct Time {
    pub minute: u32,
}

impl Time {
    pub open spec fn wf(self) -> bool {
        self.minute < 1440
    }

    /// The time `hour:minute`, or `None` where no such time exists.
    pub fn from_hm(hour: u32, minute: u32) -> (r: Option<Time>)
        ensures
            r is Some <==> hour < 24 && minute < 60,
            r matches Some(t) ==> t.wf() && t.minute == 60 * hour + minute,
    {
        if hour < 24 && minute < 60 {
            Some(Time { minute: hour * 60 + minute })
        } else {
            None
        }
    }
}

impl Date {
    pub open spec fn wf(self) -> bool {
        valid_day(self.day as int)
    }

    pub open spec fn civil(self) -> (int, int, int) {
        civil_of(self.day as int)
    }
}

impl DateTime {
    pub open spec fn wf(self) -> bool {
        valid_day(self.day as int) && self.minute < 1440
    }

    /// Minutes since the start of day 0; orders date-times and measures durations.
    pub open spec fn stamp(self) -> int {
        self.day * 1440 + self.minute
    }

    pub open spec fn hour_of(self) -> int {
        self.minute as int / 60
    }

    pub open spec fn minute_of(self) -> int {
        self.minute as int % 60
    }

    pub open spec fn text(self) -> Seq<char> {
        date_text(civil_of(self.day as int)) + seq![' '] + clock_text(self.minute as int)
    }

    pub open spec fn month_key_text(self) -> Seq<char> {
        month_text(civil_of(self.day as int))
    }
}

/// `%Y` as the date library writes it: four digits for years 0..=9999,
/// otherwise a sign and at least four digits.
pub open spec fn year_text(y: int) -> Seq<char> {
    if 0 <= y <= 9999 {
        four_digits(y)
    } else if y < 0 {
        seq!['-'] + if -y <= 9999 {
            four_digits(-y)
        } else {
            decimal((-y) as nat)
        }
    } else {
        seq!['+'] + decimal(y as nat)
    }
}

/// `%Y-%m-%d`.
pub open spec fn date_text(c: (int, int, int)) -> Seq<char> {
    year_text(c.0) + seq!['-'] + two_digits(c.1) + seq!['-'] + two_digits(c.2)
}

/// `%Y-%m`, the key of a monthly file.
pub open spec fn month_text(c: (int, int, int)) -> Seq<char> {
    year_text(c.0) + seq!['-'] + two_digits(c.1)
}

/// `%H:%M` of a minute of the day.
pub open spec fn clock_text(minute: int) -> Seq<char> {
    two_digits(minute / 60) + seq![':'] + two_digits(minute % 60)
}

pub open spec fn all_digits(s: Seq<char>, from: int, to: int) -> bool {
    forall|k: int| from <= k < to ==> is_digit(#[trigger] s[k])
}

pub open spec fn num2(s: Seq<char>, i: int) -> int {
    10 * digit_value(s[i]) + digit_value(s[i + 1])
}

pub open spec fn num4(s: Seq<char>, i: int) -> int {
    1000 * digit_value(s[i]) + 100 * digit_value(s[i + 1]) + 10 * digit_value(s[i + 2])
        + digit_value(s[i + 3])
}

/// Text of exactly the form `YYYY-MM-DD` naming a real date.
pub open spec fn canonical_date(s: Seq<char>) -> bool {
    &&& s.len() == 10
    &&& all_digits(s, 0, 4)
    &&& s[4] == '-'
    &&& all_digits(s, 5, 7)
    &&& s[7] == '-'
    &&& all_digits(s, 8, 10)
    &&& valid_civil(num4(s, 0), num2(s, 5), num2(s, 8))
}

pub open spec fn canonical_date_day(s: Seq<char>) -> int {
    days_from_ce(num4(s, 0), num2(s, 5), num2(s, 8))
}

/// Text of exactly the form `YYYY-MM-DD HH:MM` naming a real date and time.
pub open spec fn canonical_datetime(s: Seq<char>) -> bool {
    &&& s.len() == 16
    &&& canonical_date(s.take(10))
    &&& s[10] == ' '
    &&& all_digits(s, 11, 13)
    &&& s[13] == ':'
    &&& all_digits(s, 14, 16)
    &&& num2(s, 11) < 24
    &&& num2(s, 14) < 60
}

/// What the date library reads from `YYYY-MM-DD HH:MM` text (`%Y-%m-%d %H:%M`):
/// day number, hour and minute, or `None` where it refuses the text.
pub uninterp spec fn chrono_datetime_parse(s: Seq<char>) -> Option<(int, int, int)>;

/// What the date library reads from `YYYY-MM-DD` text (`%Y-%m-%d`): a day number.
pub uninterp spec fn chrono_date_parse(s: Seq<char>) -> Option<int>;

/// The date-time that `s` is read as.
pub open spec fn parsed_datetime(s: Seq<char>) -> Option<DateTime> {
    if canonical_datetime(s) {
        Some(
            DateTime {
                day: canonical_date_day(s.take(10)) as i32,
                minute: (60 * num2(s, 11) + num2(s, 14)) as u32,
            },
        )
    } else {
        match chrono_datetime_parse(s) {
            Some(t) => Some(DateTime { day: t.0 as i32, minute: (60 * t.1 + t.2) as u32 }),
            None => None,
        }
    }
}

/// The date that `s` is read as.
pub open spec fn parsed_date(s: Seq<char>) -> Option<Date> {
    if canonical_date(s) {
        Some(Date { day: canonical_date_day(s) as i32 })
    } else {
        match chrono_date_parse(s) {
            Some(d) => Some(Date { day: d as i32 }),
            None => None,
        }
    }
}

/// Day number of a civil date (`NaiveDate::from_ymd_opt`, then `num_days_from_ce`):
/// `None` exactly where the date does not exist or lies outside the range that
/// the library holds.
#[verifier::external_body]
fn chrono_day_number(y: i32, m: u32, d: u32) -> (r: Option<i32>)
    ensures
        r is Some <==> valid_civil(y as int, m as int, d as int),
        r matches Some(n) ==> n == days_from_ce(y as int, m as int, d as int) && valid_day(
            n as int,
        ),
{
    match chrono::NaiveDate::from_ymd_opt(y, m, d) {
        Some(nd) => Some(chrono::Datelike::num_days_from_ce(&nd)),
        None => None,
    }
}

/// Civil date of a day number (`NaiveDate::from_num_days_from_ce_opt`, read back with
/// `year`, `month` and `day`).
#[verifier::external_body]
fn chrono_civil(day: i32) -> (r: (i32, u32, u32))
    requires
        valid_day(day as int),
    ensures
        valid_civil(r.0 as int, r.1 as int, r.2 as int),
        days_from_ce(r.0 as int, r.1 as int, r.2 as int) == day,
{
    let nd = chrono::NaiveDate::from_num_days_from_ce_opt(day).unwrap();
    (chrono::Datelike::year(&nd), chrono::Datelike::month(&nd), chrono::Datelike::day(&nd))
}

/// `NaiveDateTime::parse_from_str(s, "%Y-%m-%d %H:%M")`, read back as day number,
/// hour and minute. Text in the canonical form is read as what it spells; what other
/// text gives is left to the library and only named here.
#[verifier::external_body]
fn chrono_parse_datetime(s: &str) -> (r: Option<(i32, u32, u32)>)
    ensures
        r matches Some(t) ==> valid_day(t.0 as int) && t.1 < 24 && t.2 < 60,
        match r {
            Some(t) => chrono_datetime_parse(s@) == Some((t.0 as int, t.1 as int, t.2 as int)),
            None => chrono_datetime_parse(s@) is None,
        },
        canonical_datetime(s@) ==> r == Some(
            (
                canonical_date_day(s@.take(10)) as i32,
                num2(s@, 11) as u32,
                num2(s@, 14) as u32,
            ),
        ),
{
    match chrono::NaiveDateTime::parse_from_str(s, "%Y-%m-%d %H:%M") {
        Ok(ndt) => Some(
            (
                chrono::Datelike::num_days_from_ce(&ndt.date()),
                chrono::Timelike::hour(&ndt),
                chrono::Timelike::minute(&ndt),
            ),
        ),
        Err(_) => None,
    }
}

/// `NaiveDate::parse_from_str(s, "%Y-%m-%d")`, read back as a day number. Text in the
/// canonical form is read as what it spells; other text is only named.
#[verifier::external_body]
fn chrono_parse_date(s: &str) -> (r: Option<i32>)
    ensures
        r matches Some(n) ==> valid_day(n as int),
        match r {
            Some(n) => chrono_date_parse(s@) == Some(n as int),
            None => chrono_date_parse(s@) is None,
        },
        canonical_date(s@) ==> r == Some(canonical_date_day(s@) as i32),
{
    match chrono::NaiveDate::parse_from_str(s, "%Y-%m-%d") {
        Ok(nd) => Some(chrono::Datelike::num_days_from_ce(&nd)),
        Err(_) => None,
    }
}

impl Date {
    /// The date `y-m-d`, or `None` where no such date exists.
    pub fn from_ymd(y: i32, m: u32, d: u32) -> (r: Option<Date>)
        ensures
            r is Some <==> valid_civil(y as int, m as int, d as int),
            r matches Some(dt) ==> dt.wf() && dt.day == days_from_ce(y as int, m as int, d as int)
                && dt.civil() == (y as int, m as int, d as int),
    {
        match chrono_day_number(y, m, d) {
            Some(n) => {
                proof {
                    lemma_civil_of_unique(y as int, m as int, d as int);
                }
                Some(Date { day: n })
            },
            None => None,
        }
    }

    /// Year, month and day of the date.
    pub fn ymd(&self) -> (r: (i32, u32, u32))
        requires
            self.wf(),
        ensures
            (r.0 as int, r.1 as int, r.2 as int) == self.civil(),
            valid_civil(r.0 as int, r.1 as int, r.2 as int),
            days_from_ce(r.0 as int, r.1 as int, r.2 as int) == self.day,
    {
        let r = chrono_civil(self.day);
        proof {
            lemma_civil_of_unique(r.0 as int, r.1 as int, r.2 as int);
        }
        r
    }

    /// The date read from `YYYY-MM-DD` text.
    pub fn parse(s: &str) -> (r: Option<Date>)
        ensures
            r == parsed_date(s@),
            r matches Some(d) ==> d.wf(),
    {
        match chrono_parse_date(s) {
            Some(n) => Some(Date { day: n }),
            None => None,
        }
    }

    /// The date `n` days later (earlier for negative `n`), or `None` where it leaves
    /// the range of dates.
    pub fn add_days(&self, n: i64) -> (r: Option<Date>)
        requires
            self.wf(),
            -0x1_0000_0000 <= n <= 0x1_0000_0000,
        ensures
            r is Some <==> valid_day(self.day + n),
            r matches Some(d) ==> d.wf() && d.day == self.day + n,
    {
        let day = self.day as i64 + n;
        if day < -95746129 || day > 95745399 {
            None
        } else {
            Some(Date { day: day as i32 })
        }
    }

    /// Days since the most recent Monday (0 for a Monday, 6 for a Sunday);
    /// day 1, 0001-01-01, was a Monday.
    pub fn days_from_monday(&self) -> (r: u32)
        requires
            self.wf(),
        ensures
            r == weekday_index(self.day as int),
            r < 7,
    {
        let d = self.day as i64 - 1;
        let w = d % 7;
        let w = if w < 0 {
            w + 7
        } else {
            w
        };
        w as u32
    }

    /// The date at the given hour and minute.
    pub fn at(&self, hour: u32, minute: u32) -> (r: DateTime)
        requires
            hour < 24,
            minute < 60,
        ensures
            r.day == self.day,
            r.minute == 60 * hour + minute,
    {
        DateTime { day: self.day, minute: hour * 60 + minute }
    }

    /// `%Y-%m-%d`.
    pub fn format(&self) -> (r: String)
        requires
            self.wf(),
        ensures
            r@ == date_text(self.civil()),
    {
        let (y, m, d) = self.ymd();
        let mut out = String::new();
        push_year(&mut out, y);
        push_char(&mut out, '-');
        push_two_digits(&mut out, m);
        push_char(&mut out, '-');
        push_two_digits(&mut out, d);
        out
    }
}

/// Appends `year_text(y)`.
pub fn push_year(out: &mut String, y: i32)
    requires
        min_year() <= y <= max_year(),
    ensures
        final(out)@ == old(out)@ + year_text(y as int),
{
    if 0 <= y && y <= 9999 {
        push_four_digits(out, y as u32);
    } else if y < 0 {
        push_char(out, '-');
        let a = (-y) as u32;
        if a <= 9999 {
            push_four_digits(out, a);
        } else {
            push_decimal(out, a as u64);
        }
    } else {
        push_char(out, '+');
        push_decimal(out, y as u64);
    }
}

/// Appends `clock_text(minute)`.
pub fn push_clock(out: &mut String, minute: u32)
    requires
        minute < 1440,
    ensures
        final(out)@ == old(out)@ + clock_text(minute as int),
{
    push_two_digits(out, minute / 60);
    push_char(out, ':');
    push_two_digits(out, minute % 60);
}

impl DateTime {
    /// The date-time `y-m-d h:mi`, or `None` where no such date or time exists.
    pub fn from_ymd_hm(y: i32, m: u32, d: u32, h: u32, mi: u32) -> (r: Option<DateTime>)
        ensures
            r is Some <==> valid_civil(y as int, m as int, d as int) && h < 24 && mi < 60,
            r matches Some(dt) ==> dt.wf() && dt.day == days_from_ce(y as int, m as int, d as int)
                && dt.minute == 60 * h + mi && civil_of(dt.day as int) == (
                y as int,
                m as int,
                d as int,
            ),
    {
        if h >= 24 || mi >= 60 {
            return None;
        }
        match Date::from_ymd(y, m, d) {
            Some(date) => Some(date.at(h, mi)),
            None => None,
        }
    }

    /// The time of day.
    pub fn time(&self) -> (r: Time)
        ensures
            r.minute == self.minute,
    {
        Time { minute: self.minute }
    }

    /// The date part.
    pub fn date(&self) -> (r: Date)
        ensures
            r.day == self.day,
    {
        Date { day: self.day }
    }

    pub fn stamp_value(&self) -> (r: i64)
        ensures
            r == self.stamp(),
    {
        self.day as i64 * 1440 + self.minute as i64
    }

    /// `self` comes strictly before `other`.
    pub fn before(&self, other: &DateTime) -> (r: bool)
        requires
            self.wf(),
            other.wf(),
        ensures
            r == (self.stamp() < other.stamp()),
    {
        self.stamp_value() < other.stamp_value()
    }

    /// Whole minutes from `self` to `other` (negative when `other` comes first).
    pub fn minutes_until(&self, other: &DateTime) -> (r: i64)
        requires
            self.wf(),
            other.wf(),
        ensures
            r == other.stamp() - self.stamp(),
    {
        other.stamp_value() - self.stamp_value()
    }

    pub fn hour(&self) -> (r: u32)
        ensures
            r == self.minute / 60,
    {
        self.minute / 60
    }

    pub fn minute_of_hour(&self) -> (r: u32)
        ensures
            r == self.minute % 60,
    {
        self.minute % 60
    }

    /// The date-time `n` minutes later, or `None` where it leaves the range of dates.
    pub fn plus_minutes(&self, n: i64) -> (r: Option<DateTime>)
        requires
            self.wf(),
            -0x1_0000_0000_0000 <= n <= 0x1_0000_0000_0000,
        ensures
            r matches Some(d) ==> d.wf() && d.stamp() == self.stamp() + n,
            r is None <==> !valid_day((self.stamp() + n) / 1440),
    {
        let s = self.stamp_value() + n;
        let day = s / 1440;
        let minute = s % 1440;
        let day = if minute < 0 {
            day - 1
        } else {
            day
        };
        let minute = if minute < 0 {
            minute + 1440
        } else {
            minute
        };
        assert(day == (self.stamp() + n) / 1440);
        if day < -95746129 || day > 95745399 {
            None
        } else {
            Some(DateTime { day: day as i32, minute: minute as u32 })
        }
    }

    /// The date-time read from `YYYY-MM-DD HH:MM` text.
    pub fn parse(s: &str) -> (r: Option<DateTime>)
        ensures
            r == parsed_datetime(s@),
            r matches Some(d) ==> d.wf(),
    {
        match chrono_parse_datetime(s) {
            Some(t) => Some(DateTime { day: t.0, minute: t.1 * 60 + t.2 }),
            None => None,
        }
    }

    /// `%Y-%m-%d %H:%M`.
    pub fn format(&self) -> (r: String)
        requires
            self.wf(),
        ensures
            r@ == self.text(),
    {
        let mut out = self.date().format();
        push_char(&mut out, ' ');
        push_clock(&mut out, self.minute);
        out
    }

    /// `%Y-%m`, the key of the month file that holds this date-time.
    pub fn month_key(&self) -> (r: String)
        requires
            self.wf(),
        ensures
            r@ == self.month_key_text(),
    {
        let (y, m, _d) = self.date().ymd();
        let mut out = String::new();
        push_year(&mut out, y);
        push_char(&mut out, '-');
        push_two_digits(&mut out, m);
        out
    }

    /// `%H:%M`.
    pub fn format_clock(&self) -> (r: String)
        requires
            self.wf(),
        ensures
            r@ == clock_text(self.minute as int),
    {
        let mut out = String::new();
        push_clock(&mut out, self.minute);
        out
    }
}

} // verus!
