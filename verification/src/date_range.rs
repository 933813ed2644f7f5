//! Inclusive date ranges, the presets that name them, and the months they span.
use vstd::prelude::*;

use crate::calendar::{civil_of, days_from_ce, days_in_month, max_year, valid_civil, valid_day};
use crate::datetime::{weekday_index, Date};
use crate::text::{chars_of, decimal, push_char, push_decimal, push_str, push_two_digits, same_text, two_digits};

verus! {

/// Preset date ranges for quick filtering.
#[derive(Debug, Clone, Copy, PartialEq, Eq, Structural)]
pub enum TimeRangePreset {
    Today,
    Yesterday,
    ThisWeek,
    LastWeek,
    ThisMonth,
    LastMonth,
    Custom,
}

/// A date range for filtering entries and generating reports. Both ends inclusive.
#[derive(Debug, Clone, Copy, PartialEq, Eq, Structural)]
pub struct DateRange {
    pub start: Date,
    pub end: Date,
}

/// The week (first day, last day) holding `day`, for weeks that start on Sunday
/// or on Monday.
pub open spec fn week_of(day: int, sunday: bool) -> (int, int) {
    let first_weekday: int = if sunday {
        6
    } else {
        0
    };
    let since = (weekday_index(day) + 7 - first_weekday) % 7;
    (day - since, day - since + 6)
}

/// The week of a day holds the day, is seven days long and starts on the
/// configured first weekday: Sunday, or else Monday.
pub proof fn lemma_week_of(day: int, sunday: bool)
    ensures
        week_of(day, sunday).0 <= day <= week_of(day, sunday).1,
        week_of(day, sunday).1 == week_of(day, sunday).0 + 6,
        weekday_index(week_of(day, sunday).0) == if sunday {
            6int
        } else {
            0int
        },
{
    let w = week_of(day, sunday);
    let f: int = if sunday {
        6
    } else {
        0
    };
    let since = (weekday_index(day) + 7 - f) % 7;
    assert(0 <= since < 7);
    assert(weekday_index(w.0) == f) by {
        assert(weekday_index(day) == (day - 1) % 7);
        assert(((day - since) - 1) % 7 == f) by (nonlinear_arith)
            requires
                0 <= f < 7,
                since == ((day - 1) % 7 + 7 - f) % 7,
        {
        }
    }
}

/// The month (first day, last day) holding `day`.
pub open spec fn month_of(day: int) -> (int, int) {
    let c = civil_of(day);
    (days_from_ce(c.0, c.1, 1), days_from_ce(c.0, c.1, days_in_month(c.0, c.1)))
}

/// The week of `day` lies within the range of dates.
pub open spec fn week_defined(day: int, sunday: bool) -> bool {
    valid_day(week_of(day, sunday).0) && valid_day(week_of(day, sunday).1)
}

/// The month after the one holding `day` still starts within the range of dates.
pub open spec fn month_defined(day: int) -> bool {
    civil_of(day).1 == 12 ==> civil_of(day).0 + 1 <= max_year()
}

/// The range that a preset names relative to a reference day.
pub open spec fn preset_range(preset: TimeRangePreset, day: int, sunday: bool) -> (int, int) {
    match preset {
        TimeRangePreset::Today => (day, day),
        TimeRangePreset::Yesterday => (day - 1, day - 1),
        TimeRangePreset::ThisWeek => week_of(day, sunday),
        TimeRangePreset::LastWeek => week_of(day - 7, sunday),
        TimeRangePreset::ThisMonth => month_of(day),
        TimeRangePreset::LastMonth => month_of(month_of(day).0 - 1),
        TimeRangePreset::Custom => (day, day),
    }
}

/// The preset's range lies within the range of dates.
pub open spec fn preset_defined(preset: TimeRangePreset, day: int, sunday: bool) -> bool {
    match preset {
        TimeRangePreset::Yesterday => valid_day(day - 1),
        TimeRangePreset::ThisWeek => week_defined(day, sunday),
        TimeRangePreset::LastWeek => valid_day(day - 7) && week_defined(day - 7, sunday),
        TimeRangePreset::ThisMonth => month_defined(day),
        TimeRangePreset::LastMonth => valid_day(month_of(day).0 - 1),
        _ => true,
    }
}

/// `{:04}` of a year: at least four characters, zero-padded after the sign.
pub open spec fn padded_year(y: int) -> Seq<char> {
    if y >= 0 {
        zero_padded(decimal(y as nat), 4)
    } else {
        seq!['-'] + zero_padded(decimal((-y) as nat), 3)
    }
}

pub open spec fn zero_padded(digits: Seq<char>, width: int) -> Seq<char> {
    if digits.len() < width {
        Seq::new((width - digits.len()) as nat, |i: int| '0') + digits
    } else {
        digits
    }
}

/// `YYYY-MM` for the `k`-th month counted from year 0, January (month index `y * 12 + m - 1`).
pub open spec fn month_index_text(k: int) -> Seq<char> {
    padded_year(k / 12) + seq!['-'] + two_digits(k % 12 + 1)
}

pub open spec fn month_index(y: int, m: int) -> int {
    y * 12 + m - 1
}

/// The month keys from the start's month to the end's month, in order.
pub open spec fn months_between(start: (int, int, int), end: (int, int, int)) -> Seq<Seq<char>> {
    let first = month_index(start.0, start.1);
    let last = month_index(end.0, end.1);
    Seq::new((last - first + 1) as nat, |i: int| month_index_text(first + i))
}

/// Appends `zero_padded(decimal(n), width)`.
fn push_padded(out: &mut String, n: u64, width: usize)
    ensures
        final(out)@ == old(out)@ + zero_padded(decimal(n as nat), width as int),
{
    let mut digits = String::new();
    push_decimal(&mut digits, n);
    let len = chars_of(digits.as_str()).len();
    if len < width {
        let ghost start = out@;
        let mut i: usize = 0;
        while i < width - len
            invariant
                len < width,
                i <= width - len,
                out@ == start + Seq::new(i as nat, |k: int| '0'),
            decreases width - len - i,
        {
            push_char(out, '0');
            i = i + 1;
            assert(out@ =~= start + Seq::new(i as nat, |k: int| '0'));
        }
    }
    push_str(out, digits.as_str());
}

/// Appends `padded_year(y)`.
fn push_padded_year(out: &mut String, y: i32)
    ensures
        final(out)@ == old(out)@ + padded_year(y as int),
{
    if y >= 0 {
        push_padded(out, y as u64, 4);
    } else {
        push_char(out, '-');
        let a: u64 = (-(y as i64)) as u64;
        push_padded(out, a, 3);
    }
}

/// `{:04}-{:02}` of a date's year and month: the key of its month.
pub open spec fn padded_month_text(c: (int, int, int)) -> Seq<char> {
    padded_year(c.0) + seq!['-'] + two_digits(c.1)
}

/// The key of the month that holds a date, its year padded to four digits.
pub fn padded_month_key(date: &Date) -> (r: String)
    requires
        date.wf(),
    ensures
        r@ == padded_month_text(date.civil()),
{
    let (y, m, _d) = date.ymd();
    let mut key = String::new();
    push_padded_year(&mut key, y);
    push_char(&mut key, '-');
    push_two_digits(&mut key, m);
    key
}

impl DateRange {
    pub fn new(start: Date, end: Date) -> (r: DateRange)
        ensures
            r.start == start,
            r.end == end,
    {
        DateRange { start, end }
    }

    /// Create a DateRange from a preset relative to a reference date.
    /// Weeks start on Sunday when `week_start` is exactly `sunday`, else on Monday.
    pub fn from_preset(preset: TimeRangePreset, reference_date: Date, week_start: &str) -> (r:
        DateRange)
        requires
            reference_date.wf(),
            preset_defined(preset, reference_date.day as int, week_start@ == "sunday"@),
        ensures
            r.start.wf(),
            r.end.wf(),
            (r.start.day as int, r.end.day as int) == preset_range(
                preset,
                reference_date.day as int,
                week_start@ == "sunday"@,
            ),
    {
        match preset {
            TimeRangePreset::Today => DateRange::new(reference_date, reference_date),
            TimeRangePreset::Yesterday => {
                let yesterday = Self::shifted(reference_date, -1);
                DateRange::new(yesterday, yesterday)
            },
            TimeRangePreset::ThisWeek => Self::week_containing(reference_date, week_start),
            TimeRangePreset::LastWeek => {
                let last_week = Self::shifted(reference_date, -7);
                Self::week_containing(last_week, week_start)
            },
            TimeRangePreset::ThisMonth => Self::month_containing(reference_date),
            TimeRangePreset::LastMonth => {
                let (y, m, _d) = reference_date.ymd();
                let first_of_current = Self::first_of_month(reference_date);
                let last_of_prev = Self::shifted(first_of_current, -1);
                proof {
                    lemma_prev_month_end(y as int, m as int);
                }
                Self::month_containing(last_of_prev)
            },
            TimeRangePreset::Custom => DateRange::new(reference_date, reference_date),
        }
    }

    /// The date `n` days away, which the caller knows to exist.
    fn shifted(date: Date, n: i64) -> (r: Date)
        requires
            date.wf(),
            -7 <= n <= 6,
            valid_day(date.day + n),
        ensures
            r.wf(),
            r.day == date.day + n,
    {
        match date.add_days(n) {
            Some(d) => d,
            None => {
                assert(false);
                date
            },
        }
    }

    /// All YYYY-MM month keys this range spans.
    pub fn months_spanned(&self) -> (r: Vec<String>)
        requires
            self.start.wf(),
            self.end.wf(),
            month_index(self.start.civil().0, self.start.civil().1) <= month_index(
                self.end.civil().0,
                self.end.civil().1,
            ),
        ensures
            r@.map_values(|s: String| s@) == months_between(self.start.civil(), self.end.civil()),
    {
        let (sy, sm, _sd) = self.start.ymd();
        let (ey, em, _ed) = self.end.ymd();
        let ghost first = month_index(sy as int, sm as int);
        let ghost want = months_between(self.start.civil(), self.end.civil());
        let mut months: Vec<String> = Vec::new();
        let mut year = sy;
        let mut month = sm;
        loop
            invariant_except_break
                months@.len() == month_index(year as int, month as int) - first,
            invariant
                valid_civil(sy as int, sm as int, _sd as int),
                valid_civil(ey as int, em as int, _ed as int),
                1 <= month <= 12,
                first <= month_index(year as int, month as int) <= month_index(ey as int, em as int),
                want == months_between(self.start.civil(), self.end.civil()),
                self.start.civil() == (sy as int, sm as int, _sd as int),
                self.end.civil() == (ey as int, em as int, _ed as int),
                first == month_index(sy as int, sm as int),
                want.len() == month_index(ey as int, em as int) - first + 1,
                forall|i: int|
                    0 <= i < months@.len() ==> (#[trigger] months@[i])@ == want[i],
            ensures
                months@.len() == want.len(),
                forall|i: int|
                    0 <= i < months@.len() ==> (#[trigger] months@[i])@ == want[i],
            decreases month_index(ey as int, em as int) - month_index(year as int, month as int),
        {
            let mut key = String::new();
            push_padded_year(&mut key, year);
            push_char(&mut key, '-');
            push_two_digits(&mut key, month);
            proof {
                let k = month_index(year as int, month as int);
                assert(k / 12 == year as int && k % 12 + 1 == month as int) by (nonlinear_arith)
                    requires
                        k == year * 12 + month - 1,
                        1 <= month <= 12,
                ;
                assert(0 <= k - first < want.len());
                assert(want[k - first] == month_index_text(k));
                assert(key@ == month_index_text(k));
            }
            months.push(key);
            if year == ey && month == em {
                break;
            }
            if month == 12 {
                year = year + 1;
                month = 1;
            } else {
                month = month + 1;
            }
        }
        assert(months@.map_values(|s: String| s@) =~= want);
        months
    }

    pub(crate) fn first_of_month(date: Date) -> (r: Date)
        requires
            date.wf(),
        ensures
            r.wf(),
            r.day == month_of(date.day as int).0,
    {
        let (y, m, _d) = date.ymd();
        match Date::from_ymd(y, m, 1) {
            Some(first) => first,
            None => {
                assert(false);
                date
            },
        }
    }

    fn week_containing(date: Date, week_start: &str) -> (r: DateRange)
        requires
            date.wf(),
            week_defined(date.day as int, week_start@ == "sunday"@),
        ensures
            r.start.wf(),
            r.end.wf(),
            (r.start.day as int, r.end.day as int) == week_of(
                date.day as int,
                week_start@ == "sunday"@,
            ),
    {
        let sunday = same_text(week_start, "sunday");
        let start_weekday: u32 = if sunday {
            6
        } else {
            0
        };
        let days_since_start = (date.days_from_monday() + 7 - start_weekday) % 7;
        let week_start_date = match date.add_days(-(days_since_start as i64)) {
            Some(d) => d,
            None => {
                assert(false);
                date
            },
        };
        let week_end_date = match week_start_date.add_days(6) {
            Some(d) => d,
            None => {
                assert(false);
                date
            },
        };
        DateRange::new(week_start_date, week_end_date)
    }

    pub(crate) fn month_containing(date: Date) -> (r: DateRange)
        requires
            date.wf(),
            month_defined(date.day as int),
        ensures
            r.start.wf(),
            r.end.wf(),
            (r.start.day as int, r.end.day as int) == month_of(date.day as int),
    {
        let (y, m, _d) = date.ymd();
        let first = match Date::from_ymd(y, m, 1) {
            Some(f) => f,
            None => {
                assert(false);
                date
            },
        };
        let next_first = if m == 12 {
            Date::from_ymd(y + 1, 1, 1)
        } else {
            Date::from_ymd(y, m + 1, 1)
        };
        let last = match next_first {
            Some(n) => {
                proof {
                    lemma_next_month_start(y as int, m as int);
                }
                Self::shifted(n, -1)
            },
            None => {
                assert(false);
                date
            },
        };
        DateRange::new(first, last)
    }
}

/// The day before the first of the next month is the last day of this month.
proof fn lemma_next_month_start(y: int, m: int)
    requires
        1 <= m <= 12,
    ensures
        m < 12 ==> days_from_ce(y, m + 1, 1) - 1 == days_from_ce(y, m, days_in_month(y, m)),
        m == 12 ==> days_from_ce(y + 1, 1, 1) - 1 == days_from_ce(y, 12, 31),
{
    crate::calendar::lemma_next_month_first(y, m);
}

/// The day before the first of month `m` of year `y` is the last day of the
/// month before.
proof fn lemma_prev_month_end(y: int, m: int)
    requires
        valid_civil(y, m, 1),
        valid_day(days_from_ce(y, m, 1) - 1),
    ensures
        m > 1 ==> civil_of(days_from_ce(y, m, 1) - 1) == (y, m - 1, days_in_month(y, m - 1)),
        m == 1 ==> civil_of(days_from_ce(y, m, 1) - 1) == (y - 1, 12int, 31int),
{
    if m > 1 {
        crate::calendar::lemma_next_month_first(y, m - 1);
        crate::calendar::lemma_civil_of_unique(y, m - 1, days_in_month(y, m - 1));
    } else {
        crate::calendar::lemma_next_month_first(y - 1, 12);
        assert(days_from_ce(crate::calendar::min_year(), 1, 1) == crate::calendar::min_day());
        crate::calendar::lemma_civil_of_unique(y - 1, 12, 31);
    }
}

} // verus!
