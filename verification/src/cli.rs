//! What the command line decides: the date range of an export, the preferences
//! and first client of the setup wizard, and the id made from a client's name.
use vstd::prelude::*;

use std::path::PathBuf;

use crate::calendar::valid_day;
use crate::config::Preferences;
use crate::date_range::{preset_range, DateRange, TimeRangePreset};
use crate::datetime::{parsed_date, Date};
use crate::mcp::{check_presets_defined, local_today, presets_defined};
use crate::model::{Client, Rate};
use crate::text::{chars_of, lowercase, push_char, push_str, same_text, string_of_range, to_lowercase};

verus! {

/// Whether a character is alphabetic or numeric in Unicode (named: the answer
/// comes from the Unicode tables).
pub uninterp spec fn alphanumeric(c: char) -> bool;

/// `char::is_alphanumeric`.
#[verifier::external_body]
fn char_is_alphanumeric(c: char) -> (r: bool)
    ensures
        r == alphanumeric(c),
{
    c.is_alphanumeric()
}

/// Letters and digits kept, anything else a hyphen.
pub open spec fn dashed(s: Seq<char>) -> Seq<char> {
    s.map_values(|c: char| if alphanumeric(c) {
        c
    } else {
        '-'
    })
}

/// The text with every hyphen at either end taken off.
pub open spec fn without_outer_dashes(s: Seq<char>) -> Seq<char> {
    let a = leading_dashes(s, 0);
    let b = trailing_dashes_end(s, s.len() as int, a);
    s.subrange(a, b)
}

/// The first position from `i` that holds no hyphen (or the end).
pub open spec fn leading_dashes(s: Seq<char>, i: int) -> int
    decreases s.len() - i,
{
    if i < 0 || i >= s.len() {
        if i < 0 {
            0
        } else {
            s.len() as int
        }
    } else if s[i] == '-' {
        leading_dashes(s, i + 1)
    } else {
        i
    }
}

/// The end left once the hyphens before `j`, down to `lo`, are taken off.
pub open spec fn trailing_dashes_end(s: Seq<char>, j: int, lo: int) -> int
    decreases j - lo,
{
    if j <= lo || j > s.len() {
        if j > s.len() {
            s.len() as int
        } else {
            lo
        }
    } else if s[j - 1] == '-' {
        trailing_dashes_end(s, j - 1, lo)
    } else {
        j
    }
}

/// The id made from a name: lowercased, every character that is not a letter
/// or a digit made a hyphen, hyphens at the ends taken off; `client` where
/// nothing is left.
pub open spec fn slug_of(name: Seq<char>) -> Seq<char> {
    let t = without_outer_dashes(dashed(lowercase(name)));
    if t.len() == 0 {
        "client"@
    } else {
        t
    }
}

/// The id for a client named `name`.
pub fn slugify(name: &str) -> (r: String)
    ensures
        r@ == slug_of(name@),
{
    let low = to_lowercase(name);
    let cs = chars_of(low.as_str());
    let mut mapped: Vec<char> = Vec::new();
    let mut i: usize = 0;
    while i < cs.len()
        invariant
            i <= cs@.len(),
            mapped@ == dashed(cs@.take(i as int)),
        decreases cs@.len() - i,
    {
        let c = cs[i];
        let m = if char_is_alphanumeric(c) {
            c
        } else {
            '-'
        };
        mapped.push(m);
        i = i + 1;
        assert(mapped@ =~= dashed(cs@.take(i as int)));
    }
    assert(cs@.take(cs@.len() as int) =~= cs@);
    let ghost d = mapped@;
    let mut a: usize = 0;
    while a < mapped.len() && mapped[a] == '-'
        invariant
            a <= mapped@.len(),
            d == mapped@,
            leading_dashes(d, 0) == leading_dashes(d, a as int),
        decreases mapped@.len() - a,
    {
        a = a + 1;
    }
    let mut b: usize = mapped.len();
    while b > a && mapped[b - 1] == '-'
        invariant
            a <= b <= mapped@.len(),
            d == mapped@,
            leading_dashes(d, 0) == a,
            trailing_dashes_end(d, d.len() as int, a as int) == trailing_dashes_end(
                d,
                b as int,
                a as int,
            ),
        decreases b - a,
    {
        b = b - 1;
    }
    if a == b {
        proof {
            reveal_strlit("client");
        }
        return String::from_str("client");
    }
    string_of_range(&mapped, a, b)
}

/// The preset an export names.
pub open spec fn export_preset(s: Seq<char>) -> Option<TimeRangePreset> {
    if s == "today"@ {
        Some(TimeRangePreset::Today)
    } else if s == "yesterday"@ {
        Some(TimeRangePreset::Yesterday)
    } else if s == "this-week"@ {
        Some(TimeRangePreset::ThisWeek)
    } else if s == "last-week"@ {
        Some(TimeRangePreset::LastWeek)
    } else if s == "this-month"@ {
        Some(TimeRangePreset::ThisMonth)
    } else if s == "last-month"@ {
        Some(TimeRangePreset::LastMonth)
    } else {
        None
    }
}

/// Why no export range was chosen: a preset name that is none (the command
/// stops), or a message.
#[derive(Debug, PartialEq, Eq)]
pub enum ExportRangeError {
    UnknownPreset(String),
    Invalid(String),
}

pub open spec fn unknown_export_preset_message(s: Seq<char>) -> Seq<char> {
    "Unknown preset: "@ + s
        + ". Use: today, yesterday, this-week, last-week, this-month, last-month"@
}

/// The range of an export, as (first day, last day): the preset's around `today`
/// where one is named; else both dates, the first not after the second; else
/// this month. The error, where there is one, as (stops, message).
pub open spec fn export_range_of(
    preset: Option<Seq<char>>,
    start: Option<Seq<char>>,
    end: Option<Seq<char>>,
    today: int,
    sunday: bool,
) -> Result<(int, int), (bool, Seq<char>)> {
    match preset {
        Some(p) => match export_preset(p) {
            Some(pr) => Ok(preset_range(pr, today, sunday)),
            None => Err((true, unknown_export_preset_message(p))),
        },
        None => match (start, end) {
            (Some(s), Some(e)) => match parsed_date(s) {
                None => Err((false, "Invalid start date: "@ + s + ". Use YYYY-MM-DD"@)),
                Some(sd) => match parsed_date(e) {
                    None => Err((false, "Invalid end date: "@ + e + ". Use YYYY-MM-DD"@)),
                    Some(ed) => if sd.day > ed.day {
                        Err((false, "Start date must be before or equal to end date"@))
                    } else {
                        Ok((sd.day as int, ed.day as int))
                    },
                },
            },
            (None, None) => Ok(preset_range(TimeRangePreset::ThisMonth, today, sunday)),
            _ => Err((false, "--start and --end must both be provided together"@)),
        },
    }
}

pub open spec fn export_error_view(e: ExportRangeError) -> (bool, Seq<char>) {
    match e {
        ExportRangeError::UnknownPreset(m) => (true, m@),
        ExportRangeError::Invalid(m) => (false, m@),
    }
}

fn prefixed(a: &str, x: &str, b: &str) -> (r: String)
    ensures
        r@ == a@ + x@ + b@,
{
    let mut m = String::new();
    push_str(&mut m, a);
    push_str(&mut m, x);
    push_str(&mut m, b);
    m
}

/// The range of an export around `today`.
pub fn export_range_at(
    preset: &Option<String>,
    start: &Option<String>,
    end: &Option<String>,
    week_start: &str,
    today: Date,
) -> (r: Result<DateRange, ExportRangeError>)
    requires
        today.wf(),
        presets_defined(today.day as int, week_start@ == "sunday"@),
    ensures
        ({
            let want = export_range_of(
                crate::files::opt_text(*preset),
                crate::files::opt_text(*start),
                crate::files::opt_text(*end),
                today.day as int,
                week_start@ == "sunday"@,
            );
            match r {
                Ok(range) => want == Ok::<(int, int), (bool, Seq<char>)>(
                    (range.start.day as int, range.end.day as int),
                ) && range.start.wf() && range.end.wf(),
                Err(e) => want == Err::<(int, int), (bool, Seq<char>)>(export_error_view(e)),
            }
        }),
{
    proof {
        reveal_strlit("today");
        reveal_strlit("yesterday");
        reveal_strlit("this-week");
        reveal_strlit("last-week");
        reveal_strlit("this-month");
        reveal_strlit("last-month");
    }
    match preset {
        Some(p) => {
            let name = p.as_str();
            let chosen = if same_text(name, "today") {
                Some(TimeRangePreset::Today)
            } else if same_text(name, "yesterday") {
                Some(TimeRangePreset::Yesterday)
            } else if same_text(name, "this-week") {
                Some(TimeRangePreset::ThisWeek)
            } else if same_text(name, "last-week") {
                Some(TimeRangePreset::LastWeek)
            } else if same_text(name, "this-month") {
                Some(TimeRangePreset::ThisMonth)
            } else if same_text(name, "last-month") {
                Some(TimeRangePreset::LastMonth)
            } else {
                None
            };
            match chosen {
                Some(pr) => Ok(DateRange::from_preset(pr, today, week_start)),
                None => {
                    proof {
                        reveal_strlit("Unknown preset: ");
                        reveal_strlit(
                            ". Use: today, yesterday, this-week, last-week, this-month, last-month",
                        );
                    }
                    Err(
                        ExportRangeError::UnknownPreset(
                            prefixed(
                                "Unknown preset: ",
                                name,
                                ". Use: today, yesterday, this-week, last-week, this-month, last-month",
                            ),
                        ),
                    )
                },
            }
        },
        None => match (start, end) {
            (Some(s), Some(e)) => {
                let sd = match Date::parse(s.as_str()) {
                    Some(d) => d,
                    None => {
                        proof {
                            reveal_strlit("Invalid start date: ");
                            reveal_strlit(". Use YYYY-MM-DD");
                        }
                        return Err(
                            ExportRangeError::Invalid(
                                prefixed("Invalid start date: ", s.as_str(), ". Use YYYY-MM-DD"),
                            ),
                        );
                    },
                };
                let ed = match Date::parse(e.as_str()) {
                    Some(d) => d,
                    None => {
                        proof {
                            reveal_strlit("Invalid end date: ");
                            reveal_strlit(". Use YYYY-MM-DD");
                        }
                        return Err(
                            ExportRangeError::Invalid(
                                prefixed("Invalid end date: ", e.as_str(), ". Use YYYY-MM-DD"),
                            ),
                        );
                    },
                };
                if sd.day > ed.day {
                    proof {
                        reveal_strlit("Start date must be before or equal to end date");
                    }
                    return Err(
                        ExportRangeError::Invalid(
                            String::from_str("Start date must be before or equal to end date"),
                        ),
                    );
                }
                Ok(DateRange::new(sd, ed))
            },
            (None, None) => Ok(
                DateRange::from_preset(TimeRangePreset::ThisMonth, today, week_start),
            ),
            _ => {
                proof {
                    reveal_strlit("--start and --end must both be provided together");
                }
                Err(
                    ExportRangeError::Invalid(
                        String::from_str("--start and --end must both be provided together"),
                    ),
                )
            },
        },
    }
}

/// The range of an export around today on this machine's clock; where today
/// lies too close to the first or last date that can be held, the message says so.
pub fn export_range(
    preset: &Option<String>,
    start: &Option<String>,
    end: &Option<String>,
    week_start: &str,
) -> (r: Result<DateRange, ExportRangeError>)
    ensures
        match r {
            Ok(range) => range.start.wf() && range.end.wf() && exists|today: int|
                valid_day(today) && export_range_of(
                    crate::files::opt_text(*preset),
                    crate::files::opt_text(*start),
                    crate::files::opt_text(*end),
                    today,
                    week_start@ == "sunday"@,
                ) == Ok::<(int, int), (bool, Seq<char>)>(
                    (range.start.day as int, range.end.day as int),
                ),
            Err(e) => export_error_view(e) == (false, "today's date lies outside the range of dates"@)
                || exists|today: int|
                valid_day(today) && export_range_of(
                    crate::files::opt_text(*preset),
                    crate::files::opt_text(*start),
                    crate::files::opt_text(*end),
                    today,
                    week_start@ == "sunday"@,
                ) == Err::<(int, int), (bool, Seq<char>)>(export_error_view(e)),
        },
{
    let today = local_today();
    if !check_presets_defined(today, week_start) {
        proof {
            reveal_strlit("today's date lies outside the range of dates");
        }
        return Err(
            ExportRangeError::Invalid(
                String::from_str("today's date lies outside the range of dates"),
            ),
        );
    }
    export_range_at(preset, start, end, week_start, today)
}

/// The preferences the setup wizard makes: `12h` or else `24h`, `sunday` or else
/// `monday`, the data directory chosen (none for the default), the rest default.
pub fn init_preferences(time_format: &str, week_start: &str, data_dir: Option<PathBuf>) -> (r:
    Preferences)
    ensures
        r.time_format@ == (if time_format@ == "12h"@ {
            "12h"@
        } else {
            "24h"@
        }),
        r.week_start@ == (if week_start@ == "sunday"@ {
            "sunday"@
        } else {
            "monday"@
        }),
        r.data_dir == data_dir,
        r.day_start_hour == 6,
        r.day_end_hour == 22,
        r.snap_minutes == 15,
        r.description_max_length == 200,
        r.tag_style@ == "flat"@,
{
    proof {
        reveal_strlit("12h");
        reveal_strlit("24h");
        reveal_strlit("sunday");
        reveal_strlit("monday");
    }
    let tf = if same_text(time_format, "12h") {
        String::from_str("12h")
    } else {
        String::from_str("24h")
    };
    let ws = if same_text(week_start, "sunday") {
        String::from_str("sunday")
    } else {
        String::from_str("monday")
    };
    let mut p = Preferences::default();
    p.time_format = tf;
    p.week_start = ws;
    p.data_dir = data_dir;
    p
}

/// The first client the setup wizard makes: its id from its name, the default
/// colour, the rate and currency given, nothing else.
pub fn first_client(name: String, rate: Rate, currency: String) -> (r: Client)
    ensures
        r.id@ == slug_of(name@),
        r.name@ == name@,
        r.color@ == "#4F46E5"@,
        r.rate == rate,
        r.currency@ == currency@,
        !r.archived,
        r.address is None,
        r.email is None,
        r.tax_id is None,
        r.payment_terms is None,
        r.notes is None,
        r.projects@.len() == 0,
        r.activities@.len() == 0,
{
    proof {
        reveal_strlit("#4F46E5");
    }
    Client {
        id: slugify(name.as_str()),
        name,
        color: String::from_str("#4F46E5"),
        rate,
        currency,
        archived: false,
        address: None,
        email: None,
        tax_id: None,
        payment_terms: None,
        notes: None,
        projects: Vec::new(),
        activities: Vec::new(),
    }
}

} // verus!
