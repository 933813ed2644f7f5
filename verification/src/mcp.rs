//! The parameters of the assistant-facing tools and the checks and conversions
//! they share: reading dates and date-times, resolving a date range from a
//! preset or explicit dates, and naming errors.
use vstd::prelude::*;

use crate::date_range::{preset_defined, DateRange, TimeRangePreset};
use crate::datetime::{parsed_date, parsed_datetime, Date, DateTime};
use crate::error::Error;
use crate::model::{entries_view, opt_view, EntryView, NewEntry, TimeEntry};
use crate::text::{push_char, push_decimal, push_str, same_text};

verus! {

/// Parameters for the `list_entries` tool.
#[derive(Debug)]
pub struct ListEntriesParams {
    pub start_date: Option<String>,
    pub end_date: Option<String>,
    pub preset: Option<String>,
    pub client: Option<String>,
    pub project: Option<String>,
    pub activity: Option<String>,
    pub description_contains: Option<String>,
    pub limit: Option<usize>,
    pub offset: Option<usize>,
}

/// Parameters for the `create_entry` tool.
#[derive(Debug)]
pub struct CreateEntryParams {
    pub start: String,
    pub end: String,
    pub description: String,
    pub client: String,
    pub project: Option<String>,
    pub activity: Option<String>,
    pub notes: Option<String>,
    pub snap_to_grid: Option<bool>,
}

/// Parameters for the `update_entry` tool.
#[derive(Debug)]
pub struct UpdateEntryParams {
    pub entry_id: Option<String>,
    pub original_start: Option<String>,
    pub original_end: Option<String>,
    pub start: Option<String>,
    pub end: Option<String>,
    pub description: Option<String>,
    pub client: Option<String>,
    pub project: Option<String>,
    pub activity: Option<String>,
    pub notes: Option<String>,
}

/// Parameters for the `delete_entry` tool.
#[derive(Debug)]
pub struct DeleteEntryParams {
    pub entry_id: Option<String>,
    pub start: Option<String>,
    pub end: Option<String>,
}

/// Parameters for the `get_entry` tool.
#[derive(Debug)]
pub struct GetEntryParams {
    pub entry_id: Option<String>,
    pub start: Option<String>,
    pub end: Option<String>,
}

/// Parameters for the `check_overlaps` tool.
#[derive(Debug)]
pub struct CheckOverlapsParams {
    pub start: String,
    pub end: String,
    pub exclude_entry_id: Option<String>,
}

/// Parameters for the `generate_report` tool.
#[derive(Debug)]
pub struct GenerateReportParams {
    pub start_date: Option<String>,
    pub end_date: Option<String>,
    pub preset: Option<String>,
    pub client: Option<String>,
    pub project: Option<String>,
}

/// Parameters for the `available_slots` tool.
#[derive(Debug)]
pub struct AvailableSlotsParams {
    pub start: String,
    pub end: String,
    pub min_duration_minutes: Option<i64>,
    pub client: Option<String>,
    pub project: Option<String>,
    pub activity: Option<String>,
}

/// Parameters for the `list_clients` tool.
#[derive(Debug)]
pub struct ListClientsParams {
    pub include_archived: Option<bool>,
}

/// The message for text that is no `YYYY-MM-DD HH:mm` date-time.
pub open spec fn bad_datetime_message(s: Seq<char>) -> Seq<char> {
    "invalid datetime format: '"@ + s + "', expected YYYY-MM-DD HH:mm"@
}

/// The message for text that is no `YYYY-MM-DD` date.
pub open spec fn bad_date_message(s: Seq<char>) -> Seq<char> {
    "invalid date format: '"@ + s + "', expected YYYY-MM-DD"@
}

/// Parse "YYYY-MM-DD HH:mm" into a date-time.
pub fn parse_datetime(s: &str) -> (r: Result<DateTime, String>)
    ensures
        match r {
            Ok(d) => parsed_datetime(s@) == Some(d) && d.wf(),
            Err(m) => parsed_datetime(s@) is None && m@ == bad_datetime_message(s@),
        },
{
    match DateTime::parse(s) {
        Some(d) => Ok(d),
        None => {
            let mut m = String::from_str("invalid datetime format: '");
            push_str(&mut m, s);
            push_str(&mut m, "', expected YYYY-MM-DD HH:mm");
            Err(m)
        },
    }
}

/// Parse "YYYY-MM-DD" into a date.
pub fn parse_date(s: &str) -> (r: Result<Date, String>)
    ensures
        match r {
            Ok(d) => parsed_date(s@) == Some(d) && d.wf(),
            Err(m) => parsed_date(s@) is None && m@ == bad_date_message(s@),
        },
{
    match Date::parse(s) {
        Some(d) => Ok(d),
        None => {
            let mut m = String::from_str("invalid date format: '");
            push_str(&mut m, s);
            push_str(&mut m, "', expected YYYY-MM-DD");
            Err(m)
        },
    }
}

/// The preset that a name stands for.
pub open spec fn preset_named(s: Seq<char>) -> Option<TimeRangePreset> {
    if s == "today"@ {
        Some(TimeRangePreset::Today)
    } else if s == "yesterday"@ {
        Some(TimeRangePreset::Yesterday)
    } else if s == "this_week"@ {
        Some(TimeRangePreset::ThisWeek)
    } else if s == "last_week"@ {
        Some(TimeRangePreset::LastWeek)
    } else if s == "this_month"@ {
        Some(TimeRangePreset::ThisMonth)
    } else if s == "last_month"@ {
        Some(TimeRangePreset::LastMonth)
    } else {
        None
    }
}

pub open spec fn unknown_preset_message(s: Seq<char>) -> Seq<char> {
    "unknown preset: '"@ + s
        + "'. Valid: today, yesterday, this_week, last_week, this_month, last_month"@
}

/// The preset named by `s`, or the message listing the valid names.
pub fn parse_preset(s: &str) -> (r: Result<TimeRangePreset, String>)
    ensures
        match r {
            Ok(p) => preset_named(s@) == Some(p),
            Err(m) => preset_named(s@) is None && m@ == unknown_preset_message(s@),
        },
{
    if same_text(s, "today") {
        Ok(TimeRangePreset::Today)
    } else if same_text(s, "yesterday") {
        Ok(TimeRangePreset::Yesterday)
    } else if same_text(s, "this_week") {
        Ok(TimeRangePreset::ThisWeek)
    } else if same_text(s, "last_week") {
        Ok(TimeRangePreset::LastWeek)
    } else if same_text(s, "this_month") {
        Ok(TimeRangePreset::ThisMonth)
    } else if same_text(s, "last_month") {
        Ok(TimeRangePreset::LastMonth)
    } else {
        let mut m = String::from_str("unknown preset: '");
        push_str(&mut m, s);
        push_str(
            &mut m,
            "'. Valid: today, yesterday, this_week, last_week, this_month, last_month",
        );
        Err(m)
    }
}

/// Every preset's range around `day` lies within the range of dates.
pub open spec fn presets_defined(day: int, sunday: bool) -> bool {
    &&& preset_defined(TimeRangePreset::Yesterday, day, sunday)
    &&& preset_defined(TimeRangePreset::ThisWeek, day, sunday)
    &&& preset_defined(TimeRangePreset::LastWeek, day, sunday)
    &&& preset_defined(TimeRangePreset::ThisMonth, day, sunday)
    &&& preset_defined(TimeRangePreset::LastMonth, day, sunday)
}

/// The range that the parameters name, given today's date: a preset, where one
/// is named, wins over the dates; otherwise both dates are needed.
pub open spec fn resolved_range(
    start_date: Option<Seq<char>>,
    end_date: Option<Seq<char>>,
    preset: Option<Seq<char>>,
    sunday: bool,
    today: int,
) -> Result<(int, int), Seq<char>> {
    match preset {
        Some(name) => match preset_named(name) {
            Some(p) => Ok(crate::date_range::preset_range(p, today, sunday)),
            None => Err(unknown_preset_message(name)),
        },
        None => match start_date {
            None => Err("start_date is required when preset is not provided"@),
            Some(s) => match end_date {
                None => Err("end_date is required when preset is not provided"@),
                Some(e) => match parsed_date(s) {
                    None => Err(bad_date_message(s)),
                    Some(sd) => match parsed_date(e) {
                        None => Err(bad_date_message(e)),
                        Some(ed) => Ok((sd.day as int, ed.day as int)),
                    },
                },
            },
        },
    }
}

/// Resolve a date range from params, given today's date: either a preset
/// overrides start/end, or both are required.
pub fn resolve_date_range_at(
    start_date: &Option<String>,
    end_date: &Option<String>,
    preset: &Option<String>,
    week_start: &str,
    today: Date,
) -> (r: Result<DateRange, String>)
    requires
        today.wf(),
        preset is Some ==> presets_defined(today.day as int, week_start@ == "sunday"@),
    ensures
        match r {
            Ok(range) => resolved_range(
                opt_view(*start_date),
                opt_view(*end_date),
                opt_view(*preset),
                week_start@ == "sunday"@,
                today.day as int,
            ) == Ok::<(int, int), Seq<char>>((range.start.day as int, range.end.day as int)),
            Err(m) => resolved_range(
                opt_view(*start_date),
                opt_view(*end_date),
                opt_view(*preset),
                week_start@ == "sunday"@,
                today.day as int,
            ) == Err::<(int, int), Seq<char>>(m@),
        },
{
    if let Some(name) = preset {
        let p = parse_preset(name.as_str())?;
        return Ok(DateRange::from_preset(p, today, week_start));
    }
    let start = match start_date {
        Some(s) => s,
        None => {
            return Err(String::from_str("start_date is required when preset is not provided"));
        },
    };
    let end = match end_date {
        Some(e) => e,
        None => {
            return Err(String::from_str("end_date is required when preset is not provided"));
        },
    };
    let s = parse_date(start.as_str())?;
    let e = parse_date(end.as_str())?;
    Ok(DateRange::new(s, e))
}

/// Today's date on this machine's clock and time zone (`Local::now`); it depends
/// on the moment of the call, so only its validity is stated.
#[verifier::external_body]
pub(crate) fn local_today() -> (r: Date)
    ensures
        r.wf(),
{
    Date { day: chrono::Datelike::num_days_from_ce(&chrono::Local::now().date_naive()) }
}

/// The test that every preset's range around `day` can be formed: the days a
/// month before and a week after can be held, and the day is not in December
/// of the last year that can be held or later.
pub open spec fn presets_checked(day: int) -> bool {
    &&& crate::calendar::valid_day(day - 31)
    &&& crate::calendar::valid_day(day + 7)
    &&& !(crate::calendar::civil_of(day).1 == 12 && crate::calendar::civil_of(day).0 >= 262142)
}

/// Checks that every preset's range around `day` lies within the range of dates
/// (true for every day but those within about a month of the first or last date
/// that can be held).
pub(crate) fn check_presets_defined(day: Date, week_start: &str) -> (r: bool)
    requires
        day.wf(),
    ensures
        r == presets_checked(day.day as int),
        r ==> presets_defined(day.day as int, week_start@ == "sunday"@),
{
    let d = day.day as i64;
    if d - 31 < -95746129 || d + 7 > 95745399 {
        return false;
    }
    let (y, m, _dd) = day.ymd();
    if m == 12 && y >= 262142 {
        return false;
    }
    proof {
        lemma_presets_defined(day.day as int, week_start@ == "sunday"@);
    }
    true
}

proof fn lemma_presets_defined(day: int, sunday: bool)
    requires
        crate::calendar::valid_day(day - 31),
        crate::calendar::valid_day(day + 7),
        crate::calendar::valid_civil(
            crate::calendar::civil_of(day).0,
            crate::calendar::civil_of(day).1,
            crate::calendar::civil_of(day).2,
        ),
        crate::calendar::days_from_ce(
            crate::calendar::civil_of(day).0,
            crate::calendar::civil_of(day).1,
            crate::calendar::civil_of(day).2,
        ) == day,
        !(crate::calendar::civil_of(day).1 == 12 && crate::calendar::civil_of(day).0 >= 262142),
    ensures
        presets_defined(day, sunday),
{
    let c = crate::calendar::civil_of(day);
    assert(crate::date_range::month_of(day).0 == day - (c.2 - 1));
}

/// Resolve a date range from params, relative to today's date on this machine.
/// Where a preset is named but today lies too close to the first or last date
/// that can be held for every preset's range to exist, the preset is refused.
pub fn resolve_date_range(
    start_date: &Option<String>,
    end_date: &Option<String>,
    preset: &Option<String>,
    week_start: &str,
) -> (r: Result<DateRange, String>)
    ensures
        preset is None ==> match r {
            Ok(range) => resolved_range(
                opt_view(*start_date),
                opt_view(*end_date),
                None,
                week_start@ == "sunday"@,
                0,
            ) == Ok::<(int, int), Seq<char>>((range.start.day as int, range.end.day as int)),
            Err(m) => resolved_range(
                opt_view(*start_date),
                opt_view(*end_date),
                None,
                week_start@ == "sunday"@,
                0,
            ) == Err::<(int, int), Seq<char>>(m@),
        },
        preset matches Some(name) ==> match r {
            Ok(range) => exists|today: int|
                crate::calendar::valid_day(today) && resolved_range(
                    None,
                    None,
                    Some(name@),
                    week_start@ == "sunday"@,
                    today,
                ) == Ok::<(int, int), Seq<char>>((range.start.day as int, range.end.day as int)),
            Err(m) => preset_named(name@) is None ==> m@ == unknown_preset_message(name@),
        },
{
    let today = local_today();
    if preset.is_some() && !check_presets_defined(today, week_start) {
        if let Some(name) = preset {
            if parse_preset(name.as_str()).is_err() {
                return Err(parse_preset(name.as_str()).unwrap_err());
            }
        }
        return Err(String::from_str("today's date lies outside the range of dates"));
    }
    resolve_date_range_at(start_date, end_date, preset, week_start, today)
}

/// The kind and message under which an error is reported to the assistant.
pub fn error_parts(error: &Error) -> (r: (String, String))
    ensures
        match error {
            Error::Validation(m) => r.0@ == "validation"@ && r.1@ == m@,
            Error::Overlap(m) => r.0@ == "overlap"@ && r.1@ == m@,
            Error::NotFound => r.0@ == "not_found"@ && r.1@
                == "No entry matches the given ID or timestamps"@,
            Error::Parse { line, message } => r.0@ == "parse"@ && r.1@ == "line "@
                + crate::text::decimal(*line as nat) + ": "@ + message@,
            Error::Config(m) => r.0@ == "config"@ && r.1@ == m@,
            Error::Io(_) => r.0@ == "io"@,
        },
{
    match error {
        Error::Validation(m) => (String::from_str("validation"), m.clone()),
        Error::Overlap(m) => (String::from_str("overlap"), m.clone()),
        Error::NotFound => (
            String::from_str("not_found"),
            String::from_str("No entry matches the given ID or timestamps"),
        ),
        Error::Parse { line, message } => {
            let mut m = String::from_str("line ");
            push_decimal(&mut m, *line as u64);
            push_str(&mut m, ": ");
            push_str(&mut m, message.as_str());
            (String::from_str("parse"), m)
        },
        Error::Config(m) => (String::from_str("config"), m.clone()),
        Error::Io(e) => (String::from_str("io"), crate::error::io_error_text(e)),
    }
}

/// The updated entry: each field given in the parameters replaces the existing
/// one (start and end read as `YYYY-MM-DD HH:mm`), the others are kept.
pub open spec fn merged(existing: EntryView, params: UpdateEntryParams) -> Result<EntryView, Seq<char>> {
    let start = match params.start {
        Some(s) => parsed_datetime(s@),
        None => Some(existing.start),
    };
    let end = match params.end {
        Some(e) => parsed_datetime(e@),
        None => Some(existing.end),
    };
    if start is None {
        Err(bad_datetime_message(params.start->0@))
    } else if end is None {
        Err(bad_datetime_message(params.end->0@))
    } else {
        Ok(
            EntryView {
                start: start->0,
                end: end->0,
                description: match params.description {
                    Some(d) => d@,
                    None => existing.description,
                },
                client: match params.client {
                    Some(c) => c@,
                    None => existing.client,
                },
                project: match params.project {
                    Some(p) => Some(p@),
                    None => existing.project,
                },
                activity: match params.activity {
                    Some(a) => Some(a@),
                    None => existing.activity,
                },
                notes: match params.notes {
                    Some(n) => Some(n@),
                    None => existing.notes,
                },
            },
        )
    }
}

fn pick(given: Option<String>, kept: String) -> (r: String)
    ensures
        r@ == match given {
            Some(g) => g@,
            None => kept@,
        },
{
    match given {
        Some(g) => g,
        None => kept,
    }
}

fn pick_opt(given: Option<String>, kept: Option<String>) -> (r: Option<String>)
    ensures
        opt_view(r) == match given {
            Some(g) => Some(g@),
            None => opt_view(kept),
        },
{
    match given {
        Some(g) => Some(g),
        None => kept,
    }
}

/// Merges the fields given to `update_entry` into the existing entry.
pub fn merge_update(existing: TimeEntry, params: UpdateEntryParams) -> (r: Result<NewEntry, String>)
    ensures
        match r {
            Ok(n) => merged(existing@, params) == Ok::<EntryView, Seq<char>>(n@),
            Err(m) => merged(existing@, params) == Err::<EntryView, Seq<char>>(m@),
        },
{
    let ghost p = params;
    let ghost ev = existing@;
    let start = match &params.start {
        Some(s) => parse_datetime(s.as_str())?,
        None => existing.start,
    };
    let end = match &params.end {
        Some(e) => parse_datetime(e.as_str())?,
        None => existing.end,
    };
    let UpdateEntryParams { description, client, project, activity, notes, .. } = params;
    Ok(
        NewEntry {
            start,
            end,
            description: pick(description, existing.description),
            client: pick(client, existing.client),
            project: pick_opt(project, existing.project),
            activity: pick_opt(activity, existing.activity),
            notes: pick_opt(notes, existing.notes),
        },
    )
}

// ---------------------------------------------------------------------------
// What the tools decide between reading and answering.

/// A date-time, or else a date at `hour:minute`, read from text; the date's
/// error where neither reads.
pub open spec fn datetime_or_date_at(s: Seq<char>, hour: int, minute: int) -> Result<DateTime, Seq<char>> {
    match parsed_datetime(s) {
        Some(d) => Ok(d),
        None => match parsed_date(s) {
            Some(d) => Ok(DateTime { day: d.day, minute: (hour * 60 + minute) as u32 }),
            None => Err(bad_date_message(s)),
        },
    }
}

/// The window that `available_slots` searches: from the start (a date-time, or a
/// date from 00:00) to the end (a date-time, or a date until 23:59), which must
/// come later; with the days to load, from the day before the start's to the end's.
pub open spec fn slots_window_of(start: Seq<char>, end: Seq<char>) -> Result<(DateTime, DateTime, (int, int)), Seq<char>> {
    match datetime_or_date_at(start, 0, 0) {
        Err(m) => Err(m),
        Ok(s) => match datetime_or_date_at(end, 23, 59) {
            Err(m) => Err(m),
            Ok(e) => if e.stamp() <= s.stamp() {
                Err("end must be after start"@)
            } else {
                let load_start = if crate::calendar::valid_day(s.day - 1) {
                    s.day - 1
                } else {
                    s.day as int
                };
                Ok((s, e, (load_start, e.day as int)))
            },
        },
    }
}

fn datetime_or_date(s: &str, hour: u32, minute: u32) -> (r: Result<DateTime, String>)
    requires
        hour < 24,
        minute < 60,
    ensures
        match r {
            Ok(d) => datetime_or_date_at(s@, hour as int, minute as int) == Ok::<DateTime, Seq<char>>(d)
                && d.wf(),
            Err(m) => datetime_or_date_at(s@, hour as int, minute as int) == Err::<DateTime, Seq<char>>(m@),
        },
{
    match parse_datetime(s) {
        Ok(d) => Ok(d),
        Err(_) => match parse_date(s) {
            Ok(d) => Ok(d.at(hour, minute)),
            Err(m) => Err(m),
        },
    }
}

/// The window of the `available_slots` tool and the dates to load for it.
pub fn slots_window(start: &str, end: &str) -> (r: Result<(DateTime, DateTime, DateRange), String>)
    ensures
        match r {
            Ok(w) => slots_window_of(start@, end@) == Ok::<
                (DateTime, DateTime, (int, int)),
                Seq<char>,
            >((w.0, w.1, (w.2.start.day as int, w.2.end.day as int))) && w.0.wf() && w.1.wf()
                && w.2.start.wf() && w.2.end.wf(),
            Err(m) => slots_window_of(start@, end@) == Err::<
                (DateTime, DateTime, (int, int)),
                Seq<char>,
            >(m@),
        },
{
    let range_start = datetime_or_date(start, 0, 0)?;
    let range_end = datetime_or_date(end, 23, 59)?;
    if !range_start.before(&range_end) {
        proof {
            reveal_strlit("end must be after start");
        }
        return Err(String::from_str("end must be after start"));
    }
    let start_date = range_start.date();
    let load_start = match start_date.add_days(-1) {
        Some(d) => d,
        None => start_date,
    };
    Ok((range_start, range_end, DateRange::new(load_start, range_end.date())))
}

/// The sum of the entries' durations.
pub open spec fn total_duration(es: Seq<EntryView>) -> int
    decreases es.len(),
{
    if es.len() == 0 {
        0
    } else {
        total_duration(es.drop_last()) + es.last().duration()
    }
}

/// The total minutes of the entries.
pub fn total_minutes(entries: &[TimeEntry]) -> (r: i64)
    requires
        crate::model::all_wf(entries_view(entries@)),
        crate::report::abs_total(entries_view(entries@)) <= i64::MAX,
    ensures
        r == total_duration(entries_view(entries@)),
{
    let ghost es = entries_view(entries@);
    let mut total: i64 = 0;
    let mut i: usize = 0;
    proof {
        lemma_abs_total_prefix(es, 0);
    }
    while i < entries.len()
        invariant
            i <= entries@.len(),
            es == entries_view(entries@),
            crate::model::all_wf(es),
            crate::report::abs_total(es) <= i64::MAX,
            total == total_duration(es.take(i as int)),
            -crate::report::abs_total(es.take(i as int)) <= total <= crate::report::abs_total(es.take(i as int)),
            crate::report::abs_total(es.take(i as int)) <= crate::report::abs_total(es),
        decreases entries@.len() - i,
    {
        proof {
            assert(es.take(i + 1).drop_last() =~= es.take(i as int));
            assert(es[i as int] == entries@[i as int]@);
            assert(es.take(i + 1).last() == es[i as int]);
            lemma_abs_total_prefix(es, i + 1);
        }
        total = total + entries[i].duration_minutes();
        i = i + 1;
    }
    assert(es.take(entries@.len() as int) =~= es);
    total
}

proof fn lemma_abs_total_prefix(es: Seq<EntryView>, k: int)
    requires
        0 <= k <= es.len(),
    ensures
        crate::report::abs_total(es.take(k)) <= crate::report::abs_total(es),
    decreases es.len() - k,
{
    if k < es.len() {
        lemma_abs_total_prefix(es, k + 1);
        assert(es.take(k + 1).drop_last() =~= es.take(k));
    } else {
        assert(es.take(k) =~= es);
    }
}

/// The page of entries from `offset` (none skipped where it is not given),
/// at most `limit` of them (all where it is not given).
pub open spec fn page_of(es: Seq<EntryView>, offset: Option<usize>, limit: Option<usize>) -> Seq<EntryView> {
    let o: int = match offset {
        Some(x) => if x < es.len() {
            x as int
        } else {
            es.len() as int
        },
        None => 0,
    };
    let rest = es.skip(o);
    let l: int = match limit {
        Some(x) => if x < rest.len() {
            x as int
        } else {
            rest.len() as int
        },
        None => rest.len() as int,
    };
    rest.take(l)
}

/// A page holds the entries from the offset on (from the first where none is
/// given, none past the end), in order, and no more than the limit: exactly
/// the limit where that many remain, else all that remain. No offset reads as
/// offset 0.
pub proof fn lemma_page_bounds(es: Seq<EntryView>, offset: Option<usize>, limit: Option<usize>)
    ensures
        ({
            let p = page_of(es, offset, limit);
            let start: int = match offset {
                Some(x) => if x < es.len() {
                    x as int
                } else {
                    es.len() as int
                },
                None => 0,
            };
            &&& 0 <= start <= es.len()
            &&& (limit matches Some(x) ==> p.len() <= x)
            &&& (limit matches Some(x) ==> p.len() == if x + start <= es.len() {
                x as int
            } else {
                es.len() - start
            })
            &&& (limit is None ==> p.len() == es.len() - start)
            &&& forall|i: int| 0 <= i < p.len() ==> #[trigger] p[i] == es[start + i]
            &&& page_of(es, None, limit) == page_of(es, Some(0usize), limit)
        }),
{
    let p = page_of(es, offset, limit);
    assert(es.skip(0) =~= es);
    assert(page_of(es, None, limit) =~= page_of(es, Some(0usize), limit));
}

/// The entries from `offset` on, at most `limit` of them.
pub fn page_entries(entries: Vec<TimeEntry>, offset: Option<usize>, limit: Option<usize>) -> (r: Vec<TimeEntry>)
    ensures
        entries_view(r@) == page_of(entries_view(entries@), offset, limit),
{
    let ghost es = entries_view(entries@);
    let n = entries.len();
    let o = match offset {
        Some(x) => if x < n {
            x
        } else {
            n
        },
        None => 0,
    };
    let l = match limit {
        Some(x) => if x < n - o {
            x
        } else {
            n - o
        },
        None => n - o,
    };
    let mut out: Vec<TimeEntry> = Vec::new();
    let mut i: usize = o;
    while i < o + l
        invariant
            o <= i <= o + l,
            o + l <= n,
            n == entries@.len(),
            es == entries_view(entries@),
            entries_view(out@) == es.subrange(o as int, i as int),
        decreases o + l - i,
    {
        let ghost prev = out@;
        let e = entries[i].duplicate();
        assert(es[i as int] == entries@[i as int]@);
        out.push(e);
        assert(entries_view(out@) =~= entries_view(prev).push(e@));
        i = i + 1;
        assert(entries_view(out@) =~= es.subrange(o as int, i as int));
    }
    assert(es.subrange(o as int, (o + l) as int) =~= page_of(es, offset, limit));
    out
}

/// The number of days in a month.
#[verifier::spinoff_prover]
#[verifier::rlimit(30)]
fn month_length(y: i32, m: u32) -> (r: u32)
    requires
        1 <= m <= 12,
    ensures
        r == crate::calendar::days_in_month(y as int, m as int),
{
    if m == 2 {
        let leap = y % 4 == 0 && (y % 100 != 0 || y % 400 == 0);
        if leap {
            29
        } else {
            28
        }
    } else if m == 4 || m == 6 || m == 9 || m == 11 {
        30
    } else {
        31
    }
}

/// The day `k` months from `day`, its day of the month kept where the month has
/// it and otherwise the month's last (the date library's month arithmetic);
/// `None` where that leaves the range of dates.
pub open spec fn months_shifted(day: int, k: int) -> Option<int> {
    let c = crate::calendar::civil_of(day);
    let idx = c.0 * 12 + (c.1 - 1) + k;
    let ty = idx / 12;
    let tm = idx % 12 + 1;
    let dim = crate::calendar::days_in_month(ty, tm);
    let td = if c.2 <= dim {
        c.2
    } else {
        dim
    };
    if crate::calendar::valid_civil(ty, tm, td) {
        Some(crate::calendar::days_from_ce(ty, tm, td))
    } else {
        None
    }
}

fn shift_months(date: Date, k: i32) -> (r: Option<Date>)
    requires
        date.wf(),
        -12 <= k <= 12,
    ensures
        match r {
            Some(d) => d.wf() && months_shifted(date.day as int, k as int) == Some(d.day as int),
            None => months_shifted(date.day as int, k as int) is None,
        },
{
    let (y, m, d) = date.ymd();
    let idx: i64 = y as i64 * 12 + (m as i64 - 1) + k as i64;
    let q = idx / 12;
    let rem = idx % 12;
    let (ty, tm) = if rem < 0 {
        (q - 1, rem + 12 + 1)
    } else {
        (q, rem + 1)
    };
    assert(ty == idx as int / 12 && tm == idx as int % 12 + 1);
    if ty < -262143 || ty > 262142 {
        return None;
    }
    let dim = month_length(ty as i32, tm as u32);
    let td = if d <= dim {
        d
    } else {
        dim
    };
    Date::from_ymd(ty as i32, tm as u32, td)
}

/// The dates searched for an entry by its id, around `today`: from three months
/// before to one month after.
pub fn recent_range(today: Date) -> (r: Option<DateRange>)
    requires
        today.wf(),
    ensures
        match r {
            Some(range) => range.start.wf() && range.end.wf() && months_shifted(today.day as int, -3)
                == Some(range.start.day as int) && months_shifted(today.day as int, 1) == Some(
                range.end.day as int,
            ),
            None => months_shifted(today.day as int, -3) is None || months_shifted(
                today.day as int,
                1,
            ) is None,
        },
{
    let start = match shift_months(today, -3) {
        Some(d) => d,
        None => return None,
    };
    let end = match shift_months(today, 1) {
        Some(d) => d,
        None => return None,
    };
    Some(DateRange::new(start, end))
}

} // verus!
