use wdttg::date_range::{DateRange, TimeRangePreset};
use wdttg::datetime::{Date, DateTime};
use wdttg::model::{EntryFilter, NewEntry, TimeEntry};

fn dt(y: i32, m: u32, d: u32, h: u32, min: u32) -> DateTime {
    DateTime::from_ymd_hm(y, m, d, h, min).unwrap()
}

fn date(y: i32, m: u32, d: u32) -> Date {
    Date::from_ymd(y, m, d).unwrap()
}

fn make_entry(start: (u32, u32, u32, u32, u32), end: (u32, u32, u32, u32, u32)) -> TimeEntry {
    TimeEntry {
        start: dt(start.0 as i32, start.1, start.2, start.3, start.4),
        end: dt(end.0 as i32, end.1, end.2, end.3, end.4),
        description: "test".into(),
        client: "acme".into(),
        project: None,
        activity: None,
        notes: None,
    }
}

#[test]
fn entry_id_format() {
    let e = make_entry((2026, 3, 15, 9, 0), (2026, 3, 15, 10, 0));
    let id = e.entry_id();
    assert!(id.starts_with("e_"));
    assert_eq!(id.len(), 10);
}

#[test]
fn entry_id_deterministic() {
    let e1 = make_entry((2026, 3, 15, 9, 0), (2026, 3, 15, 10, 0));
    let e2 = make_entry((2026, 3, 15, 9, 0), (2026, 3, 15, 10, 0));
    assert_eq!(e1.entry_id(), e2.entry_id());
}

#[test]
fn entry_id_different_for_different_times() {
    let e1 = make_entry((2026, 3, 15, 9, 0), (2026, 3, 15, 10, 0));
    let e2 = make_entry((2026, 3, 15, 9, 0), (2026, 3, 15, 11, 0));
    assert_ne!(e1.entry_id(), e2.entry_id());
}

#[test]
fn entry_id_different_start_same_end() {
    let e1 = make_entry((2026, 3, 15, 9, 0), (2026, 3, 15, 10, 0));
    let e2 = make_entry((2026, 3, 15, 8, 0), (2026, 3, 15, 10, 0));
    assert_ne!(e1.entry_id(), e2.entry_id());
}

#[test]
fn entry_id_is_lowercase_hex() {
    let id = make_entry((2026, 3, 15, 9, 0), (2026, 3, 15, 10, 0)).entry_id();
    assert!(id[2..].chars().all(|c| c.is_ascii_digit() || ('a'..='f').contains(&c)));
}

#[test]
fn duration_one_hour() {
    let e = make_entry((2026, 3, 15, 9, 0), (2026, 3, 15, 10, 0));
    assert_eq!(e.duration_minutes(), 60);
}

#[test]
fn duration_90_minutes() {
    let e = make_entry((2026, 3, 15, 9, 0), (2026, 3, 15, 10, 30));
    assert_eq!(e.duration_minutes(), 90);
}

#[test]
fn duration_midnight_spanning() {
    let e = make_entry((2026, 3, 15, 23, 0), (2026, 3, 16, 2, 0));
    assert_eq!(e.duration_minutes(), 180);
}

#[test]
fn month_key_format() {
    let e = make_entry((2026, 3, 15, 9, 0), (2026, 3, 15, 10, 0));
    assert_eq!(e.month_key(), "2026-03");
}

#[test]
fn month_key_uses_start_not_end() {
    let e = make_entry((2026, 3, 31, 23, 0), (2026, 4, 1, 1, 0));
    assert_eq!(e.month_key(), "2026-03");
}

#[test]
fn new_entry_converts_to_time_entry() {
    let new = NewEntry {
        start: dt(2026, 3, 15, 9, 0),
        end: dt(2026, 3, 15, 10, 0),
        description: "planning".into(),
        client: "acme".into(),
        project: Some("webapp".into()),
        activity: Some("meeting".into()),
        notes: Some("sprint planning".into()),
    };
    let entry: TimeEntry = new.into();
    assert_eq!(entry.client, "acme");
    assert_eq!(entry.project.as_deref(), Some("webapp"));
    assert_eq!(entry.activity.as_deref(), Some("meeting"));
    assert_eq!(entry.notes.as_deref(), Some("sprint planning"));
}

#[test]
fn datetime_text_forms() {
    let t = dt(2026, 3, 5, 7, 4);
    assert_eq!(t.format(), "2026-03-05 07:04");
    assert_eq!(t.month_key(), "2026-03");
    assert_eq!(t.format_clock(), "07:04");
    assert_eq!(DateTime::parse("2026-03-05 07:04"), Some(t));
    assert_eq!(DateTime::parse("2026-02-30 07:04"), None);
    assert_eq!(date(1, 1, 1).day, 1);
}

fn sample_entry() -> TimeEntry {
    TimeEntry {
        start: dt(2026, 3, 15, 9, 0),
        end: dt(2026, 3, 15, 10, 30),
        description: "Sprint planning meeting".into(),
        client: "acme".into(),
        project: Some("webapp".into()),
        activity: Some("meeting".into()),
        notes: None,
    }
}

#[test]
fn empty_filter_matches_all() {
    let filter = EntryFilter::default();
    assert!(filter.matches(&sample_entry()));
}

#[test]
fn filter_by_client_match() {
    let filter = EntryFilter { client: Some("acme".into()), ..Default::default() };
    assert!(filter.matches(&sample_entry()));
}

#[test]
fn filter_by_client_no_match() {
    let filter = EntryFilter { client: Some("other".into()), ..Default::default() };
    assert!(!filter.matches(&sample_entry()));
}

#[test]
fn filter_by_project_match() {
    let filter = EntryFilter { project: Some("webapp".into()), ..Default::default() };
    assert!(filter.matches(&sample_entry()));
}

#[test]
fn filter_by_project_no_match() {
    let filter = EntryFilter { project: Some("api".into()), ..Default::default() };
    assert!(!filter.matches(&sample_entry()));
}

#[test]
fn filter_by_project_entry_has_none() {
    let filter = EntryFilter { project: Some("webapp".into()), ..Default::default() };
    let mut entry = sample_entry();
    entry.project = None;
    assert!(!filter.matches(&entry));
}

#[test]
fn filter_by_activity_match() {
    let filter = EntryFilter { activity: Some("meeting".into()), ..Default::default() };
    assert!(filter.matches(&sample_entry()));
}

#[test]
fn filter_by_activity_no_match() {
    let filter = EntryFilter { activity: Some("dev".into()), ..Default::default() };
    assert!(!filter.matches(&sample_entry()));
}

#[test]
fn filter_by_description_case_insensitive() {
    let filter = EntryFilter { description_contains: Some("SPRINT".into()), ..Default::default() };
    assert!(filter.matches(&sample_entry()));
}

#[test]
fn filter_by_description_partial_match() {
    let filter =
        EntryFilter { description_contains: Some("planning".into()), ..Default::default() };
    assert!(filter.matches(&sample_entry()));
}

#[test]
fn filter_by_description_no_match() {
    let filter =
        EntryFilter { description_contains: Some("standup".into()), ..Default::default() };
    assert!(!filter.matches(&sample_entry()));
}

#[test]
fn filter_multiple_fields_all_match() {
    let filter = EntryFilter {
        client: Some("acme".into()),
        project: Some("webapp".into()),
        activity: Some("meeting".into()),
        description_contains: Some("sprint".into()),
    };
    assert!(filter.matches(&sample_entry()));
}

#[test]
fn filter_multiple_fields_one_fails() {
    let filter = EntryFilter {
        client: Some("acme".into()),
        project: Some("webapp".into()),
        activity: Some("dev".into()),
        description_contains: Some("sprint".into()),
    };
    assert!(!filter.matches(&sample_entry()));
}

#[test]
fn filter_client_and_project() {
    let filter = EntryFilter {
        client: Some("acme".into()),
        project: Some("webapp".into()),
        ..Default::default()
    };
    assert!(filter.matches(&sample_entry()));
}

#[test]
fn filter_description_unicode_case() {
    let mut entry = sample_entry();
    entry.description = "Überprüfung".into();
    let filter = EntryFilter { description_contains: Some("ÜBER".into()), ..Default::default() };
    assert!(filter.matches(&entry));
}

#[test]
fn today_preset() {
    let r = DateRange::from_preset(TimeRangePreset::Today, date(2026, 3, 15), "monday");
    assert_eq!(r.start, date(2026, 3, 15));
    assert_eq!(r.end, date(2026, 3, 15));
}

#[test]
fn yesterday_preset() {
    let r = DateRange::from_preset(TimeRangePreset::Yesterday, date(2026, 3, 15), "monday");
    assert_eq!(r.start, date(2026, 3, 14));
    assert_eq!(r.end, date(2026, 3, 14));
}

#[test]
fn yesterday_crosses_year_boundary() {
    let r = DateRange::from_preset(TimeRangePreset::Yesterday, date(2026, 1, 1), "monday");
    assert_eq!(r.start, date(2025, 12, 31));
}

#[test]
fn this_week_monday_start() {
    let r = DateRange::from_preset(TimeRangePreset::ThisWeek, date(2026, 3, 15), "monday");
    assert_eq!(r.start, date(2026, 3, 9));
    assert_eq!(r.end, date(2026, 3, 15));
}

#[test]
fn this_week_sunday_start() {
    let r = DateRange::from_preset(TimeRangePreset::ThisWeek, date(2026, 3, 15), "sunday");
    assert_eq!(r.start, date(2026, 3, 15));
    assert_eq!(r.end, date(2026, 3, 21));
}

#[test]
fn last_week_preset() {
    let r = DateRange::from_preset(TimeRangePreset::LastWeek, date(2026, 3, 15), "monday");
    assert_eq!(r.start, date(2026, 3, 2));
    assert_eq!(r.end, date(2026, 3, 8));
}

#[test]
fn this_month_preset() {
    let r = DateRange::from_preset(TimeRangePreset::ThisMonth, date(2026, 3, 15), "monday");
    assert_eq!(r.start, date(2026, 3, 1));
    assert_eq!(r.end, date(2026, 3, 31));
}

#[test]
fn last_month_from_january() {
    let r = DateRange::from_preset(TimeRangePreset::LastMonth, date(2026, 1, 15), "monday");
    assert_eq!(r.start, date(2025, 12, 1));
    assert_eq!(r.end, date(2025, 12, 31));
}

#[test]
fn last_month_february_non_leap() {
    let r = DateRange::from_preset(TimeRangePreset::LastMonth, date(2026, 3, 15), "monday");
    assert_eq!(r.start, date(2026, 2, 1));
    assert_eq!(r.end, date(2026, 2, 28));
}

#[test]
fn this_month_december_and_leap_february() {
    let r = DateRange::from_preset(TimeRangePreset::ThisMonth, date(2024, 12, 5), "monday");
    assert_eq!(r.start, date(2024, 12, 1));
    assert_eq!(r.end, date(2024, 12, 31));
    let r = DateRange::from_preset(TimeRangePreset::LastMonth, date(2024, 3, 31), "monday");
    assert_eq!(r.end, date(2024, 2, 29));
}

#[test]
fn weekday_of_known_dates() {
    // 2026-03-15 was a Sunday; 0001-01-01 a Monday.
    assert_eq!(date(2026, 3, 15).days_from_monday(), 6);
    assert_eq!(date(1, 1, 1).days_from_monday(), 0);
}

#[test]
fn months_spanned_single_day() {
    let r = DateRange::new(date(2026, 3, 15), date(2026, 3, 15));
    assert_eq!(r.months_spanned(), vec!["2026-03"]);
}

#[test]
fn months_spanned_single_month() {
    let r = DateRange::new(date(2026, 3, 1), date(2026, 3, 31));
    assert_eq!(r.months_spanned(), vec!["2026-03"]);
}

#[test]
fn months_spanned_two_months() {
    let r = DateRange::new(date(2026, 3, 15), date(2026, 4, 15));
    assert_eq!(r.months_spanned(), vec!["2026-03", "2026-04"]);
}

#[test]
fn months_spanned_crosses_year() {
    let r = DateRange::new(date(2025, 11, 1), date(2026, 2, 28));
    assert_eq!(r.months_spanned(), vec!["2025-11", "2025-12", "2026-01", "2026-02"]);
}

#[test]
fn months_spanned_pads_small_years() {
    let r = DateRange::new(date(5, 12, 1), date(6, 1, 1));
    assert_eq!(r.months_spanned(), vec!["0005-12", "0006-01"]);
}
