use wdttg::time_utils::DurationForm;
use wdttg::time_utils::DurationForm::{Clock, DecimalMinutes, HoursAndMinutes, Invalid, Minutes};
use wdttg::datetime::{DateTime, Time};
use wdttg::model::TimeEntry;
use wdttg::time_utils::{
    compute_available_slots, find_adjacent, format_duration, format_time, snap_to_grid,
};

fn dt(y: i32, m: u32, d: u32, h: u32, min: u32) -> DateTime {
    DateTime::from_ymd_hm(y, m, d, h, min).unwrap()
}

fn time(h: u32, m: u32) -> Time {
    Time::from_hm(h, m).unwrap()
}

fn entry(sh: u32, sm: u32, eh: u32, em: u32, desc: &str) -> TimeEntry {
    TimeEntry {
        start: dt(2026, 3, 15, sh, sm),
        end: dt(2026, 3, 15, eh, em),
        description: desc.into(),
        client: "acme".into(),
        project: None,
        activity: None,
        notes: None,
    }
}

#[test]
fn snap_exact_boundary() {
    assert_eq!(snap_to_grid(dt(2026, 3, 15, 10, 0), 15), dt(2026, 3, 15, 10, 0));
}

#[test]
fn snap_rounds_down() {
    assert_eq!(snap_to_grid(dt(2026, 3, 15, 10, 7), 15), dt(2026, 3, 15, 10, 0));
}

#[test]
fn snap_rounds_up() {
    assert_eq!(snap_to_grid(dt(2026, 3, 15, 10, 8), 15), dt(2026, 3, 15, 10, 15));
}

#[test]
fn snap_rolls_to_next_hour() {
    assert_eq!(snap_to_grid(dt(2026, 3, 15, 10, 53), 15), dt(2026, 3, 15, 11, 0));
}

#[test]
fn snap_zero_returns_unchanged() {
    assert_eq!(snap_to_grid(dt(2026, 3, 15, 10, 7), 0), dt(2026, 3, 15, 10, 7));
}

#[test]
fn snap_30_minute() {
    assert_eq!(snap_to_grid(dt(2026, 3, 15, 10, 14), 30), dt(2026, 3, 15, 10, 0));
    assert_eq!(snap_to_grid(dt(2026, 3, 15, 10, 16), 30), dt(2026, 3, 15, 10, 30));
}

#[test]
fn snap_5_minute() {
    assert_eq!(snap_to_grid(dt(2026, 3, 15, 10, 22), 5), dt(2026, 3, 15, 10, 20));
    assert_eq!(snap_to_grid(dt(2026, 3, 15, 10, 23), 5), dt(2026, 3, 15, 10, 25));
}

#[test]
fn snap_rolls_over_midnight() {
    assert_eq!(snap_to_grid(dt(2026, 3, 15, 23, 55), 15), dt(2026, 3, 16, 0, 0));
}

#[test]
fn snap_odd_grid_middle_rounds_down() {
    // 7-minute grid: remainder 3 of 7 stays below the middle and rounds down,
    // remainder 4 rounds up.
    assert_eq!(snap_to_grid(dt(2026, 3, 15, 10, 3), 7), dt(2026, 3, 15, 10, 0));
    assert_eq!(snap_to_grid(dt(2026, 3, 15, 10, 4), 7), dt(2026, 3, 15, 10, 7));
}

#[test]
fn format_zero() {
    assert_eq!(format_duration(0), "0m");
}

#[test]
fn format_minutes_only() {
    assert_eq!(format_duration(30), "30m");
}

#[test]
fn format_hours_only() {
    assert_eq!(format_duration(120), "2h");
}

#[test]
fn format_hours_and_minutes() {
    assert_eq!(format_duration(90), "1h 30m");
}

#[test]
fn format_negative() {
    assert_eq!(format_duration(-45), "-45m");
}

#[test]
fn format_negative_hours_and_extremes() {
    assert_eq!(format_duration(-90), "-1h 30m");
    assert_eq!(format_duration(i64::MIN), "-153722867280912930h 8m");
}

#[test]
fn format_24h() {
    assert_eq!(format_time(time(9, 30), true), "09:30");
    assert_eq!(format_time(time(14, 0), true), "14:00");
    assert_eq!(format_time(time(0, 15), true), "00:15");
}

#[test]
fn format_12h() {
    assert_eq!(format_time(time(9, 30), false), "9:30 AM");
    assert_eq!(format_time(time(14, 0), false), "2:00 PM");
    assert_eq!(format_time(time(0, 15), false), "12:15 AM");
    assert_eq!(format_time(time(12, 0), false), "12:00 PM");
}

#[test]
fn find_adjacent_basic() {
    let entries = vec![
        entry(9, 0, 10, 0, "first"),
        entry(11, 0, 12, 0, "second"),
        entry(13, 0, 14, 0, "third"),
    ];
    let adj = find_adjacent(dt(2026, 3, 15, 10, 30), dt(2026, 3, 15, 11, 0), &entries, None);
    assert_eq!(adj.previous.unwrap().description, "first");
    assert_eq!(adj.next.unwrap().description, "second");
}

#[test]
fn find_adjacent_no_previous() {
    let entries = vec![entry(11, 0, 12, 0, "only")];
    let adj = find_adjacent(dt(2026, 3, 15, 9, 0), dt(2026, 3, 15, 10, 0), &entries, None);
    assert!(adj.previous.is_none());
    assert_eq!(adj.next.unwrap().description, "only");
}

#[test]
fn find_adjacent_no_next() {
    let entries = vec![entry(9, 0, 10, 0, "only")];
    let adj = find_adjacent(dt(2026, 3, 15, 14, 0), dt(2026, 3, 15, 15, 0), &entries, None);
    assert_eq!(adj.previous.unwrap().description, "only");
    assert!(adj.next.is_none());
}

#[test]
fn find_adjacent_with_exclude() {
    let self_entry = entry(10, 0, 11, 0, "self");
    let entries = vec![
        entry(9, 0, 10, 0, "before"),
        self_entry.clone(),
        entry(11, 0, 12, 0, "after"),
    ];
    let adj = find_adjacent(
        dt(2026, 3, 15, 10, 0),
        dt(2026, 3, 15, 11, 0),
        &entries,
        Some(&self_entry),
    );
    assert_eq!(adj.previous.unwrap().description, "before");
    assert_eq!(adj.next.unwrap().description, "after");
}

#[test]
fn find_adjacent_ties_keep_first() {
    let entries = vec![
        entry(8, 0, 10, 0, "long"),
        entry(9, 0, 10, 0, "short"),
        entry(11, 0, 12, 0, "a"),
        entry(11, 0, 11, 30, "b"),
    ];
    let adj = find_adjacent(dt(2026, 3, 15, 10, 0), dt(2026, 3, 15, 11, 0), &entries, None);
    assert_eq!(adj.previous.unwrap().description, "long");
    assert_eq!(adj.next.unwrap().description, "a");
}

#[test]
fn available_slots_no_entries() {
    let slots = compute_available_slots(dt(2026, 3, 15, 9, 0), dt(2026, 3, 15, 17, 0), &[], None);
    assert_eq!(slots.len(), 1);
    assert_eq!(slots[0].start, dt(2026, 3, 15, 9, 0));
    assert_eq!(slots[0].end, dt(2026, 3, 15, 17, 0));
    assert_eq!(slots[0].duration_minutes, 480);
}

#[test]
fn available_slots_fully_occupied() {
    let entries = vec![entry(9, 0, 17, 0, "all day")];
    let slots =
        compute_available_slots(dt(2026, 3, 15, 9, 0), dt(2026, 3, 15, 17, 0), &entries, None);
    assert!(slots.is_empty());
}

#[test]
fn available_slots_gaps_between_entries() {
    let entries = vec![
        entry(9, 0, 10, 0, "first"),
        entry(11, 0, 12, 0, "second"),
        entry(14, 0, 15, 0, "third"),
    ];
    let slots =
        compute_available_slots(dt(2026, 3, 15, 9, 0), dt(2026, 3, 15, 17, 0), &entries, None);
    assert_eq!(slots.len(), 3);
    assert_eq!(slots[0].start, dt(2026, 3, 15, 10, 0));
    assert_eq!(slots[0].end, dt(2026, 3, 15, 11, 0));
    assert_eq!(slots[0].duration_minutes, 60);
    assert_eq!(slots[1].start, dt(2026, 3, 15, 12, 0));
    assert_eq!(slots[1].end, dt(2026, 3, 15, 14, 0));
    assert_eq!(slots[1].duration_minutes, 120);
    assert_eq!(slots[2].start, dt(2026, 3, 15, 15, 0));
    assert_eq!(slots[2].end, dt(2026, 3, 15, 17, 0));
    assert_eq!(slots[2].duration_minutes, 120);
}

#[test]
fn available_slots_back_to_back_entries() {
    let entries = vec![
        entry(9, 0, 10, 0, "first"),
        entry(10, 0, 11, 0, "second"),
        entry(11, 0, 12, 0, "third"),
    ];
    let slots =
        compute_available_slots(dt(2026, 3, 15, 9, 0), dt(2026, 3, 15, 12, 0), &entries, None);
    assert!(slots.is_empty());
}

#[test]
fn available_slots_gap_before_first_entry() {
    let entries = vec![entry(10, 0, 11, 0, "late start")];
    let slots =
        compute_available_slots(dt(2026, 3, 15, 9, 0), dt(2026, 3, 15, 12, 0), &entries, None);
    assert_eq!(slots.len(), 2);
    assert_eq!(slots[0].start, dt(2026, 3, 15, 9, 0));
    assert_eq!(slots[0].end, dt(2026, 3, 15, 10, 0));
    assert_eq!(slots[1].start, dt(2026, 3, 15, 11, 0));
    assert_eq!(slots[1].end, dt(2026, 3, 15, 12, 0));
}

#[test]
fn available_slots_min_duration_filter() {
    let entries = vec![
        entry(9, 0, 9, 45, "first"),
        entry(10, 0, 11, 0, "second"),
        entry(12, 0, 13, 0, "third"),
    ];
    let slots = compute_available_slots(
        dt(2026, 3, 15, 9, 0),
        dt(2026, 3, 15, 14, 0),
        &entries,
        Some(30),
    );
    assert_eq!(slots.len(), 2);
    assert_eq!(slots[0].start, dt(2026, 3, 15, 11, 0));
    assert_eq!(slots[0].duration_minutes, 60);
    assert_eq!(slots[1].start, dt(2026, 3, 15, 13, 0));
    assert_eq!(slots[1].duration_minutes, 60);
}

#[test]
fn available_slots_entry_partially_before_range() {
    let entries = vec![TimeEntry {
        start: dt(2026, 3, 15, 8, 0),
        end: dt(2026, 3, 15, 10, 0),
        description: "early".into(),
        client: "acme".into(),
        project: None,
        activity: None,
        notes: None,
    }];
    let slots =
        compute_available_slots(dt(2026, 3, 15, 9, 0), dt(2026, 3, 15, 12, 0), &entries, None);
    assert_eq!(slots.len(), 1);
    assert_eq!(slots[0].start, dt(2026, 3, 15, 10, 0));
    assert_eq!(slots[0].end, dt(2026, 3, 15, 12, 0));
}

#[test]
fn available_slots_entry_partially_after_range() {
    let entries = vec![TimeEntry {
        start: dt(2026, 3, 15, 16, 0),
        end: dt(2026, 3, 15, 18, 0),
        description: "late".into(),
        client: "acme".into(),
        project: None,
        activity: None,
        notes: None,
    }];
    let slots =
        compute_available_slots(dt(2026, 3, 15, 9, 0), dt(2026, 3, 15, 17, 0), &entries, None);
    assert_eq!(slots.len(), 1);
    assert_eq!(slots[0].start, dt(2026, 3, 15, 9, 0));
    assert_eq!(slots[0].end, dt(2026, 3, 15, 16, 0));
}

#[test]
fn available_slots_overnight_span() {
    let entries = vec![TimeEntry {
        start: dt(2026, 3, 15, 22, 0),
        end: dt(2026, 3, 16, 1, 0),
        description: "night work".into(),
        client: "acme".into(),
        project: None,
        activity: None,
        notes: None,
    }];
    let slots =
        compute_available_slots(dt(2026, 3, 15, 20, 0), dt(2026, 3, 16, 6, 0), &entries, None);
    assert_eq!(slots.len(), 2);
    assert_eq!(slots[0].start, dt(2026, 3, 15, 20, 0));
    assert_eq!(slots[0].end, dt(2026, 3, 15, 22, 0));
    assert_eq!(slots[0].duration_minutes, 120);
    assert_eq!(slots[1].start, dt(2026, 3, 16, 1, 0));
    assert_eq!(slots[1].end, dt(2026, 3, 16, 6, 0));
    assert_eq!(slots[1].duration_minutes, 300);
}

#[test]
fn available_slots_entries_outside_range_ignored() {
    let entries = vec![
        entry(7, 0, 8, 0, "too early"),
        entry(10, 0, 11, 0, "in range"),
        entry(18, 0, 19, 0, "too late"),
    ];
    let slots =
        compute_available_slots(dt(2026, 3, 15, 9, 0), dt(2026, 3, 15, 12, 0), &entries, None);
    assert_eq!(slots.len(), 2);
    assert_eq!(slots[0].start, dt(2026, 3, 15, 9, 0));
    assert_eq!(slots[0].end, dt(2026, 3, 15, 10, 0));
    assert_eq!(slots[1].start, dt(2026, 3, 15, 11, 0));
    assert_eq!(slots[1].end, dt(2026, 3, 15, 12, 0));
}

#[test]
fn available_slots_overlapping_entries() {
    let entries = vec![
        entry(9, 0, 10, 30, "first"),
        entry(10, 0, 11, 0, "overlaps first"),
    ];
    let slots =
        compute_available_slots(dt(2026, 3, 15, 9, 0), dt(2026, 3, 15, 12, 0), &entries, None);
    assert_eq!(slots.len(), 1);
    assert_eq!(slots[0].start, dt(2026, 3, 15, 11, 0));
    assert_eq!(slots[0].end, dt(2026, 3, 15, 12, 0));
}

fn shape(input: &str) -> DurationForm {
    wdttg::time_utils::duration_form(input)
}

#[test]
fn duration_form_hours_and_minutes() {
    assert_eq!(shape("1h 30m"), HoursAndMinutes("1".into(), Some("30".into())));
    assert_eq!(shape("1h30m"), HoursAndMinutes("1".into(), Some("30".into())));
    assert_eq!(shape("2h"), HoursAndMinutes("2".into(), None));
    assert_eq!(shape(" 1.5H "), HoursAndMinutes("1.5".into(), None));
    assert_eq!(shape("1,5h"), HoursAndMinutes("1.5".into(), None));
    assert_eq!(shape("1h2h3m"), HoursAndMinutes("1".into(), Some("2".into())));
}

#[test]
fn duration_form_minutes_and_plain_numbers() {
    assert_eq!(shape("90m"), DecimalMinutes("90".into()));
    assert_eq!(shape("45mm"), DecimalMinutes("45".into()));
    assert_eq!(shape("90"), Minutes(90));
    assert_eq!(shape("-15"), Minutes(-15));
    assert_eq!(shape("+7"), Minutes(7));
    assert_eq!(shape("1,5"), Invalid);
    assert_eq!(shape(""), Invalid);
    assert_eq!(shape("   "), Invalid);
    assert_eq!(shape("abc"), Invalid);
    assert_eq!(shape("99999999999999999999"), Invalid);
}

#[test]
fn duration_form_clock_notation() {
    assert_eq!(shape("1:30"), Clock(1, 30));
    assert_eq!(shape("0:45"), Clock(0, 45));
    assert_eq!(shape(" 2 : 05 "), Clock(2, 5));
    assert_eq!(shape("1:3:0"), Invalid);
    assert_eq!(shape("h:30"), Invalid);
}

#[test]
fn snapping_twice_is_snapping_once() {
    for (h, m) in [(9, 7), (9, 8), (9, 52), (23, 53), (0, 0), (14, 22)] {
        for grid in [0u32, 5, 7, 15, 30, 45, 90] {
            let dt = DateTime::from_ymd_hm(2026, 3, 15, h, m).unwrap();
            let once = snap_to_grid(dt, grid);
            assert_eq!(snap_to_grid(once, grid), once, "{h}:{m} on a {grid}-minute grid");
        }
    }
}

/// The library reads the shape of a written duration; its decimal parts are
/// read as floating-point numbers, as the program does around the library.
fn parse_duration(input: &str) -> Option<i64> {
    match wdttg::time_utils::duration_form(input) {
        Invalid => None,
        Clock(hours, minutes) => Some(hours * 60 + minutes),
        Minutes(m) => Some(m),
        HoursAndMinutes(h, m) => {
            let hours: f64 = h.parse().ok()?;
            let mut total = hours * 60.0;
            if let Some(m) = m {
                let minutes: f64 = m.parse().ok()?;
                total += minutes;
            }
            Some(total.round() as i64)
        }
        DecimalMinutes(m) => {
            let minutes: f64 = m.parse().ok()?;
            Some(minutes.round() as i64)
        }
    }
}

#[test]
fn parse_hours_and_minutes() {
    assert_eq!(parse_duration("1h 30m"), Some(90));
    assert_eq!(parse_duration("1h30m"), Some(90));
}

#[test]
fn parse_minutes_only() {
    assert_eq!(parse_duration("90m"), Some(90));
    assert_eq!(parse_duration("45m"), Some(45));
}

#[test]
fn parse_hours_only() {
    assert_eq!(parse_duration("2h"), Some(120));
}

#[test]
fn parse_decimal_hours() {
    assert_eq!(parse_duration("1.5h"), Some(90));
    assert_eq!(parse_duration("1,5h"), Some(90));
}

#[test]
fn parse_colon_notation() {
    assert_eq!(parse_duration("1:30"), Some(90));
    assert_eq!(parse_duration("0:45"), Some(45));
}

#[test]
fn parse_invalid() {
    assert_eq!(parse_duration(""), None);
    assert_eq!(parse_duration("abc"), None);
}
