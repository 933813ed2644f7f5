use wdttg::date_range::DateRange;
use wdttg::datetime::{Date, DateTime};
use wdttg::mcp::{page_entries, recent_range, slots_window, total_minutes};
use wdttg::model::TimeEntry;

fn date(y: i32, m: u32, d: u32) -> Date {
    Date::from_ymd(y, m, d).unwrap()
}

fn dt(y: i32, m: u32, d: u32, h: u32, min: u32) -> DateTime {
    DateTime::from_ymd_hm(y, m, d, h, min).unwrap()
}

fn entry(start: DateTime, end: DateTime) -> TimeEntry {
    TimeEntry {
        start,
        end,
        description: "Work".into(),
        client: "acme".into(),
        project: None,
        activity: None,
        notes: None,
    }
}

#[test]
fn slots_window_accepts_dates_and_datetimes() {
    let (s, e, range) = slots_window("2026-03-15", "2026-03-16").unwrap();
    assert_eq!(s, dt(2026, 3, 15, 0, 0));
    assert_eq!(e, dt(2026, 3, 16, 23, 59));
    assert_eq!(range, DateRange { start: date(2026, 3, 14), end: date(2026, 3, 16) });
    let (s, e, _) = slots_window("2026-03-15 09:00", "2026-03-15 17:30").unwrap();
    assert_eq!(s, dt(2026, 3, 15, 9, 0));
    assert_eq!(e, dt(2026, 3, 15, 17, 30));
}

#[test]
fn slots_window_refuses_bad_or_backward_ranges() {
    assert_eq!(
        slots_window("2026-03-15 10:00", "2026-03-15 09:00"),
        Err("end must be after start".to_string())
    );
    assert_eq!(
        slots_window("2026-03-15 10:00", "2026-03-15 10:00"),
        Err("end must be after start".to_string())
    );
    assert_eq!(
        slots_window("soon", "2026-03-15"),
        Err("invalid date format: 'soon', expected YYYY-MM-DD".to_string())
    );
}

#[test]
fn totals_and_pages_of_entries() {
    let entries = vec![
        entry(dt(2026, 3, 15, 9, 0), dt(2026, 3, 15, 10, 0)),
        entry(dt(2026, 3, 15, 10, 0), dt(2026, 3, 15, 10, 45)),
        entry(dt(2026, 3, 15, 11, 0), dt(2026, 3, 15, 11, 15)),
    ];
    assert_eq!(total_minutes(&entries), 120);
    assert_eq!(total_minutes(&[]), 0);
    assert_eq!(page_entries(entries.clone(), None, None).len(), 3);
    let page = page_entries(entries.clone(), Some(1), Some(1));
    assert_eq!(page.len(), 1);
    assert_eq!(page[0].start, dt(2026, 3, 15, 10, 0));
    assert_eq!(page_entries(entries.clone(), Some(5), None).len(), 0);
    assert_eq!(page_entries(entries, Some(2), Some(10)).len(), 1);
}

#[test]
fn recent_range_spans_three_months_back_and_one_ahead() {
    assert_eq!(
        recent_range(date(2026, 3, 15)),
        Some(DateRange { start: date(2025, 12, 15), end: date(2026, 4, 15) })
    );
    assert_eq!(
        recent_range(date(2026, 5, 31)),
        Some(DateRange { start: date(2026, 2, 28), end: date(2026, 6, 30) })
    );
}
