use std::path::PathBuf;

use wdttg::config::create_default_config;
use wdttg::datetime::{Date, DateTime};
use wdttg::model::TimeEntry;
use wdttg::timeline::{card_rows, TimelineState};

fn date(y: i32, m: u32, d: u32) -> Date {
    Date::from_ymd(y, m, d).unwrap()
}

fn dt(y: i32, m: u32, d: u32, h: u32, min: u32) -> DateTime {
    DateTime::from_ymd_hm(y, m, d, h, min).unwrap()
}

fn entry(start: DateTime, end: DateTime, description: &str) -> TimeEntry {
    TimeEntry {
        start,
        end,
        description: description.into(),
        client: "acme".into(),
        project: None,
        activity: None,
        notes: None,
    }
}

fn state_at(y: i32, m: u32, d: u32, hour: u32) -> TimelineState {
    TimelineState::new_at(PathBuf::from("/tmp/wdttg-data"), date(y, m, d), hour)
}

#[test]
fn new_scrolls_to_two_hours_before_now() {
    let s = state_at(2026, 3, 15, 9);
    assert_eq!(s.cursor_date, date(2026, 3, 15));
    assert_eq!(s.center_date, date(2026, 3, 15));
    assert_eq!((s.cursor_hour, s.cursor_minute), (9, 0));
    assert_eq!(s.scroll_offset, 28);
    assert_eq!(s.viewport_slots, 40);
    assert!(s.selected_entry.is_none());
    let early = state_at(2026, 3, 15, 1);
    assert_eq!(early.scroll_offset, 0);
    assert_eq!(s.data_dir(), PathBuf::from("/tmp/wdttg-data"));
}

#[test]
fn snap_is_at_least_one_minute() {
    let s = state_at(2026, 3, 15, 9);
    let mut config = create_default_config();
    assert_eq!(s.snap_minutes(&config), 15);
    config.preferences.snap_minutes = 0;
    assert_eq!(s.snap_minutes(&config), 1);
}

#[test]
fn navigate_down_wraps_into_the_next_day() {
    let mut s = state_at(2026, 3, 15, 23);
    s.cursor_minute = 50;
    s.navigate_down(15);
    assert_eq!(s.cursor_date, date(2026, 3, 16));
    assert_eq!((s.cursor_hour, s.cursor_minute), (0, 5));
    s.navigate_down(15);
    assert_eq!((s.cursor_hour, s.cursor_minute), (0, 20));
}

#[test]
fn navigate_up_wraps_into_the_previous_day() {
    let mut s = state_at(2026, 3, 15, 0);
    s.cursor_minute = 10;
    s.navigate_up(15);
    assert_eq!(s.cursor_date, date(2026, 3, 14));
    assert_eq!((s.cursor_hour, s.cursor_minute), (23, 55));
    s.navigate_up(55);
    assert_eq!((s.cursor_hour, s.cursor_minute), (23, 0));
}

#[test]
fn days_and_weeks_move_the_date_only() {
    let mut s = state_at(2026, 3, 15, 9);
    s.navigate_right();
    assert_eq!(s.cursor_date, date(2026, 3, 16));
    s.navigate_left();
    s.navigate_left();
    assert_eq!(s.cursor_date, date(2026, 3, 14));
    s.scroll_week_right();
    assert_eq!(s.cursor_date, date(2026, 3, 21));
    s.scroll_week_left();
    s.scroll_week_left();
    assert_eq!(s.cursor_date, date(2026, 3, 7));
    assert_eq!((s.cursor_hour, s.cursor_minute), (9, 0));
}

#[test]
fn cursor_slot_counts_quarter_hours_from_the_centre() {
    let mut s = state_at(2026, 3, 15, 9);
    s.cursor_minute = 40;
    assert_eq!(s.cursor_to_slot(), 9 * 4 + 2);
    s.navigate_right();
    // The cursor is kept in view, and the centre stays within three days.
    let slot = s.cursor_to_slot();
    assert!(slot >= s.scroll_offset + 2);
}

#[test]
fn slot_to_datetime_handles_negative_slots() {
    let s = state_at(2026, 3, 15, 9);
    assert_eq!(s.slot_to_datetime(0), (date(2026, 3, 15), 0, 0));
    assert_eq!(s.slot_to_datetime(38), (date(2026, 3, 15), 9, 30));
    assert_eq!(s.slot_to_datetime(96 + 5), (date(2026, 3, 16), 1, 15));
    assert_eq!(s.slot_to_datetime(-1), (date(2026, 3, 14), 23, 45));
    assert_eq!(s.slot_to_datetime(-96), (date(2026, 3, 14), 0, 0));
}

#[test]
fn scrolling_far_recentres_on_whole_days() {
    let mut s = state_at(2026, 3, 15, 9);
    s.scroll_offset = 0;
    s.mouse_scroll_down(96 * 4 + 10);
    assert_eq!(s.center_date, date(2026, 3, 19));
    assert_eq!(s.scroll_offset, 10);
    s.mouse_scroll_up(96 * 3);
    assert_eq!(s.center_date, date(2026, 3, 19));
    assert_eq!(s.scroll_offset, 10 - 96 * 3);
    s.mouse_scroll_up(96 * 2);
    assert_eq!(s.center_date, date(2026, 3, 15));
    assert_eq!(s.scroll_offset, -86);
}

#[test]
fn selection_follows_the_cursor_over_loaded_entries() {
    let mut s = state_at(2026, 3, 15, 9);
    let month = vec![
        entry(dt(2026, 3, 14, 9, 0), dt(2026, 3, 14, 10, 0), "Other day"),
        entry(dt(2026, 3, 15, 9, 0), dt(2026, 3, 15, 10, 0), "Standup"),
        entry(dt(2026, 3, 15, 10, 0), dt(2026, 3, 15, 11, 0), "Review"),
    ];
    s.insert_day(date(2026, 3, 15), month);
    assert_eq!(s.day_entries[&date(2026, 3, 15).day].len(), 2);
    s.navigate_down(30);
    assert_eq!(s.selected_entry, Some(0));
    assert_eq!(s.selected_time_entry().unwrap().description, "Standup");
    s.navigate_down(30);
    assert_eq!(s.selected_entry, Some(1));
    s.navigate_down(60);
    assert_eq!(s.selected_entry, None);
    assert!(s.selected_time_entry().is_none());
}

#[test]
fn page_moves_by_the_view_height() {
    let mut s = state_at(2026, 3, 15, 9);
    s.viewport_slots = 8;
    s.page_down();
    assert_eq!((s.cursor_hour, s.cursor_minute), (11, 0));
    s.page_up();
    s.page_up();
    assert_eq!((s.cursor_hour, s.cursor_minute), (7, 0));
}

#[test]
fn mark_range_is_ordered() {
    let mut s = state_at(2026, 3, 15, 9);
    assert_eq!(s.mark_range_slots(), None);
    s.mark_start = Some(dt(2026, 3, 15, 11, 30));
    assert_eq!(s.mark_range_slots(), Some((36, 46)));
    s.navigate_down(180);
    assert_eq!(s.mark_range_slots(), Some((46, 48)));
}

#[test]
fn preload_covers_a_day_either_side() {
    let mut s = state_at(2026, 3, 15, 9);
    s.scroll_offset = 10;
    let days = s.days_to_preload(40);
    assert_eq!(days, vec![date(2026, 3, 14), date(2026, 3, 15), date(2026, 3, 16)]);
    s.scroll_offset = -5;
    let days = s.days_to_preload(200);
    assert_eq!(days.first(), Some(&date(2026, 3, 13)));
    assert_eq!(days.last(), Some(&date(2026, 3, 18)));
}

#[test]
fn invalidating_a_month_drops_its_days() {
    let mut s = state_at(2026, 3, 15, 9);
    s.insert_day(date(2026, 3, 1), vec![]);
    s.insert_day(date(2026, 3, 31), vec![]);
    s.insert_day(date(2026, 4, 1), vec![]);
    s.cache.insert("2026-03", vec![]);
    s.invalidate_month(date(2026, 3, 15));
    assert!(!s.day_entries.contains_key(&date(2026, 3, 1).day));
    assert!(!s.day_entries.contains_key(&date(2026, 3, 31).day));
    assert!(s.day_entries.contains_key(&date(2026, 4, 1).day));
    assert!(s.cache.is_empty());
}

#[test]
fn jump_to_today_at_recentres() {
    let mut s = state_at(2026, 3, 15, 9);
    s.navigate_right();
    s.jump_to_today_at(date(2026, 5, 2), 14);
    assert_eq!(s.cursor_date, date(2026, 5, 2));
    assert_eq!(s.center_date, date(2026, 5, 2));
    assert_eq!((s.cursor_hour, s.cursor_minute), (14, 0));
    assert_eq!(s.scroll_offset, 48);
    assert!(s.is_bounded());
}

#[test]
fn card_rows_place_an_entry_in_the_view() {
    // 09:00-10:30 with the view starting at 08:00, 20 rows high.
    assert_eq!(card_rows(0, 9 * 60, 10 * 60 + 30, 32, 20), Some((4, 6)));
    // An end that is not on a quarter hour rounds up.
    assert_eq!(card_rows(0, 9 * 60 + 10, 9 * 60 + 20, 32, 20), Some((4, 2)));
    // Clipped at the top of the view.
    assert_eq!(card_rows(0, 7 * 60, 9 * 60, 32, 20), Some((0, 4)));
    // Clipped at the bottom of the view.
    assert_eq!(card_rows(0, 12 * 60, 14 * 60, 32, 20), Some((16, 4)));
    // Outside the view.
    assert_eq!(card_rows(0, 6 * 60, 8 * 60, 32, 20), None);
    assert_eq!(card_rows(0, 13 * 60, 14 * 60, 32, 20), None);
    // On the next day.
    assert_eq!(card_rows(96, 0, 60, 90, 20), Some((6, 4)));
}
