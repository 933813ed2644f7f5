use std::path::PathBuf;

use wdttg::cache::MonthCache;
use wdttg::config::{AppConfig, BillFrom, Preferences};
use wdttg::date_range::{DateRange, TimeRangePreset};
use wdttg::datetime::{Date, DateTime};
use wdttg::files::FileManager;
use wdttg::model::{Rate, TimeEntry};
use wdttg::report::{ActivityReport, ClientReport, ProjectReport};
use wdttg::reports_state::{ReportsState, VisibleRow};

fn date(y: i32, m: u32, d: u32) -> Date {
    Date::from_ymd(y, m, d).unwrap()
}

fn date_range() -> DateRange {
    DateRange {
        start: date(2026, 4, 1),
        end: date(2026, 4, 30),
    }
}

fn app_config() -> AppConfig {
    AppConfig {
        preferences: Preferences::default(),
        bill_from: BillFrom::default(),
        clients: vec![],
    }
}

fn activity(name: &str) -> ActivityReport {
    ActivityReport {
        activity_id: name.into(),
        name: name.into(),
        color: "#ffffff".into(),
        total_minutes: 60,
    }
}

fn project(name: &str, activities: Vec<ActivityReport>) -> ProjectReport {
    ProjectReport {
        project_id: name.into(),
        name: name.into(),
        color: "#aaaaaa".into(),
        rate: Rate { bits: 100.0f64.to_bits() },
        total_minutes: (activities.len() as i64) * 60,
        activity_breakdown: activities,
    }
}

fn client(name: &str, projects: Vec<ProjectReport>) -> ClientReport {
    ClientReport {
        client_id: name.into(),
        name: name.into(),
        color: "#000000".into(),
        rate: Rate { bits: 100.0f64.to_bits() },
        currency: "USD".into(),
        total_minutes: projects.iter().map(|p| p.total_minutes).sum(),
        project_breakdown: projects,
    }
}

fn reports_state(reports: Vec<ClientReport>) -> ReportsState {
    let mut state = ReportsState {
        preset: TimeRangePreset::ThisMonth,
        range: date_range(),
        reports,
        expanded_clients: vec![],
        expanded_projects: vec![],
        scroll_offset: 0,
        selected_row: 0,
        needs_refresh: false,
        file_manager: FileManager::new(PathBuf::from(".")),
        cache: MonthCache::default(),
    };
    state.reset_expansion_state();
    state
}

#[test]
fn visible_row_mapping_includes_project_and_activity_levels() {
    let state = reports_state(vec![client(
        "acme",
        vec![
            project("webapp", vec![activity("build"), activity("review")]),
            project("mobile", vec![activity("qa")]),
        ],
    )]);

    assert_eq!(state.visible_row_at(0), Some(VisibleRow::Client(0)));
    assert_eq!(state.visible_row_at(1), Some(VisibleRow::Project(0, 0)));
    assert_eq!(state.visible_row_at(2), Some(VisibleRow::Activity(0, 0, 0)));
    assert_eq!(state.visible_row_at(3), Some(VisibleRow::Activity(0, 0, 1)));
    assert_eq!(state.visible_row_at(4), Some(VisibleRow::Project(0, 1)));
    assert_eq!(state.visible_row_at(5), Some(VisibleRow::Activity(0, 1, 0)));
    assert_eq!(state.visible_row_at(6), None);
}

#[test]
fn toggling_project_hides_only_its_activities() {
    let mut state = reports_state(vec![client(
        "acme",
        vec![
            project("webapp", vec![activity("build"), activity("review")]),
            project("mobile", vec![activity("qa")]),
        ],
    )]);

    assert_eq!(state.total_visible_rows(), 6);

    state.selected_row = 1;
    state.toggle_expand();

    assert!(!state.is_project_expanded(0, 0));
    assert_eq!(state.total_visible_rows(), 4);
    assert_eq!(state.visible_row_at(2), Some(VisibleRow::Project(0, 1)));
    assert_eq!(state.visible_row_at(3), Some(VisibleRow::Activity(0, 1, 0)));
}

#[test]
fn toggling_client_hides_all_nested_rows() {
    let mut state = reports_state(vec![client(
        "acme",
        vec![project("webapp", vec![activity("build")])],
    )]);

    assert_eq!(state.total_visible_rows(), 3);

    state.selected_row = 0;
    state.toggle_expand();

    assert!(!state.is_client_expanded(0));
    assert_eq!(state.total_visible_rows(), 1);
    assert_eq!(state.visible_row_at(1), None);
}

#[test]
fn toggling_activity_row_does_nothing() {
    let mut state = reports_state(vec![client(
        "acme",
        vec![project("webapp", vec![activity("build")])],
    )]);

    state.selected_row = 2;
    state.toggle_expand();

    assert!(state.is_client_expanded(0));
    assert!(state.is_project_expanded(0, 0));
    assert_eq!(state.total_visible_rows(), 3);
}

#[test]
fn reports_state_new_starts_dirty() {
    let state = ReportsState::new(&app_config(), PathBuf::from("."));
    assert!(state.needs_refresh);
    assert!(state.expanded_clients.is_empty());
    assert!(state.expanded_projects.is_empty());
}

#[test]
fn new_at_covers_the_month_of_today() {
    let state = ReportsState::new_at(&app_config(), PathBuf::from("."), date(2026, 4, 17));
    assert_eq!(state.preset, TimeRangePreset::ThisMonth);
    assert_eq!(state.range, date_range());
    assert_eq!(state.preset_name(), "This Month");
}

#[test]
fn presets_cycle_both_ways() {
    let config = app_config();
    let mut state = reports_state(vec![]);
    state.set_preset_at(TimeRangePreset::LastMonth, &config, date(2026, 4, 17));
    assert_eq!(state.range, DateRange { start: date(2026, 3, 1), end: date(2026, 3, 31) });
    assert!(state.needs_refresh);
    state.cycle_preset_forward(&config);
    assert_eq!(state.preset, TimeRangePreset::Today);
    assert_eq!(state.preset_name(), "Today");
    state.cycle_preset_backward(&config);
    assert_eq!(state.preset, TimeRangePreset::LastMonth);
    state.cycle_preset_backward(&config);
    assert_eq!(state.preset, TimeRangePreset::ThisMonth);
}

#[test]
fn selection_stays_within_the_rows() {
    let mut state = reports_state(vec![client(
        "acme",
        vec![project("webapp", vec![activity("build")])],
    )]);
    state.move_up();
    assert_eq!(state.selected_row, 0);
    state.move_down();
    state.move_down();
    state.move_down();
    assert_eq!(state.selected_row, 2);
    state.move_up();
    assert_eq!(state.selected_row, 1);
}

#[test]
fn refresh_reports_the_range_and_unfolds_everything() {
    let config = wdttg::config::create_default_config();
    let mut state = reports_state(vec![]);
    state.needs_refresh = true;
    let start = DateTime::from_ymd_hm(2026, 4, 2, 9, 0).unwrap();
    let end = DateTime::from_ymd_hm(2026, 4, 2, 10, 30).unwrap();
    let entries = vec![TimeEntry {
        start,
        end,
        description: "Work".into(),
        client: "personal".into(),
        project: None,
        activity: None,
        notes: None,
    }];
    state.refresh(&entries, &config);
    assert!(!state.needs_refresh);
    assert_eq!(state.reports.len(), 1);
    assert_eq!(state.reports[0].total_minutes, 90);
    assert_eq!(state.expanded_clients, vec![true]);
    assert_eq!(state.expanded_projects, vec![vec![true]]);
    assert_eq!(state.total_visible_rows(), 3);
}
