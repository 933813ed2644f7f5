use wdttg::config::{AppConfig, BillFrom, Preferences};
use wdttg::datetime::DateTime;
use wdttg::model::{Activity, Client, NewEntry, Project, Rate, TimeEntry};
use wdttg::overlap::{find_overlaps, OverlapType};
use wdttg::validation::{find_activity, find_client, find_project, validate_new_entry};

fn dt(y: i32, m: u32, d: u32, h: u32, min: u32) -> DateTime {
    DateTime::from_ymd_hm(y, m, d, h, min).unwrap()
}

fn rate(v: f64) -> Rate {
    Rate { bits: v.to_bits() }
}

fn test_config() -> AppConfig {
    let mut preferences = Preferences::default();
    preferences.description_max_length = 200;
    AppConfig {
        preferences,
        bill_from: BillFrom::default(),
        clients: vec![
            Client {
                id: "acme".into(),
                name: "Acme Corp".into(),
                color: "#FF0000".into(),
                rate: rate(150.0),
                currency: "USD".into(),
                archived: false,
                address: None,
                email: None,
                tax_id: None,
                payment_terms: None,
                notes: None,
                projects: vec![Project {
                    id: "webapp".into(),
                    name: "Web App".into(),
                    color: "#00FF00".into(),
                    rate_override: None,
                    archived: false,
                }],
                activities: vec![Activity {
                    id: "dev".into(),
                    name: "Development".into(),
                    color: "#0000FF".into(),
                    archived: false,
                }],
            },
            Client {
                id: "old".into(),
                name: "Old Client".into(),
                color: "#888888".into(),
                rate: rate(100.0),
                currency: "USD".into(),
                archived: true,
                address: None,
                email: None,
                tax_id: None,
                payment_terms: None,
                notes: None,
                projects: vec![],
                activities: vec![],
            },
        ],
    }
}

fn valid_entry() -> NewEntry {
    NewEntry {
        start: dt(2026, 3, 15, 9, 0),
        end: dt(2026, 3, 15, 10, 0),
        description: "Work".into(),
        client: "acme".into(),
        project: Some("webapp".into()),
        activity: Some("dev".into()),
        notes: None,
    }
}

#[test]
fn valid_entry_passes() {
    let config = test_config();
    assert!(validate_new_entry(&valid_entry(), &config).is_ok());
}

#[test]
fn end_before_start_fails() {
    let config = test_config();
    let mut entry = valid_entry();
    entry.end = dt(2026, 3, 15, 8, 0);
    let err = validate_new_entry(&entry, &config).unwrap_err();
    assert!(err.message().contains("end must be after start"));
}

#[test]
fn end_equals_start_fails() {
    let config = test_config();
    let mut entry = valid_entry();
    entry.end = entry.start;
    assert!(validate_new_entry(&entry, &config).is_err());
}

#[test]
fn duration_over_24h_fails() {
    let config = test_config();
    let mut entry = valid_entry();
    entry.end = dt(2026, 3, 16, 10, 0);
    let err = validate_new_entry(&entry, &config).unwrap_err();
    assert!(err.message().contains("24-hour limit"));
}

#[test]
fn duration_message_names_minutes() {
    let config = test_config();
    let mut entry = valid_entry();
    entry.end = dt(2026, 3, 16, 10, 0);
    let err = validate_new_entry(&entry, &config).unwrap_err();
    assert_eq!(
        err.message(),
        "validation error: duration 1500 minutes exceeds 24-hour limit"
    );
}

#[test]
fn midnight_spanning_under_24h_passes() {
    let config = test_config();
    let mut entry = valid_entry();
    entry.start = dt(2026, 3, 15, 23, 0);
    entry.end = dt(2026, 3, 16, 2, 0);
    assert!(validate_new_entry(&entry, &config).is_ok());
}

#[test]
fn nonexistent_client_fails() {
    let config = test_config();
    let mut entry = valid_entry();
    entry.client = "nope".into();
    let err = validate_new_entry(&entry, &config).unwrap_err();
    assert!(err.message().contains("not found"));
}

#[test]
fn archived_client_fails() {
    let config = test_config();
    let mut entry = valid_entry();
    entry.client = "old".into();
    entry.project = None;
    entry.activity = None;
    let err = validate_new_entry(&entry, &config).unwrap_err();
    assert!(err.message().contains("archived"));
}

#[test]
fn invalid_project_fails() {
    let config = test_config();
    let mut entry = valid_entry();
    entry.project = Some("nonexistent".into());
    let err = validate_new_entry(&entry, &config).unwrap_err();
    assert!(err.message().contains("project"));
}

#[test]
fn invalid_activity_fails() {
    let config = test_config();
    let mut entry = valid_entry();
    entry.activity = Some("nonexistent".into());
    let err = validate_new_entry(&entry, &config).unwrap_err();
    assert!(err.message().contains("activity"));
}

#[test]
fn none_project_activity_passes() {
    let config = test_config();
    let mut entry = valid_entry();
    entry.project = None;
    entry.activity = None;
    assert!(validate_new_entry(&entry, &config).is_ok());
}

#[test]
fn description_too_long_fails() {
    let config = test_config();
    let mut entry = valid_entry();
    entry.description = "x".repeat(201);
    let err = validate_new_entry(&entry, &config).unwrap_err();
    assert!(err.message().contains("description length"));
}

#[test]
fn description_length_counts_bytes() {
    let mut config = test_config();
    config.preferences.description_max_length = 5;
    let mut entry = valid_entry();
    entry.description = "ééé".into();
    let err = validate_new_entry(&entry, &config).unwrap_err();
    assert_eq!(err.message(), "validation error: description length 6 exceeds max 5");
}

#[test]
fn description_unlimited_when_zero() {
    let mut config = test_config();
    config.preferences.description_max_length = 0;
    let mut entry = valid_entry();
    entry.description = "x".repeat(10000);
    assert!(validate_new_entry(&entry, &config).is_ok());
}

#[test]
fn find_client_works() {
    let config = test_config();
    assert!(find_client(&config, "acme").is_some());
    assert!(find_client(&config, "nope").is_none());
}

#[test]
fn find_project_works() {
    let config = test_config();
    let client = find_client(&config, "acme").unwrap();
    assert!(find_project(client, "webapp").is_some());
    assert!(find_project(client, "nope").is_none());
}

#[test]
fn find_activity_works() {
    let config = test_config();
    let client = find_client(&config, "acme").unwrap();
    assert!(find_activity(client, "dev").is_some());
    assert!(find_activity(client, "nope").is_none());
}

fn entry(sh: u32, sm: u32, eh: u32, em: u32) -> TimeEntry {
    TimeEntry {
        start: dt(2026, 3, 15, sh, sm),
        end: dt(2026, 3, 15, eh, em),
        description: "existing".into(),
        client: "acme".into(),
        project: None,
        activity: None,
        notes: None,
    }
}

#[test]
fn adjacent_no_overlap() {
    let existing = vec![entry(10, 0, 11, 0)];
    let result = find_overlaps(dt(2026, 3, 15, 11, 0), dt(2026, 3, 15, 12, 0), &existing, None);
    assert!(!result.has_overlaps);
}

#[test]
fn adjacent_before_no_overlap() {
    let existing = vec![entry(11, 0, 12, 0)];
    let result = find_overlaps(dt(2026, 3, 15, 10, 0), dt(2026, 3, 15, 11, 0), &existing, None);
    assert!(!result.has_overlaps);
}

#[test]
fn start_overlap() {
    let existing = vec![entry(9, 0, 10, 0)];
    let result = find_overlaps(dt(2026, 3, 15, 9, 30), dt(2026, 3, 15, 10, 30), &existing, None);
    assert!(result.has_overlaps);
    assert_eq!(result.overlaps[0].overlap_type, OverlapType::StartOverlap);
}

#[test]
fn end_overlap() {
    let existing = vec![entry(10, 0, 11, 0)];
    let result = find_overlaps(dt(2026, 3, 15, 9, 30), dt(2026, 3, 15, 10, 30), &existing, None);
    assert!(result.has_overlaps);
    assert_eq!(result.overlaps[0].overlap_type, OverlapType::EndOverlap);
}

#[test]
fn encompassed() {
    let existing = vec![entry(9, 0, 10, 0)];
    let result = find_overlaps(dt(2026, 3, 15, 8, 0), dt(2026, 3, 15, 12, 0), &existing, None);
    assert!(result.has_overlaps);
    assert_eq!(result.overlaps[0].overlap_type, OverlapType::Encompassed);
}

#[test]
fn exact_same_time() {
    let existing = vec![entry(9, 0, 10, 0)];
    let result = find_overlaps(dt(2026, 3, 15, 9, 0), dt(2026, 3, 15, 10, 0), &existing, None);
    assert!(result.has_overlaps);
    assert_eq!(result.overlaps[0].overlap_type, OverlapType::StartOverlap);
}

#[test]
fn exclude_self_when_editing() {
    let existing_entry = entry(9, 0, 10, 0);
    let existing = vec![existing_entry.clone()];
    let result = find_overlaps(
        dt(2026, 3, 15, 9, 0),
        dt(2026, 3, 15, 10, 30),
        &existing,
        Some(&existing_entry),
    );
    assert!(!result.has_overlaps);
}

#[test]
fn multiple_overlaps() {
    let existing = vec![entry(9, 0, 10, 0), entry(11, 0, 12, 0)];
    let result = find_overlaps(dt(2026, 3, 15, 8, 0), dt(2026, 3, 15, 13, 0), &existing, None);
    assert!(result.has_overlaps);
    assert_eq!(result.overlaps.len(), 2);
}

#[test]
fn midnight_spanning_overlap() {
    let existing = vec![TimeEntry {
        start: dt(2026, 3, 15, 23, 0),
        end: dt(2026, 3, 16, 2, 0),
        description: "night".into(),
        client: "acme".into(),
        project: None,
        activity: None,
        notes: None,
    }];
    let result = find_overlaps(dt(2026, 3, 16, 1, 0), dt(2026, 3, 16, 3, 0), &existing, None);
    assert!(result.has_overlaps);
}
