use std::path::PathBuf;

use wdttg::cache::MonthCache;
use wdttg::config::{create_default_config, AppConfig};
use wdttg::date_range::DateRange;
use wdttg::datetime::{Date, DateTime};
use wdttg::error::Error;
use wdttg::export::entries_to_csv;
use wdttg::files::FileManager;
use wdttg::model::{EntryFilter, TimeEntry};
use wdttg::parser::parse_month_file;
use wdttg::serializer::serialize_entries;
use wdttg::storage::{
    add_checked, conflict_error, find_by_id, find_entry_index, gather_range, insert_sorted,
    remove_entry, replace_checked, select_filtered,
};
use wdttg::tui::extract_month_key;

fn dt(y: i32, m: u32, d: u32, h: u32, min: u32) -> DateTime {
    DateTime::from_ymd_hm(y, m, d, h, min).unwrap()
}

fn date(y: i32, m: u32, d: u32) -> Date {
    Date::from_ymd(y, m, d).unwrap()
}

fn simple(start: DateTime, end: DateTime, desc: &str) -> TimeEntry {
    TimeEntry {
        start,
        end,
        description: desc.into(),
        client: "acme".into(),
        project: None,
        activity: None,
        notes: None,
    }
}

#[test]
fn empty_content_returns_empty_vec() {
    assert!(parse_month_file("").unwrap().is_empty());
}

#[test]
fn heading_only_no_table() {
    let result = parse_month_file("# 2026-03\n");
    assert!(result.is_err());
}

#[test]
fn single_entry() {
    let content = "\
# 2026-03

| Start | End | Description | Client | Project | Activity | Notes |
|-------|-----|-------------|--------|---------|----------|-------|
| 2026-03-15 09:00 | 2026-03-15 10:30 | Sprint planning | acme | webapp | meeting | |
";
    let entries = parse_month_file(content).unwrap();
    assert_eq!(entries.len(), 1);
    assert_eq!(entries[0].start, dt(2026, 3, 15, 9, 0));
    assert_eq!(entries[0].end, dt(2026, 3, 15, 10, 30));
    assert_eq!(entries[0].description, "Sprint planning");
    assert_eq!(entries[0].client, "acme");
    assert_eq!(entries[0].project.as_deref(), Some("webapp"));
    assert_eq!(entries[0].activity.as_deref(), Some("meeting"));
    assert!(entries[0].notes.is_none());
}

#[test]
fn midnight_spanning_entry() {
    let content = "\
# 2026-03

| Start | End | Description | Client | Project | Activity | Notes |
|-------|-----|-------------|--------|---------|----------|-------|
| 2026-03-15 23:00 | 2026-03-16 02:00 | Hotfix | acme | webapp | fix | Incident #42 |
";
    let entries = parse_month_file(content).unwrap();
    assert_eq!(entries[0].start, dt(2026, 3, 15, 23, 0));
    assert_eq!(entries[0].end, dt(2026, 3, 16, 2, 0));
    assert_eq!(entries[0].notes.as_deref(), Some("Incident #42"));
}

#[test]
fn all_optional_fields_empty() {
    let content = "\
# 2026-03

| Start | End | Description | Client | Project | Activity | Notes |
|-------|-----|-------------|--------|---------|----------|-------|
| 2026-03-15 09:00 | 2026-03-15 10:00 | Work | acme |  |  |  |
";
    let entries = parse_month_file(content).unwrap();
    assert!(entries[0].project.is_none());
    assert!(entries[0].activity.is_none());
    assert!(entries[0].notes.is_none());
}

#[test]
fn entries_sorted_by_start() {
    let content = "\
# 2026-03

| Start | End | Description | Client | Project | Activity | Notes |
|-------|-----|-------------|--------|---------|----------|-------|
| 2026-03-15 14:00 | 2026-03-15 15:00 | Afternoon | acme |  |  |  |
| 2026-03-15 09:00 | 2026-03-15 10:00 | Morning | acme |  |  |  |
";
    let entries = parse_month_file(content).unwrap();
    assert_eq!(entries[0].description, "Morning");
    assert_eq!(entries[1].description, "Afternoon");
}

#[test]
fn missing_client_errors() {
    let content = "\
# 2026-03

| Start | End | Description | Client | Project | Activity | Notes |
|-------|-----|-------------|--------|---------|----------|-------|
| 2026-03-15 09:00 | 2026-03-15 10:00 | Work |  |  |  |  |
";
    let result = parse_month_file(content);
    assert!(matches!(result, Err(Error::Parse { .. })));
}

#[test]
fn invalid_datetime_errors() {
    let content = "\
# 2026-03

| Start | End | Description | Client | Project | Activity | Notes |
|-------|-----|-------------|--------|---------|----------|-------|
| not-a-date | 2026-03-15 10:00 | Work | acme |  |  |  |
";
    let result = parse_month_file(content);
    assert!(matches!(result, Err(Error::Parse { .. })));
}

#[test]
fn wrong_column_count_errors() {
    let content = "\
# 2026-03

| Start | End | Description | Client |
|-------|-----|-------------|--------|
| 2026-03-15 09:00 | 2026-03-15 10:00 | Work | acme |
";
    let result = parse_month_file(content);
    assert!(matches!(result, Err(Error::Parse { .. })));
}

#[test]
fn br_tags_preserved_in_description() {
    let content = "\
# 2026-03

| Start | End | Description | Client | Project | Activity | Notes |
|-------|-----|-------------|--------|---------|----------|-------|
| 2026-03-15 09:00 | 2026-03-15 10:00 | Line one<br>Line two | acme |  |  |  |
";
    let entries = parse_month_file(content).unwrap();
    assert_eq!(entries[0].description, "Line one<br>Line two");
}

fn sample_entry() -> TimeEntry {
    TimeEntry {
        start: dt(2026, 3, 15, 9, 0),
        end: dt(2026, 3, 15, 10, 30),
        description: "Sprint planning".into(),
        client: "acme".into(),
        project: Some("webapp".into()),
        activity: Some("meeting".into()),
        notes: None,
    }
}

#[test]
fn serialize_single_entry() {
    let entries = vec![sample_entry()];
    let output = serialize_entries("2026-03", &entries);
    assert!(output.starts_with("# 2026-03\n"));
    assert!(output.contains("| 2026-03-15 09:00 | 2026-03-15 10:30 |"));
    assert!(output.contains("| Sprint planning |"));
    assert!(output.contains("| acme |"));
}

#[test]
fn serialize_empty_optional_fields() {
    let entry = simple(dt(2026, 3, 15, 9, 0), dt(2026, 3, 15, 10, 0), "Work");
    let output = serialize_entries("2026-03", &[entry]);
    assert!(output.contains("|  |  |  |"));
}

#[test]
fn serialize_entries_sorted() {
    let entries = vec![
        simple(dt(2026, 3, 15, 14, 0), dt(2026, 3, 15, 15, 0), "Afternoon"),
        simple(dt(2026, 3, 15, 9, 0), dt(2026, 3, 15, 10, 0), "Morning"),
    ];
    let output = serialize_entries("2026-03", &entries);
    let morning_pos = output.find("Morning").unwrap();
    let afternoon_pos = output.find("Afternoon").unwrap();
    assert!(morning_pos < afternoon_pos);
}

#[test]
fn roundtrip_parse_serialize_parse() {
    let entries = vec![
        TimeEntry {
            start: dt(2026, 3, 15, 9, 0),
            end: dt(2026, 3, 15, 10, 30),
            description: "Sprint planning".into(),
            client: "acme".into(),
            project: Some("webapp".into()),
            activity: Some("meeting".into()),
            notes: None,
        },
        TimeEntry {
            start: dt(2026, 3, 15, 10, 30),
            end: dt(2026, 3, 15, 12, 0),
            description: "Implement auth<br>flow".into(),
            client: "acme".into(),
            project: Some("webapp".into()),
            activity: Some("dev".into()),
            notes: Some("See auth-notes.md".into()),
        },
        TimeEntry {
            start: dt(2026, 3, 15, 23, 0),
            end: dt(2026, 3, 16, 2, 0),
            description: "Hotfix".into(),
            client: "acme".into(),
            project: Some("webapp".into()),
            activity: Some("fix".into()),
            notes: Some("Incident #42".into()),
        },
    ];
    let serialized = serialize_entries("2026-03", &entries);
    let parsed = parse_month_file(&serialized).unwrap();
    assert_eq!(parsed.len(), 3);
    assert_eq!(parsed[0].description, "Sprint planning");
    assert_eq!(parsed[1].description, "Implement auth<br>flow");
    assert_eq!(parsed[2].notes.as_deref(), Some("Incident #42"));
    assert_eq!(parsed[2].start, dt(2026, 3, 15, 23, 0));
    assert_eq!(parsed[2].end, dt(2026, 3, 16, 2, 0));
}

#[test]
fn pipe_in_content_escaped() {
    let entry = simple(dt(2026, 3, 15, 9, 0), dt(2026, 3, 15, 10, 0), "A | B");
    let output = serialize_entries("2026-03", &[entry]);
    assert!(output.contains(r"A \| B"));
}

#[test]
fn pipe_in_content_survives_a_write_and_a_read() {
    let mut entry = simple(dt(2026, 3, 15, 9, 0), dt(2026, 3, 15, 10, 0), "A | B");
    entry.notes = Some(r"a\|b and |c|".into());
    entry.project = Some("|".into());
    let text = serialize_entries("2026-03", &[entry.clone()]);
    let parsed = parse_month_file(&text).unwrap();
    assert_eq!(parsed.len(), 1);
    assert_eq!(parsed[0].description, "A | B");
    assert_eq!(parsed[0].notes.as_deref(), Some(r"a\|b and |c|"));
    assert_eq!(parsed[0].project.as_deref(), Some("|"));
    assert_eq!(parsed[0].client, entry.client);
}

#[test]
fn escaped_pipe_in_a_hand_written_row_is_text() {
    let text = "# 2026-03\n\n| Start | End | Description | Client | Project | Activity | Notes |\n|---|---|---|---|---|---|---|\n| 2026-03-15 09:00 | 2026-03-15 10:00 | x \\| y | acme | | | |\n";
    let parsed = parse_month_file(text).unwrap();
    assert_eq!(parsed[0].description, "x | y");
    let bad = "# 2026-03\n\n| Start | End | Description | Client | Project | Activity | Notes |\n|---|---|---|---|---|---|---|\n| 2026-03-15 09:00 | 2026-03-15 10:00 | x | y | acme | | | |\n";
    let err = parse_month_file(bad).unwrap_err();
    assert_eq!(err.message(), "parse error at line 5: expected 7 columns, found 8");
}

fn dummy_entries(n: usize) -> Vec<TimeEntry> {
    (0..n)
        .map(|i| TimeEntry {
            start: dt(2026, 1, 1, i as u32, 0),
            end: dt(2026, 1, 1, i as u32 + 1, 0),
            description: format!("entry {i}"),
            client: "acme".into(),
            project: None,
            activity: None,
            notes: None,
        })
        .collect()
}

#[test]
fn cache_hit_and_miss() {
    let mut cache = MonthCache::new(5);
    assert!(cache.get("2026-03").is_none());
    cache.insert("2026-03", dummy_entries(1));
    assert!(cache.get("2026-03").is_some());
    assert_eq!(cache.get("2026-03").unwrap().len(), 1);
}

#[test]
fn lru_eviction_at_capacity() {
    let mut cache = MonthCache::new(3);
    cache.insert("2026-01", dummy_entries(1));
    cache.insert("2026-02", dummy_entries(1));
    cache.insert("2026-03", dummy_entries(1));
    cache.insert("2026-04", dummy_entries(1));
    assert!(cache.get("2026-01").is_none());
    assert!(cache.get("2026-02").is_some());
    assert!(cache.get("2026-04").is_some());
    assert_eq!(cache.len(), 3);
}

#[test]
fn access_updates_lru_order() {
    let mut cache = MonthCache::new(3);
    cache.insert("2026-01", dummy_entries(1));
    cache.insert("2026-02", dummy_entries(1));
    cache.insert("2026-03", dummy_entries(1));
    let _ = cache.get("2026-01");
    cache.insert("2026-04", dummy_entries(1));
    assert!(cache.get("2026-01").is_some());
    assert!(cache.get("2026-02").is_none());
}

#[test]
fn invalidate_single() {
    let mut cache = MonthCache::new(5);
    cache.insert("2026-03", dummy_entries(1));
    cache.invalidate("2026-03");
    assert!(cache.get("2026-03").is_none());
    assert!(cache.is_empty());
}

#[test]
fn invalidate_all() {
    let mut cache = MonthCache::new(5);
    cache.insert("2026-01", dummy_entries(1));
    cache.insert("2026-02", dummy_entries(1));
    cache.invalidate_all();
    assert!(cache.is_empty());
}

#[test]
fn default_capacity_is_24() {
    let cache = MonthCache::default();
    assert_eq!(cache.capacity(), 24);
}

#[test]
fn zero_capacity_means_default() {
    let cache = MonthCache::new(0);
    assert_eq!(cache.capacity(), 24);
}

#[test]
fn reinsert_replaces_entries() {
    let mut cache = MonthCache::new(2);
    cache.insert("2026-01", dummy_entries(1));
    cache.insert("2026-01", dummy_entries(3));
    assert_eq!(cache.len(), 1);
    assert_eq!(cache.get("2026-01").unwrap().len(), 3);
}

#[test]
fn csv_basic() {
    let entries = vec![TimeEntry {
        start: dt(2026, 4, 5, 9, 0),
        end: dt(2026, 4, 5, 10, 30),
        description: "Sprint planning".into(),
        client: "acme".into(),
        project: Some("webapp".into()),
        activity: Some("meeting".into()),
        notes: None,
    }];
    let csv = entries_to_csv(&entries);
    assert!(csv.starts_with("Start,End,"));
    assert!(csv.contains(
        "2026-04-05 09:00,2026-04-05 10:30,1h 30m,acme,webapp,meeting,Sprint planning,"
    ));
}

#[test]
fn csv_escapes_commas() {
    let entries =
        vec![simple(dt(2026, 4, 5, 9, 0), dt(2026, 4, 5, 10, 0), "Meeting with Bob, Alice")];
    let csv = entries_to_csv(&entries);
    assert!(csv.contains("\"Meeting with Bob, Alice\""));
}

#[test]
fn csv_empty_optional_fields() {
    let entries = vec![simple(dt(2026, 4, 5, 9, 0), dt(2026, 4, 5, 10, 0), "Work")];
    let csv = entries_to_csv(&entries);
    assert!(csv.contains("acme,,,Work,\n"));
}

#[test]
fn csv_quotes_and_line_breaks() {
    assert_eq!(wdttg::export::csv_escape("say \"hi\""), "\"say \"\"hi\"\"\"");
    assert_eq!(wdttg::export::csv_escape("one<br>two"), "\"one\ntwo\"");
    assert_eq!(wdttg::export::csv_escape("plain"), "plain");
}

#[test]
fn lock_file_path_format() {
    let dir = tempfile::tempdir().unwrap();
    let fm = FileManager::new(dir.path().to_path_buf());
    let path = fm.lock_file_path("2026-03");
    assert!(path.ends_with("2026-03.md.lock"));
}

#[test]
fn month_file_path_format() {
    let fm = FileManager::new(PathBuf::from("/data"));
    assert_eq!(fm.month_file_path("2026-03"), PathBuf::from("/data/2026-03.md"));
    assert_eq!(fm.data_dir(), std::path::Path::new("/data"));
    assert!(!fm.month_exists("2026-03"));
}

#[test]
fn extract_month_key_valid() {
    let path = PathBuf::from("/home/user/.wdttg/data/2026-04.md");
    assert_eq!(extract_month_key(&path), Some("2026-04".to_string()));
}

#[test]
fn extract_month_key_ignores_tmp() {
    let path = PathBuf::from("/home/user/.wdttg/data/2026-04.md.tmp");
    assert_eq!(extract_month_key(&path), None);
}

#[test]
fn extract_month_key_ignores_lock() {
    let path = PathBuf::from("/home/user/.wdttg/data/2026-04.md.lock");
    assert_eq!(extract_month_key(&path), None);
}

#[test]
fn extract_month_key_ignores_non_month() {
    let path = PathBuf::from("/home/user/.wdttg/data/notes.md");
    assert_eq!(extract_month_key(&path), None);
}

#[test]
fn extract_month_key_ignores_bad_format() {
    let path = PathBuf::from("/home/user/.wdttg/data/2026-4.md");
    assert_eq!(extract_month_key(&path), None);
}

fn config() -> AppConfig {
    create_default_config()
}

#[test]
fn conflict_message_names_times_and_description() {
    let e = simple(dt(2026, 3, 15, 9, 0), dt(2026, 3, 15, 10, 0), "Standup");
    let err = conflict_error(&e);
    assert_eq!(err.message(), "overlap detected: conflicts with 09:00 - 10:00 (Standup)");
}

#[test]
fn add_checked_inserts_sorted() {
    let month = vec![simple(dt(2026, 3, 15, 9, 0), dt(2026, 3, 15, 10, 0), "a")];
    let out = add_checked(
        month,
        simple(dt(2026, 3, 15, 8, 0), dt(2026, 3, 15, 9, 0), "b"),
        None,
    )
    .unwrap();
    assert_eq!(out.len(), 2);
    assert_eq!(out[0].description, "b");
    assert_eq!(out[1].description, "a");
}

#[test]
fn add_checked_refuses_overlap() {
    let month = vec![simple(dt(2026, 3, 15, 9, 0), dt(2026, 3, 15, 10, 0), "a")];
    let err = add_checked(
        month,
        simple(dt(2026, 3, 15, 9, 30), dt(2026, 3, 15, 10, 30), "b"),
        None,
    )
    .unwrap_err();
    assert!(matches!(err, Error::Overlap(_)));
    assert!(err.message().contains("conflicts with 09:00 - 10:00 (a)"));
}

#[test]
fn replace_checked_ignores_itself() {
    let month = vec![
        simple(dt(2026, 3, 15, 9, 0), dt(2026, 3, 15, 10, 0), "a"),
        simple(dt(2026, 3, 15, 11, 0), dt(2026, 3, 15, 12, 0), "b"),
    ];
    let out = replace_checked(
        month.clone(),
        0,
        simple(dt(2026, 3, 15, 9, 0), dt(2026, 3, 15, 10, 30), "a2"),
    )
    .unwrap();
    assert_eq!(out[0].description, "a2");
    let err = replace_checked(
        month,
        0,
        simple(dt(2026, 3, 15, 9, 0), dt(2026, 3, 15, 11, 30), "a3"),
    )
    .unwrap_err();
    assert!(err.message().contains("(b)"));
}

#[test]
fn remove_entry_and_not_found() {
    let month = vec![
        simple(dt(2026, 3, 15, 9, 0), dt(2026, 3, 15, 10, 0), "a"),
        simple(dt(2026, 3, 15, 11, 0), dt(2026, 3, 15, 12, 0), "b"),
    ];
    assert_eq!(find_entry_index(&month, dt(2026, 3, 15, 11, 0), dt(2026, 3, 15, 12, 0)), Some(1));
    let out = remove_entry(month.clone(), dt(2026, 3, 15, 9, 0), dt(2026, 3, 15, 10, 0)).unwrap();
    assert_eq!(out.len(), 1);
    assert_eq!(out[0].description, "b");
    let err = remove_entry(month, dt(2026, 3, 15, 9, 0), dt(2026, 3, 15, 9, 30)).unwrap_err();
    assert!(matches!(err, Error::NotFound));
}

#[test]
fn find_by_id_roundtrip() {
    let month = vec![
        simple(dt(2026, 3, 15, 9, 0), dt(2026, 3, 15, 10, 0), "a"),
        simple(dt(2026, 3, 15, 11, 0), dt(2026, 3, 15, 12, 0), "b"),
    ];
    let id = month[1].entry_id();
    assert_eq!(find_by_id(&month, &id).unwrap().description, "b");
    assert!(matches!(find_by_id(&month, "e_00000000"), Err(Error::NotFound)));
}

#[test]
fn gather_range_filters_and_sorts() {
    let march = vec![
        simple(dt(2026, 3, 31, 9, 0), dt(2026, 3, 31, 10, 0), "late march"),
        simple(dt(2026, 3, 1, 9, 0), dt(2026, 3, 1, 10, 0), "early march"),
    ];
    let april = vec![simple(dt(2026, 4, 2, 9, 0), dt(2026, 4, 2, 10, 0), "april")];
    let range = DateRange::new(date(2026, 3, 15), date(2026, 4, 30));
    let out = gather_range(&range, vec![march, april]);
    assert_eq!(out.len(), 2);
    assert_eq!(out[0].description, "late march");
    assert_eq!(out[1].description, "april");
}

#[test]
fn select_filtered_keeps_matches() {
    let mut other = simple(dt(2026, 3, 15, 11, 0), dt(2026, 3, 15, 12, 0), "b");
    other.client = "other".into();
    let entries = vec![simple(dt(2026, 3, 15, 9, 0), dt(2026, 3, 15, 10, 0), "a"), other];
    let filter = EntryFilter { client: Some("other".into()), ..Default::default() };
    let out = select_filtered(entries, &filter);
    assert_eq!(out.len(), 1);
    assert_eq!(out[0].description, "b");
    let _ = config();
}

#[test]
fn insert_sorted_is_stable() {
    let month = vec![simple(dt(2026, 3, 15, 9, 0), dt(2026, 3, 15, 10, 0), "first")];
    let out = insert_sorted(month, simple(dt(2026, 3, 15, 9, 0), dt(2026, 3, 15, 9, 30), "second"));
    assert_eq!(out[0].description, "first");
    assert_eq!(out[1].description, "second");
}
