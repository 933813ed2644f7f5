use std::collections::HashMap;

use wdttg::datetime::DateTime;
use wdttg::error::Error;
use wdttg::model::TimeEntry;
use wdttg::store_steps::{store_begin, store_step, StoreAction, StoreEvent, StoreRequest};

fn dt(y: i32, m: u32, d: u32, h: u32, min: u32) -> DateTime {
    DateTime::from_ymd_hm(y, m, d, h, min).unwrap()
}

fn entry(start: DateTime, end: DateTime, desc: &str) -> TimeEntry {
    TimeEntry {
        start,
        end,
        description: desc.into(),
        client: "acme".into(),
        project: None,
        activity: None,
        notes: None,
    }
}

/// Runs the steps against months held in memory, recording the months written.
fn run(
    request: StoreRequest,
    months: &mut HashMap<String, Vec<TimeEntry>>,
    written: &mut Vec<String>,
) -> Result<Option<TimeEntry>, Error> {
    let (mut state, mut action) = store_begin(request);
    loop {
        let event = match action {
            StoreAction::Read(m) => StoreEvent::MonthRead(months.get(&m).cloned().unwrap_or_default()),
            StoreAction::Write(m, es) => {
                written.push(m.clone());
                months.insert(m, es);
                StoreEvent::Written
            }
            StoreAction::Finish(r) => return r,
        };
        let (s, a) = store_step(state, event);
        state = s;
        action = a;
    }
}

fn descriptions(es: &[TimeEntry]) -> Vec<&str> {
    es.iter().map(|e| e.description.as_str()).collect()
}

#[test]
fn create_adds_to_the_month_in_start_order() {
    let mut months = HashMap::new();
    months.insert("2026-03".to_string(), vec![entry(dt(2026, 3, 15, 11, 0), dt(2026, 3, 15, 12, 0), "late")]);
    let mut written = Vec::new();
    let e = entry(dt(2026, 3, 15, 9, 0), dt(2026, 3, 15, 10, 0), "early");
    let r = run(StoreRequest::Create(e.clone()), &mut months, &mut written).unwrap();
    assert_eq!(r, Some(e));
    assert_eq!(written, vec!["2026-03".to_string()]);
    assert_eq!(descriptions(&months["2026-03"]), vec!["early", "late"]);
}

#[test]
fn create_refuses_an_overlap_and_writes_nothing() {
    let mut months = HashMap::new();
    months.insert("2026-03".to_string(), vec![entry(dt(2026, 3, 15, 9, 0), dt(2026, 3, 15, 10, 0), "Standup")]);
    let mut written = Vec::new();
    let e = entry(dt(2026, 3, 15, 9, 30), dt(2026, 3, 15, 11, 0), "x");
    let err = run(StoreRequest::Create(e), &mut months, &mut written).unwrap_err();
    assert!(matches!(err, Error::Overlap(ref m) if m == "conflicts with 09:00 - 10:00 (Standup)"));
    assert!(written.is_empty());
}

#[test]
fn delete_removes_or_is_not_found() {
    let mut months = HashMap::new();
    let a = entry(dt(2026, 3, 15, 9, 0), dt(2026, 3, 15, 10, 0), "a");
    months.insert("2026-03".to_string(), vec![a.clone()]);
    let mut written = Vec::new();
    assert_eq!(run(StoreRequest::Delete { start: a.start, end: a.end }, &mut months, &mut written).unwrap(), None);
    assert!(months["2026-03"].is_empty());
    let err = run(StoreRequest::Delete { start: a.start, end: a.end }, &mut months, &mut written).unwrap_err();
    assert!(matches!(err, Error::NotFound));
    assert_eq!(written.len(), 1);
}

#[test]
fn update_in_the_same_month_replaces_in_place() {
    let mut months = HashMap::new();
    let a = entry(dt(2026, 3, 15, 9, 0), dt(2026, 3, 15, 10, 0), "a");
    let b = entry(dt(2026, 3, 15, 10, 0), dt(2026, 3, 15, 11, 0), "b");
    months.insert("2026-03".to_string(), vec![a.clone(), b.clone()]);
    let mut written = Vec::new();
    let moved = entry(dt(2026, 3, 15, 12, 0), dt(2026, 3, 15, 13, 0), "a2");
    let r = run(
        StoreRequest::Update { original_start: a.start, original_end: a.end, entry: moved.clone() },
        &mut months,
        &mut written,
    );
    assert_eq!(r.unwrap(), Some(moved));
    assert_eq!(descriptions(&months["2026-03"]), vec!["b", "a2"]);
    // Overlapping itself is no conflict; overlapping another is.
    let grown = entry(dt(2026, 3, 15, 10, 0), dt(2026, 3, 15, 12, 30), "b2");
    let err = run(
        StoreRequest::Update { original_start: b.start, original_end: b.end, entry: grown },
        &mut months,
        &mut written,
    )
    .unwrap_err();
    assert!(matches!(err, Error::Overlap(_)));
    assert_eq!(written.len(), 1);
}

#[test]
fn update_across_months_moves_the_entry() {
    let mut months = HashMap::new();
    let a = entry(dt(2026, 3, 31, 9, 0), dt(2026, 3, 31, 10, 0), "a");
    months.insert("2026-03".to_string(), vec![a.clone()]);
    let mut written = Vec::new();
    let moved = entry(dt(2026, 4, 1, 9, 0), dt(2026, 4, 1, 10, 0), "a");
    let r = run(
        StoreRequest::Update { original_start: a.start, original_end: a.end, entry: moved.clone() },
        &mut months,
        &mut written,
    );
    assert_eq!(r.unwrap(), Some(moved));
    assert!(months["2026-03"].is_empty());
    assert_eq!(descriptions(&months["2026-04"]), vec!["a"]);
    assert_eq!(written, vec!["2026-03".to_string(), "2026-04".to_string()]);
}

#[test]
fn a_refused_move_puts_the_entry_back() {
    let mut months = HashMap::new();
    let a = entry(dt(2026, 3, 31, 9, 0), dt(2026, 3, 31, 10, 0), "a");
    months.insert("2026-03".to_string(), vec![a.clone()]);
    months.insert("2026-04".to_string(), vec![entry(dt(2026, 4, 1, 9, 0), dt(2026, 4, 1, 10, 0), "busy")]);
    let mut written = Vec::new();
    let moved = entry(dt(2026, 4, 1, 9, 30), dt(2026, 4, 1, 10, 30), "a");
    let err = run(
        StoreRequest::Update { original_start: a.start, original_end: a.end, entry: moved },
        &mut months,
        &mut written,
    )
    .unwrap_err();
    assert!(matches!(err, Error::Overlap(ref m) if m == "conflicts with 09:00 - 10:00 (busy)"));
    assert_eq!(months["2026-03"], vec![a]);
    assert_eq!(written, vec!["2026-03".to_string(), "2026-03".to_string()]);
}

#[test]
fn a_failed_read_ends_with_its_error() {
    let a = entry(dt(2026, 3, 15, 9, 0), dt(2026, 3, 15, 10, 0), "a");
    let (state, action) = store_begin(StoreRequest::Create(a));
    assert!(matches!(action, StoreAction::Read(ref m) if m == "2026-03"));
    let (_, action) = store_step(state, StoreEvent::Failed(Error::Validation("disk".into())));
    assert!(matches!(action, StoreAction::Finish(Err(Error::Validation(ref m))) if m == "disk"));
}
