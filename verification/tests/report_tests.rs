use wdttg::config::{AppConfig, BillFrom, Preferences};
use wdttg::date_range::DateRange;
use wdttg::datetime::{Date, DateTime};
use wdttg::model::{Activity, Client, Project, Rate, TimeEntry};
use wdttg::report::generate_report;

fn dt(y: i32, m: u32, d: u32, h: u32, min: u32) -> DateTime {
    DateTime::from_ymd_hm(y, m, d, h, min).unwrap()
}

fn date(y: i32, m: u32, d: u32) -> Date {
    Date::from_ymd(y, m, d).unwrap()
}

fn rate(v: f64) -> Rate {
    Rate { bits: v.to_bits() }
}

fn test_config() -> AppConfig {
    AppConfig {
        preferences: Preferences::default(),
        bill_from: BillFrom::default(),
        clients: vec![
            Client {
                id: "acme".into(),
                name: "Acme Corp".into(),
                color: "#FF6B6B".into(),
                rate: rate(150.0),
                currency: "USD".into(),
                archived: false,
                address: None,
                email: None,
                tax_id: None,
                payment_terms: None,
                notes: None,
                projects: vec![
                    Project {
                        id: "webapp".into(),
                        name: "Web App".into(),
                        color: "#4ECDC4".into(),
                        rate_override: Some(rate(175.0)),
                        archived: false,
                    },
                    Project {
                        id: "mobile".into(),
                        name: "Mobile".into(),
                        color: "#45B7D1".into(),
                        rate_override: None,
                        archived: false,
                    },
                ],
                activities: vec![
                    Activity {
                        id: "dev".into(),
                        name: "Development".into(),
                        color: "#2ECC71".into(),
                        archived: false,
                    },
                    Activity {
                        id: "meeting".into(),
                        name: "Meeting".into(),
                        color: "#E74C3C".into(),
                        archived: false,
                    },
                ],
            },
            Client {
                id: "personal".into(),
                name: "Personal".into(),
                color: "#4F46E5".into(),
                rate: rate(0.0),
                currency: "USD".into(),
                archived: false,
                address: None,
                email: None,
                tax_id: None,
                payment_terms: None,
                notes: None,
                projects: vec![],
                activities: vec![],
            },
        ],
    }
}

fn entry(start: DateTime, end: DateTime, desc: &str, client: &str, project: Option<&str>, activity: Option<&str>) -> TimeEntry {
    TimeEntry {
        start,
        end,
        description: desc.into(),
        client: client.into(),
        project: project.map(|s| s.to_string()),
        activity: activity.map(|s| s.to_string()),
        notes: None,
    }
}

fn test_entries() -> Vec<TimeEntry> {
    vec![
        entry(dt(2026, 3, 15, 9, 0), dt(2026, 3, 15, 10, 30), "Sprint planning", "acme", Some("webapp"), Some("meeting")),
        entry(dt(2026, 3, 15, 10, 30), dt(2026, 3, 15, 12, 0), "Auth flow", "acme", Some("webapp"), Some("dev")),
        entry(dt(2026, 3, 15, 13, 0), dt(2026, 3, 15, 14, 0), "Mobile bug", "acme", Some("mobile"), Some("dev")),
        entry(dt(2026, 3, 15, 14, 0), dt(2026, 3, 15, 15, 0), "Personal stuff", "personal", None, None),
    ]
}

#[test]
fn basic_aggregation() {
    let config = test_config();
    let entries = test_entries();
    let range = DateRange::new(date(2026, 3, 15), date(2026, 3, 15));
    let reports = generate_report(&range, &entries, &config);
    assert_eq!(reports.len(), 2);
    assert_eq!(reports[0].client_id, "acme");
    assert_eq!(reports[0].total_minutes, 240);
    assert_eq!(reports[1].client_id, "personal");
    assert_eq!(reports[1].total_minutes, 60);
}

#[test]
fn project_breakdown() {
    let config = test_config();
    let entries = test_entries();
    let range = DateRange::new(date(2026, 3, 15), date(2026, 3, 15));
    let reports = generate_report(&range, &entries, &config);
    let acme = &reports[0];
    assert_eq!(acme.project_breakdown.len(), 2);
    assert_eq!(acme.project_breakdown[0].project_id, "webapp");
    assert_eq!(acme.project_breakdown[0].total_minutes, 180);
    assert_eq!(acme.project_breakdown[1].project_id, "mobile");
    assert_eq!(acme.project_breakdown[1].total_minutes, 60);
}

#[test]
fn rates_follow_overrides() {
    let config = test_config();
    let entries = test_entries();
    let range = DateRange::new(date(2026, 3, 15), date(2026, 3, 15));
    let reports = generate_report(&range, &entries, &config);
    let acme = &reports[0];
    assert_eq!(f64::from_bits(acme.project_breakdown[0].rate.bits), 175.0);
    assert_eq!(f64::from_bits(acme.project_breakdown[1].rate.bits), 150.0);
    assert_eq!(acme.name, "Acme Corp");
    assert_eq!(acme.project_breakdown[0].name, "Web App");
    assert_eq!(acme.project_breakdown[0].activity_breakdown[0].name, "Meeting");
}

#[test]
fn no_project_no_activity() {
    let config = test_config();
    let entries = test_entries();
    let range = DateRange::new(date(2026, 3, 15), date(2026, 3, 15));
    let reports = generate_report(&range, &entries, &config);
    let personal = &reports[1];
    assert_eq!(personal.project_breakdown[0].project_id, "(no project)");
    assert_eq!(personal.project_breakdown[0].activity_breakdown[0].activity_id, "(no activity)");
}

#[test]
fn unknown_client_gets_defaults() {
    let config = test_config();
    let entries = vec![entry(dt(2026, 3, 15, 9, 0), dt(2026, 3, 15, 9, 45), "x", "ghost", Some("p"), None)];
    let range = DateRange::new(date(2026, 3, 15), date(2026, 3, 15));
    let reports = generate_report(&range, &entries, &config);
    assert_eq!(reports[0].name, "ghost");
    assert_eq!(reports[0].color, "#888888");
    assert_eq!(reports[0].currency, "USD");
    assert_eq!(reports[0].rate.bits, 0);
    assert_eq!(reports[0].project_breakdown[0].color, "#888888");
    assert_eq!(reports[0].project_breakdown[0].activity_breakdown[0].total_minutes, 45);
}

#[test]
fn entries_outside_range_excluded() {
    let config = test_config();
    let entries = test_entries();
    let range = DateRange::new(date(2026, 3, 16), date(2026, 3, 16));
    let reports = generate_report(&range, &entries, &config);
    assert!(reports.is_empty());
}

#[test]
fn empty_entries() {
    let config = test_config();
    let range = DateRange::new(date(2026, 3, 1), date(2026, 3, 31));
    let reports = generate_report(&range, &[], &config);
    assert!(reports.is_empty());
}

#[test]
fn report_minutes_add_up_at_every_level() {
    let entries = test_entries();
    let range = DateRange::new(date(2026, 3, 1), date(2026, 3, 31));
    let reports = generate_report(&range, &entries, &test_config());
    let in_range: i64 = entries
        .iter()
        .filter(|e| e.start.date().day >= range.start.day && e.start.date().day <= range.end.day)
        .map(|e| e.duration_minutes())
        .sum();
    let clients: i64 = reports.iter().map(|c| c.total_minutes).sum();
    assert_eq!(clients, in_range);
    for c in &reports {
        let projects: i64 = c.project_breakdown.iter().map(|p| p.total_minutes).sum();
        assert_eq!(projects, c.total_minutes);
        for p in &c.project_breakdown {
            let activities: i64 = p.activity_breakdown.iter().map(|a| a.total_minutes).sum();
            assert_eq!(activities, p.total_minutes);
        }
    }
}
