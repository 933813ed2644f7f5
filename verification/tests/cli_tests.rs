use std::path::PathBuf;

use wdttg::cli::{export_range_at, first_client, init_preferences, slugify, ExportRangeError};
use wdttg::date_range::DateRange;
use wdttg::datetime::Date;
use wdttg::model::Rate;

fn date(y: i32, m: u32, d: u32) -> Date {
    Date::from_ymd(y, m, d).unwrap()
}

fn s(x: &str) -> Option<String> {
    Some(x.to_string())
}

#[test]
fn slugs_are_lowercase_words_joined_by_hyphens() {
    assert_eq!(slugify("Acme Corp"), "acme-corp");
    assert_eq!(slugify("  Big & Small!  "), "big---small");
    assert_eq!(slugify("Café 9"), "café-9");
    assert_eq!(slugify("!!!"), "client");
    assert_eq!(slugify(""), "client");
}

#[test]
fn export_range_from_presets_and_dates() {
    let today = date(2026, 3, 18);
    assert_eq!(
        export_range_at(&s("this-month"), &None, &None, "monday", today),
        Ok(DateRange { start: date(2026, 3, 1), end: date(2026, 3, 31) })
    );
    assert_eq!(
        export_range_at(&s("last-week"), &None, &None, "monday", today),
        Ok(DateRange { start: date(2026, 3, 9), end: date(2026, 3, 15) })
    );
    assert_eq!(
        export_range_at(&None, &s("2026-01-01"), &s("2026-01-31"), "monday", today),
        Ok(DateRange { start: date(2026, 1, 1), end: date(2026, 1, 31) })
    );
    assert_eq!(
        export_range_at(&None, &None, &None, "monday", today),
        Ok(DateRange { start: date(2026, 3, 1), end: date(2026, 3, 31) })
    );
}

#[test]
fn export_range_errors() {
    let today = date(2026, 3, 18);
    assert_eq!(
        export_range_at(&s("this_week"), &None, &None, "monday", today),
        Err(ExportRangeError::UnknownPreset(
            "Unknown preset: this_week. Use: today, yesterday, this-week, last-week, this-month, last-month".into()
        ))
    );
    assert_eq!(
        export_range_at(&None, &s("2026-02-01"), &s("2026-01-01"), "monday", today),
        Err(ExportRangeError::Invalid("Start date must be before or equal to end date".into()))
    );
    assert_eq!(
        export_range_at(&None, &s("Feb 1"), &s("2026-01-01"), "monday", today),
        Err(ExportRangeError::Invalid("Invalid start date: Feb 1. Use YYYY-MM-DD".into()))
    );
    assert_eq!(
        export_range_at(&None, &s("2026-02-01"), &None, "monday", today),
        Err(ExportRangeError::Invalid("--start and --end must both be provided together".into()))
    );
}

#[test]
fn wizard_preferences_and_first_client() {
    let p = init_preferences("12h", "Sunday", Some(PathBuf::from("/data")));
    assert_eq!(p.time_format, "12h");
    assert_eq!(p.week_start, "monday");
    assert_eq!(p.data_dir, Some(PathBuf::from("/data")));
    assert_eq!(p.snap_minutes, 15);
    let p = init_preferences("24", "sunday", None);
    assert_eq!(p.time_format, "24h");
    assert_eq!(p.week_start, "sunday");
    let c = first_client("My Studio".into(), Rate { bits: 75.0f64.to_bits() }, "EUR".into());
    assert_eq!(c.id, "my-studio");
    assert_eq!(c.color, "#4F46E5");
    assert_eq!(c.currency, "EUR");
    assert!(!c.archived);
}

#[test]
fn config_is_sorted_by_name_ignoring_case() {
    let mut config = wdttg::config::create_default_config();
    config.clients[0].name = "zeta".into();
    config.clients[1].name = "Alpha".into();
    config.clients[1].projects[0].name = "web".into();
    config.clients[1].projects[1].name = "Mobile".into();
    wdttg::name_order::sort_config(&mut config);
    assert_eq!(config.clients[0].name, "Alpha");
    assert_eq!(config.clients[1].name, "zeta");
    assert_eq!(config.clients[0].projects[0].name, "Mobile");
    assert_eq!(config.clients[0].projects[1].name, "web");
    let names: Vec<&str> = config.clients[0].activities.iter().map(|a| a.name.as_str()).collect();
    assert_eq!(names, vec!["Code Review", "Design", "Development", "Meeting"]);
}
