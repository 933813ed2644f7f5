use std::path::PathBuf;

use wdttg::config::{create_default_config, Preferences, TagStyle};
use wdttg::error::{Error, Result};
use wdttg::files::{clients_path, config_dir, data_dir};

#[test]
fn default_preferences() {
    let prefs = Preferences::default();
    assert_eq!(prefs.time_format, "24h");
    assert_eq!(prefs.week_start, "monday");
    assert_eq!(prefs.day_start_hour, 6);
    assert_eq!(prefs.day_end_hour, 22);
    assert_eq!(prefs.snap_minutes, 15);
    assert_eq!(prefs.description_max_length, 200);
    assert!(prefs.data_dir.is_none());
}

#[test]
fn io_error_converts() {
    let io_err = std::io::Error::new(std::io::ErrorKind::NotFound, "gone");
    let err: Error = io_err.into();
    assert!(matches!(err, Error::Io(_)));
    assert!(err.message().contains("gone"));
}

#[test]
fn parse_error_display() {
    let err = Error::Parse {
        line: 5,
        message: "bad datetime".into(),
    };
    assert_eq!(err.message(), "parse error at line 5: bad datetime");
}

#[test]
fn result_type_works_with_question_mark() {
    let fallible = || -> Result<i32> { Ok(42) };
    assert_eq!(fallible().unwrap(), 42);
}

#[test]
fn overlap_error_display() {
    let err = Error::Overlap("09:00-10:00 conflicts with 09:30-11:00".into());
    assert!(err.message().contains("overlap detected"));
}

#[test]
fn not_found_display() {
    let err = Error::NotFound;
    assert_eq!(err.message(), "entry not found");
}

#[test]
fn default_config_has_two_clients() {
    let config = create_default_config();
    assert_eq!(config.clients.len(), 2);

    let personal = &config.clients[0];
    assert_eq!(personal.id, "personal");
    assert_eq!(f64::from_bits(personal.rate.bits), 0.0);
    assert_eq!(personal.projects.len(), 2);
    assert_eq!(personal.activities.len(), 2);

    let sample = &config.clients[1];
    assert_eq!(sample.id, "sample-client");
    assert_eq!(f64::from_bits(sample.rate.bits), 100.0);
    assert_eq!(sample.projects.len(), 2);
    assert_eq!(sample.activities.len(), 4);
}

#[test]
fn data_dir_uses_custom_when_set() {
    let mut config = create_default_config();
    config.preferences.data_dir = Some(PathBuf::from("/custom/data"));
    assert_eq!(
        data_dir(&config, None, Some(PathBuf::from("/home/someone"))).unwrap(),
        PathBuf::from("/custom/data")
    );
}

#[test]
fn data_dir_defaults_to_xdg() {
    let dir = tempfile::tempdir().unwrap();
    let xdg_data = dir.path().join("xdg_data");
    let config = create_default_config();
    let result = data_dir(
        &config,
        Some(xdg_data.to_str().unwrap().to_string()),
        Some(PathBuf::from("/home/someone")),
    )
    .unwrap();
    assert_eq!(result, xdg_data.join("wdttg").join("data"));
}

#[test]
fn config_dir_respects_xdg() {
    let dir = tempfile::tempdir().unwrap();
    let xdg_config = dir.path().join("xdg_config");
    let result = config_dir(
        Some(xdg_config.to_str().unwrap().to_string()),
        Some(PathBuf::from("/home/someone")),
    )
    .unwrap();
    assert_eq!(result, xdg_config.join("wdttg"));
}

#[test]
fn clients_path_in_data_dir() {
    let mut config = create_default_config();
    config.preferences.data_dir = Some(PathBuf::from("/my/data"));
    assert_eq!(
        clients_path(&config, None, None).unwrap(),
        PathBuf::from("/my/data/clients.toml")
    );
}

#[test]
fn config_dir_falls_back_to_home() {
    let result = config_dir(Some(String::new()), Some(PathBuf::from("/home/someone"))).unwrap();
    assert_eq!(result, PathBuf::from("/home/someone/.config/wdttg"));
}

#[test]
fn config_dir_without_home_is_config_error() {
    let err = config_dir(None, None).unwrap_err();
    assert_eq!(err.message(), "config error: cannot determine home directory");
}

#[test]
fn default_data_dir_under_home() {
    let config = create_default_config();
    let result = data_dir(&config, None, Some(PathBuf::from("/home/someone"))).unwrap();
    assert_eq!(result, PathBuf::from("/home/someone/.local/share/wdttg/data"));
}

#[test]
fn config_path_names_config_toml() {
    let result =
        wdttg::files::config_path(Some("/xdg".to_string()), None).unwrap();
    assert_eq!(result, PathBuf::from("/xdg/wdttg/config.toml"));
}

#[test]
fn validation_and_config_error_messages() {
    assert_eq!(Error::Validation("x".into()).message(), "validation error: x");
    assert_eq!(Error::Config("y".into()).message(), "config error: y");
}

#[test]
fn tag_style_defaults_to_flat_and_cycles() {
    let mut prefs = Preferences::default();
    assert_eq!(prefs.tag_style, "flat");
    assert_eq!(prefs.tag_style(), TagStyle::Flat);
    prefs.cycle_tag_style();
    assert_eq!(prefs.tag_style, "powerline");
    prefs.cycle_tag_style();
    assert_eq!(prefs.tag_style, "triangle");
    prefs.cycle_tag_style();
    assert_eq!(prefs.tag_style, "flat");
    assert_eq!(prefs.snap_minutes, 15);
}

#[test]
fn unknown_tag_style_reads_as_flat() {
    assert_eq!(TagStyle::from_name("powerline"), TagStyle::Powerline);
    assert_eq!(TagStyle::from_name("triangle"), TagStyle::Triangle);
    assert_eq!(TagStyle::from_name("fancy"), TagStyle::Flat);
    let mut prefs = Preferences::default();
    prefs.tag_style = "fancy".to_string();
    prefs.cycle_tag_style();
    assert_eq!(prefs.tag_style, "powerline");
}
