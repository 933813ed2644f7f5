use wdttg::config::create_default_config;
use wdttg::entry_form::{join_lines, to_textarea_lines, FormField as EntryField};
use wdttg::manage::{EditForm, EditTarget, FormField, ManagePane, ManageState};
use wdttg::mcp::{error_parts, merge_update, parse_date, parse_datetime, parse_preset, resolve_date_range_at, UpdateEntryParams};
use wdttg::date_range::TimeRangePreset;
use wdttg::datetime::{Date, DateTime};
use wdttg::error::Error;
use wdttg::model::TimeEntry;

#[test]
fn manage_pane_cycles() {
    assert_eq!(ManagePane::Clients.next(), ManagePane::Projects);
    assert_eq!(ManagePane::Activities.next(), ManagePane::Clients);
    assert_eq!(ManagePane::Clients.prev(), ManagePane::Activities);
    assert_eq!(ManagePane::Projects.prev(), ManagePane::Clients);
}

#[test]
fn manage_form_field_order() {
    assert_eq!(FormField::Rate.next(EditTarget::Client), FormField::Currency);
    assert_eq!(FormField::Rate.next(EditTarget::Project), FormField::Id);
    assert_eq!(FormField::Currency.next(EditTarget::Client), FormField::Id);
    assert_eq!(FormField::Color.next(EditTarget::Activity), FormField::Rate);
}

#[test]
fn edit_form_typing_and_cursor() {
    let mut form = EditForm::new_client();
    form.type_char('a');
    form.type_char('c');
    form.cursor_left();
    form.type_char('b');
    assert_eq!(form.id, "abc");
    assert_eq!(form.cursor_pos, 2);
    form.backspace();
    assert_eq!(form.id, "ac");
    form.cursor_right();
    form.cursor_right();
    assert_eq!(form.cursor_pos, 2);
    form.next_field();
    assert_eq!(form.focused, FormField::Name);
    assert_eq!(form.cursor_pos, 0);
    form.next_field();
    assert_eq!(form.cursor_pos, 7);
}

#[test]
fn edit_form_validation_messages() {
    let config = create_default_config();
    let mut form = EditForm::new_client();
    assert!(!form.validate(&config, None, true));
    assert_eq!(form.error.as_deref(), Some("ID is required"));
    form.id = "personal".into();
    form.name = "Again".into();
    assert!(!form.validate(&config, None, true));
    assert_eq!(form.error.as_deref(), Some("Client ID 'personal' already exists"));
    form.id = "fresh".into();
    assert!(!form.validate(&config, None, false));
    assert_eq!(form.error.as_deref(), Some("Rate must be a number"));
    assert!(form.validate(&config, None, true));
    assert!(form.error.is_none());
    let mut project = EditForm::new_project();
    project.id = "website".into();
    project.name = "W".into();
    assert!(!project.validate(&config, Some(1), true));
    assert_eq!(project.error.as_deref(), Some("Project ID 'website' already exists"));
    assert!(project.validate(&config, Some(0), true));
}

#[test]
fn edit_form_applies_to_config() {
    let mut config = create_default_config();
    let mut form = EditForm::new_activity();
    form.id = "writing".into();
    form.name = "Writing".into();
    form.apply_to_config(&mut config, 0, None);
    assert_eq!(config.clients[0].activities.len(), 3);
    assert_eq!(config.clients[0].activities[2].id, "writing");
    let mut edit = EditForm::edit_activity(&config.clients[0].activities[0]);
    edit.name = "Dev".into();
    edit.apply_to_config(&mut config, 0, None);
    assert_eq!(config.clients[0].activities[0].name, "Dev");
    assert_eq!(edit.cursor_pos, "Development".len());
}

#[test]
fn manage_state_navigation_and_delete() {
    let mut config = create_default_config();
    let mut state = ManageState::new();
    state.move_up();
    assert_eq!(state.client_idx, 0);
    state.move_down(&config);
    assert_eq!(state.client_idx, 1);
    state.move_down(&config);
    assert_eq!(state.client_idx, 1);
    state.switch_pane();
    assert_eq!(state.active_pane, ManagePane::Projects);
    state.move_down(&config);
    assert_eq!(state.project_idx, 1);
    state.delete_selected(&mut config);
    assert_eq!(config.clients[1].projects.len(), 1);
    assert_eq!(state.project_idx, 0);
    state.toggle_archive(&mut config);
    assert!(config.clients[1].projects[0].archived);
    state.open_add();
    assert_eq!(state.edit_form.as_ref().unwrap().target, EditTarget::Project);
    state.open_edit(&config, String::new());
    assert_eq!(state.edit_form.as_ref().unwrap().id, "website");
}

#[test]
fn entry_form_fields_cycle() {
    assert_eq!(EntryField::Notes.next(), EntryField::Start);
    assert_eq!(EntryField::Start.prev(), EntryField::Notes);
    assert!(EntryField::Description.is_textarea());
    assert!(!EntryField::Client.is_textarea());
}

#[test]
fn textarea_lines_roundtrip() {
    assert_eq!(to_textarea_lines(""), vec![String::new()]);
    assert_eq!(to_textarea_lines("a<br>b<br>"), vec!["a", "b", ""]);
    let lines = to_textarea_lines("one<br>two");
    assert_eq!(join_lines(&lines), "one<br>two");
}

#[test]
fn mcp_parsing_helpers() {
    assert_eq!(parse_datetime("2026-03-15 09:30").unwrap(), DateTime::from_ymd_hm(2026, 3, 15, 9, 30).unwrap());
    assert_eq!(
        parse_datetime("15/03/2026").unwrap_err(),
        "invalid datetime format: '15/03/2026', expected YYYY-MM-DD HH:mm"
    );
    assert_eq!(parse_date("2026-03-15").unwrap(), Date::from_ymd(2026, 3, 15).unwrap());
    assert_eq!(parse_date("x").unwrap_err(), "invalid date format: 'x', expected YYYY-MM-DD");
    assert_eq!(parse_preset("this_week").unwrap(), TimeRangePreset::ThisWeek);
    assert!(parse_preset("someday").unwrap_err().starts_with("unknown preset: 'someday'"));
}

#[test]
fn mcp_resolves_ranges() {
    let today = Date::from_ymd(2026, 3, 15).unwrap();
    let r = resolve_date_range_at(&None, &None, &Some("yesterday".into()), "monday", today).unwrap();
    assert_eq!(r.start, Date::from_ymd(2026, 3, 14).unwrap());
    let err = resolve_date_range_at(&None, &None, &None, "monday", today).unwrap_err();
    assert_eq!(err, "start_date is required when preset is not provided");
    let r = resolve_date_range_at(&Some("2026-01-01".into()), &Some("2026-01-31".into()), &None, "monday", today).unwrap();
    assert_eq!(r.end, Date::from_ymd(2026, 1, 31).unwrap());
}

#[test]
fn mcp_error_parts_and_merge() {
    let (kind, msg) = error_parts(&Error::NotFound);
    assert_eq!(kind, "not_found");
    assert_eq!(msg, "No entry matches the given ID or timestamps");
    let (kind, msg) = error_parts(&Error::Parse { line: 3, message: "bad".into() });
    assert_eq!(kind, "parse");
    assert_eq!(msg, "line 3: bad");
    let existing = TimeEntry {
        start: DateTime::from_ymd_hm(2026, 3, 15, 9, 0).unwrap(),
        end: DateTime::from_ymd_hm(2026, 3, 15, 10, 0).unwrap(),
        description: "old".into(),
        client: "acme".into(),
        project: Some("p".into()),
        activity: None,
        notes: None,
    };
    let params = UpdateEntryParams {
        entry_id: None,
        original_start: None,
        original_end: None,
        start: None,
        end: Some("2026-03-15 11:00".into()),
        description: Some("new".into()),
        client: None,
        project: None,
        activity: Some("dev".into()),
        notes: None,
    };
    let merged = merge_update(existing, params).unwrap();
    assert_eq!(merged.end, DateTime::from_ymd_hm(2026, 3, 15, 11, 0).unwrap());
    assert_eq!(merged.description, "new");
    assert_eq!(merged.client, "acme");
    assert_eq!(merged.project.as_deref(), Some("p"));
    assert_eq!(merged.activity.as_deref(), Some("dev"));
}

#[test]
fn typing_then_backspace_restores_the_form() {
    let mut form = EditForm::new_client();
    form.focused = FormField::Name;
    form.name = "Acme".into();
    form.cursor_pos = 2;
    form.type_char('x');
    assert_eq!(form.name, "Acxme");
    assert_eq!(form.cursor_pos, 3);
    form.backspace();
    assert_eq!(form.name, "Acme");
    assert_eq!(form.cursor_pos, 2);
    assert_eq!(form.id, "");
    assert_eq!(form.focused, FormField::Name);
    form.cursor_pos = 0;
    form.backspace();
    assert_eq!(form.name, "Acme");
    assert_eq!(form.cursor_pos, 0);
}

#[test]
fn default_config_names_every_sample() {
    let c = create_default_config();
    let p = &c.clients[0];
    assert_eq!((p.color.as_str(), p.currency.as_str()), ("#4F46E5", "USD"));
    let ids: Vec<&str> = p.projects.iter().map(|x| x.id.as_str()).collect();
    assert_eq!(ids, vec!["side-project", "learning"]);
    let s = &c.clients[1];
    assert_eq!(s.color, "#FF6B6B");
    let acts: Vec<&str> = s.activities.iter().map(|x| x.name.as_str()).collect();
    assert_eq!(acts, vec!["Development", "Design", "Meeting", "Code Review"]);
    assert_eq!(s.projects[1].color, "#FF8A65");
}
