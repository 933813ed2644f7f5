use wdttg::config::{create_default_config, AppConfig};
use wdttg::datetime::DateTime;
use wdttg::entry_form::{EntryFormState, FormField, FormMode};
use wdttg::model::TimeEntry;
use wdttg::textarea::{TextInput, TextKey};

fn dt(y: i32, m: u32, d: u32, h: u32, min: u32) -> DateTime {
    DateTime::from_ymd_hm(y, m, d, h, min).unwrap()
}

fn config() -> AppConfig {
    create_default_config()
}

fn entry(start: DateTime, end: DateTime, description: &str) -> TimeEntry {
    TimeEntry {
        start,
        end,
        description: description.into(),
        client: "personal".into(),
        project: None,
        activity: None,
        notes: None,
    }
}

#[test]
fn create_form_starts_on_the_first_active_client() {
    let mut c = config();
    c.clients[0].archived = true;
    let form = EntryFormState::new_create(dt(2026, 3, 15, 9, 0), dt(2026, 3, 15, 10, 0), &c);
    assert_eq!(form.mode, FormMode::Create);
    assert_eq!(form.start_input, "2026-03-15 09:00");
    assert_eq!(form.end_input, "2026-03-15 10:00");
    assert_eq!(form.client_idx, 1);
    assert_eq!(form.focused_field, FormField::Client);
    assert_eq!(form.description_textarea.lines(), vec![String::new()]);
    assert_eq!(form.notes_textarea.lines(), vec![String::new()]);
    assert_eq!(form.client_name(&c), c.clients[1].name.as_str());
    assert_eq!(form.project_name(&c), "(none)");
    assert_eq!(form.activity_name(&c), "(none)");
}

#[test]
fn edit_form_finds_client_project_and_activity() {
    let c = config();
    let client = &c.clients[1];
    let mut e = entry(dt(2026, 3, 15, 9, 0), dt(2026, 3, 15, 10, 0), "Line one<br>Line two");
    e.client = client.id.clone();
    e.project = Some(client.projects[0].id.clone());
    e.activity = Some(client.activities[1].id.clone());
    e.notes = Some("a note".into());
    let form = EntryFormState::new_edit(&e, &c);
    assert_eq!(form.mode, FormMode::Edit);
    assert_eq!(form.client_idx, 1);
    assert_eq!(form.project_idx, 1);
    assert_eq!(form.activity_idx, 2);
    assert_eq!(form.description_textarea.lines(), vec!["Line one".to_string(), "Line two".to_string()]);
    assert_eq!(form.notes_textarea.lines(), vec!["a note".to_string()]);
    assert_eq!(form.focused_field, FormField::Description);
    assert_eq!(form.cursor_pos, 16);
    assert_eq!(form.project_name(&c), client.projects[0].name.as_str());
    assert_eq!(form.activity_name(&c), client.activities[1].name.as_str());
}

#[test]
fn edit_form_with_unknown_client_falls_back_to_the_first() {
    let c = config();
    let mut e = entry(dt(2026, 3, 15, 9, 0), dt(2026, 3, 15, 10, 0), "Short");
    e.client = "nobody".into();
    e.project = Some("nothing".into());
    let form = EntryFormState::new_edit(&e, &c);
    assert_eq!(form.client_idx, 0);
    assert_eq!(form.project_idx, 0);
    assert_eq!(form.cursor_pos, 5);
}

#[test]
fn typing_and_deleting_in_the_start_input() {
    let c = config();
    let mut form = EntryFormState::new_create(dt(2026, 3, 15, 9, 0), dt(2026, 3, 15, 10, 0), &c);
    form.prev_field();
    form.prev_field();
    assert_eq!(form.focused_field, FormField::Start);
    assert_eq!(form.cursor_pos, 16);
    form.backspace();
    form.type_char('5');
    assert_eq!(form.start_input, "2026-03-15 09:05");
    form.cursor_right();
    assert_eq!(form.cursor_pos, 16);
    form.cursor_left();
    assert_eq!(form.cursor_pos, 15);
    form.next_field();
    assert_eq!(form.focused_field, FormField::End);
    assert_eq!(form.cursor_pos, 16);
    form.next_field();
    assert_eq!(form.cursor_pos, 0);
    form.type_char('x');
    assert_eq!(form.end_input, "2026-03-15 10:00");
}

#[test]
fn clients_cycle_over_active_ones_and_reset_choices() {
    let mut c = config();
    let mut form = EntryFormState::new_create(dt(2026, 3, 15, 9, 0), dt(2026, 3, 15, 10, 0), &c);
    form.project_idx = 1;
    form.cycle_client(&c, true);
    assert_eq!(form.client_idx, 1);
    assert_eq!(form.project_idx, 0);
    form.cycle_client(&c, true);
    assert_eq!(form.client_idx, 0);
    form.cycle_client(&c, false);
    assert_eq!(form.client_idx, 1);
    c.clients[0].archived = true;
    c.clients[1].archived = true;
    form.cycle_client(&c, true);
    assert_eq!(form.client_idx, 1);
}

#[test]
fn projects_cycle_through_none() {
    let c = config();
    let mut form = EntryFormState::new_create(dt(2026, 3, 15, 9, 0), dt(2026, 3, 15, 10, 0), &c);
    form.client_idx = 1;
    let count = c.clients[1].projects.len() + 1;
    for _ in 0..count {
        form.cycle_project(&c, true);
    }
    assert_eq!(form.project_idx, 0);
    form.cycle_project(&c, false);
    assert_eq!(form.project_idx, count - 1);
    form.cycle_activity(&c, false);
    assert_eq!(form.activity_idx, c.clients[1].activities.len());
}

#[test]
fn times_read_as_datetimes_or_durations() {
    let c = config();
    let mut form = EntryFormState::new_create(dt(2026, 3, 15, 9, 0), dt(2026, 3, 15, 10, 0), &c);
    assert_eq!(
        form.parse_times(None),
        Some((dt(2026, 3, 15, 9, 0), dt(2026, 3, 15, 10, 0)))
    );
    assert_eq!(form.duration_display(None), "1h");
    form.end_input = "90m".into();
    assert_eq!(form.parse_times(None), None);
    assert_eq!(
        form.parse_times(Some(90)),
        Some((dt(2026, 3, 15, 9, 0), dt(2026, 3, 15, 10, 30)))
    );
    assert_eq!(form.duration_display(Some(90)), "1h 30m");
    form.end_input = "23:30 + 1h".into();
    assert_eq!(
        form.parse_times(Some(900)),
        Some((dt(2026, 3, 15, 9, 0), dt(2026, 3, 16, 0, 0)))
    );
    form.start_input = "soon".into();
    assert_eq!(form.duration_display(Some(90)), "—");
}

#[test]
fn build_entry_uses_the_choices() {
    let c = config();
    let mut form = EntryFormState::new_create(dt(2026, 3, 15, 9, 0), dt(2026, 3, 15, 10, 0), &c);
    form.client_idx = 1;
    form.project_idx = 1;
    form.description_textarea = TextInput::from_lines(vec!["First".into(), "Second".into()]);
    form.notes_textarea = TextInput::from_lines(vec![String::new()]);
    let built = form.build_entry(&c, None).unwrap();
    assert_eq!(built.client, c.clients[1].id);
    assert_eq!(built.project, Some(c.clients[1].projects[0].id.clone()));
    assert_eq!(built.activity, None);
    assert_eq!(built.description, "First<br>Second");
    assert_eq!(built.notes, None);
    assert!(form.can_save(None));
    form.client_idx = 9;
    assert!(form.build_entry(&c, None).is_none());
}

#[test]
fn overlap_warning_names_the_conflict() {
    let c = config();
    let existing = vec![entry(dt(2026, 3, 15, 9, 30), dt(2026, 3, 15, 11, 0), "Standup")];
    let mut form = EntryFormState::new_create(dt(2026, 3, 15, 9, 0), dt(2026, 3, 15, 10, 0), &c);
    form.description_textarea = TextInput::from_lines(vec!["Work".into()]);
    form.check_overlaps(&existing, None);
    assert_eq!(form.overlap_warning.as_deref(), Some("Overlaps with: 09:30 – 11:00 Standup"));
    assert!(!form.can_save(None));
    form.end_input = "2026-03-15 09:30".into();
    form.check_overlaps(&existing, None);
    assert_eq!(form.overlap_warning, None);
    assert!(form.can_save(None));
}

#[test]
fn editing_leaves_the_original_out_of_the_check() {
    let c = config();
    let e = entry(dt(2026, 3, 15, 9, 0), dt(2026, 3, 15, 10, 0), "Mine");
    let existing = vec![e.clone()];
    let mut form = EntryFormState::new_edit(&e, &c);
    form.check_overlaps(&existing, None);
    assert_eq!(form.overlap_warning, None);
}

#[test]
fn clicking_a_row_focuses_its_field() {
    let c = config();
    let mut form = EntryFormState::new_create(dt(2026, 3, 15, 9, 0), dt(2026, 3, 15, 10, 0), &c);
    form.field_positions = vec![(FormField::Start, 3), (FormField::End, 4), (FormField::Notes, 9)];
    form.click_at(10, 4);
    assert_eq!(form.focused_field, FormField::End);
    assert_eq!(form.cursor_pos, 16);
    form.click_at(10, 9);
    assert_eq!(form.focused_field, FormField::Notes);
    assert_eq!(form.cursor_pos, 0);
    form.click_at(10, 20);
    assert_eq!(form.focused_field, FormField::Notes);
}

#[test]
fn text_areas_take_typing_new_lines_and_deletions() {
    let c = config();
    let mut form = EntryFormState::new_create(dt(2026, 3, 15, 9, 0), dt(2026, 3, 15, 10, 0), &c);
    assert!(!form.handle_textarea_input(TextKey::Char('x'), false, false, false));
    assert_eq!(form.description_textarea.lines(), vec![String::new()]);
    form.focused_field = FormField::Description;
    for ch in "Fix".chars() {
        assert!(form.handle_textarea_input(TextKey::Char(ch), false, false, false));
    }
    assert!(form.handle_textarea_input(TextKey::Enter, false, false, false));
    assert!(form.handle_textarea_input(TextKey::Char('b'), false, false, false));
    assert!(form.handle_textarea_input(TextKey::Char('u'), false, false, false));
    assert!(form.handle_textarea_input(TextKey::Char('g'), false, false, false));
    assert!(form.handle_textarea_input(TextKey::Backspace, false, false, false));
    assert_eq!(form.description_textarea.lines(), vec!["Fix".to_string(), "bu".to_string()]);
    assert_eq!(form.description(), "Fix<br>bu");
    assert_eq!(form.notes_textarea.lines(), vec![String::new()]);
    form.focused_field = FormField::Notes;
    assert!(form.handle_textarea_input(TextKey::Char('n'), false, false, false));
    assert_eq!(form.notes_value(), "n");
    assert_eq!(form.description(), "Fix<br>bu");
}

#[test]
fn a_text_area_holds_one_empty_line_at_least() {
    assert_eq!(TextInput::from_lines(Vec::new()).lines(), vec![String::new()]);
    let t = TextInput::from_lines(vec!["a".into(), "b".into()]);
    assert_eq!(t.lines(), vec!["a".to_string(), "b".to_string()]);
    assert_eq!(t.cursor(), (0, 0));
}
