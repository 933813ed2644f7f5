use std::path::PathBuf;

use wdttg::config::create_default_config;
use wdttg::datetime::{Date, DateTime};
use wdttg::model::TimeEntry;
use wdttg::timeline::TimelineState;
use wdttg::entry_form::FormField;
use wdttg::textarea::TextKey;
use wdttg::tui::{
    entry_form_command, handle_key, handle_mark_time, manage_form_command, open_create_form, parse_month_key,
    manage_command, route, tab_at, Action, EntryFormCommand, FormKey, Key, ManageCommand, ManageFormCommand, Route, Screen,
};

fn date(y: i32, m: u32, d: u32) -> Date {
    Date::from_ymd(y, m, d).unwrap()
}

fn dt(y: i32, m: u32, d: u32, h: u32, min: u32) -> DateTime {
    DateTime::from_ymd_hm(y, m, d, h, min).unwrap()
}

#[test]
fn screens_have_titles_and_tab_positions() {
    assert_eq!(Screen::Timeline.title(), "Timeline");
    assert_eq!(Screen::Reports.title(), "Reports");
    assert_eq!(Screen::Manage.title(), "Manage");
    assert_eq!(Screen::Timeline.index(), 0);
    assert_eq!(Screen::Reports.index(), 1);
    assert_eq!(Screen::Manage.index(), 2);
    assert_eq!(tab_at(3), Screen::Timeline);
    assert_eq!(tab_at(20), Screen::Reports);
    assert_eq!(tab_at(40), Screen::Manage);
}

#[test]
fn help_popup_hears_only_close_and_quit() {
    let s = Screen::Timeline;
    assert_eq!(handle_key(Key::Esc, false, s, true), Some(Action::ClosePopup));
    assert_eq!(handle_key(Key::Char('?'), false, s, true), Some(Action::ClosePopup));
    assert_eq!(handle_key(Key::Char('q'), false, s, true), Some(Action::Quit));
    assert_eq!(handle_key(Key::Char('c'), true, s, true), Some(Action::Quit));
    assert_eq!(handle_key(Key::Char('j'), false, s, true), None);
}

#[test]
fn keys_map_to_actions() {
    let s = Screen::Reports;
    assert_eq!(handle_key(Key::Char('1'), false, s, false), Some(Action::SwitchToTimeline));
    assert_eq!(handle_key(Key::Char('?'), false, s, false), Some(Action::ToggleHelp));
    assert_eq!(handle_key(Key::Char('H'), false, s, false), Some(Action::ScrollWeekLeft));
    assert_eq!(handle_key(Key::Left, false, s, false), Some(Action::NavigateLeft));
    assert_eq!(handle_key(Key::Char('j'), false, s, false), Some(Action::NavigateDown));
    assert_eq!(handle_key(Key::Char('d'), true, s, false), Some(Action::PageDown));
    assert_eq!(handle_key(Key::Char('d'), false, s, false), Some(Action::Delete));
    assert_eq!(handle_key(Key::Char('u'), true, s, false), Some(Action::PageUp));
    assert_eq!(handle_key(Key::Char('a'), false, s, false), Some(Action::Create));
    assert_eq!(handle_key(Key::Char(' '), false, s, false), Some(Action::MarkTime));
    assert_eq!(handle_key(Key::Enter, false, s, false), Some(Action::Select));
    assert_eq!(handle_key(Key::Char('z'), false, s, false), None);
    assert_eq!(handle_key(Key::Other, false, s, false), None);
}

#[test]
fn month_keys_name_the_first_of_the_month() {
    assert_eq!(parse_month_key("2026-03"), Some(date(2026, 3, 1)));
    assert_eq!(parse_month_key("2026-3"), None);
    assert_eq!(parse_month_key("2026/03"), None);
    assert_eq!(parse_month_key("2026-13"), None);
    assert_eq!(parse_month_key("2026-+3"), Some(date(2026, 3, 1)));
    assert_eq!(parse_month_key("abcd-01"), None);
}

#[test]
fn marking_twice_opens_a_form_over_the_range() {
    let config = create_default_config();
    let mut t = TimelineState::new_at(PathBuf::from("."), date(2026, 3, 15), 9);
    t.insert_day(
        date(2026, 3, 15),
        vec![TimeEntry {
            start: dt(2026, 3, 15, 9, 30),
            end: dt(2026, 3, 15, 9, 45),
            description: "Call".into(),
            client: "personal".into(),
            project: None,
            activity: None,
            notes: None,
        }],
    );
    assert!(handle_mark_time(&mut t, &config).is_none());
    assert_eq!(t.mark_start, Some(dt(2026, 3, 15, 9, 0)));
    t.navigate_down(60);
    let form = handle_mark_time(&mut t, &config).unwrap();
    assert_eq!(t.mark_start, None);
    assert_eq!(form.start_input, "2026-03-15 09:00");
    assert_eq!(form.end_input, "2026-03-15 10:00");
    assert_eq!(form.overlap_warning.as_deref(), Some("Overlaps with: 09:30 – 09:45 Call"));
    assert!(handle_mark_time(&mut t, &config).is_none());
    assert!(handle_mark_time(&mut t, &config).is_none());
}

#[test]
fn create_form_spans_the_snap_from_the_cursor() {
    let config = create_default_config();
    let t = TimelineState::new_at(PathBuf::from("."), date(2026, 3, 15), 23);
    let form = open_create_form(&t, &config);
    assert_eq!(form.start_input, "2026-03-15 23:00");
    assert_eq!(form.end_input, "2026-03-15 23:15");
    assert_eq!(form.overlap_warning, None);
}

#[test]
fn shift_t_cycles_the_tag_style() {
    assert_eq!(handle_key(Key::Char('T'), false, Screen::Timeline, false), Some(Action::CycleTagStyle));
    assert_eq!(handle_key(Key::Char('t'), false, Screen::Timeline, false), Some(Action::JumpToToday));
    assert_eq!(handle_key(Key::Char('T'), false, Screen::Timeline, true), None);
}

#[test]
fn actions_route_to_the_app_or_the_screen() {
    assert_eq!(route(Action::Quit, false, Screen::Manage, false), Route::Quit);
    assert_eq!(route(Action::SwitchToReports, false, Screen::Timeline, false), Route::Show(Screen::Reports, true));
    assert_eq!(route(Action::SwitchToManage, false, Screen::Timeline, false), Route::Show(Screen::Manage, false));
    assert_eq!(route(Action::ClosePopup, true, Screen::Timeline, true), Route::ClearMark);
    assert_eq!(route(Action::ClosePopup, true, Screen::Timeline, false), Route::HideHelp);
    assert_eq!(route(Action::NavigateDown, true, Screen::Timeline, false), Route::ScrollHelp(true));
    assert_eq!(route(Action::NavigateUp, true, Screen::Reports, false), Route::ScrollHelp(false));
    assert_eq!(route(Action::NavigateUp, false, Screen::Reports, false), Route::Reports(Action::NavigateUp));
    assert_eq!(route(Action::Create, false, Screen::Manage, false), Route::Manage(Action::Create));
    assert_eq!(route(Action::MarkTime, false, Screen::Timeline, false), Route::Timeline(Action::MarkTime));
    assert_eq!(route(Action::CycleTagStyle, false, Screen::Reports, false), Route::CycleTagStyle);
}

#[test]
fn entry_form_keys_cycle_choices_or_move_the_cursor() {
    assert_eq!(entry_form_command(FormKey::Left, false, false, FormField::Client), EntryFormCommand::CycleClient(false));
    assert_eq!(entry_form_command(FormKey::Down, false, false, FormField::Project), EntryFormCommand::CycleProject(true));
    assert_eq!(entry_form_command(FormKey::Right, false, false, FormField::Activity), EntryFormCommand::CycleActivity(true));
    assert_eq!(entry_form_command(FormKey::Left, false, false, FormField::Start), EntryFormCommand::CursorLeft);
    assert_eq!(entry_form_command(FormKey::Up, false, false, FormField::End), EntryFormCommand::Nothing);
    assert_eq!(entry_form_command(FormKey::Tab, true, false, FormField::Start), EntryFormCommand::PrevField);
    assert_eq!(entry_form_command(FormKey::Tab, false, false, FormField::Start), EntryFormCommand::NextField);
    assert_eq!(entry_form_command(FormKey::BackTab, false, false, FormField::Notes), EntryFormCommand::PrevField);
    assert_eq!(entry_form_command(FormKey::Enter, false, false, FormField::Description), EntryFormCommand::Text(TextKey::Enter));
    assert_eq!(entry_form_command(FormKey::Enter, false, false, FormField::Start), EntryFormCommand::Save);
    assert_eq!(entry_form_command(FormKey::Char('s'), false, true, FormField::Notes), EntryFormCommand::Save);
    assert_eq!(entry_form_command(FormKey::Char('s'), false, true, FormField::Client), EntryFormCommand::Save);
    assert_eq!(entry_form_command(FormKey::Left, false, false, FormField::Description), EntryFormCommand::Text(TextKey::Left));
    assert_eq!(entry_form_command(FormKey::Tab, false, false, FormField::Notes), EntryFormCommand::NextField);
    assert_eq!(entry_form_command(FormKey::Esc, false, false, FormField::Start), EntryFormCommand::Cancel);
    assert_eq!(entry_form_command(FormKey::Char('x'), false, false, FormField::Notes), EntryFormCommand::Text(TextKey::Char('x')));
    assert_eq!(entry_form_command(FormKey::Char('x'), false, false, FormField::Start), EntryFormCommand::Type('x'));
}

#[test]
fn manage_form_keys() {
    assert_eq!(manage_form_command(FormKey::Enter), ManageFormCommand::Save);
    assert_eq!(manage_form_command(FormKey::Tab), ManageFormCommand::NextField);
    assert_eq!(manage_form_command(FormKey::Esc), ManageFormCommand::Cancel);
    assert_eq!(manage_form_command(FormKey::Char('a')), ManageFormCommand::Type('a'));
    assert_eq!(manage_form_command(FormKey::Up), ManageFormCommand::Nothing);
    assert_eq!(manage_form_command(FormKey::BackTab), ManageFormCommand::Nothing);
}

#[test]
fn tab_switches_the_pane() {
    assert_eq!(handle_key(Key::Tab, false, Screen::Manage, false), Some(Action::SwitchPane));
    assert_eq!(route(Action::SwitchPane, false, Screen::Manage, false), Route::Manage(Action::SwitchPane));
    assert_eq!(handle_key(Key::Tab, false, Screen::Manage, true), None);
}

#[test]
fn manage_actions_and_the_open_form() {
    assert_eq!(manage_command(Action::Delete, false), ManageCommand::ToggleArchive);
    assert_eq!(manage_command(Action::ToggleArchive, false), ManageCommand::ToggleArchive);
    assert_eq!(manage_command(Action::Select, false), ManageCommand::NextPane);
    assert_eq!(manage_command(Action::NavigateLeft, false), ManageCommand::PrevPane);
    assert_eq!(manage_command(Action::Create, false), ManageCommand::OpenAdd);
    assert_eq!(manage_command(Action::Edit, false), ManageCommand::OpenEdit);
    assert_eq!(manage_command(Action::JumpToToday, false), ManageCommand::Nothing);
    assert_eq!(manage_command(Action::Delete, true), ManageCommand::Nothing);
}
