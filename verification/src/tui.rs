//! Pieces of the terminal interface that decide rather than draw: the screens,
//! the user's actions and the keys that give them, and which monthly file a
//! changed path names.
use vstd::prelude::*;

use std::path::Path;

use crate::config::AppConfig;
use crate::datetime::{Date, DateTime};
use crate::entry_form::{form_times, EntryFormState, FormField};
use crate::model::{all_wf, entries_view, EntryView, TimeEntry};
use crate::overlap::overlap_list;
use crate::text::{chars_of, digit_value, is_digit, string_of_range};
use crate::textarea::TextKey;
use crate::timeline::TimelineState;
use crate::calendar::{days_from_ce, valid_civil};

verus! {

/// All possible user actions in the application.
#[derive(Debug, Clone, Copy, PartialEq, Eq, Structural)]
pub enum Action {
    Quit,
    SwitchToTimeline,
    SwitchToReports,
    SwitchToManage,
    ToggleHelp,
    ClosePopup,
    NavigateLeft,
    NavigateRight,
    NavigateUp,
    NavigateDown,
    Select,
    Create,
    Edit,
    Delete,
    JumpToToday,
    ScrollWeekLeft,
    ScrollWeekRight,
    PageUp,
    PageDown,
    ToggleArchive,
    /// Mark start/end of a time range on the timeline.
    MarkTime,
    /// Export the current report.
    Export,
    /// Move the tag chip style one step along its cycle.
    CycleTagStyle,
    /// Move to the next pane (on the Manage screen).
    SwitchPane,
}

/// The last component of a path as text, where it has one that is valid Unicode.
pub uninterp spec fn file_name_text(p: &Path) -> Option<Seq<char>>;

/// `Path::file_name`, then `OsStr::to_str`: the final component as text.
#[verifier::external_body]
fn path_file_name(p: &Path) -> (r: Option<String>)
    ensures
        match r {
            Some(s) => file_name_text(p) == Some(s@),
            None => file_name_text(p) is None,
        },
{
    p.file_name().and_then(|n| n.to_str()).map(|s| s.to_string())
}

/// `YYYY-MM`: four digits, a hyphen, two digits.
pub open spec fn is_month_stem(s: Seq<char>) -> bool {
    &&& s.len() == 7
    &&& is_digit(s[0]) && is_digit(s[1]) && is_digit(s[2]) && is_digit(s[3])
    &&& s[4] == '-'
    &&& is_digit(s[5]) && is_digit(s[6])
}

/// The month key that a file name stands for: `YYYY-MM.md` gives `YYYY-MM`;
/// temporary and lock files and other names give none.
pub open spec fn month_key_of_name(name: Seq<char>) -> Option<Seq<char>> {
    if name.len() >= 3 && name.skip(name.len() - 3) == ".md"@ && is_month_stem(
        name.take(name.len() - 3),
    ) {
        Some(name.take(name.len() - 3))
    } else {
        None
    }
}

/// The month key of a data file's name, or `None` for any other file.
pub fn month_key_of_file_name(name: &str) -> (r: Option<String>)
    ensures
        match r {
            Some(k) => month_key_of_name(name@) == Some(k@),
            None => month_key_of_name(name@) is None,
        },
{
    let v = chars_of(name);
    proof {
        reveal_strlit(".md");
    }
    if v.len() != 10 {
        proof {
            if v.len() >= 3 && v@.skip(v.len() - 3) == ".md"@ {
                assert(!is_month_stem(v@.take(v.len() - 3)));
            }
        }
        return None;
    }
    let ok = v[7] == '.' && v[8] == 'm' && v[9] == 'd' && is_digit_char(v[0]) && is_digit_char(v[1])
        && is_digit_char(v[2]) && is_digit_char(v[3]) && v[4] == '-' && is_digit_char(v[5])
        && is_digit_char(v[6]);
    proof {
        assert(v@.skip(7) =~= seq![v@[7], v@[8], v@[9]]);
        if v@.skip(7) == ".md"@ {
            assert(v@[7] == '.' && v@[8] == 'm' && v@[9] == 'd');
        }
    }
    if ok {
        proof {
            assert(".md"@ =~= seq!['.', 'm', 'd']);
            assert(v@.skip(7) =~= ".md"@);
            assert(v@.take(7) =~= v@.subrange(0, 7));
        }
        Some(string_of_range(&v, 0, 7))
    } else {
        None
    }
}

fn is_digit_char(c: char) -> (r: bool)
    ensures
        r == is_digit(c),
{
    '0' <= c && c <= '9'
}

/// The month whose data file a changed path names, if it names one.
pub fn extract_month_key(path: &Path) -> (r: Option<String>)
    ensures
        match r {
            Some(k) => file_name_text(path) matches Some(n) && month_key_of_name(n) == Some(k@),
            None => file_name_text(path) matches Some(n) ==> month_key_of_name(n) is None,
        },
{
    match path_file_name(path) {
        Some(name) => month_key_of_file_name(name.as_str()),
        None => None,
    }
}

/// The three screens.
#[derive(Debug, Clone, Copy, PartialEq, Eq, Structural)]
pub enum Screen {
    Timeline,
    Reports,
    Manage,
}

impl Screen {
    pub fn title(&self) -> (r: &'static str)
        ensures
            r@ == match *self {
                Screen::Timeline => "Timeline"@,
                Screen::Reports => "Reports"@,
                Screen::Manage => "Manage"@,
            },
    {
        match self {
            Screen::Timeline => "Timeline",
            Screen::Reports => "Reports",
            Screen::Manage => "Manage",
        }
    }

    /// The position of the screen's tab.
    pub fn index(&self) -> (r: usize)
        ensures
            r == match *self {
                Screen::Timeline => 0usize,
                Screen::Reports => 1usize,
                Screen::Manage => 2usize,
            },
    {
        match self {
            Screen::Timeline => 0,
            Screen::Reports => 1,
            Screen::Manage => 2,
        }
    }
}

/// The screen whose tab lies under column `x` of the tab bar.
pub fn tab_at(x: u16) -> (r: Screen)
    ensures
        r == if x < 16 {
            Screen::Timeline
        } else if x < 32 {
            Screen::Reports
        } else {
            Screen::Manage
        },
{
    if x < 16 {
        Screen::Timeline
    } else if x < 32 {
        Screen::Reports
    } else {
        Screen::Manage
    }
}

/// The keys that the key map tells apart.
#[derive(Debug, Clone, Copy, PartialEq, Eq, Structural)]
pub enum Key {
    Char(char),
    Esc,
    Enter,
    Left,
    Right,
    Up,
    Down,
    PageUp,
    PageDown,
    Tab,
    Other,
}

/// The action of a key, with Control held or not, while the help is shown or not.
pub open spec fn key_action(key: Key, ctrl: bool, show_help: bool) -> Option<Action> {
    if show_help {
        match key {
            Key::Esc | Key::Char('?') => Some(Action::ClosePopup),
            Key::Char('q') => Some(Action::Quit),
            Key::Char('c') if ctrl => Some(Action::Quit),
            _ => None,
        }
    } else {
        match key {
            Key::Char('q') => Some(Action::Quit),
            Key::Char('c') if ctrl => Some(Action::Quit),
            Key::Char('1') => Some(Action::SwitchToTimeline),
            Key::Char('2') => Some(Action::SwitchToReports),
            Key::Char('3') => Some(Action::SwitchToManage),
            Key::Char('?') => Some(Action::ToggleHelp),
            Key::Esc => Some(Action::ClosePopup),
            Key::Char('H') => Some(Action::ScrollWeekLeft),
            Key::Char('L') => Some(Action::ScrollWeekRight),
            Key::Left | Key::Char('h') => Some(Action::NavigateLeft),
            Key::Right | Key::Char('l') => Some(Action::NavigateRight),
            Key::Up | Key::Char('k') => Some(Action::NavigateUp),
            Key::Down | Key::Char('j') => Some(Action::NavigateDown),
            Key::PageUp => Some(Action::PageUp),
            Key::PageDown => Some(Action::PageDown),
            Key::Char('u') if ctrl => Some(Action::PageUp),
            Key::Char('d') if ctrl => Some(Action::PageDown),
            Key::Enter => Some(Action::Select),
            Key::Char('t') => Some(Action::JumpToToday),
            Key::Char('T') => Some(Action::CycleTagStyle),
            Key::Tab => Some(Action::SwitchPane),
            Key::Char('A') => Some(Action::ToggleArchive),
            Key::Char('n') | Key::Char('a') => Some(Action::Create),
            Key::Char('e') => Some(Action::Edit),
            Key::Char('d') => Some(Action::Delete),
            Key::Char(' ') => Some(Action::MarkTime),
            _ => None,
        }
    }
}

/// Map a key to an action: while the help is shown only closing it and quitting
/// are heard; otherwise the global keys, then the navigation and screen keys.
pub fn handle_key(key: Key, ctrl: bool, _screen: Screen, show_help: bool) -> (r: Option<Action>)
    ensures
        r == key_action(key, ctrl, show_help),
{
    if show_help {
        return match key {
            Key::Esc | Key::Char('?') => Some(Action::ClosePopup),
            Key::Char('q') => Some(Action::Quit),
            Key::Char('c') if ctrl => Some(Action::Quit),
            _ => None,
        };
    }
    match key {
        Key::Char('q') => {
            return Some(Action::Quit);
        },
        Key::Char('c') if ctrl => {
            return Some(Action::Quit);
        },
        Key::Char('1') => {
            return Some(Action::SwitchToTimeline);
        },
        Key::Char('2') => {
            return Some(Action::SwitchToReports);
        },
        Key::Char('3') => {
            return Some(Action::SwitchToManage);
        },
        Key::Char('?') => {
            return Some(Action::ToggleHelp);
        },
        Key::Esc => {
            return Some(Action::ClosePopup);
        },
        _ => {},
    }
    match key {
        Key::Char('H') => Some(Action::ScrollWeekLeft),
        Key::Char('L') => Some(Action::ScrollWeekRight),
        Key::Left | Key::Char('h') => Some(Action::NavigateLeft),
        Key::Right | Key::Char('l') => Some(Action::NavigateRight),
        Key::Up | Key::Char('k') => Some(Action::NavigateUp),
        Key::Down | Key::Char('j') => Some(Action::NavigateDown),
        Key::PageUp => Some(Action::PageUp),
        Key::PageDown => Some(Action::PageDown),
        Key::Char('u') if ctrl => Some(Action::PageUp),
        Key::Char('d') if ctrl => Some(Action::PageDown),
        Key::Enter => Some(Action::Select),
        Key::Char('t') => Some(Action::JumpToToday),
        Key::Char('T') => Some(Action::CycleTagStyle),
        Key::Tab => Some(Action::SwitchPane),
        Key::Char('A') => Some(Action::ToggleArchive),
        Key::Char('n') | Key::Char('a') => Some(Action::Create),
        Key::Char('e') => Some(Action::Edit),
        Key::Char('d') => Some(Action::Delete),
        Key::Char(' ') => Some(Action::MarkTime),
        _ => None,
    }
}

/// Every loaded day holds entries with valid dates.
pub open spec fn days_wf(t: TimelineState) -> bool {
    forall|k: i32| #[trigger] t.day_entries@.contains_key(k) ==> all_wf(entries_view(t.day_entries@[k]@))
}

/// The entries loaded for a day, where that day is loaded.
pub open spec fn loaded_day(t: TimelineState, day: int) -> Seq<EntryView> {
    if t.day_entries@.contains_key(day as i32) {
        entries_view(t.day_entries@[day as i32]@)
    } else {
        Seq::empty()
    }
}

/// The warning of a new-entry form whose inputs hold the given texts, checked
/// against a day's entries.
pub open spec fn new_form_warning(start_text: Seq<char>, end_text: Seq<char>, day: Seq<EntryView>) -> Option<Seq<char>> {
    match form_times(start_text, end_text, None) {
        None => None,
        Some(t) => {
            let l = overlap_list(t.0, t.1, day, None);
            if l.len() > 0 {
                Some(crate::entry_form::overlap_warning_text(l[0].1))
            } else {
                None
            }
        },
    }
}

/// Marks time on the timeline. The first press sets the mark at the cursor; the
/// second clears it and, where mark and cursor differ, opens a new-entry form
/// over the range between them, checked against the entries of its first day.
pub fn handle_mark_time(timeline: &mut TimelineState, config: &AppConfig) -> (r: Option<EntryFormState>)
    requires
        old(timeline).bounded(),
        days_wf(*old(timeline)),
    ensures
        ({
            let c = DateTime {
                day: old(timeline).cursor_date.day,
                minute: (60 * old(timeline).cursor_hour + old(timeline).cursor_minute) as u32,
            };
            match old(timeline).mark_start {
                None => final(timeline).mark_start == Some(c) && r is None,
                Some(m) => {
                    let start = if m.stamp() <= c.stamp() {
                        m
                    } else {
                        c
                    };
                    let end = if m.stamp() <= c.stamp() {
                        c
                    } else {
                        m
                    };
                    &&& final(timeline).mark_start is None
                    &&& (start == end ==> r is None)
                    &&& (start != end ==> (r matches Some(f) && f.mode
                        == crate::entry_form::FormMode::Create && f.start_input@ == start.text()
                        && f.end_input@ == end.text() && crate::files::opt_text(f.overlap_warning)
                        == new_form_warning(start.text(), end.text(), loaded_day(*old(timeline), start.day as int))))
                },
            }
        }),
        final(timeline).day_entries@ == old(timeline).day_entries@,
        final(timeline).cursor_date == old(timeline).cursor_date,
        final(timeline).cursor_hour == old(timeline).cursor_hour,
        final(timeline).cursor_minute == old(timeline).cursor_minute,
        final(timeline).center_date == old(timeline).center_date,
        final(timeline).scroll_offset == old(timeline).scroll_offset,
{
    let cursor_dt = timeline.cursor_datetime();
    match timeline.mark_start {
        Some(mark_dt) => {
            timeline.mark_start = None;
            let (start, end) = if mark_dt.stamp_value() <= cursor_dt.stamp_value() {
                (mark_dt, cursor_dt)
            } else {
                (cursor_dt, mark_dt)
            };
            if start == end {
                return None;
            }
            let form = form_checked_against_day(timeline, start, end, config);
            Some(form)
        },
        None => {
            timeline.mark_start = Some(cursor_dt);
            None
        },
    }
}

/// A new-entry form over `start`..`end`, checked against the loaded entries of
/// the day of `start`.
fn form_checked_against_day(timeline: &TimelineState, start: DateTime, end: DateTime, config: &AppConfig) -> (r: EntryFormState)
    requires
        start.wf(),
        end.wf(),
        days_wf(*timeline),
    ensures
        r.mode == crate::entry_form::FormMode::Create,
        r.start_input@ == start.text(),
        r.end_input@ == end.text(),
        r.client_idx == crate::entry_form::first_active_from(config.clients@, 0),
        r.project_idx == 0,
        r.activity_idx == 0,
        crate::files::opt_text(r.overlap_warning) == new_form_warning(start.text(), end.text(), loaded_day(*timeline, start.day as int)),
{
    let mut form = EntryFormState::new_create(start, end, config);
    match timeline.day_entries.get(&start.day) {
        Some(entries) => {
            proof {
                assert(timeline.day_entries@.contains_key(start.day));
                assert(all_wf(entries_view(entries@)));
                assert forall|k: int| 0 <= k < entries@.len() implies (#[trigger] entries@[k]).wf() by {
                    assert(entries_view(entries@)[k] == entries@[k]@);
                }
            }
            form.check_overlaps(entries.as_slice(), None);
        },
        None => {
            let none: Vec<TimeEntry> = Vec::new();
            form.check_overlaps(none.as_slice(), None);
            proof {
                assert(entries_view(none@) =~= Seq::<EntryView>::empty());
            }
        },
    }
    form
}

/// The new-entry form opened at the cursor: from the cursor for the snapping step
/// (at least fifteen minutes), checked against the entries of the cursor's day.
pub fn open_create_form(timeline: &TimelineState, config: &AppConfig) -> (r: EntryFormState)
    requires
        timeline.bounded(),
        days_wf(*timeline),
        crate::calendar::valid_day(
            (timeline.cursor_date.day * 1440 + 60 * timeline.cursor_hour + timeline.cursor_minute
                + (if config.preferences.snap_minutes >= 15 {
                config.preferences.snap_minutes as int
            } else {
                15
            })) / 1440,
        ),
    ensures
        ({
            let start = DateTime {
                day: timeline.cursor_date.day,
                minute: (60 * timeline.cursor_hour + timeline.cursor_minute) as u32,
            };
            let snap: int = if config.preferences.snap_minutes >= 15 {
                config.preferences.snap_minutes as int
            } else {
                15
            };
            let e = start.stamp() + snap;
            let end = DateTime { day: (e / 1440) as i32, minute: (e % 1440) as u32 };
            &&& r.mode == crate::entry_form::FormMode::Create
            &&& r.start_input@ == start.text()
            &&& r.end_input@ == end.text()
            &&& crate::files::opt_text(r.overlap_warning) == new_form_warning(
                start.text(),
                end.text(),
                loaded_day(*timeline, start.day as int),
            )
        }),
{
    let cursor_dt = timeline.cursor_datetime();
    let snap: u32 = if config.preferences.snap_minutes >= 15 {
        config.preferences.snap_minutes
    } else {
        15
    };
    let end = match cursor_dt.plus_minutes(snap as i64) {
        Some(e) => e,
        None => {
            assert(false);
            cursor_dt
        },
    };
    proof {
        let x = cursor_dt.stamp() + snap;
        vstd::arithmetic::div_mod::lemma_fundamental_div_mod_converse(
            x,
            1440,
            end.day as int,
            end.minute as int,
        );
    }
    form_checked_against_day(timeline, cursor_dt, end, config)
}

/// The value of text read as an `i32` by `str::parse`: an optional sign, then
/// one or more ASCII digits.
pub open spec fn signed_value(s: Seq<char>) -> Option<int> {
    if s.len() >= 2 && (s[0] == '+' || s[0] == '-') && all_digits(s.skip(1)) {
        Some(if s[0] == '-' {
            -digits_value(s.skip(1))
        } else {
            digits_value(s.skip(1))
        })
    } else if s.len() >= 1 && all_digits(s) {
        Some(digits_value(s))
    } else {
        None
    }
}

/// The value of text read as a `u32`: an optional `+`, then one or more digits.
pub open spec fn unsigned_value(s: Seq<char>) -> Option<int> {
    if s.len() >= 2 && s[0] == '+' && all_digits(s.skip(1)) {
        Some(digits_value(s.skip(1)))
    } else if s.len() >= 1 && all_digits(s) {
        Some(digits_value(s))
    } else {
        None
    }
}

/// Ten to the power `k`, for `k` up to four.
pub open spec fn ten_pow(k: int) -> int {
    if k <= 0 {
        1
    } else if k == 1 {
        10
    } else if k == 2 {
        100
    } else if k == 3 {
        1000
    } else {
        10000
    }
}

pub open spec fn all_digits(s: Seq<char>) -> bool {
    forall|i: int| 0 <= i < s.len() ==> is_digit(#[trigger] s[i])
}

pub open spec fn digits_value(s: Seq<char>) -> int
    decreases s.len(),
{
    if s.len() == 0 {
        0
    } else {
        10 * digits_value(s.drop_last()) + digit_value(s.last())
    }
}

/// The first of the month that a `YYYY-MM` key names: seven characters with a
/// hyphen fifth, the year read as an `i32` and the month as a `u32`.
pub open spec fn month_key_date(key: Seq<char>) -> Option<int> {
    if key.len() == 7 && key[4] == '-' {
        match (signed_value(key.take(4)), unsigned_value(key.subrange(5, 7))) {
            (Some(y), Some(m)) => if valid_civil(y, m, 1) {
                Some(days_from_ce(y, m, 1))
            } else {
                None
            },
            _ => None,
        }
    } else {
        None
    }
}

/// Reads the value of up to four characters of text as `str::parse` does for
/// the given signedness.
fn small_number(cs: &Vec<char>, from: usize, to: usize, signed: bool) -> (r: Option<i32>)
    requires
        from <= to <= cs@.len(),
        to - from <= 4,
    ensures
        match r {
            Some(v) => (if signed {
                signed_value(cs@.subrange(from as int, to as int))
            } else {
                unsigned_value(cs@.subrange(from as int, to as int))
            }) == Some(v as int),
            None => (if signed {
                signed_value(cs@.subrange(from as int, to as int))
            } else {
                unsigned_value(cs@.subrange(from as int, to as int))
            }) is None,
        },
{
    let ghost s = cs@.subrange(from as int, to as int);
    if from == to {
        return None;
    }
    let first = cs[from];
    let has_sign = first == '+' || (signed && first == '-');
    let start = if has_sign {
        from + 1
    } else {
        from
    };
    if start == to {
        return None;
    }
    let ghost d = cs@.subrange(start as int, to as int);
    proof {
        if has_sign {
            assert(s.skip(1) =~= d);
        } else {
            assert(s =~= d);
        }
    }
    let mut value: i32 = 0;
    let mut i = start;
    while i < to
        invariant
            start <= i <= to,
            to <= cs@.len(),
            to - start <= 4,
            from < to,
            s == cs@.subrange(from as int, to as int),
            first == cs@[from as int],
            has_sign == (first == '+' || (signed && first == '-')),
            start == if has_sign {
                from + 1
            } else {
                from as int
            },
            has_sign ==> s.skip(1) == d,
            !has_sign ==> s == d,
            d == cs@.subrange(start as int, to as int),
            all_digits(cs@.subrange(start as int, i as int)),
            value == digits_value(cs@.subrange(start as int, i as int)),
            0 <= value < 10000,
            i - start <= 4,
            value < ten_pow(i - start),
        decreases to - i,
    {
        let c = cs[i];
        if !(c >= '0' && c <= '9') {
            proof {
                assert(d[i - start] == c);
                assert(!all_digits(d));
                if !has_sign {
                    assert(s[0] == first);
                }
            }
            return None;
        }
        let ghost prev = cs@.subrange(start as int, i as int);
        value = value * 10 + (c as u32 - '0' as u32) as i32;
        proof {
            assert(cs@.subrange(start as int, i + 1).drop_last() =~= prev);
        }
        i = i + 1;
    }
    proof {
        assert(cs@.subrange(start as int, to as int) =~= d);
        if !has_sign && s.len() >= 2 {
            assert(s[0] == first);
        }
    }
    if has_sign && first == '-' {
        Some(-value)
    } else {
        Some(value)
    }
}

/// Parse a `YYYY-MM` month key into the first day of that month.
pub fn parse_month_key(key: &str) -> (r: Option<Date>)
    ensures
        match r {
            Some(d) => d.wf() && month_key_date(key@) == Some(d.day as int),
            None => month_key_date(key@) is None,
        },
{
    let cs = chars_of(key);
    if cs.len() != 7 || cs[4] != '-' {
        return None;
    }
    let year = small_number(&cs, 0, 4, true);
    let month = small_number(&cs, 5, 7, false);
    proof {
        assert(cs@.subrange(0, 4) =~= key@.take(4));
    }
    match (year, month) {
        (Some(y), Some(m)) => if m < 0 {
            None
        } else {
            Date::from_ymd(y, m as u32, 1)
        },
        _ => None,
    }
}

/// Where an action goes: handled by the application itself, or by the state
/// of one of the screens.
#[derive(Debug, Clone, Copy, PartialEq, Eq, Structural)]
pub enum Route {
    Quit,
    /// Show a screen; the flag says whether its report is to be taken anew.
    Show(Screen, bool),
    ToggleHelp,
    /// Drop the start of a range being marked.
    ClearMark,
    HideHelp,
    /// Scroll the help down (true) or up (false).
    ScrollHelp(bool),
    CycleTagStyle,
    Timeline(Action),
    Reports(Action),
    Manage(Action),
}

/// The route of an action, given whether the help is shown, the screen shown
/// and whether a range is being marked on the timeline.
pub open spec fn route_of(action: Action, show_help: bool, screen: Screen, marking: bool) -> Route {
    match action {
        Action::Quit => Route::Quit,
        Action::SwitchToTimeline => Route::Show(Screen::Timeline, false),
        Action::SwitchToReports => Route::Show(Screen::Reports, true),
        Action::SwitchToManage => Route::Show(Screen::Manage, false),
        Action::ToggleHelp => Route::ToggleHelp,
        Action::ClosePopup => if marking {
            Route::ClearMark
        } else {
            Route::HideHelp
        },
        Action::CycleTagStyle => Route::CycleTagStyle,
        Action::NavigateDown if show_help => Route::ScrollHelp(true),
        Action::NavigateUp if show_help => Route::ScrollHelp(false),
        _ => match screen {
            Screen::Timeline => Route::Timeline(action),
            Screen::Reports => Route::Reports(action),
            Screen::Manage => Route::Manage(action),
        },
    }
}

/// Routes an action: the application's own actions first, then the help's
/// scrolling, then the screen shown.
pub fn route(action: Action, show_help: bool, screen: Screen, marking: bool) -> (r: Route)
    ensures
        r == route_of(action, show_help, screen, marking),
{
    match action {
        Action::Quit => Route::Quit,
        Action::SwitchToTimeline => Route::Show(Screen::Timeline, false),
        Action::SwitchToReports => Route::Show(Screen::Reports, true),
        Action::SwitchToManage => Route::Show(Screen::Manage, false),
        Action::ToggleHelp => Route::ToggleHelp,
        Action::ClosePopup => if marking {
            Route::ClearMark
        } else {
            Route::HideHelp
        },
        Action::CycleTagStyle => Route::CycleTagStyle,
        Action::NavigateDown if show_help => Route::ScrollHelp(true),
        Action::NavigateUp if show_help => Route::ScrollHelp(false),
        _ => match screen {
            Screen::Timeline => Route::Timeline(action),
            Screen::Reports => Route::Reports(action),
            Screen::Manage => Route::Manage(action),
        },
    }
}

/// What an action does on the Manage screen.
#[derive(Debug, Clone, Copy, PartialEq, Eq, Structural)]
pub enum ManageCommand {
    MoveUp,
    MoveDown,
    NextPane,
    PrevPane,
    OpenAdd,
    OpenEdit,
    /// Archive the selected item, or bring it back (`d` archives; nothing is
    /// removed).
    ToggleArchive,
    Nothing,
}

/// The command of an action on the Manage screen; while the add or edit form
/// is open the form takes the keys, and the actions do nothing.
pub open spec fn manage_command_of(action: Action, form_open: bool) -> ManageCommand {
    if form_open {
        ManageCommand::Nothing
    } else {
        match action {
            Action::NavigateUp => ManageCommand::MoveUp,
            Action::NavigateDown => ManageCommand::MoveDown,
            Action::NavigateRight | Action::Select | Action::SwitchPane => ManageCommand::NextPane,
            Action::NavigateLeft => ManageCommand::PrevPane,
            Action::Create => ManageCommand::OpenAdd,
            Action::Edit => ManageCommand::OpenEdit,
            Action::Delete | Action::ToggleArchive => ManageCommand::ToggleArchive,
            _ => ManageCommand::Nothing,
        }
    }
}

/// What an action does on the Manage screen.
pub fn manage_command(action: Action, form_open: bool) -> (r: ManageCommand)
    ensures
        r == manage_command_of(action, form_open),
{
    if form_open {
        return ManageCommand::Nothing;
    }
    match action {
        Action::NavigateUp => ManageCommand::MoveUp,
        Action::NavigateDown => ManageCommand::MoveDown,
        Action::NavigateRight | Action::Select | Action::SwitchPane => ManageCommand::NextPane,
        Action::NavigateLeft => ManageCommand::PrevPane,
        Action::Create => ManageCommand::OpenAdd,
        Action::Edit => ManageCommand::OpenEdit,
        Action::Delete | Action::ToggleArchive => ManageCommand::ToggleArchive,
        _ => ManageCommand::Nothing,
    }
}

/// The keys that the forms tell apart.
#[derive(Debug, Clone, Copy, PartialEq, Eq, Structural)]
pub enum FormKey {
    Esc,
    Tab,
    BackTab,
    Enter,
    Backspace,
    Delete,
    Left,
    Right,
    Up,
    Down,
    Home,
    End,
    Char(char),
    Other,
}

/// What a key does in the entry form.
#[derive(Debug, Clone, Copy, PartialEq, Eq, Structural)]
pub enum EntryFormCommand {
    Cancel,
    Save,
    NextField,
    PrevField,
    Backspace,
    CursorLeft,
    CursorRight,
    /// Cycle the client forward (true) or back (false).
    CycleClient(bool),
    CycleProject(bool),
    CycleActivity(bool),
    Type(char),
    /// Hand the key to the focused text area (Description or Notes).
    Text(TextKey),
    Nothing,
}

/// On a choice field, cycling the choice; elsewhere `otherwise`.
pub open spec fn cycle_or(field: FormField, forward: bool, otherwise: EntryFormCommand) -> EntryFormCommand {
    match field {
        FormField::Client => EntryFormCommand::CycleClient(forward),
        FormField::Project => EntryFormCommand::CycleProject(forward),
        FormField::Activity => EntryFormCommand::CycleActivity(forward),
        _ => otherwise,
    }
}

/// The text-area key of a form key, where it has one.
pub open spec fn text_key_of(key: FormKey) -> Option<TextKey> {
    match key {
        FormKey::Enter => Some(TextKey::Enter),
        FormKey::Backspace => Some(TextKey::Backspace),
        FormKey::Delete => Some(TextKey::Delete),
        FormKey::Left => Some(TextKey::Left),
        FormKey::Right => Some(TextKey::Right),
        FormKey::Up => Some(TextKey::Up),
        FormKey::Down => Some(TextKey::Down),
        FormKey::Home => Some(TextKey::Home),
        FormKey::End => Some(TextKey::End),
        FormKey::Char(c) => Some(TextKey::Char(c)),
        _ => None,
    }
}

/// The command of a key in the entry form, with Shift and Ctrl held or not, on
/// the focused field. Esc cancels, Tab and Shift+Tab move between fields, and
/// Ctrl+S saves everywhere. In the Description and Notes text areas every other
/// key edits the text (Enter starts a new line). Elsewhere Enter saves, left
/// and right cycle a choice or move the cursor, up and down cycle a choice only.
pub open spec fn entry_form_command_of(key: FormKey, shift: bool, ctrl: bool, field: FormField) -> EntryFormCommand {
    match key {
        FormKey::Esc => EntryFormCommand::Cancel,
        FormKey::Tab => if shift {
            EntryFormCommand::PrevField
        } else {
            EntryFormCommand::NextField
        },
        FormKey::BackTab => EntryFormCommand::PrevField,
        FormKey::Char(c) if ctrl && (c == 's' || c == 'S') => EntryFormCommand::Save,
        _ => if field == FormField::Description || field == FormField::Notes {
            match text_key_of(key) {
                Some(k) => EntryFormCommand::Text(k),
                None => EntryFormCommand::Nothing,
            }
        } else {
            match key {
                FormKey::Enter => EntryFormCommand::Save,
                FormKey::Backspace => EntryFormCommand::Backspace,
                FormKey::Left => cycle_or(field, false, EntryFormCommand::CursorLeft),
                FormKey::Right => cycle_or(field, true, EntryFormCommand::CursorRight),
                FormKey::Up => cycle_or(field, false, EntryFormCommand::Nothing),
                FormKey::Down => cycle_or(field, true, EntryFormCommand::Nothing),
                FormKey::Char(c) => EntryFormCommand::Type(c),
                _ => EntryFormCommand::Nothing,
            }
        },
    }
}

fn cycle_command(field: FormField, forward: bool, otherwise: EntryFormCommand) -> (r: EntryFormCommand)
    ensures
        r == cycle_or(field, forward, otherwise),
{
    match field {
        FormField::Client => EntryFormCommand::CycleClient(forward),
        FormField::Project => EntryFormCommand::CycleProject(forward),
        FormField::Activity => EntryFormCommand::CycleActivity(forward),
        _ => otherwise,
    }
}

fn text_key(key: FormKey) -> (r: Option<TextKey>)
    ensures
        r == text_key_of(key),
{
    match key {
        FormKey::Enter => Some(TextKey::Enter),
        FormKey::Backspace => Some(TextKey::Backspace),
        FormKey::Delete => Some(TextKey::Delete),
        FormKey::Left => Some(TextKey::Left),
        FormKey::Right => Some(TextKey::Right),
        FormKey::Up => Some(TextKey::Up),
        FormKey::Down => Some(TextKey::Down),
        FormKey::Home => Some(TextKey::Home),
        FormKey::End => Some(TextKey::End),
        FormKey::Char(c) => Some(TextKey::Char(c)),
        _ => None,
    }
}

/// What a key does in the entry form.
pub fn entry_form_command(key: FormKey, shift: bool, ctrl: bool, field: FormField) -> (r: EntryFormCommand)
    ensures
        r == entry_form_command_of(key, shift, ctrl, field),
{
    match key {
        FormKey::Esc => EntryFormCommand::Cancel,
        FormKey::Tab => if shift {
            EntryFormCommand::PrevField
        } else {
            EntryFormCommand::NextField
        },
        FormKey::BackTab => EntryFormCommand::PrevField,
        FormKey::Char(c) if ctrl && (c == 's' || c == 'S') => EntryFormCommand::Save,
        _ => if field.is_textarea() {
            match text_key(key) {
                Some(k) => EntryFormCommand::Text(k),
                None => EntryFormCommand::Nothing,
            }
        } else {
            match key {
                FormKey::Enter => EntryFormCommand::Save,
                FormKey::Backspace => EntryFormCommand::Backspace,
                FormKey::Left => cycle_command(field, false, EntryFormCommand::CursorLeft),
                FormKey::Right => cycle_command(field, true, EntryFormCommand::CursorRight),
                FormKey::Up => cycle_command(field, false, EntryFormCommand::Nothing),
                FormKey::Down => cycle_command(field, true, EntryFormCommand::Nothing),
                FormKey::Char(c) => EntryFormCommand::Type(c),
                _ => EntryFormCommand::Nothing,
            }
        },
    }
}

/// What a key does in the form that adds or edits a client, project or activity.
#[derive(Debug, Clone, Copy, PartialEq, Eq, Structural)]
pub enum ManageFormCommand {
    Cancel,
    NextField,
    Save,
    Backspace,
    CursorLeft,
    CursorRight,
    Type(char),
    Nothing,
}

pub open spec fn manage_form_command_of(key: FormKey) -> ManageFormCommand {
    match key {
        FormKey::Esc => ManageFormCommand::Cancel,
        FormKey::Tab => ManageFormCommand::NextField,
        FormKey::Enter => ManageFormCommand::Save,
        FormKey::Backspace => ManageFormCommand::Backspace,
        FormKey::Left => ManageFormCommand::CursorLeft,
        FormKey::Right => ManageFormCommand::CursorRight,
        FormKey::Char(c) => ManageFormCommand::Type(c),
        _ => ManageFormCommand::Nothing,
    }
}

/// What a key does in the manage form.
pub fn manage_form_command(key: FormKey) -> (r: ManageFormCommand)
    ensures
        r == manage_form_command_of(key),
{
    match key {
        FormKey::Esc => ManageFormCommand::Cancel,
        FormKey::Tab => ManageFormCommand::NextField,
        FormKey::Enter => ManageFormCommand::Save,
        FormKey::Backspace => ManageFormCommand::Backspace,
        FormKey::Left => ManageFormCommand::CursorLeft,
        FormKey::Right => ManageFormCommand::CursorRight,
        FormKey::Char(c) => ManageFormCommand::Type(c),
        _ => ManageFormCommand::Nothing,
    }
}

} // verus!
