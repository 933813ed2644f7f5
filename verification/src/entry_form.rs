//! The entry form: its fields, the cursor in its one-line inputs, the choice of
//! client, project and activity, the times it reads, and the conversion between
//! stored text, where line breaks are written `<br>`, and the lines of a
//! multi-line input.
use vstd::prelude::*;

use crate::calendar::valid_day;
use crate::config::AppConfig;
use crate::datetime::{clock_text, parsed_datetime, DateTime};
use crate::export::br_tag;
use crate::model::{entries_view, Activity, Client, EntryView, NewEntry, Project, TimeEntry};
use crate::overlap::{find_overlaps, opt_entry_view, overlap_list};
use crate::textarea::{area_lines, lines_after_key, lines_view, TextInput, TextKey};
use crate::text::{
    byte_length, chars_of, push_char, push_str, string_insert, string_of, string_remove, utf8,
};
use crate::time_utils::{duration_text, format_duration};

verus! {

#[derive(Debug, Clone, Copy, PartialEq, Eq, Structural)]
pub enum FormMode {
    Create,
    Edit,
}

#[derive(Debug, Clone, Copy, PartialEq, Eq, Structural)]
pub enum FormField {
    Start,
    End,
    Client,
    Project,
    Activity,
    Description,
    Notes,
}

impl FormField {
    /// The field order: Start, End, Client, Project, Activity, Description, Notes,
    /// then Start again.
    pub open spec fn after(self) -> FormField {
        match self {
            FormField::Start => FormField::End,
            FormField::End => FormField::Client,
            FormField::Client => FormField::Project,
            FormField::Project => FormField::Activity,
            FormField::Activity => FormField::Description,
            FormField::Description => FormField::Notes,
            FormField::Notes => FormField::Start,
        }
    }

    pub fn next(self) -> (r: FormField)
        ensures
            r == self.after(),
    {
        match self {
            FormField::Start => FormField::End,
            FormField::End => FormField::Client,
            FormField::Client => FormField::Project,
            FormField::Project => FormField::Activity,
            FormField::Activity => FormField::Description,
            FormField::Description => FormField::Notes,
            FormField::Notes => FormField::Start,
        }
    }

    pub fn prev(self) -> (r: FormField)
        ensures
            r.after() == self,
    {
        match self {
            FormField::Start => FormField::Notes,
            FormField::End => FormField::Start,
            FormField::Client => FormField::End,
            FormField::Project => FormField::Client,
            FormField::Activity => FormField::Project,
            FormField::Description => FormField::Activity,
            FormField::Notes => FormField::Description,
        }
    }

    /// Description and Notes are multi-line inputs.
    pub fn is_textarea(self) -> (r: bool)
        ensures
            r == (self == FormField::Description || self == FormField::Notes),
    {
        match self {
            FormField::Description | FormField::Notes => true,
            _ => false,
        }
    }
}

/// `str::split("<br>")`: the pieces between the `<br>` found from left to right
/// (one empty piece for empty text).
pub open spec fn split_br(s: Seq<char>) -> Seq<Seq<char>>
    decreases s.len(),
{
    if s.len() == 0 {
        seq![Seq::<char>::empty()]
    } else if s.len() >= 4 && s.take(4) == br_tag() {
        seq![Seq::<char>::empty()] + split_br(s.skip(4))
    } else {
        let rest = split_br(s.skip(1));
        rest.update(0, seq![s[0]] + rest[0])
    }
}

/// The lines joined with `<br>` between them.
pub open spec fn join_br(lines: Seq<Seq<char>>) -> Seq<char>
    decreases lines.len(),
{
    if lines.len() == 0 {
        Seq::empty()
    } else if lines.len() == 1 {
        lines[0]
    } else {
        lines[0] + br_tag() + join_br(lines.skip(1))
    }
}

proof fn lemma_split_nonempty(s: Seq<char>)
    ensures
        split_br(s).len() >= 1,
    decreases s.len(),
{
    if s.len() > 0 {
        if s.len() >= 4 && s.take(4) == br_tag() {
            lemma_split_nonempty(s.skip(4));
        } else {
            lemma_split_nonempty(s.skip(1));
        }
    }
}

/// Joining the pieces of a split with `<br>` gives back the text.
pub proof fn lemma_join_split(s: Seq<char>)
    ensures
        join_br(split_br(s)) == s,
    decreases s.len(),
{
    if s.len() == 0 {
    } else if s.len() >= 4 && s.take(4) == br_tag() {
        lemma_join_split(s.skip(4));
        lemma_split_nonempty(s.skip(4));
        let parts = seq![Seq::<char>::empty()] + split_br(s.skip(4));
        assert(parts.skip(1) =~= split_br(s.skip(4)));
        assert(s =~= Seq::<char>::empty() + br_tag() + s.skip(4));
    } else {
        lemma_join_split(s.skip(1));
        lemma_split_nonempty(s.skip(1));
        let rest = split_br(s.skip(1));
        let parts = rest.update(0, seq![s[0]] + rest[0]);
        assert(parts.skip(1) =~= rest.skip(1));
        assert(s =~= seq![s[0]] + s.skip(1));
    }
}

proof fn lemma_join_push(lines: Seq<Seq<char>>, x: Seq<char>)
    requires
        lines.len() >= 1,
    ensures
        join_br(lines.push(x)) == join_br(lines) + br_tag() + x,
    decreases lines.len(),
{
    let all = lines.push(x);
    assert(all[0] == lines[0]);
    if lines.len() == 1 {
        assert(all.skip(1) =~= seq![x]);
        assert(join_br(seq![x]) == x);
        assert(join_br(all) == lines[0] + br_tag() + x);
    } else {
        lemma_join_push(lines.skip(1), x);
        assert(all.skip(1) =~= lines.skip(1).push(x));
        assert(join_br(all) == lines[0] + br_tag() + join_br(lines.skip(1).push(x)));
        assert(join_br(all) =~= join_br(lines) + br_tag() + x);
    }
}

/// Convert a stored string (with `<br>` tags) to textarea lines.
pub fn to_textarea_lines(s: &str) -> (r: Vec<String>)
    ensures
        r@.map_values(|l: String| l@) == split_br(s@),
{
    let v = chars_of(s);
    let mut done: Vec<String> = Vec::new();
    let mut cur: Vec<char> = Vec::new();
    let mut i: usize = 0;
    assert(v@.skip(0) =~= v@);
    proof {
        lemma_split_nonempty(v@);
        assert(split_br(v@) =~= seq![cur@ + split_br(v@)[0]] + split_br(v@).skip(1));
        assert(done@.map_values(|l: String| l@) =~= Seq::<Seq<char>>::empty());
    }
    while i < v.len()
        invariant
            v@ == s@,
            i <= v.len(),
            ({
                let rest = split_br(v@.skip(i as int));
                &&& rest.len() >= 1
                &&& done@.map_values(|l: String| l@) + seq![cur@ + rest[0]] + rest.skip(1) == split_br(v@)
            }),
        decreases v.len() - i,
    {
        let ghost r = v@.skip(i as int);
        let ghost pieces = done@.map_values(|l: String| l@);
        if v.len() - i >= 4 && v[i] == '<' && v[i + 1] == 'b' && v[i + 2] == 'r' && v[i + 3] == '>' {
            proof {
                assert(r.take(4) =~= br_tag());
                assert(r.skip(4) =~= v@.skip(i + 4));
                lemma_split_nonempty(r.skip(4));
            }
            let piece = string_of(&cur);
            done.push(piece);
            cur = Vec::new();
            i = i + 4;
            proof {
                let rest2 = split_br(v@.skip(i as int));
                assert(split_br(r) == seq![Seq::<char>::empty()] + rest2);
                assert(done@.map_values(|l: String| l@) =~= pieces.push(piece@));
                assert(pieces + seq![piece@ + Seq::<char>::empty()] + (seq![Seq::<char>::empty()] + rest2).skip(1)
                    =~= pieces.push(piece@) + seq![cur@ + rest2[0]] + rest2.skip(1));
            }
        } else {
            proof {
                assert(!(r.len() >= 4 && r.take(4) == br_tag())) by {
                    if r.len() >= 4 && r.take(4) == br_tag() {
                        assert(r.take(4)[0] == v@[i as int]);
                        assert(r.take(4)[1] == v@[i + 1]);
                        assert(r.take(4)[2] == v@[i + 2]);
                        assert(r.take(4)[3] == v@[i + 3]);
                    }
                }
                assert(r.skip(1) =~= v@.skip(i + 1));
                lemma_split_nonempty(r.skip(1));
            }
            let ghost old_cur = cur@;
            cur.push(v[i]);
            i = i + 1;
            proof {
                let rest2 = split_br(v@.skip(i as int));
                assert(split_br(r) == rest2.update(0, seq![r[0]] + rest2[0]));
                assert(r[0] == v@[i - 1]);
                assert(old_cur + (seq![r[0]] + rest2[0]) =~= cur@ + rest2[0]);
                assert(rest2.update(0, seq![r[0]] + rest2[0]).skip(1) =~= rest2.skip(1));
            }
        }
    }
    proof {
        assert(v@.skip(i as int) =~= Seq::<char>::empty());
    }
    let ghost pieces = done@.map_values(|l: String| l@);
    let last = string_of(&cur);
    done.push(last);
    proof {
        assert(done@.map_values(|l: String| l@) =~= pieces.push(last@));
        assert(pieces + seq![cur@ + Seq::<char>::empty()] + seq![Seq::<char>::empty()].skip(1) =~= pieces.push(last@));
    }
    done
}

/// Joins lines with `<br>` between them, for storage.
pub fn join_lines(lines: &Vec<String>) -> (r: String)
    ensures
        r@ == join_br(lines@.map_values(|l: String| l@)),
{
    let ghost ls = lines@.map_values(|l: String| l@);
    let mut out = String::new();
    if lines.len() == 0 {
        return out;
    }
    push_str(&mut out, lines[0].as_str());
    assert(ls.take(1) =~= seq![ls[0]]);
    let mut i: usize = 1;
    while i < lines.len()
        invariant
            ls == lines@.map_values(|l: String| l@),
            1 <= i <= lines.len(),
            out@ == join_br(ls.take(i as int)),
        decreases lines.len() - i,
    {
        push_str(&mut out, "<br>");
        proof {
            reveal_strlit("<br>");
            assert("<br>"@ =~= br_tag());
        }
        push_str(&mut out, lines[i].as_str());
        proof {
            lemma_join_push(ls.take(i as int), ls[i as int]);
            assert(ls.take(i + 1) =~= ls.take(i as int).push(ls[i as int]));
        }
        i = i + 1;
    }
    assert(ls.take(lines.len() as int) =~= ls);
    out
}

/// The state of the entry form. The Description and Notes inputs are text
/// areas, which do the editing within them.
pub struct EntryFormState {
    pub mode: FormMode,
    pub original: Option<TimeEntry>,
    pub start_input: String,
    pub end_input: String,
    pub client_idx: usize,
    /// 0 for no project, else the project's position plus one.
    pub project_idx: usize,
    /// 0 for no activity, else the activity's position plus one.
    pub activity_idx: usize,
    pub description_textarea: TextInput,
    pub notes_textarea: TextInput,
    pub focused_field: FormField,
    pub overlap_warning: Option<String>,
    pub error_message: Option<String>,
    /// Byte offset of the cursor within the Start or End input.
    pub cursor_pos: usize,
    /// The row of each field on screen, for clicks.
    pub field_positions: Vec<(FormField, u16)>,
}

/// The index of the first client from `i` on that is not archived, or 0.
pub open spec fn first_active_from(clients: Seq<Client>, i: int) -> int
    decreases clients.len() - i,
{
    if i < 0 || i >= clients.len() {
        0
    } else if !clients[i].archived {
        i
    } else {
        first_active_from(clients, i + 1)
    }
}

/// The index of the first client from `i` on with the given id.
pub open spec fn client_position(clients: Seq<Client>, id: Seq<char>, i: int) -> Option<int>
    decreases clients.len() - i,
{
    if i < 0 || i >= clients.len() {
        None
    } else if clients[i].id@ == id {
        Some(i)
    } else {
        client_position(clients, id, i + 1)
    }
}

pub open spec fn project_position(ps: Seq<Project>, id: Seq<char>, i: int) -> Option<int>
    decreases ps.len() - i,
{
    if i < 0 || i >= ps.len() {
        None
    } else if ps[i].id@ == id {
        Some(i)
    } else {
        project_position(ps, id, i + 1)
    }
}

pub open spec fn activity_position(acts: Seq<Activity>, id: Seq<char>, i: int) -> Option<int>
    decreases acts.len() - i,
{
    if i < 0 || i >= acts.len() {
        None
    } else if acts[i].id@ == id {
        Some(i)
    } else {
        activity_position(acts, id, i + 1)
    }
}

/// The chosen project of an entry being edited: its position plus one in the
/// client's projects, or 0.
pub open spec fn project_choice(clients: Seq<Client>, ci: int, project: Option<Seq<char>>) -> int {
    match project {
        Some(pid) => if 0 <= ci < clients.len() {
            match project_position(clients[ci].projects@, pid, 0) {
                Some(p) => p + 1,
                None => 0,
            }
        } else {
            0
        },
        None => 0,
    }
}

pub open spec fn activity_choice(clients: Seq<Client>, ci: int, activity: Option<Seq<char>>) -> int {
    match activity {
        Some(aid) => if 0 <= ci < clients.len() {
            match activity_position(clients[ci].activities@, aid, 0) {
                Some(p) => p + 1,
                None => 0,
            }
        } else {
            0
        },
        None => 0,
    }
}

/// The indices of the clients among the first `k` that are not archived.
pub open spec fn active_indices(clients: Seq<Client>, k: int) -> Seq<int>
    decreases k,
{
    if k <= 0 {
        Seq::empty()
    } else if !clients[k - 1].archived {
        active_indices(clients, k - 1).push(k - 1)
    } else {
        active_indices(clients, k - 1)
    }
}

/// The first position of `x` in `s` from `i` on.
pub open spec fn index_in(s: Seq<int>, x: int, i: int) -> Option<int>
    decreases s.len() - i,
{
    if i < 0 || i >= s.len() {
        None
    } else if s[i] == x {
        Some(i)
    } else {
        index_in(s, x, i + 1)
    }
}

/// The client after (or before) the current one among those not archived,
/// going round; from the first where the current one is archived.
pub open spec fn cycled_client(clients: Seq<Client>, current: int, forward: bool) -> int {
    let act = active_indices(clients, clients.len() as int);
    let cur = match index_in(act, current, 0) {
        Some(p) => p,
        None => 0,
    };
    let n = act.len() as int;
    act[if forward {
        (cur + 1) % n
    } else {
        (cur + n - 1) % n
    }]
}

/// The start and end that the inputs give: the end read as a date-time, else
/// `duration` minutes after the start, where the end input reads as a duration.
pub open spec fn form_times(start_text: Seq<char>, end_text: Seq<char>, duration: Option<i64>) -> Option<
    (DateTime, DateTime),
> {
    match parsed_datetime(start_text) {
        None => None,
        Some(s) => match parsed_datetime(end_text) {
            Some(e) => Some((s, e)),
            None => match duration {
                Some(m) => Some(
                    (
                        s,
                        DateTime {
                            day: ((s.stamp() + m) / 1440) as i32,
                            minute: ((s.stamp() + m) % 1440) as u32,
                        },
                    ),
                ),
                None => None,
            },
        },
    }
}

/// Where the end is a duration after the start, it ends within the range of dates.
pub open spec fn duration_fits(start_text: Seq<char>, end_text: Seq<char>, duration: Option<i64>) -> bool {
    match parsed_datetime(start_text) {
        Some(s) => match parsed_datetime(end_text) {
            None => match duration {
                Some(m) => valid_day((s.stamp() + m) / 1440),
                None => true,
            },
            Some(_) => true,
        },
        None => true,
    }
}

/// The field at screen row `y`: the first listed there.
pub open spec fn field_at(positions: Seq<(FormField, u16)>, y: u16, i: int) -> Option<FormField>
    decreases positions.len() - i,
{
    if i < 0 || i >= positions.len() {
        None
    } else if positions[i].1 == y {
        Some(positions[i].0)
    } else {
        field_at(positions, y, i + 1)
    }
}

/// The warning shown for a conflicting entry.
pub open spec fn overlap_warning_text(c: EntryView) -> Seq<char> {
    "Overlaps with: "@ + clock_text(c.start.minute as int) + " – "@ + clock_text(c.end.minute as int)
        + " "@ + c.description
}

/// The view of an optional entry.
pub open spec fn original_view(o: Option<TimeEntry>) -> Option<EntryView> {
    match o {
        Some(e) => Some(e@),
        None => None,
    }
}

/// The name shown where nothing is chosen.
pub open spec fn none_label() -> Seq<char> {
    "(none)"@
}

impl EntryFormState {
    /// The text of the one-line input under the cursor (empty for other fields).
    pub open spec fn line_text(&self) -> Seq<char> {
        match self.focused_field {
            FormField::Start => self.start_input@,
            FormField::End => self.end_input@,
            _ => Seq::empty(),
        }
    }

    /// The Start and End inputs can be measured in bytes.
    pub open spec fn measurable(&self) -> bool {
        utf8(self.start_input@).len() <= usize::MAX && utf8(self.end_input@).len() <= usize::MAX
    }

    /// Only the focus and the cursor changed.
    pub open spec fn same_but_cursor(&self, other: EntryFormState) -> bool {
        &&& other.mode == self.mode
        &&& other.original == self.original
        &&& other.start_input@ == self.start_input@
        &&& other.end_input@ == self.end_input@
        &&& other.client_idx == self.client_idx
        &&& other.project_idx == self.project_idx
        &&& other.activity_idx == self.activity_idx
        &&& other.description_textarea == self.description_textarea
        &&& other.notes_textarea == self.notes_textarea
        &&& other.overlap_warning == self.overlap_warning
        &&& other.error_message == self.error_message
        &&& other.field_positions@ == self.field_positions@
    }

    /// The times the inputs give, with `duration` what the end input reads as.
    pub open spec fn times(&self, duration: Option<i64>) -> Option<(DateTime, DateTime)> {
        form_times(self.start_input@, self.end_input@, duration)
    }

    /// A form for a new entry over `start`..`end`, on the first client not
    /// archived, with no project or activity, focused on the client.
    pub fn new_create(start: DateTime, end: DateTime, config: &AppConfig) -> (r: EntryFormState)
        requires
            start.wf(),
            end.wf(),
        ensures
            r.mode == FormMode::Create,
            r.original is None,
            r.start_input@ == start.text(),
            r.end_input@ == end.text(),
            r.client_idx == first_active_from(config.clients@, 0),
            r.project_idx == 0,
            r.activity_idx == 0,
            area_lines(r.description_textarea) == seq![Seq::<char>::empty()],
            area_lines(r.notes_textarea) == seq![Seq::<char>::empty()],
            r.focused_field == FormField::Client,
            r.overlap_warning is None,
            r.error_message is None,
            r.cursor_pos == 0,
            r.field_positions@.len() == 0,
    {
        let client_idx = first_active_client(&config.clients);
        let description_lines = vec![String::new()];
        let notes_lines = vec![String::new()];
        assert(lines_view(description_lines@) =~= seq![Seq::<char>::empty()]);
        assert(lines_view(notes_lines@) =~= seq![Seq::<char>::empty()]);
        EntryFormState {
            mode: FormMode::Create,
            original: None,
            start_input: start.format(),
            end_input: end.format(),
            client_idx,
            project_idx: 0,
            activity_idx: 0,
            description_textarea: TextInput::from_lines(description_lines),
            notes_textarea: TextInput::from_lines(notes_lines),
            focused_field: FormField::Client,
            overlap_warning: None,
            error_message: None,
            cursor_pos: 0,
            field_positions: Vec::new(),
        }
    }

    /// A form editing `entry`: its client (else the first), its project and
    /// activity where that client has them, its texts split into lines, focused
    /// on the description with the cursor at most sixteen bytes in.
    pub fn new_edit(entry: &TimeEntry, config: &AppConfig) -> (r: EntryFormState)
        requires
            entry.wf(),
            utf8(entry.description@).len() <= usize::MAX,
        ensures
            r.mode == FormMode::Edit,
            original_view(r.original) == Some(entry@),
            r.start_input@ == entry.start.text(),
            r.end_input@ == entry.end.text(),
            r.client_idx == match client_position(config.clients@, entry.client@, 0) {
                Some(i) => i,
                None => 0,
            },
            r.project_idx == project_choice(
                config.clients@,
                r.client_idx as int,
                entry@.project,
            ),
            r.activity_idx == activity_choice(
                config.clients@,
                r.client_idx as int,
                entry@.activity,
            ),
            area_lines(r.description_textarea) == split_br(entry.description@),
            area_lines(r.notes_textarea) == split_br(
                match entry@.notes {
                    Some(n) => n,
                    None => Seq::<char>::empty(),
                },
            ),
            r.focused_field == FormField::Description,
            r.overlap_warning is None,
            r.error_message is None,
            r.cursor_pos == if utf8(entry.description@).len() < 16 {
                utf8(entry.description@).len()
            } else {
                16
            },
            r.field_positions@.len() == 0,
    {
        let client_idx = match find_client_index(&config.clients, entry.client.as_str()) {
            Some(i) => i,
            None => 0,
        };
        let project_idx = match &entry.project {
            Some(pid) => if client_idx < config.clients.len() {
                let _np = config.clients[client_idx].projects.len();
                match find_project_index(&config.clients[client_idx].projects, pid.as_str()) {
                    Some(p) => p + 1,
                    None => 0,
                }
            } else {
                0
            },
            None => 0,
        };
        let activity_idx = match &entry.activity {
            Some(aid) => if client_idx < config.clients.len() {
                let _na = config.clients[client_idx].activities.len();
                match find_activity_index(&config.clients[client_idx].activities, aid.as_str()) {
                    Some(a) => a + 1,
                    None => 0,
                }
            } else {
                0
            },
            None => 0,
        };
        let description_lines = to_textarea_lines(entry.description.as_str());
        let notes_lines = match &entry.notes {
            Some(n) => to_textarea_lines(n.as_str()),
            None => to_textarea_lines(""),
        };
        proof {
            reveal_strlit("");
            lemma_split_nonempty(entry.description@);
            lemma_split_nonempty(
                match entry@.notes {
                    Some(n) => n,
                    None => Seq::<char>::empty(),
                },
            );
        }
        let len = byte_length(entry.description.as_str());
        EntryFormState {
            mode: FormMode::Edit,
            original: Some(entry.duplicate()),
            start_input: entry.start.format(),
            end_input: entry.end.format(),
            client_idx,
            project_idx,
            activity_idx,
            description_textarea: TextInput::from_lines(description_lines),
            notes_textarea: TextInput::from_lines(notes_lines),
            focused_field: FormField::Description,
            overlap_warning: None,
            error_message: None,
            cursor_pos: if len < 16 {
                len
            } else {
                16
            },
            field_positions: Vec::new(),
        }
    }

    /// Focuses the field shown on row `y`, where one is.
    pub fn click_at(&mut self, x: u16, y: u16)
        requires
            old(self).measurable(),
        ensures
            match field_at(old(self).field_positions@, y, 0) {
                Some(f) => final(self).focused_field == f && final(self).cursor_pos == utf8(
                    final(self).line_text(),
                ).len(),
                None => final(self).focused_field == old(self).focused_field && final(self).cursor_pos
                    == old(self).cursor_pos,
            },
            old(self).same_but_cursor(*final(self)),
    {
        let mut i: usize = 0;
        while i < self.field_positions.len()
            invariant
                i <= self.field_positions@.len(),
                *self == *old(self),
                self.measurable(),
                field_at(self.field_positions@, y, 0) == field_at(self.field_positions@, y, i as int),
            decreases self.field_positions@.len() - i,
        {
            let (field, field_y) = self.field_positions[i];
            if y == field_y {
                self.focused_field = field;
                self.update_cursor_for_field();
                return;
            }
            i = i + 1;
        }
    }

    pub fn next_field(&mut self)
        requires
            old(self).measurable(),
        ensures
            final(self).focused_field == old(self).focused_field.after(),
            final(self).cursor_pos == utf8(final(self).line_text()).len(),
            old(self).same_but_cursor(*final(self)),
    {
        self.focused_field = self.focused_field.next();
        self.update_cursor_for_field();
    }

    pub fn prev_field(&mut self)
        requires
            old(self).measurable(),
        ensures
            final(self).focused_field.after() == old(self).focused_field,
            final(self).cursor_pos == utf8(final(self).line_text()).len(),
            old(self).same_but_cursor(*final(self)),
    {
        self.focused_field = self.focused_field.prev();
        self.update_cursor_for_field();
    }

    /// Puts the cursor at the end of the focused one-line input (0 elsewhere).
    pub fn update_cursor_for_field(&mut self)
        requires
            old(self).measurable(),
        ensures
            final(self).cursor_pos == utf8(old(self).line_text()).len(),
            final(self).focused_field == old(self).focused_field,
            old(self).same_but_cursor(*final(self)),
    {
        self.cursor_pos = match self.focused_field {
            FormField::Start => byte_length(self.start_input.as_str()),
            FormField::End => byte_length(self.end_input.as_str()),
            _ => 0,
        };
    }

    /// Everything but the Description and Notes text areas is alike.
    pub open spec fn same_but_text(&self, other: EntryFormState) -> bool {
        &&& other.mode == self.mode
        &&& other.original == self.original
        &&& other.start_input@ == self.start_input@
        &&& other.end_input@ == self.end_input@
        &&& other.client_idx == self.client_idx
        &&& other.project_idx == self.project_idx
        &&& other.activity_idx == self.activity_idx
        &&& other.focused_field == self.focused_field
        &&& other.overlap_warning == self.overlap_warning
        &&& other.error_message == self.error_message
        &&& other.cursor_pos == self.cursor_pos
        &&& other.field_positions@ == self.field_positions@
    }

    /// Hands a key to the focused text area (Description or Notes), which edits
    /// its lines; says whether one was focused. Elsewhere nothing changes.
    pub fn handle_textarea_input(&mut self, key: TextKey, ctrl: bool, alt: bool, shift: bool) -> (r:
        bool)
        ensures
            r == (old(self).focused_field == FormField::Description || old(self).focused_field
                == FormField::Notes),
            old(self).same_but_text(*final(self)),
            old(self).focused_field == FormField::Description ==> area_lines(
                final(self).description_textarea,
            ) == lines_after_key(old(self).description_textarea, key, ctrl, alt, shift)
                && final(self).notes_textarea == old(self).notes_textarea,
            old(self).focused_field == FormField::Notes ==> area_lines(final(self).notes_textarea)
                == lines_after_key(old(self).notes_textarea, key, ctrl, alt, shift)
                && final(self).description_textarea == old(self).description_textarea,
            !r ==> *final(self) == *old(self),
    {
        match self.focused_field {
            FormField::Description => {
                self.description_textarea.input(key, ctrl, alt, shift);
                true
            },
            FormField::Notes => {
                self.notes_textarea.input(key, ctrl, alt, shift);
                true
            },
            _ => false,
        }
    }

    /// The next (or previous) client not archived, going round; the project and
    /// activity are cleared. Nothing changes where every client is archived.
    pub fn cycle_client(&mut self, config: &AppConfig, forward: bool)
        ensures
            active_indices(config.clients@, config.clients@.len() as int).len() == 0 ==> *final(self)
                == *old(self),
            active_indices(config.clients@, config.clients@.len() as int).len() > 0 ==> final(self).client_idx == cycled_client(config.clients@, old(self).client_idx as int, forward)
                && final(self).project_idx == 0 && final(self).activity_idx == 0,
            final(self).focused_field == old(self).focused_field,
            final(self).cursor_pos == old(self).cursor_pos,
            final(self).start_input@ == old(self).start_input@,
            final(self).end_input@ == old(self).end_input@,
    {
        let active = active_client_indices(&config.clients);
        if active.len() == 0 {
            return;
        }
        let ghost act = active_indices(config.clients@, config.clients@.len() as int);
        let mut current_pos: usize = 0;
        let mut found = false;
        let mut k: usize = 0;
        while k < active.len()
            invariant
                k <= active@.len(),
                act == active@.map_values(|i: usize| i as int),
                !found ==> index_in(act, self.client_idx as int, 0) == index_in(act, self.client_idx as int, k as int),
                found ==> index_in(act, self.client_idx as int, 0) == Some(current_pos as int),
                !found ==> current_pos == 0,
                current_pos < active@.len(),
            decreases active@.len() - k,
        {
            if !found && active[k] == self.client_idx {
                current_pos = k;
                found = true;
            }
            k = k + 1;
        }
        let n = active.len();
        let new_pos = if forward {
            (current_pos + 1) % n
        } else {
            if current_pos == 0 {
                n - 1
            } else {
                current_pos - 1
            }
        };
        proof {
            let cur = current_pos as int;
            let nn = n as int;
            if !forward && cur > 0 {
                vstd::arithmetic::div_mod::lemma_mod_add_multiples_vanish(cur - 1, nn);
                vstd::arithmetic::div_mod::lemma_small_mod((cur - 1) as nat, nn as nat);
                assert((cur + nn - 1) % nn == cur - 1);
            }
            if !forward && cur == 0 {
                vstd::arithmetic::div_mod::lemma_small_mod((nn - 1) as nat, nn as nat);
            }
            assert(act[new_pos as int] == active@[new_pos as int] as int);
        }
        self.client_idx = active[new_pos];
        self.project_idx = 0;
        self.activity_idx = 0;
    }

    /// The next (or previous) project of the client, going round through "no
    /// project" (0).
    pub fn cycle_project(&mut self, config: &AppConfig, forward: bool)
        requires
            old(self).project_idx + (if (old(self).client_idx as int) < config.clients@.len() {
                config.clients@[old(self).client_idx as int].projects@.len() as int
            } else {
                0
            }) + 1 <= usize::MAX,
        ensures
            ({
                let count = (if (old(self).client_idx as int) < config.clients@.len() {
                    config.clients@[old(self).client_idx as int].projects@.len() as int
                } else {
                    0
                }) + 1;
                final(self).project_idx == if forward {
                    (old(self).project_idx + 1) % count
                } else {
                    (old(self).project_idx + count - 1) % count
                }
            }),
            final(self).client_idx == old(self).client_idx,
            final(self).activity_idx == old(self).activity_idx,
            final(self).focused_field == old(self).focused_field,
    {
        let count = if self.client_idx < config.clients.len() {
            config.clients[self.client_idx].projects.len()
        } else {
            0
        } + 1;
        if forward {
            self.project_idx = (self.project_idx + 1) % count;
        } else {
            self.project_idx = (self.project_idx + count - 1) % count;
        }
    }

    /// The next (or previous) activity of the client, going round through "no
    /// activity" (0).
    pub fn cycle_activity(&mut self, config: &AppConfig, forward: bool)
        requires
            old(self).activity_idx + (if (old(self).client_idx as int) < config.clients@.len() {
                config.clients@[old(self).client_idx as int].activities@.len() as int
            } else {
                0
            }) + 1 <= usize::MAX,
        ensures
            ({
                let count = (if (old(self).client_idx as int) < config.clients@.len() {
                    config.clients@[old(self).client_idx as int].activities@.len() as int
                } else {
                    0
                }) + 1;
                final(self).activity_idx == if forward {
                    (old(self).activity_idx + 1) % count
                } else {
                    (old(self).activity_idx + count - 1) % count
                }
            }),
            final(self).client_idx == old(self).client_idx,
            final(self).project_idx == old(self).project_idx,
            final(self).focused_field == old(self).focused_field,
    {
        let count = if self.client_idx < config.clients.len() {
            config.clients[self.client_idx].activities.len()
        } else {
            0
        } + 1;
        if forward {
            self.activity_idx = (self.activity_idx + 1) % count;
        } else {
            self.activity_idx = (self.activity_idx + count - 1) % count;
        }
    }

    /// Types a character at the cursor of the Start or End input; other fields
    /// take their text through their own input.
    pub fn type_char(&mut self, ch: char)
        requires
            old(self).focused_field == FormField::Start || old(self).focused_field == FormField::End
                ==> vstd::utf8::is_char_boundary(
                utf8(old(self).line_text()),
                old(self).cursor_pos as int,
            ) && old(self).cursor_pos < usize::MAX,
        ensures
            final(self).focused_field == old(self).focused_field,
            old(self).focused_field == FormField::Start || old(self).focused_field == FormField::End
                ==> utf8(final(self).line_text()) == utf8(old(self).line_text()).take(
                old(self).cursor_pos as int,
            ) + utf8(seq![ch]) + utf8(old(self).line_text()).skip(old(self).cursor_pos as int)
                && final(self).cursor_pos == old(self).cursor_pos + 1,
            old(self).focused_field == FormField::Start ==> final(self).end_input@ == old(self).end_input@,
            old(self).focused_field == FormField::End ==> final(self).start_input@ == old(self).start_input@,
            !(old(self).focused_field == FormField::Start || old(self).focused_field
                == FormField::End) ==> *final(self) == *old(self),
    {
        match self.focused_field {
            FormField::Start => {
                string_insert(&mut self.start_input, self.cursor_pos, ch);
                self.cursor_pos = self.cursor_pos + 1;
            },
            FormField::End => {
                string_insert(&mut self.end_input, self.cursor_pos, ch);
                self.cursor_pos = self.cursor_pos + 1;
            },
            _ => {},
        }
    }

    /// In the Start or End input, moves the cursor back one byte and removes the
    /// character that starts there.
    pub fn backspace(&mut self)
        requires
            (old(self).focused_field == FormField::Start || old(self).focused_field
                == FormField::End) && old(self).cursor_pos > 0 ==> vstd::utf8::is_char_boundary(
                utf8(old(self).line_text()),
                old(self).cursor_pos - 1,
            ) && old(self).cursor_pos - 1 < utf8(old(self).line_text()).len(),
        ensures
            final(self).focused_field == old(self).focused_field,
            (old(self).focused_field == FormField::Start || old(self).focused_field
                == FormField::End) && old(self).cursor_pos > 0 ==> final(self).cursor_pos == old(self).cursor_pos - 1 && exists|c: char|
                utf8(final(self).line_text()) == utf8(old(self).line_text()).take(
                    old(self).cursor_pos - 1,
                ) + utf8(old(self).line_text()).skip(old(self).cursor_pos - 1 + utf8(seq![c]).len())
                    && utf8(old(self).line_text()).subrange(
                    old(self).cursor_pos - 1,
                    old(self).cursor_pos - 1 + utf8(seq![c]).len(),
                ) == #[trigger] utf8(seq![c]),
            !((old(self).focused_field == FormField::Start || old(self).focused_field
                == FormField::End) && old(self).cursor_pos > 0) ==> *final(self) == *old(self),
    {
        match self.focused_field {
            FormField::Start => if self.cursor_pos > 0 {
                self.cursor_pos = self.cursor_pos - 1;
                let _c = string_remove(&mut self.start_input, self.cursor_pos);
            },
            FormField::End => if self.cursor_pos > 0 {
                self.cursor_pos = self.cursor_pos - 1;
                let _c = string_remove(&mut self.end_input, self.cursor_pos);
            },
            _ => {},
        }
    }

    pub fn cursor_left(&mut self)
        ensures
            final(self).cursor_pos == if old(self).cursor_pos > 0 {
                old(self).cursor_pos - 1
            } else {
                0
            },
            final(self).focused_field == old(self).focused_field,
            old(self).same_but_cursor(*final(self)),
    {
        if self.cursor_pos > 0 {
            self.cursor_pos = self.cursor_pos - 1;
        }
    }

    /// Moves the cursor forward one byte, up to the end of the Start or End input.
    pub fn cursor_right(&mut self)
        requires
            old(self).measurable(),
        ensures
            final(self).cursor_pos == if old(self).cursor_pos < utf8(old(self).line_text()).len() {
                old(self).cursor_pos + 1
            } else {
                old(self).cursor_pos as int
            },
            final(self).focused_field == old(self).focused_field,
            old(self).same_but_cursor(*final(self)),
    {
        let max = match self.focused_field {
            FormField::Start => byte_length(self.start_input.as_str()),
            FormField::End => byte_length(self.end_input.as_str()),
            _ => 0,
        };
        if self.cursor_pos < max {
            self.cursor_pos = self.cursor_pos + 1;
        }
    }

    /// The description, its lines joined with `<br>`.
    pub fn description(&self) -> (r: String)
        ensures
            r@ == join_br(area_lines(self.description_textarea)),
    {
        join_lines(&self.description_textarea.lines())
    }

    /// The notes, their lines joined with `<br>`.
    pub fn notes_value(&self) -> (r: String)
        ensures
            r@ == join_br(area_lines(self.notes_textarea)),
    {
        join_lines(&self.notes_textarea.lines())
    }

    /// The start and end the inputs give: the end read as a date-time, else
    /// `duration` minutes after the start (`duration` is what the end input reads
    /// as, in minutes, where it reads as a duration).
    pub fn parse_times(&self, duration: Option<i64>) -> (r: Option<(DateTime, DateTime)>)
        requires
            duration_fits(self.start_input@, self.end_input@, duration),
        ensures
            r == self.times(duration),
            r matches Some(t) ==> t.0.wf() && t.1.wf(),
    {
        let start = match DateTime::parse(self.start_input.as_str()) {
            Some(s) => s,
            None => return None,
        };
        if let Some(end) = DateTime::parse(self.end_input.as_str()) {
            return Some((start, end));
        }
        match duration {
            Some(minutes) => {
                proof {
                    assert(-0x1_0000_0000_0000 <= minutes <= 0x1_0000_0000_0000);
                }
                match start.plus_minutes(minutes) {
                    Some(end) => {
                        proof {
                            let x = start.stamp() + minutes;
                            vstd::arithmetic::div_mod::lemma_fundamental_div_mod_converse(
                                x,
                                1440,
                                end.day as int,
                                end.minute as int,
                            );
                        }
                        Some((start, end))
                    },
                    None => None,
                }
            },
            None => None,
        }
    }

    /// The entry the form describes: its times, its client, the chosen project
    /// and activity, the description, and the notes where there are any.
    pub fn build_entry(&self, config: &AppConfig, duration: Option<i64>) -> (r: Option<NewEntry>)
        requires
            duration_fits(self.start_input@, self.end_input@, duration),
        ensures
            r is Some <==> self.times(duration) is Some && (self.client_idx as int)
                < config.clients@.len(),
            r matches Some(n) ==> {
                let t = self.times(duration).unwrap();
                let c = config.clients@[self.client_idx as int];
                &&& n.start == t.0
                &&& n.end == t.1
                &&& n.client@ == c.id@
                &&& n.description@ == join_br(area_lines(self.description_textarea))
                &&& n.project.is_some() <==> (self.project_idx > 0 && self.project_idx - 1
                    < c.projects@.len())
                &&& n.project matches Some(p) ==> p@ == c.projects@[self.project_idx - 1].id@
                &&& n.activity.is_some() <==> (self.activity_idx > 0 && self.activity_idx - 1
                    < c.activities@.len())
                &&& n.activity matches Some(a) ==> a@ == c.activities@[self.activity_idx - 1].id@
                &&& n.notes.is_some() <==> join_br(area_lines(self.notes_textarea)).len()
                    > 0
                &&& n.notes matches Some(x) ==> x@ == join_br(area_lines(self.notes_textarea))
            },
    {
        let (start, end) = match self.parse_times(duration) {
            Some(t) => t,
            None => return None,
        };
        if self.client_idx >= config.clients.len() {
            return None;
        }
        let client = &config.clients[self.client_idx];
        let project = if self.project_idx > 0 && self.project_idx - 1 < client.projects.len() {
            Some(client.projects[self.project_idx - 1].id.clone())
        } else {
            None
        };
        let activity = if self.activity_idx > 0 && self.activity_idx - 1 < client.activities.len() {
            Some(client.activities[self.activity_idx - 1].id.clone())
        } else {
            None
        };
        let description = self.description();
        let notes = self.notes_value();
        let notes_len = chars_of(notes.as_str()).len();
        Some(
            NewEntry {
                start,
                end,
                description,
                client: client.id.clone(),
                project,
                activity,
                notes: if notes_len == 0 {
                    None
                } else {
                    Some(notes)
                },
            },
        )
    }

    /// Whether the form can be saved: no overlap warning, times that read, and a
    /// description.
    pub fn can_save(&self, duration: Option<i64>) -> (r: bool)
        requires
            duration_fits(self.start_input@, self.end_input@, duration),
        ensures
            r == (self.overlap_warning is None && self.times(duration) is Some && join_br(area_lines(self.description_textarea)).len() > 0),
    {
        let desc = self.description();
        self.overlap_warning.is_none() && self.parse_times(duration).is_some() && chars_of(
            desc.as_str(),
        ).len() > 0
    }

    /// Sets the warning naming the first existing entry that the form's times
    /// overlap (the entry being edited left out); cleared where none or where the
    /// times do not read.
    pub fn check_overlaps(&mut self, existing: &[TimeEntry], duration: Option<i64>)
        requires
            duration_fits(old(self).start_input@, old(self).end_input@, duration),
            forall|k: int| 0 <= k < existing@.len() ==> (#[trigger] existing@[k]).wf(),
            old(self).original matches Some(x) ==> x.wf(),
        ensures
            crate::files::opt_text(final(self).overlap_warning) == match old(self).times(duration) {
                None => None,
                Some(t) => {
                    let l = overlap_list(
                        t.0,
                        t.1,
                        entries_view(existing@),
                        original_view(old(self).original),
                    );
                    if l.len() > 0 {
                        Some(overlap_warning_text(l[0].1))
                    } else {
                        None
                    }
                },
            },
            old(self).same_but_warning(*final(self)),
    {
        self.overlap_warning = None;
        let (start, end) = match self.parse_times(duration) {
            Some(t) => t,
            None => return,
        };
        let exclude = self.original.as_ref();
        assert(opt_entry_view(exclude) == original_view(self.original));
        let result = find_overlaps(start, end, existing, exclude);
        if result.has_overlaps {
            let c = &result.overlaps[0].conflicting_entry;
            proof {
                assert(result.overlaps@.map_values(|o: crate::overlap::OverlapInfo| crate::overlap::info_view(o))[0]
                    == crate::overlap::info_view(result.overlaps@[0]));
                crate::storage::lemma_overlap_list_wf(
                    start,
                    end,
                    entries_view(existing@),
                    original_view(self.original),
                );
                assert forall|k: int| 0 <= k < entries_view(existing@).len() implies (#[trigger] entries_view(existing@)[k]).wf() by {
                    assert(entries_view(existing@)[k] == existing@[k]@);
                }
            }
            let mut w = String::new();
            push_str(&mut w, "Overlaps with: ");
            let s = c.start.format_clock();
            push_str(&mut w, s.as_str());
            push_str(&mut w, " – ");
            let e = c.end.format_clock();
            push_str(&mut w, e.as_str());
            push_str(&mut w, " ");
            push_str(&mut w, c.description.as_str());
            self.overlap_warning = Some(w);
        }
    }

    /// The warning is the only change.
    pub open spec fn same_but_warning(&self, other: EntryFormState) -> bool {
        &&& other.mode == self.mode
        &&& other.original == self.original
        &&& other.start_input@ == self.start_input@
        &&& other.end_input@ == self.end_input@
        &&& other.client_idx == self.client_idx
        &&& other.project_idx == self.project_idx
        &&& other.activity_idx == self.activity_idx
        &&& other.focused_field == self.focused_field
        &&& other.cursor_pos == self.cursor_pos
    }

    /// The chosen client's name, or `(none)`.
    pub fn client_name<'a>(&self, config: &'a AppConfig) -> (r: &'a str)
        ensures
            r@ == if (self.client_idx as int) < config.clients@.len() {
                config.clients@[self.client_idx as int].name@
            } else {
                none_label()
            },
    {
        if self.client_idx < config.clients.len() {
            config.clients[self.client_idx].name.as_str()
        } else {
            proof {
                reveal_strlit("(none)");
            }
            "(none)"
        }
    }

    /// The chosen project's name, or `(none)`.
    pub fn project_name<'a>(&self, config: &'a AppConfig) -> (r: &'a str)
        ensures
            r@ == if self.project_idx > 0 && (self.client_idx as int) < config.clients@.len()
                && self.project_idx - 1 < config.clients@[self.client_idx as int].projects@.len() {
                config.clients@[self.client_idx as int].projects@[self.project_idx - 1].name@
            } else {
                none_label()
            },
    {
        if self.project_idx > 0 && self.client_idx < config.clients.len() && self.project_idx - 1
            < config.clients[self.client_idx].projects.len() {
            config.clients[self.client_idx].projects[self.project_idx - 1].name.as_str()
        } else {
            proof {
                reveal_strlit("(none)");
            }
            "(none)"
        }
    }

    /// The chosen activity's name, or `(none)`.
    pub fn activity_name<'a>(&self, config: &'a AppConfig) -> (r: &'a str)
        ensures
            r@ == if self.activity_idx > 0 && (self.client_idx as int) < config.clients@.len()
                && self.activity_idx - 1 < config.clients@[self.client_idx as int].activities@.len() {
                config.clients@[self.client_idx as int].activities@[self.activity_idx - 1].name@
            } else {
                none_label()
            },
    {
        if self.activity_idx > 0 && self.client_idx < config.clients.len() && self.activity_idx - 1
            < config.clients[self.client_idx].activities.len() {
            config.clients[self.client_idx].activities[self.activity_idx - 1].name.as_str()
        } else {
            proof {
                reveal_strlit("(none)");
            }
            "(none)"
        }
    }

    /// The length of the entry as text, or `—` where the times do not read.
    pub fn duration_display(&self, duration: Option<i64>) -> (r: String)
        requires
            duration_fits(self.start_input@, self.end_input@, duration),
        ensures
            r@ == match self.times(duration) {
                Some(t) => duration_text(t.1.stamp() - t.0.stamp()),
                None => "—"@,
            },
    {
        match self.parse_times(duration) {
            Some((start, end)) => format_duration(start.minutes_until(&end)),
            None => String::from_str("—"),
        }
    }
}

/// The index of the first client not archived, or 0.
fn first_active_client(clients: &Vec<Client>) -> (r: usize)
    ensures
        r == first_active_from(clients@, 0),
{
    let mut i: usize = 0;
    while i < clients.len()
        invariant
            i <= clients@.len(),
            first_active_from(clients@, 0) == first_active_from(clients@, i as int),
        decreases clients@.len() - i,
    {
        if !clients[i].archived {
            return i;
        }
        i = i + 1;
    }
    0
}

/// The indices of the clients not archived.
fn active_client_indices(clients: &Vec<Client>) -> (r: Vec<usize>)
    ensures
        r@.map_values(|i: usize| i as int) == active_indices(clients@, clients@.len() as int),
        forall|k: int| 0 <= k < r@.len() ==> (#[trigger] r@[k]) < clients@.len(),
{
    let mut out: Vec<usize> = Vec::new();
    let mut i: usize = 0;
    while i < clients.len()
        invariant
            i <= clients@.len(),
            out@.map_values(|k: usize| k as int) == active_indices(clients@, i as int),
            forall|k: int| 0 <= k < out@.len() ==> (#[trigger] out@[k]) < i,
        decreases clients@.len() - i,
    {
        if !clients[i].archived {
            out.push(i);
        }
        i = i + 1;
        assert(out@.map_values(|k: usize| k as int) =~= active_indices(clients@, i as int));
    }
    out
}

pub(crate) fn find_client_index(clients: &Vec<Client>, id: &str) -> (r: Option<usize>)
    ensures
        match r {
            Some(i) => client_position(clients@, id@, 0) == Some(i as int),
            None => client_position(clients@, id@, 0) is None,
        },
        r matches Some(i) ==> i < clients@.len(),
{
    let mut i: usize = 0;
    while i < clients.len()
        invariant
            i <= clients@.len(),
            client_position(clients@, id@, 0) == client_position(clients@, id@, i as int),
        decreases clients@.len() - i,
    {
        if crate::text::same_text(clients[i].id.as_str(), id) {
            return Some(i);
        }
        i = i + 1;
    }
    None
}

pub(crate) fn find_project_index(ps: &Vec<Project>, id: &str) -> (r: Option<usize>)
    ensures
        match r {
            Some(i) => project_position(ps@, id@, 0) == Some(i as int),
            None => project_position(ps@, id@, 0) is None,
        },
        r matches Some(i) ==> i < ps@.len(),
{
    let mut i: usize = 0;
    while i < ps.len()
        invariant
            i <= ps@.len(),
            project_position(ps@, id@, 0) == project_position(ps@, id@, i as int),
        decreases ps@.len() - i,
    {
        if crate::text::same_text(ps[i].id.as_str(), id) {
            return Some(i);
        }
        i = i + 1;
    }
    None
}

pub(crate) fn find_activity_index(acts: &Vec<Activity>, id: &str) -> (r: Option<usize>)
    ensures
        match r {
            Some(i) => activity_position(acts@, id@, 0) == Some(i as int),
            None => activity_position(acts@, id@, 0) is None,
        },
        r matches Some(i) ==> i < acts@.len(),
{
    let mut i: usize = 0;
    while i < acts.len()
        invariant
            i <= acts@.len(),
            activity_position(acts@, id@, 0) == activity_position(acts@, id@, i as int),
        decreases acts@.len() - i,
    {
        if crate::text::same_text(acts[i].id.as_str(), id) {
            return Some(i);
        }
        i = i + 1;
    }
    None
}

} // verus!
