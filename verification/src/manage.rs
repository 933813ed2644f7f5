//! The state of the screen that manages clients, projects and activities: which
//! pane and row is selected, and the form that adds or edits one of them.
use vstd::prelude::*;

use crate::config::AppConfig;
use crate::model::{Activity, Client, Project, Rate};
use crate::text::{byte_length, push_str, same_text, string_insert, string_remove, utf8};

verus! {

#[derive(Debug, Clone, Copy, PartialEq, Eq, Structural)]
pub enum ManagePane {
    Clients,
    Projects,
    Activities,
}

impl ManagePane {
    pub open spec fn after(self) -> ManagePane {
        match self {
            ManagePane::Clients => ManagePane::Projects,
            ManagePane::Projects => ManagePane::Activities,
            ManagePane::Activities => ManagePane::Clients,
        }
    }

    /// The pane to the right, wrapping around.
    pub fn next(self) -> (r: ManagePane)
        ensures
            r == self.after(),
    {
        match self {
            ManagePane::Clients => ManagePane::Projects,
            ManagePane::Projects => ManagePane::Activities,
            ManagePane::Activities => ManagePane::Clients,
        }
    }

    /// The pane to the left, wrapping around.
    pub fn prev(self) -> (r: ManagePane)
        ensures
            r.after() == self,
    {
        match self {
            ManagePane::Clients => ManagePane::Activities,
            ManagePane::Projects => ManagePane::Clients,
            ManagePane::Activities => ManagePane::Projects,
        }
    }
}

#[derive(Debug, Clone, Copy, PartialEq, Eq, Structural)]
pub enum EditTarget {
    Client,
    Project,
    Activity,
}

#[derive(Debug, Clone, Copy, PartialEq, Eq, Structural)]
pub enum FormField {
    Id,
    Name,
    Color,
    Rate,
    Currency,
}

impl FormField {
    /// Id, Name, Color, Rate, then Currency for a client (back to Id for the others).
    pub open spec fn after(self, target: EditTarget) -> FormField {
        match self {
            FormField::Id => FormField::Name,
            FormField::Name => FormField::Color,
            FormField::Color => FormField::Rate,
            FormField::Rate => if target == EditTarget::Client {
                FormField::Currency
            } else {
                FormField::Id
            },
            FormField::Currency => FormField::Id,
        }
    }

    pub fn next(self, target: EditTarget) -> (r: FormField)
        ensures
            r == self.after(target),
    {
        match self {
            FormField::Id => FormField::Name,
            FormField::Name => FormField::Color,
            FormField::Color => FormField::Rate,
            FormField::Rate => match target {
                EditTarget::Client => FormField::Currency,
                _ => FormField::Id,
            },
            FormField::Currency => FormField::Id,
        }
    }
}

/// The form that adds or edits a client, project or activity. `cursor_pos` is a
/// byte offset into the focused field.
pub struct EditForm {
    pub target: EditTarget,
    pub is_new: bool,
    pub id: String,
    pub name: String,
    pub color: String,
    pub rate: String,
    pub currency: String,
    pub focused: FormField,
    pub cursor_pos: usize,
    pub error: Option<String>,
}

fn text(s: &str) -> (r: String)
    ensures
        r@ == s@,
{
    String::from_str(s)
}

impl EditForm {
    /// The text of a field.
    pub open spec fn field(self, f: FormField) -> Seq<char> {
        match f {
            FormField::Id => self.id@,
            FormField::Name => self.name@,
            FormField::Color => self.color@,
            FormField::Rate => self.rate@,
            FormField::Currency => self.currency@,
        }
    }

    /// Everything but the field texts and the cursor is the same in both forms.
    pub open spec fn same_frame(self, other: EditForm) -> bool {
        &&& self.target == other.target
        &&& self.is_new == other.is_new
        &&& self.focused == other.focused
        &&& self.error == other.error
    }

    /// Only the focused field's text may differ.
    pub open spec fn others_kept(self, other: EditForm) -> bool {
        forall|f: FormField| f != self.focused ==> #[trigger] self.field(f) == other.field(f)
    }

    /// A blank form for a new client.
    pub fn new_client() -> (r: EditForm)
        ensures
            r.target == EditTarget::Client,
            r.is_new,
            r.id@ == Seq::<char>::empty(),
            r.name@ == Seq::<char>::empty(),
            r.color@ == "#4ECDC4"@,
            r.rate@ == "0.0"@,
            r.currency@ == "USD"@,
            r.focused == FormField::Id,
            r.cursor_pos == 0,
            r.error is None,
    {
        EditForm {
            target: EditTarget::Client,
            is_new: true,
            id: String::new(),
            name: String::new(),
            color: text("#4ECDC4"),
            rate: text("0.0"),
            currency: text("USD"),
            focused: FormField::Id,
            cursor_pos: 0,
            error: None,
        }
    }

    /// A form that edits a client; `rate_text` is the client's rate as text.
    pub fn edit_client(client: &Client, rate_text: String) -> (r: EditForm)
        requires
            utf8(client.name@).len() <= usize::MAX,
        ensures
            r.target == EditTarget::Client,
            !r.is_new,
            r.id@ == client.id@,
            r.name@ == client.name@,
            r.color@ == client.color@,
            r.rate@ == rate_text@,
            r.currency@ == client.currency@,
            r.focused == FormField::Name,
            r.cursor_pos == utf8(client.name@).len(),
            r.error is None,
    {
        EditForm {
            target: EditTarget::Client,
            is_new: false,
            id: client.id.clone(),
            name: client.name.clone(),
            color: client.color.clone(),
            rate: rate_text,
            currency: client.currency.clone(),
            focused: FormField::Name,
            cursor_pos: byte_length(client.name.as_str()),
            error: None,
        }
    }

    /// A blank form for a new project.
    pub fn new_project() -> (r: EditForm)
        ensures
            r.target == EditTarget::Project,
            r.is_new,
            r.id@ == Seq::<char>::empty(),
            r.name@ == Seq::<char>::empty(),
            r.color@ == "#45B7D1"@,
            r.rate@ == Seq::<char>::empty(),
            r.currency@ == Seq::<char>::empty(),
            r.focused == FormField::Id,
            r.cursor_pos == 0,
            r.error is None,
    {
        EditForm {
            target: EditTarget::Project,
            is_new: true,
            id: String::new(),
            name: String::new(),
            color: text("#45B7D1"),
            rate: String::new(),
            currency: String::new(),
            focused: FormField::Id,
            cursor_pos: 0,
            error: None,
        }
    }

    /// A form that edits a project; `rate_text` is its rate override as text
    /// (empty where it has none).
    pub fn edit_project(project: &Project, rate_text: String) -> (r: EditForm)
        requires
            utf8(project.name@).len() <= usize::MAX,
        ensures
            r.target == EditTarget::Project,
            !r.is_new,
            r.id@ == project.id@,
            r.name@ == project.name@,
            r.color@ == project.color@,
            r.rate@ == rate_text@,
            r.currency@ == Seq::<char>::empty(),
            r.focused == FormField::Name,
            r.cursor_pos == utf8(project.name@).len(),
            r.error is None,
    {
        EditForm {
            target: EditTarget::Project,
            is_new: false,
            id: project.id.clone(),
            name: project.name.clone(),
            color: project.color.clone(),
            rate: rate_text,
            currency: String::new(),
            focused: FormField::Name,
            cursor_pos: byte_length(project.name.as_str()),
            error: None,
        }
    }

    /// A blank form for a new activity.
    pub fn new_activity() -> (r: EditForm)
        ensures
            r.target == EditTarget::Activity,
            r.is_new,
            r.id@ == Seq::<char>::empty(),
            r.name@ == Seq::<char>::empty(),
            r.color@ == "#2ECC71"@,
            r.rate@ == Seq::<char>::empty(),
            r.currency@ == Seq::<char>::empty(),
            r.focused == FormField::Id,
            r.cursor_pos == 0,
            r.error is None,
    {
        EditForm {
            target: EditTarget::Activity,
            is_new: true,
            id: String::new(),
            name: String::new(),
            color: text("#2ECC71"),
            rate: String::new(),
            currency: String::new(),
            focused: FormField::Id,
            cursor_pos: 0,
            error: None,
        }
    }

    /// A form that edits an activity.
    pub fn edit_activity(activity: &Activity) -> (r: EditForm)
        requires
            utf8(activity.name@).len() <= usize::MAX,
        ensures
            r.target == EditTarget::Activity,
            !r.is_new,
            r.id@ == activity.id@,
            r.name@ == activity.name@,
            r.color@ == activity.color@,
            r.rate@ == Seq::<char>::empty(),
            r.currency@ == Seq::<char>::empty(),
            r.focused == FormField::Name,
            r.cursor_pos == utf8(activity.name@).len(),
            r.error is None,
    {
        EditForm {
            target: EditTarget::Activity,
            is_new: false,
            id: activity.id.clone(),
            name: activity.name.clone(),
            color: activity.color.clone(),
            rate: String::new(),
            currency: String::new(),
            focused: FormField::Name,
            cursor_pos: byte_length(activity.name.as_str()),
            error: None,
        }
    }

    /// The focused field's text.
    fn active_field(&self) -> (r: &str)
        ensures
            r@ == self.field(self.focused),
    {
        match self.focused {
            FormField::Id => self.id.as_str(),
            FormField::Name => self.name.as_str(),
            FormField::Color => self.color.as_str(),
            FormField::Rate => self.rate.as_str(),
            FormField::Currency => self.currency.as_str(),
        }
    }

    /// Puts the cursor at the end of the focused field.
    fn update_cursor(&mut self)
        requires
            utf8(old(self).field(old(self).focused)).len() <= usize::MAX,
        ensures
            final(self).same_frame(*old(self)),
            forall|f: FormField| #[trigger] final(self).field(f) == old(self).field(f),
            final(self).cursor_pos == utf8(old(self).field(old(self).focused)).len(),
    {
        self.cursor_pos = byte_length(self.active_field());
    }

    /// Moves to the next field and puts the cursor at its end.
    pub fn next_field(&mut self)
        requires
            forall|f: FormField| utf8(#[trigger] old(self).field(f)).len() <= usize::MAX,
        ensures
            final(self).focused == old(self).focused.after(old(self).target),
            final(self).target == old(self).target,
            final(self).is_new == old(self).is_new,
            final(self).error == old(self).error,
            forall|f: FormField| #[trigger] final(self).field(f) == old(self).field(f),
            final(self).cursor_pos == utf8(final(self).field(final(self).focused)).len(),
    {
        self.focused = self.focused.next(self.target);
        proof {
            let f = self.focused;
            assert(utf8(old(self).field(f)).len() <= usize::MAX);
            assert(self.field(f) == old(self).field(f));
        }
        self.update_cursor();
    }

    /// Inserts a character at the cursor and moves the cursor past it by one.
    pub fn type_char(&mut self, ch: char)
        requires
            vstd::utf8::is_char_boundary(
                utf8(old(self).field(old(self).focused)),
                old(self).cursor_pos as int,
            ),
            old(self).cursor_pos < usize::MAX,
        ensures
            final(self).same_frame(*old(self)),
            old(self).others_kept(*final(self)),
            utf8(final(self).field(old(self).focused)) == utf8(
                old(self).field(old(self).focused),
            ).take(old(self).cursor_pos as int) + utf8(seq![ch]) + utf8(
                old(self).field(old(self).focused),
            ).skip(old(self).cursor_pos as int),
            final(self).cursor_pos == old(self).cursor_pos + 1,
    {
        let pos = self.cursor_pos;
        match self.focused {
            FormField::Id => string_insert(&mut self.id, pos, ch),
            FormField::Name => string_insert(&mut self.name, pos, ch),
            FormField::Color => string_insert(&mut self.color, pos, ch),
            FormField::Rate => string_insert(&mut self.rate, pos, ch),
            FormField::Currency => string_insert(&mut self.currency, pos, ch),
        }
        self.cursor_pos = pos + 1;
    }

    /// Moves the cursor back by one and removes the character that starts there;
    /// nothing happens with the cursor at the start.
    pub fn backspace(&mut self)
        requires
            old(self).cursor_pos > 0 ==> vstd::utf8::is_char_boundary(
                utf8(old(self).field(old(self).focused)),
                old(self).cursor_pos - 1,
            ) && old(self).cursor_pos - 1 < utf8(old(self).field(old(self).focused)).len(),
        ensures
            final(self).same_frame(*old(self)),
            old(self).others_kept(*final(self)),
            old(self).cursor_pos == 0 ==> *final(self) == *old(self),
            old(self).cursor_pos > 0 ==> final(self).cursor_pos == old(self).cursor_pos - 1
                && exists|c: char|
                utf8(final(self).field(old(self).focused)) == utf8(
                    old(self).field(old(self).focused),
                ).take(old(self).cursor_pos - 1) + utf8(old(self).field(old(self).focused)).skip(
                    old(self).cursor_pos - 1 + utf8(seq![c]).len(),
                ) && old(self).cursor_pos - 1 + utf8(seq![c]).len() <= utf8(
                    old(self).field(old(self).focused),
                ).len() && utf8(old(self).field(old(self).focused)).subrange(
                    old(self).cursor_pos - 1,
                    old(self).cursor_pos - 1 + utf8(seq![c]).len(),
                ) == #[trigger] utf8(seq![c]),
    {
        if self.cursor_pos > 0 {
            self.cursor_pos = self.cursor_pos - 1;
            let pos = self.cursor_pos;
            let c = match self.focused {
                FormField::Id => string_remove(&mut self.id, pos),
                FormField::Name => string_remove(&mut self.name, pos),
                FormField::Color => string_remove(&mut self.color, pos),
                FormField::Rate => string_remove(&mut self.rate, pos),
                FormField::Currency => string_remove(&mut self.currency, pos),
            };
            assert(utf8(seq![c]) == utf8(seq![c]));
        }
    }

    /// Moves the cursor back by one byte, stopping at the start.
    pub fn cursor_left(&mut self)
        ensures
            final(self).same_frame(*old(self)),
            forall|f: FormField| #[trigger] final(self).field(f) == old(self).field(f),
            final(self).cursor_pos == if old(self).cursor_pos > 0 {
                old(self).cursor_pos - 1
            } else {
                0
            },
    {
        if self.cursor_pos > 0 {
            self.cursor_pos = self.cursor_pos - 1;
        }
    }

    /// Moves the cursor forward by one byte, stopping at the end of the field.
    pub fn cursor_right(&mut self)
        requires
            utf8(old(self).field(old(self).focused)).len() <= usize::MAX,
        ensures
            final(self).same_frame(*old(self)),
            forall|f: FormField| #[trigger] final(self).field(f) == old(self).field(f),
            final(self).cursor_pos == if old(self).cursor_pos < utf8(
                old(self).field(old(self).focused),
            ).len() {
                old(self).cursor_pos + 1
            } else {
                old(self).cursor_pos as int
            },
    {
        let len = byte_length(self.active_field());
        if self.cursor_pos < len {
            self.cursor_pos = self.cursor_pos + 1;
        }
    }
}

/// An ASCII character typed into a form field and then taken back with
/// Backspace leaves the form as it was: every field's text, the focus and the
/// cursor. (`typed` is any form that `type_char` may give from `before`, and
/// `after` any that `backspace` may give from `typed`.)
pub proof fn lemma_type_then_backspace(before: EditForm, typed: EditForm, after: EditForm, ch: char)
    requires
        (ch as u32) < 128,
        vstd::utf8::is_char_boundary(utf8(before.field(before.focused)), before.cursor_pos as int),
        before.cursor_pos < usize::MAX,
        typed.same_frame(before),
        before.others_kept(typed),
        utf8(typed.field(before.focused)) == utf8(before.field(before.focused)).take(
            before.cursor_pos as int,
        ) + utf8(seq![ch]) + utf8(before.field(before.focused)).skip(before.cursor_pos as int),
        typed.cursor_pos == before.cursor_pos + 1,
        after.same_frame(typed),
        typed.others_kept(after),
        after.cursor_pos == typed.cursor_pos - 1,
        exists|c: char|
            utf8(after.field(typed.focused)) == utf8(typed.field(typed.focused)).take(
                typed.cursor_pos - 1,
            ) + utf8(typed.field(typed.focused)).skip(
                typed.cursor_pos - 1 + utf8(seq![c]).len(),
            ) && typed.cursor_pos - 1 + utf8(seq![c]).len() <= utf8(typed.field(typed.focused)).len()
                && utf8(typed.field(typed.focused)).subrange(
                typed.cursor_pos - 1,
                typed.cursor_pos - 1 + utf8(seq![c]).len(),
            ) == #[trigger] utf8(seq![c]),
    ensures
        after.same_frame(before),
        forall|f: FormField| #[trigger] after.field(f) == before.field(f),
        after.cursor_pos == before.cursor_pos,
{
    let f = before.focused;
    let pre = utf8(before.field(f));
    let p = before.cursor_pos as int;
    let mid = utf8(typed.field(f));
    vstd::utf8::is_ascii_chars_encode_utf8(seq![ch]);
    assert(utf8(seq![ch]) =~= seq![ch as u8]);
    vstd::utf8::encode_utf8_valid_utf8(before.field(f));
    assert(0 <= p <= pre.len()) by {
        assert(vstd::utf8::is_char_boundary(pre, p));
    }
    assert(mid.len() == pre.len() + 1);
    assert(mid[p] == ch as u8);
    let c = choose|c: char|
        utf8(after.field(f)) == mid.take(p) + mid.skip(p + utf8(seq![c]).len()) && p + utf8(
            seq![c],
        ).len() <= mid.len() && mid.subrange(
            p,
            p + utf8(seq![c]).len(),
        ) == #[trigger] utf8(seq![c]);
    let e = utf8(seq![c]);
    assert(e =~= vstd::utf8::encode_scalar(c as u32)) by {
        assert(seq![c].drop_first() =~= Seq::<char>::empty());
        assert(vstd::utf8::encode_utf8(Seq::<char>::empty()) =~= Seq::<u8>::empty());
        assert(vstd::utf8::encode_utf8(seq![c]) == vstd::utf8::encode_scalar(seq![c][0] as u32)
            + vstd::utf8::encode_utf8(seq![c].drop_first()));
    }
    vstd::utf8::encode_utf8_first_scalar(seq![c]);
    assert(e.len() > 0);
    assert(e[0] == mid[p]);
    assert(vstd::utf8::is_leading_byte_width_1(e[0]));
    assert(e.len() == 1);
    assert(utf8(after.field(f)) =~= pre);
    vstd::utf8::encode_utf8_decode_utf8(after.field(f));
    vstd::utf8::encode_utf8_decode_utf8(before.field(f));
    assert forall|g: FormField| #[trigger] after.field(g) == before.field(g) by {
        if g != f {
            assert(before.field(g) == typed.field(g));
            assert(typed.field(g) == after.field(g));
        }
    }
}

/// Why the form cannot be saved, or `None` where it can: an id and a name are
/// needed, a new id must not be taken among its siblings, and a client's rate
/// must read as a number (`rate_is_number`).
pub open spec fn form_problem(
    form: EditForm,
    config: AppConfig,
    client_idx: Option<usize>,
    rate_is_number: bool,
) -> Option<Seq<char>> {
    let clients = config.clients@;
    if form.id@.len() == 0 {
        Some("ID is required"@)
    } else if form.name@.len() == 0 {
        Some("Name is required"@)
    } else {
        match form.target {
            EditTarget::Client => if form.is_new && crate::validation::has_client(clients, form.id@) {
                Some("Client ID '"@ + form.id@ + "' already exists"@)
            } else if !rate_is_number {
                Some("Rate must be a number"@)
            } else {
                None
            },
            EditTarget::Project => if client_idx matches Some(ci) && ci < clients.len() && form.is_new
                && crate::validation::has_project(clients[ci as int], form.id@) {
                Some("Project ID '"@ + form.id@ + "' already exists"@)
            } else {
                None
            },
            EditTarget::Activity => if client_idx matches Some(ci) && ci < clients.len()
                && form.is_new && crate::validation::has_activity(clients[ci as int], form.id@) {
                Some("Activity ID '"@ + form.id@ + "' already exists"@)
            } else {
                None
            },
        }
    }
}

impl EditForm {
    /// Checks the form, records the problem in `error` (cleared when there is none)
    /// and says whether it can be saved. `rate_is_number` tells whether the rate
    /// text reads as a number.
    pub fn validate(&mut self, config: &AppConfig, client_idx: Option<usize>, rate_is_number: bool) -> (r: bool)
        ensures
            r == form_problem(*old(self), *config, client_idx, rate_is_number) is None,
            crate::model::opt_view(final(self).error) == form_problem(
                *old(self),
                *config,
                client_idx,
                rate_is_number,
            ),
            final(self).target == old(self).target,
            final(self).is_new == old(self).is_new,
            final(self).focused == old(self).focused,
            final(self).cursor_pos == old(self).cursor_pos,
            forall|f: FormField| #[trigger] final(self).field(f) == old(self).field(f),
    {
        if self.id.as_str().is_empty() {
            self.error = Some(text("ID is required"));
            return false;
        }
        if self.name.as_str().is_empty() {
            self.error = Some(text("Name is required"));
            return false;
        }
        match self.target {
            EditTarget::Client => {
                if self.is_new && crate::validation::find_client(config, self.id.as_str()).is_some() {
                    let mut m = text("Client ID '");
                    push_str(&mut m, self.id.as_str());
                    push_str(&mut m, "' already exists");
                    self.error = Some(m);
                    return false;
                }
                if !rate_is_number {
                    self.error = Some(text("Rate must be a number"));
                    return false;
                }
            },
            EditTarget::Project => {
                if let Some(ci) = client_idx {
                    if ci < config.clients.len() {
                        if self.is_new && crate::validation::find_project(&config.clients[ci], self.id.as_str()).is_some() {
                            let mut m = text("Project ID '");
                            push_str(&mut m, self.id.as_str());
                            push_str(&mut m, "' already exists");
                            self.error = Some(m);
                            return false;
                        }
                    }
                }
            },
            EditTarget::Activity => {
                if let Some(ci) = client_idx {
                    if ci < config.clients.len() {
                        if self.is_new && crate::validation::find_activity(&config.clients[ci], self.id.as_str()).is_some() {
                            let mut m = text("Activity ID '");
                            push_str(&mut m, self.id.as_str());
                            push_str(&mut m, "' already exists");
                            self.error = Some(m);
                            return false;
                        }
                    }
                }
            },
        }
        self.error = None;
        true
    }
}

pub open spec fn rate_or_zero(rate: Option<Rate>) -> Rate {
    match rate {
        Some(r) => r,
        None => Rate { bits: 0 },
    }
}

/// The index of the first project with the given id, if any.
pub open spec fn project_index(c: Client, id: Seq<char>) -> Option<int> {
    if crate::validation::has_project(c, id) {
        Some(choose|i: int| crate::report::is_first_project(c, id, i))
    } else {
        None
    }
}

/// The index of the first activity with the given id, if any.
pub open spec fn activity_index(c: Client, id: Seq<char>) -> Option<int> {
    if crate::validation::has_activity(c, id) {
        Some(choose|i: int| crate::report::is_first_activity(c, id, i))
    } else {
        None
    }
}

fn find_project_index(projects: &Vec<Project>, id: &str) -> (r: Option<usize>)
    ensures
        match r {
            Some(i) => i < projects@.len() && projects@[i as int].id@ == id@ && forall|j: int|
                0 <= j < i ==> (#[trigger] projects@[j]).id@ != id@,
            None => forall|j: int| 0 <= j < projects@.len() ==> (#[trigger] projects@[j]).id@ != id@,
        },
{
    let mut i: usize = 0;
    while i < projects.len()
        invariant
            i <= projects.len(),
            forall|j: int| 0 <= j < i ==> (#[trigger] projects@[j]).id@ != id@,
        decreases projects.len() - i,
    {
        if same_text(projects[i].id.as_str(), id) {
            return Some(i);
        }
        i = i + 1;
    }
    None
}

fn find_activity_index(activities: &Vec<Activity>, id: &str) -> (r: Option<usize>)
    ensures
        match r {
            Some(i) => i < activities@.len() && activities@[i as int].id@ == id@ && forall|j: int|
                0 <= j < i ==> (#[trigger] activities@[j]).id@ != id@,
            None => forall|j: int|
                0 <= j < activities@.len() ==> (#[trigger] activities@[j]).id@ != id@,
        },
{
    let mut i: usize = 0;
    while i < activities.len()
        invariant
            i <= activities.len(),
            forall|j: int| 0 <= j < i ==> (#[trigger] activities@[j]).id@ != id@,
        decreases activities.len() - i,
    {
        if same_text(activities[i].id.as_str(), id) {
            return Some(i);
        }
        i = i + 1;
    }
    None
}

impl EditForm {
    /// Writes the form into the configuration. `rate` is what the rate text reads
    /// as (`None` where it is not a number): a client takes it or zero, a project
    /// takes it as its override. A new item is appended to its list; an edited
    /// client is the one at `client_idx`, an edited project or activity the first
    /// of that client's with the form's id.
    pub fn apply_to_config(&self, config: &mut AppConfig, client_idx: usize, rate: Option<Rate>)
        ensures
            final(config).preferences == old(config).preferences,
            final(config).bill_from == old(config).bill_from,
            ({
                let before = old(config).clients@;
                let after = final(config).clients@;
                match self.target {
                    EditTarget::Client => if self.is_new {
                        &&& after.len() == before.len() + 1
                        &&& after.take(before.len() as int) == before
                        &&& after.last().id == self.id
                        &&& after.last().name == self.name
                        &&& after.last().color == self.color
                        &&& after.last().rate == rate_or_zero(rate)
                        &&& after.last().currency == self.currency
                        &&& !after.last().archived
                        &&& after.last().address is None
                        &&& after.last().email is None
                        &&& after.last().tax_id is None
                        &&& after.last().payment_terms is None
                        &&& after.last().notes is None
                        &&& after.last().projects@.len() == 0
                        &&& after.last().activities@.len() == 0
                    } else if client_idx < before.len() {
                        after == before.update(
                            client_idx as int,
                            Client {
                                name: self.name,
                                color: self.color,
                                rate: rate_or_zero(rate),
                                currency: self.currency,
                                ..before[client_idx as int]
                            },
                        )
                    } else {
                        after == before
                    },
                    EditTarget::Project => if client_idx < before.len() {
                        let c = before[client_idx as int];
                        let ps = after[client_idx as int].projects@;
                        &&& after.len() == before.len()
                        &&& forall|i: int| 0 <= i < before.len() && i != client_idx ==> after[i] == before[i]
                        &&& after[client_idx as int].activities == c.activities
                        &&& after[client_idx as int] == Client { projects: after[client_idx as int].projects, ..c }
                        &&& if self.is_new {
                            &&& ps.len() == c.projects@.len() + 1
                            &&& ps.take(c.projects@.len() as int) == c.projects@
                            &&& ps.last() == Project {
                                id: self.id,
                                name: self.name,
                                color: self.color,
                                rate_override: rate,
                                archived: false,
                            }
                        } else {
                            match project_index(c, self.id@) {
                                Some(pi) => ps == c.projects@.update(
                                    pi,
                                    Project {
                                        name: self.name,
                                        color: self.color,
                                        rate_override: rate,
                                        ..c.projects@[pi]
                                    },
                                ),
                                None => ps == c.projects@,
                            }
                        }
                    } else {
                        after == before
                    },
                    EditTarget::Activity => if client_idx < before.len() {
                        let c = before[client_idx as int];
                        let acts = after[client_idx as int].activities@;
                        &&& after.len() == before.len()
                        &&& forall|i: int| 0 <= i < before.len() && i != client_idx ==> after[i] == before[i]
                        &&& after[client_idx as int] == Client { activities: after[client_idx as int].activities, ..c }
                        &&& if self.is_new {
                            &&& acts.len() == c.activities@.len() + 1
                            &&& acts.take(c.activities@.len() as int) == c.activities@
                            &&& acts.last() == Activity {
                                id: self.id,
                                name: self.name,
                                color: self.color,
                                archived: false,
                            }
                        } else {
                            match activity_index(c, self.id@) {
                                Some(ai) => acts == c.activities@.update(
                                    ai,
                                    Activity { name: self.name, color: self.color, ..c.activities@[ai] },
                                ),
                                None => acts == c.activities@,
                            }
                        }
                    } else {
                        after == before
                    },
                }
            }),
    {
        match self.target {
            EditTarget::Client => {
                let r = match rate {
                    Some(x) => x,
                    None => Rate { bits: 0 },
                };
                if self.is_new {
                    let ghost before = config.clients@;
                    config.clients.push(
                        Client {
                            id: self.id.clone(),
                            name: self.name.clone(),
                            color: self.color.clone(),
                            rate: r,
                            currency: self.currency.clone(),
                            archived: false,
                            address: None,
                            email: None,
                            tax_id: None,
                            payment_terms: None,
                            notes: None,
                            projects: Vec::new(),
                            activities: Vec::new(),
                        },
                    );
                    assert(config.clients@.take(before.len() as int) =~= before);
                } else if client_idx < config.clients.len() {
                    let mut client = config.clients.remove(client_idx);
                    client.name = self.name.clone();
                    client.color = self.color.clone();
                    client.rate = r;
                    client.currency = self.currency.clone();
                    config.clients.insert(client_idx, client);
                    assert(config.clients@ =~= old(config).clients@.update(
                        client_idx as int,
                        Client {
                            name: self.name,
                            color: self.color,
                            rate: rate_or_zero(rate),
                            currency: self.currency,
                            ..old(config).clients@[client_idx as int]
                        },
                    ));
                }
            },
            EditTarget::Project => {
                if client_idx < config.clients.len() {
                    let ghost before = config.clients@;
                    let mut client = config.clients.remove(client_idx);
                    let ghost c = client;
                    if self.is_new {
                        client.projects.push(
                            Project {
                                id: self.id.clone(),
                                name: self.name.clone(),
                                color: self.color.clone(),
                                rate_override: rate,
                                archived: false,
                            },
                        );
                        assert(client.projects@.take(c.projects@.len() as int) =~= c.projects@);
                    } else {
                        match find_project_index(&client.projects, self.id.as_str()) {
                            Some(pi) => {
                                proof {
                                    assert(crate::report::is_first_project(c, self.id@, pi as int));
                                    let k = choose|k: int| crate::report::is_first_project(c, self.id@, k);
                                    assert(k == pi);
                                }
                                let mut p = client.projects.remove(pi);
                                p.name = self.name.clone();
                                p.color = self.color.clone();
                                p.rate_override = rate;
                                client.projects.insert(pi, p);
                                assert(client.projects@ =~= c.projects@.update(
                                    pi as int,
                                    Project {
                                        name: self.name,
                                        color: self.color,
                                        rate_override: rate,
                                        ..c.projects@[pi as int]
                                    },
                                ));
                            },
                            None => {},
                        }
                    }
                    config.clients.insert(client_idx, client);
                    assert forall|i: int| 0 <= i < before.len() && i != client_idx implies config.clients@[i] == before[i] by {}
                }
            },
            EditTarget::Activity => {
                if client_idx < config.clients.len() {
                    let ghost before = config.clients@;
                    let mut client = config.clients.remove(client_idx);
                    let ghost c = client;
                    if self.is_new {
                        client.activities.push(
                            Activity {
                                id: self.id.clone(),
                                name: self.name.clone(),
                                color: self.color.clone(),
                                archived: false,
                            },
                        );
                        assert(client.activities@.take(c.activities@.len() as int) =~= c.activities@);
                    } else {
                        match find_activity_index(&client.activities, self.id.as_str()) {
                            Some(ai) => {
                                proof {
                                    assert(crate::report::is_first_activity(c, self.id@, ai as int));
                                    let k = choose|k: int| crate::report::is_first_activity(c, self.id@, k);
                                    assert(k == ai);
                                }
                                let mut a = client.activities.remove(ai);
                                a.name = self.name.clone();
                                a.color = self.color.clone();
                                client.activities.insert(ai, a);
                                assert(client.activities@ =~= c.activities@.update(
                                    ai as int,
                                    Activity { name: self.name, color: self.color, ..c.activities@[ai as int] },
                                ));
                            },
                            None => {},
                        }
                    }
                    config.clients.insert(client_idx, client);
                    assert forall|i: int| 0 <= i < before.len() && i != client_idx implies config.clients@[i] == before[i] by {}
                }
            },
        }
    }
}

/// Which pane and rows are selected on the management screen, and the open form.
pub struct ManageState {
    pub active_pane: ManagePane,
    pub client_idx: usize,
    pub project_idx: usize,
    pub activity_idx: usize,
    pub edit_form: Option<EditForm>,
}

/// The selection part of the state (everything but the form).
pub open spec fn selection(s: ManageState) -> (ManagePane, usize, usize, usize) {
    (s.active_pane, s.client_idx, s.project_idx, s.activity_idx)
}

impl ManageState {
    pub fn new() -> (r: ManageState)
        ensures
            selection(r) == (ManagePane::Clients, 0usize, 0usize, 0usize),
            r.edit_form is None,
    {
        ManageState {
            active_pane: ManagePane::Clients,
            client_idx: 0,
            project_idx: 0,
            activity_idx: 0,
            edit_form: None,
        }
    }

    /// Moves the selection of the active pane up one row; moving to another client
    /// selects its first project and activity.
    pub fn move_up(&mut self)
        ensures
            final(self).active_pane == old(self).active_pane,
            final(self).edit_form == old(self).edit_form,
            selection(*final(self)) == match old(self).active_pane {
                ManagePane::Clients => if old(self).client_idx > 0 {
                    (old(self).active_pane, (old(self).client_idx - 1) as usize, 0usize, 0usize)
                } else {
                    selection(*old(self))
                },
                ManagePane::Projects => if old(self).project_idx > 0 {
                    (old(self).active_pane, old(self).client_idx, (old(self).project_idx - 1) as usize, old(self).activity_idx)
                } else {
                    selection(*old(self))
                },
                ManagePane::Activities => if old(self).activity_idx > 0 {
                    (old(self).active_pane, old(self).client_idx, old(self).project_idx, (old(self).activity_idx - 1) as usize)
                } else {
                    selection(*old(self))
                },
            },
    {
        match self.active_pane {
            ManagePane::Clients => {
                if self.client_idx > 0 {
                    self.client_idx = self.client_idx - 1;
                    self.project_idx = 0;
                    self.activity_idx = 0;
                }
            },
            ManagePane::Projects => {
                if self.project_idx > 0 {
                    self.project_idx = self.project_idx - 1;
                }
            },
            ManagePane::Activities => {
                if self.activity_idx > 0 {
                    self.activity_idx = self.activity_idx - 1;
                }
            },
        }
    }

    /// Moves the selection of the active pane down one row where there is one;
    /// moving to another client selects its first project and activity.
    pub fn move_down(&mut self, config: &AppConfig)
        ensures
            final(self).active_pane == old(self).active_pane,
            final(self).edit_form == old(self).edit_form,
            selection(*final(self)) == ({
                let s = *old(self);
                let clients = config.clients@;
                match s.active_pane {
                    ManagePane::Clients => if s.client_idx + 1 < clients.len() {
                        (s.active_pane, (s.client_idx + 1) as usize, 0usize, 0usize)
                    } else {
                        selection(s)
                    },
                    ManagePane::Projects => if s.client_idx < clients.len() && s.project_idx + 1
                        < clients[s.client_idx as int].projects@.len() {
                        (s.active_pane, s.client_idx, (s.project_idx + 1) as usize, s.activity_idx)
                    } else {
                        selection(s)
                    },
                    ManagePane::Activities => if s.client_idx < clients.len() && s.activity_idx + 1
                        < clients[s.client_idx as int].activities@.len() {
                        (s.active_pane, s.client_idx, s.project_idx, (s.activity_idx + 1) as usize)
                    } else {
                        selection(s)
                    },
                }
            }),
    {
        match self.active_pane {
            ManagePane::Clients => {
                if self.client_idx < config.clients.len() && self.client_idx + 1 < config.clients.len() {
                    self.client_idx = self.client_idx + 1;
                    self.project_idx = 0;
                    self.activity_idx = 0;
                }
            },
            ManagePane::Projects => {
                if self.client_idx < config.clients.len() {
                    let n = config.clients[self.client_idx].projects.len();
                    if self.project_idx < n && self.project_idx + 1 < n {
                        self.project_idx = self.project_idx + 1;
                    }
                }
            },
            ManagePane::Activities => {
                if self.client_idx < config.clients.len() {
                    let n = config.clients[self.client_idx].activities.len();
                    if self.activity_idx < n && self.activity_idx + 1 < n {
                        self.activity_idx = self.activity_idx + 1;
                    }
                }
            },
        }
    }

    /// Moves to the next pane.
    pub fn switch_pane(&mut self)
        ensures
            final(self).active_pane == old(self).active_pane.after(),
            final(self).client_idx == old(self).client_idx,
            final(self).project_idx == old(self).project_idx,
            final(self).activity_idx == old(self).activity_idx,
            final(self).edit_form == old(self).edit_form,
    {
        self.active_pane = self.active_pane.next();
    }

    /// Opens a blank form for the kind of item that the active pane lists.
    pub fn open_add(&mut self)
        ensures
            selection(*final(self)) == selection(*old(self)),
            final(self).edit_form matches Some(f) && f.is_new && f.target == match old(self).active_pane {
                ManagePane::Clients => EditTarget::Client,
                ManagePane::Projects => EditTarget::Project,
                ManagePane::Activities => EditTarget::Activity,
            } && f.id@.len() == 0 && f.name@.len() == 0 && f.focused == FormField::Id && f.cursor_pos == 0
                && f.error is None && f.color@ == match old(self).active_pane {
                ManagePane::Clients => "#4ECDC4"@,
                ManagePane::Projects => "#45B7D1"@,
                ManagePane::Activities => "#2ECC71"@,
            } && f.rate@ == match old(self).active_pane {
                ManagePane::Clients => "0.0"@,
                _ => Seq::<char>::empty(),
            } && f.currency@ == match old(self).active_pane {
                ManagePane::Clients => "USD"@,
                _ => Seq::<char>::empty(),
            },
    {
        self.edit_form = Some(
            match self.active_pane {
                ManagePane::Clients => EditForm::new_client(),
                ManagePane::Projects => EditForm::new_project(),
                ManagePane::Activities => EditForm::new_activity(),
            },
        );
    }

    /// Flips `archived` on the selected client, project or activity, where it exists.
    pub fn toggle_archive(&mut self, config: &mut AppConfig)
        ensures
            *final(self) == *old(self),
            final(config).preferences == old(config).preferences,
            final(config).bill_from == old(config).bill_from,
            ({
                let before = old(config).clients@;
                let after = final(config).clients@;
                let ci = old(self).client_idx as int;
                if ci < before.len() {
                    let c = before[ci];
                    after == before.update(ci, match old(self).active_pane {
                        ManagePane::Clients => Client { archived: !c.archived, ..c },
                        ManagePane::Projects => if old(self).project_idx < c.projects@.len() {
                            after[ci]
                        } else {
                            c
                        },
                        ManagePane::Activities => if old(self).activity_idx < c.activities@.len() {
                            after[ci]
                        } else {
                            c
                        },
                    }) && (old(self).active_pane == ManagePane::Projects && old(self).project_idx < c.projects@.len() ==> {
                        let p = c.projects@[old(self).project_idx as int];
                        after[ci] == Client { projects: after[ci].projects, ..c } && after[ci].projects@ == c.projects@.update(
                            old(self).project_idx as int,
                            Project { archived: !p.archived, ..p },
                        )
                    }) && (old(self).active_pane == ManagePane::Activities && old(self).activity_idx < c.activities@.len() ==> {
                        let a = c.activities@[old(self).activity_idx as int];
                        after[ci] == Client { activities: after[ci].activities, ..c } && after[ci].activities@ == c.activities@.update(
                            old(self).activity_idx as int,
                            Activity { archived: !a.archived, ..a },
                        )
                    })
                } else {
                    after == before
                }
            }),
    {
        let ci = self.client_idx;
        if ci < config.clients.len() {
            let ghost before = config.clients@;
            let mut client = config.clients.remove(ci);
            let ghost c = client;
            match self.active_pane {
                ManagePane::Clients => {
                    client.archived = !client.archived;
                },
                ManagePane::Projects => {
                    if self.project_idx < client.projects.len() {
                        let mut p = client.projects.remove(self.project_idx);
                        p.archived = !p.archived;
                        client.projects.insert(self.project_idx, p);
                        assert(client.projects@ =~= c.projects@.update(
                            self.project_idx as int,
                            Project { archived: !c.projects@[self.project_idx as int].archived, ..c.projects@[self.project_idx as int] },
                        ));
                    }
                },
                ManagePane::Activities => {
                    if self.activity_idx < client.activities.len() {
                        let mut a = client.activities.remove(self.activity_idx);
                        a.archived = !a.archived;
                        client.activities.insert(self.activity_idx, a);
                        assert(client.activities@ =~= c.activities@.update(
                            self.activity_idx as int,
                            Activity { archived: !c.activities@[self.activity_idx as int].archived, ..c.activities@[self.activity_idx as int] },
                        ));
                    }
                },
            }
            config.clients.insert(ci, client);
            assert(config.clients@ =~= before.update(ci as int, client));
        }
    }

    /// Removes the selected item where it exists (the last client is never
    /// removed) and keeps the selection within the list.
    pub fn delete_selected(&mut self, config: &mut AppConfig)
        ensures
            final(self).active_pane == old(self).active_pane,
            final(self).edit_form == old(self).edit_form,
            final(config).preferences == old(config).preferences,
            final(config).bill_from == old(config).bill_from,
            ({
                let s = *old(self);
                let before = old(config).clients@;
                let after = final(config).clients@;
                let ci = s.client_idx as int;
                match s.active_pane {
                    ManagePane::Clients => if before.len() > 1 && ci < before.len() {
                        &&& after == before.remove(ci)
                        &&& final(self).client_idx == if ci >= after.len() { after.len() - 1 } else { ci }
                        &&& final(self).project_idx == 0
                        &&& final(self).activity_idx == 0
                    } else {
                        after == before && selection(*final(self)) == selection(s)
                    },
                    ManagePane::Projects => if ci < before.len() && s.project_idx < before[ci].projects@.len() {
                        let c = before[ci];
                        let ps = c.projects@.remove(s.project_idx as int);
                        &&& after.len() == before.len()
                        &&& forall|i: int| 0 <= i < before.len() && i != ci ==> after[i] == before[i]
                        &&& after[ci] == Client { projects: after[ci].projects, ..c }
                        &&& after[ci].projects@ == ps
                        &&& final(self).client_idx == s.client_idx
                        &&& final(self).activity_idx == s.activity_idx
                        &&& final(self).project_idx == if s.project_idx >= ps.len() {
                            if ps.len() > 0 { ps.len() - 1 } else { 0 }
                        } else {
                            s.project_idx as int
                        }
                    } else {
                        after == before && selection(*final(self)) == selection(s)
                    },
                    ManagePane::Activities => if ci < before.len() && s.activity_idx < before[ci].activities@.len() {
                        let c = before[ci];
                        let acts = c.activities@.remove(s.activity_idx as int);
                        &&& after.len() == before.len()
                        &&& forall|i: int| 0 <= i < before.len() && i != ci ==> after[i] == before[i]
                        &&& after[ci] == Client { activities: after[ci].activities, ..c }
                        &&& after[ci].activities@ == acts
                        &&& final(self).client_idx == s.client_idx
                        &&& final(self).project_idx == s.project_idx
                        &&& final(self).activity_idx == if s.activity_idx >= acts.len() {
                            if acts.len() > 0 { acts.len() - 1 } else { 0 }
                        } else {
                            s.activity_idx as int
                        }
                    } else {
                        after == before && selection(*final(self)) == selection(s)
                    },
                }
            }),
    {
        match self.active_pane {
            ManagePane::Clients => {
                if config.clients.len() > 1 && self.client_idx < config.clients.len() {
                    config.clients.remove(self.client_idx);
                    if self.client_idx >= config.clients.len() {
                        self.client_idx = config.clients.len() - 1;
                    }
                    self.project_idx = 0;
                    self.activity_idx = 0;
                }
            },
            ManagePane::Projects => {
                let ci = self.client_idx;
                if ci < config.clients.len() && self.project_idx < config.clients[ci].projects.len() {
                    let ghost before = config.clients@;
                    let mut client = config.clients.remove(ci);
                    client.projects.remove(self.project_idx);
                    if self.project_idx >= client.projects.len() {
                        self.project_idx = if client.projects.len() > 0 {
                            client.projects.len() - 1
                        } else {
                            0
                        };
                    }
                    config.clients.insert(ci, client);
                    assert forall|i: int| 0 <= i < before.len() && i != ci implies config.clients@[i] == before[i] by {}
                }
            },
            ManagePane::Activities => {
                let ci = self.client_idx;
                if ci < config.clients.len() && self.activity_idx < config.clients[ci].activities.len() {
                    let ghost before = config.clients@;
                    let mut client = config.clients.remove(ci);
                    client.activities.remove(self.activity_idx);
                    if self.activity_idx >= client.activities.len() {
                        self.activity_idx = if client.activities.len() > 0 {
                            client.activities.len() - 1
                        } else {
                            0
                        };
                    }
                    config.clients.insert(ci, client);
                    assert forall|i: int| 0 <= i < before.len() && i != ci implies config.clients@[i] == before[i] by {}
                }
            },
        }
    }

    /// Opens a form that edits the selected item, or none where nothing is
    /// selected; `rate_text` is the selected client's rate, or the selected
    /// project's rate override, as text.
    pub fn open_edit(&mut self, config: &AppConfig, rate_text: String)
        requires
            forall|i: int| 0 <= i < config.clients@.len() ==> utf8((#[trigger] config.clients@[i]).name@).len() <= usize::MAX,
            forall|i: int, j: int| 0 <= i < config.clients@.len() && 0 <= j < config.clients@[i].projects@.len() ==> utf8((#[trigger] config.clients@[i].projects@[j]).name@).len() <= usize::MAX,
            forall|i: int, j: int| 0 <= i < config.clients@.len() && 0 <= j < config.clients@[i].activities@.len() ==> utf8((#[trigger] config.clients@[i].activities@[j]).name@).len() <= usize::MAX,
        ensures
            selection(*final(self)) == selection(*old(self)),
            ({
                let s = *old(self);
                let clients = config.clients@;
                let ci = s.client_idx as int;
                match s.active_pane {
                    ManagePane::Clients => if ci < clients.len() {
                        final(self).edit_form matches Some(f) && f.target == EditTarget::Client && !f.is_new
                            && f.id@ == clients[ci].id@ && f.name@ == clients[ci].name@ && f.color@ == clients[ci].color@
                            && f.rate@ == rate_text@ && f.currency@ == clients[ci].currency@ && f.focused == FormField::Name
                            && f.cursor_pos == utf8(clients[ci].name@).len() && f.error is None
                    } else {
                        final(self).edit_form is None
                    },
                    ManagePane::Projects => if ci < clients.len() && s.project_idx < clients[ci].projects@.len() {
                        let p = clients[ci].projects@[s.project_idx as int];
                        final(self).edit_form matches Some(f) && f.target == EditTarget::Project && !f.is_new
                            && f.id@ == p.id@ && f.name@ == p.name@ && f.color@ == p.color@
                            && f.rate@ == rate_text@ && f.currency@.len() == 0 && f.focused == FormField::Name
                            && f.cursor_pos == utf8(p.name@).len() && f.error is None
                    } else {
                        final(self).edit_form is None
                    },
                    ManagePane::Activities => if ci < clients.len() && s.activity_idx < clients[ci].activities@.len() {
                        let a = clients[ci].activities@[s.activity_idx as int];
                        final(self).edit_form matches Some(f) && f.target == EditTarget::Activity && !f.is_new
                            && f.id@ == a.id@ && f.name@ == a.name@ && f.color@ == a.color@
                            && f.rate@.len() == 0 && f.currency@.len() == 0 && f.focused == FormField::Name
                            && f.cursor_pos == utf8(a.name@).len() && f.error is None
                    } else {
                        final(self).edit_form is None
                    },
                }
            }),
    {
        let ci = self.client_idx;
        let form = match self.active_pane {
            ManagePane::Clients => if ci < config.clients.len() {
                Some(EditForm::edit_client(&config.clients[ci], rate_text))
            } else {
                None
            },
            ManagePane::Projects => if ci < config.clients.len() && self.project_idx < config.clients[ci].projects.len() {
                Some(EditForm::edit_project(&config.clients[ci].projects[self.project_idx], rate_text))
            } else {
                None
            },
            ManagePane::Activities => if ci < config.clients.len() && self.activity_idx < config.clients[ci].activities.len() {
                Some(EditForm::edit_activity(&config.clients[ci].activities[self.activity_idx]))
            } else {
                None
            },
        };
        self.edit_form = form;
    }
}

} // verus!
