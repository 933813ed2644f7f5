//! Entries, clients with their projects and activities, preferences and filters.
use vstd::prelude::*;

use std::hash::{Hash, Hasher};

use crate::datetime::DateTime;
use crate::text::{chars_of, contains_chars, lowercase, push_char, push_hex8, push_str, same_text, seq_contains, to_lowercase};

verus! {

/// The views of optional text.
pub open spec fn opt_view(o: Option<String>) -> Option<Seq<char>> {
    match o {
        Some(s) => Some(s@),
        None => None,
    }
}

/// A time tracking entry. Identity is (start, end) since overlaps are forbidden.
#[derive(Debug, Clone, PartialEq)]
pub struct TimeEntry {
    pub start: DateTime,
    pub end: DateTime,
    pub description: String,
    pub client: String,
    pub project: Option<String>,
    pub activity: Option<String>,
    pub notes: Option<String>,
}

/// What a `TimeEntry` holds, with its text as character sequences.
pub struct EntryView {
    pub start: DateTime,
    pub end: DateTime,
    pub description: Seq<char>,
    pub client: Seq<char>,
    pub project: Option<Seq<char>>,
    pub activity: Option<Seq<char>>,
    pub notes: Option<Seq<char>>,
}

impl View for TimeEntry {
    type V = EntryView;

    open spec fn view(&self) -> EntryView {
        EntryView {
            start: self.start,
            end: self.end,
            description: self.description@,
            client: self.client@,
            project: opt_view(self.project),
            activity: opt_view(self.activity),
            notes: opt_view(self.notes),
        }
    }
}

impl EntryView {
    pub open spec fn wf(self) -> bool {
        self.start.wf() && self.end.wf()
    }

    pub open spec fn duration(self) -> int {
        self.end.stamp() - self.start.stamp()
    }
}

/// The views of a sequence of entries.
pub open spec fn entries_view(s: Seq<TimeEntry>) -> Seq<EntryView> {
    s.map_values(|e: TimeEntry| e@)
}

pub open spec fn all_wf(s: Seq<EntryView>) -> bool {
    forall|i: int| 0 <= i < s.len() ==> (#[trigger] s[i]).wf()
}

/// The name of a deterministic 64-bit hash of an entry's (start, end), each given
/// as day number, hour and minute.
pub uninterp spec fn span_hash(sd: int, sh: int, sm: int, ed: int, eh: int, em: int) -> u64;

/// `e_` followed by eight lowercase hex digits of the low 32 bits of the span hash.
pub open spec fn entry_id_text(start: DateTime, end: DateTime) -> Seq<char> {
    seq!['e', '_'] + crate::text::hex8(
        (span_hash(
            start.day as int,
            start.hour_of(),
            start.minute_of(),
            end.day as int,
            end.hour_of(),
            end.minute_of(),
        ) as int) % 0x1_0000_0000,
    )
}

/// Hashes (start, end) as date-times (`NaiveDateTime`) with a fresh `DefaultHasher`,
/// start first. The value is only named: the hasher's algorithm is the standard
/// library's.
#[verifier::external_body]
fn hash_span(sd: i32, sh: u32, sm: u32, ed: i32, eh: u32, em: u32) -> (r: u64)
    requires
        crate::calendar::valid_day(sd as int),
        crate::calendar::valid_day(ed as int),
        sh < 24,
        sm < 60,
        eh < 24,
        em < 60,
    ensures
        r == span_hash(sd as int, sh as int, sm as int, ed as int, eh as int, em as int),
{
    let start = chrono::NaiveDate::from_num_days_from_ce_opt(sd).unwrap().and_hms_opt(
        sh,
        sm,
        0,
    ).unwrap();
    let end = chrono::NaiveDate::from_num_days_from_ce_opt(ed).unwrap().and_hms_opt(
        eh,
        em,
        0,
    ).unwrap();
    let mut hasher = std::hash::DefaultHasher::new();
    Hash::hash(&start, &mut hasher);
    Hash::hash(&end, &mut hasher);
    Hasher::finish(&hasher)
}

/// Deterministic entry ID from start and end times: `e_XXXXXXXX` (8 hex chars).
pub fn compute_entry_id(start: &DateTime, end: &DateTime) -> (r: String)
    requires
        start.wf(),
        end.wf(),
    ensures
        r@ == entry_id_text(*start, *end),
{
    let h = hash_span(
        start.day,
        start.hour(),
        start.minute_of_hour(),
        end.day,
        end.hour(),
        end.minute_of_hour(),
    );
    let low = h % 0x1_0000_0000;
    let mut out = String::new();
    push_char(&mut out, 'e');
    push_char(&mut out, '_');
    push_hex8(&mut out, low);
    out
}

impl TimeEntry {
    pub open spec fn wf(&self) -> bool {
        self@.wf()
    }

    /// Duration in minutes.
    pub fn duration_minutes(&self) -> (r: i64)
        requires
            self.wf(),
        ensures
            r == self@.duration(),
    {
        self.start.minutes_until(&self.end)
    }

    /// Month key (YYYY-MM) for file routing. Based on start time.
    pub fn month_key(&self) -> (r: String)
        requires
            self.wf(),
        ensures
            r@ == self.start.month_key_text(),
    {
        self.start.month_key()
    }

    /// Deterministic short hash ID from (start, end): `e_XXXXXXXX`.
    pub fn entry_id(&self) -> (r: String)
        requires
            self.wf(),
        ensures
            r@ == entry_id_text(self.start, self.end),
    {
        compute_entry_id(&self.start, &self.end)
    }

    /// A copy of the entry.
    pub fn duplicate(&self) -> (r: TimeEntry)
        ensures
            r@ == self@,
    {
        TimeEntry {
            start: self.start,
            end: self.end,
            description: self.description.clone(),
            client: self.client.clone(),
            project: clone_opt(&self.project),
            activity: clone_opt(&self.activity),
            notes: clone_opt(&self.notes),
        }
    }

    /// The entry that a `NewEntry` describes.
    pub fn from_new(new: NewEntry) -> (r: TimeEntry)
        ensures
            r@ == new@,
            r == (TimeEntry {
                start: new.start,
                end: new.end,
                description: new.description,
                client: new.client,
                project: new.project,
                activity: new.activity,
                notes: new.notes,
            }),
    {
        TimeEntry {
            start: new.start,
            end: new.end,
            description: new.description,
            client: new.client,
            project: new.project,
            activity: new.activity,
            notes: new.notes,
        }
    }
}

impl From<NewEntry> for TimeEntry {
    fn from(new: NewEntry) -> (r: TimeEntry) {
        TimeEntry::from_new(new)
    }
}

impl vstd::std_specs::convert::FromSpecImpl<NewEntry> for TimeEntry {
    open spec fn obeys_from_spec() -> bool {
        true
    }

    open spec fn from_spec(v: NewEntry) -> TimeEntry {
        TimeEntry {
            start: v.start,
            end: v.end,
            description: v.description,
            client: v.client,
            project: v.project,
            activity: v.activity,
            notes: v.notes,
        }
    }
}

pub fn clone_opt(o: &Option<String>) -> (r: Option<String>)
    ensures
        opt_view(r) == opt_view(*o),
{
    match o {
        Some(s) => Some(s.clone()),
        None => None,
    }
}

/// Input for creating or updating an entry.
#[derive(Debug, Clone)]
pub struct NewEntry {
    pub start: DateTime,
    pub end: DateTime,
    pub description: String,
    pub client: String,
    pub project: Option<String>,
    pub activity: Option<String>,
    pub notes: Option<String>,
}

impl View for NewEntry {
    type V = EntryView;

    open spec fn view(&self) -> EntryView {
        EntryView {
            start: self.start,
            end: self.end,
            description: self.description@,
            client: self.client@,
            project: opt_view(self.project),
            activity: opt_view(self.activity),
            notes: opt_view(self.notes),
        }
    }
}

/// The bit pattern of a billing rate (an `f64`): the library carries rates
/// and leaves arithmetic on them to its callers.
#[derive(Debug, Clone, Copy, PartialEq, Eq, Structural)]
pub struct Rate {
    pub bits: u64,
}

/// An activity type scoped to a client.
#[derive(Debug, Clone)]
pub struct Activity {
    pub id: String,
    pub name: String,
    pub color: String,
    pub archived: bool,
}

/// A project scoped to a client. `rate_override` takes precedence over the client rate.
#[derive(Debug, Clone)]
pub struct Project {
    pub id: String,
    pub name: String,
    pub color: String,
    pub rate_override: Option<Rate>,
    pub archived: bool,
}

/// A client with nested projects and activities.
#[derive(Debug, Clone)]
pub struct Client {
    pub id: String,
    pub name: String,
    pub color: String,
    pub rate: Rate,
    pub currency: String,
    pub archived: bool,
    pub address: Option<String>,
    pub email: Option<String>,
    pub tax_id: Option<String>,
    pub payment_terms: Option<String>,
    pub notes: Option<String>,
    pub projects: Vec<Project>,
    pub activities: Vec<Activity>,
}

/// Filter criteria for time entries. All fields are optional; the fields that
/// are set are AND-combined.
#[derive(Debug, Clone, Default)]
pub struct EntryFilter {
    pub client: Option<String>,
    pub project: Option<String>,
    pub activity: Option<String>,
    pub description_contains: Option<String>,
}

/// What a filter field asks of an optional entry field: unset asks nothing,
/// set asks for that exact value.
pub open spec fn field_ok(want: Option<Seq<char>>, have: Option<Seq<char>>) -> bool {
    match want {
        Some(w) => have == Some(w),
        None => true,
    }
}

impl EntryFilter {
    /// The entry meets every field that the filter sets: the same client, project
    /// and activity, and a description that contains the wanted text, compared in
    /// lowercase.
    pub open spec fn accepts(self, e: EntryView) -> bool {
        &&& (self.client matches Some(c) ==> e.client == c@)
        &&& field_ok(opt_view(self.project), e.project)
        &&& field_ok(opt_view(self.activity), e.activity)
        &&& (self.description_contains matches Some(d) ==> seq_contains(
            lowercase(e.description),
            lowercase(d@),
        ))
    }

    /// A filter accepts an entry exactly when the entry has the client, the
    /// project and the activity that the filter sets (an entry without a
    /// project or activity meets no filter that sets one) and a description
    /// holding the wanted text in any case. A filter that sets nothing accepts
    /// every entry.
    pub proof fn lemma_accepts_fields(self, e: EntryView)
        ensures
            self.accepts(e) <==> {
                &&& (self.client matches Some(c) ==> e.client == c@)
                &&& (self.project matches Some(p) ==> e.project == Some(p@))
                &&& (self.activity matches Some(a) ==> e.activity == Some(a@))
                &&& (self.description_contains matches Some(d) ==> seq_contains(
                    lowercase(e.description),
                    lowercase(d@),
                ))
            },
            self.client is None && self.project is None && self.activity is None
                && self.description_contains is None ==> self.accepts(e),
    {
    }

    /// Returns true if the entry matches all set filter fields.
    pub fn matches(&self, entry: &TimeEntry) -> (r: bool)
        ensures
            r == self.accepts(entry@),
    {
        if let Some(c) = &self.client {
            if !same_text(entry.client.as_str(), c.as_str()) {
                return false;
            }
        }
        if let Some(p) = &self.project {
            match &entry.project {
                Some(ep) => {
                    if !same_text(ep.as_str(), p.as_str()) {
                        return false;
                    }
                },
                None => {
                    return false;
                },
            }
        }
        if let Some(a) = &self.activity {
            match &entry.activity {
                Some(ea) => {
                    if !same_text(ea.as_str(), a.as_str()) {
                        return false;
                    }
                },
                None => {
                    return false;
                },
            }
        }
        if let Some(d) = &self.description_contains {
            let hay = to_lowercase(entry.description.as_str());
            let needle = to_lowercase(d.as_str());
            let hay_chars = chars_of(hay.as_str());
            let needle_chars = chars_of(needle.as_str());
            if !contains_chars(&hay_chars, &needle_chars) {
                return false;
            }
        }
        true
    }
}

} // verus!
