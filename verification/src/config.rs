//! Preferences, billing identity and the combined application configuration.
use vstd::prelude::*;

use crate::model::{Activity, Client, Project, Rate};

verus! {

#[verifier::external_type_specification]
#[verifier::external_body]
pub struct ExPathBuf(std::path::PathBuf);

/// User preferences for display and behavior.
#[derive(Debug, Clone)]
pub struct Preferences {
    pub time_format: String,
    pub week_start: String,
    pub day_start_hour: u32,
    pub day_end_hour: u32,
    pub snap_minutes: u32,
    pub description_max_length: u32,
    pub data_dir: Option<std::path::PathBuf>,
    /// How tag chips are drawn: `flat`, `powerline` or `triangle`.
    pub tag_style: String,
}

pub fn default_time_format() -> (r: String)
    ensures
        r@ == "24h"@,
{
    String::from_str("24h")
}

pub fn default_week_start() -> (r: String)
    ensures
        r@ == "monday"@,
{
    String::from_str("monday")
}

pub fn default_day_start_hour() -> (r: u32)
    ensures
        r == 6,
{
    6
}

pub fn default_day_end_hour() -> (r: u32)
    ensures
        r == 22,
{
    22
}

pub fn default_snap_minutes() -> (r: u32)
    ensures
        r == 15,
{
    15
}

pub fn default_description_max_length() -> (r: u32)
    ensures
        r == 200,
{
    200
}

pub fn default_tag_style() -> (r: String)
    ensures
        r@ == "flat"@,
{
    String::from_str("flat")
}

/// How the timeline draws the tag chips of an entry: space-separated chips,
/// chips joined by Powerline chevrons, or chips joined by triangles.
#[derive(Debug, Clone, Copy, PartialEq, Eq, Structural)]
pub enum TagStyle {
    Flat,
    Powerline,
    Triangle,
}

/// The style a preference text names; anything unknown is `Flat`.
pub open spec fn tag_style_of(text: Seq<char>) -> TagStyle {
    if text == "powerline"@ {
        TagStyle::Powerline
    } else if text == "triangle"@ {
        TagStyle::Triangle
    } else {
        TagStyle::Flat
    }
}

/// The preference text of a style.
pub open spec fn tag_style_name(t: TagStyle) -> Seq<char> {
    match t {
        TagStyle::Flat => "flat"@,
        TagStyle::Powerline => "powerline"@,
        TagStyle::Triangle => "triangle"@,
    }
}

/// The style after `t` in the cycle `flat -> powerline -> triangle -> flat`.
pub open spec fn tag_style_after(t: TagStyle) -> TagStyle {
    match t {
        TagStyle::Flat => TagStyle::Powerline,
        TagStyle::Powerline => TagStyle::Triangle,
        TagStyle::Triangle => TagStyle::Flat,
    }
}

/// The tag styles form a cycle of three, and each style's name reads back as
/// the style.
pub proof fn lemma_tag_style_cycle(t: TagStyle)
    ensures
        tag_style_after(tag_style_after(tag_style_after(t))) == t,
        tag_style_after(t) != t,
        tag_style_of(tag_style_name(t)) == t,
{
    reveal_strlit("flat");
    reveal_strlit("powerline");
    reveal_strlit("triangle");
    assert("flat"@ != "powerline"@) by {
        assert("flat"@.len() != "powerline"@.len());
    }
    assert("flat"@ != "triangle"@) by {
        assert("flat"@.len() != "triangle"@.len());
    }
    assert("powerline"@ != "triangle"@) by {
        assert("powerline"@.len() != "triangle"@.len());
    }
}

impl TagStyle {
    /// The style a preference text names; anything unknown is `Flat`.
    pub fn from_name(text: &str) -> (r: TagStyle)
        ensures
            r == tag_style_of(text@),
    {
        proof {
            reveal_strlit("powerline");
            reveal_strlit("triangle");
        }
        if crate::text::same_text(text, "powerline") {
            TagStyle::Powerline
        } else if crate::text::same_text(text, "triangle") {
            TagStyle::Triangle
        } else {
            TagStyle::Flat
        }
    }

    /// The preference text of the style.
    pub fn name(&self) -> (r: &'static str)
        ensures
            r@ == tag_style_name(*self),
    {
        match self {
            TagStyle::Flat => "flat",
            TagStyle::Powerline => "powerline",
            TagStyle::Triangle => "triangle",
        }
    }

    /// The next style in the cycle `flat -> powerline -> triangle -> flat`.
    pub fn next(self) -> (r: TagStyle)
        ensures
            r == tag_style_after(self),
    {
        match self {
            TagStyle::Flat => TagStyle::Powerline,
            TagStyle::Powerline => TagStyle::Triangle,
            TagStyle::Triangle => TagStyle::Flat,
        }
    }
}

impl Preferences {
    /// The tag style the preferences name.
    pub fn tag_style(&self) -> (r: TagStyle)
        ensures
            r == tag_style_of(self.tag_style@),
    {
        TagStyle::from_name(self.tag_style.as_str())
    }

    /// Moves the tag style one step along the cycle; nothing else changes.
    pub fn cycle_tag_style(&mut self)
        ensures
            final(self).tag_style@ == tag_style_name(tag_style_after(tag_style_of(old(self).tag_style@))),
            final(self).time_format == old(self).time_format,
            final(self).week_start == old(self).week_start,
            final(self).day_start_hour == old(self).day_start_hour,
            final(self).day_end_hour == old(self).day_end_hour,
            final(self).snap_minutes == old(self).snap_minutes,
            final(self).description_max_length == old(self).description_max_length,
            final(self).data_dir == old(self).data_dir,
    {
        let next = self.tag_style().next();
        self.tag_style = String::from_str(next.name());
    }
}

impl Default for Preferences {
    fn default() -> (r: Preferences)
        ensures
            r.time_format@ == "24h"@,
            r.week_start@ == "monday"@,
            r.day_start_hour == 6,
            r.day_end_hour == 22,
            r.snap_minutes == 15,
            r.description_max_length == 200,
            r.data_dir is None,
            r.tag_style@ == "flat"@,
    {
        Preferences {
            time_format: default_time_format(),
            week_start: default_week_start(),
            day_start_hour: default_day_start_hour(),
            day_end_hour: default_day_end_hour(),
            snap_minutes: default_snap_minutes(),
            description_max_length: default_description_max_length(),
            data_dir: None,
            tag_style: default_tag_style(),
        }
    }
}

/// Billing identity for invoices.
#[derive(Debug, Clone)]
pub struct BillFrom {
    pub name: String,
    pub address: Option<String>,
    pub email: Option<String>,
}

impl Default for BillFrom {
    fn default() -> (r: BillFrom)
        ensures
            r.name@ == Seq::<char>::empty(),
            r.address is None,
            r.email is None,
    {
        BillFrom { name: String::new(), address: None, email: None }
    }
}

/// Combined in-memory application state: preferences (from `config.toml`) and
/// clients with the billing identity (from `clients.toml` in the data directory).
#[derive(Debug, Clone)]
pub struct AppConfig {
    pub preferences: Preferences,
    pub bill_from: BillFrom,
    pub clients: Vec<Client>,
}

/// Preferences-only file format for `config.toml`.
#[derive(Debug, Clone)]
pub struct PrefsFile {
    pub preferences: Preferences,
}

/// Client data file format for `clients.toml`.
#[derive(Debug, Clone)]
pub struct ClientDataFile {
    pub bill_from: BillFrom,
    pub clients: Vec<Client>,
}

fn text(s: &str) -> (r: String)
    ensures
        r@ == s@,
{
    String::from_str(s)
}

fn activity(id: &str, name: &str, color: &str) -> (r: Activity)
    ensures
        r.id@ == id@,
        r.name@ == name@,
        r.color@ == color@,
        !r.archived,
{
    Activity { id: text(id), name: text(name), color: text(color), archived: false }
}

fn project(id: &str, name: &str, color: &str) -> (r: Project)
    ensures
        r.id@ == id@,
        r.name@ == name@,
        r.color@ == color@,
        r.rate_override is None,
        !r.archived,
{
    Project { id: text(id), name: text(name), color: text(color), rate_override: None, archived: false }
}

/// The bit pattern of the rate 0.0.
pub open spec fn rate_zero() -> Rate {
    Rate { bits: 0 }
}

/// The bit pattern of the rate 100.0.
pub open spec fn rate_hundred() -> Rate {
    Rate { bits: 0x4059_0000_0000_0000 }
}

/// A project with these texts, no rate of its own, not archived.
pub open spec fn project_is(p: Project, id: Seq<char>, name: Seq<char>, color: Seq<char>) -> bool {
    p.id@ == id && p.name@ == name && p.color@ == color && p.rate_override is None && !p.archived
}

/// An activity with these texts, not archived.
pub open spec fn activity_is(a: Activity, id: Seq<char>, name: Seq<char>, color: Seq<char>) -> bool {
    a.id@ == id && a.name@ == name && a.color@ == color && !a.archived
}

/// A client with these texts and rate, in USD, not archived, with no contact
/// or billing details.
pub open spec fn client_is(c: Client, id: Seq<char>, name: Seq<char>, color: Seq<char>, rate: Rate) -> bool {
    &&& c.id@ == id
    &&& c.name@ == name
    &&& c.color@ == color
    &&& c.rate == rate
    &&& c.currency@ == "USD"@
    &&& !c.archived
    &&& c.address is None
    &&& c.email is None
    &&& c.tax_id is None
    &&& c.payment_terms is None
    &&& c.notes is None
}

/// Creates a default configuration with sample clients, projects, and activities:
/// "personal" (rate 0) and "sample-client" (rate 100), both in USD.
pub fn create_default_config() -> (r: AppConfig)
    ensures
        r.preferences.time_format@ == "24h"@,
        r.preferences.week_start@ == "monday"@,
        r.preferences.snap_minutes == 15,
        r.preferences.description_max_length == 200,
        r.preferences.day_start_hour == 6,
        r.preferences.day_end_hour == 22,
        r.preferences.data_dir is None,
        r.preferences.tag_style@ == "flat"@,
        r.bill_from.name@ == Seq::<char>::empty(),
        r.bill_from.address is None,
        r.bill_from.email is None,
        r.clients@.len() == 2,
        client_is(r.clients@[0], "personal"@, "Personal"@, "#4F46E5"@, rate_zero()),
        r.clients@[0].projects@.len() == 2,
        project_is(r.clients@[0].projects@[0], "side-project"@, "Side Project"@, "#7C3AED"@),
        project_is(r.clients@[0].projects@[1], "learning"@, "Learning"@, "#06B6D4"@),
        r.clients@[0].activities@.len() == 2,
        activity_is(r.clients@[0].activities@[0], "development"@, "Development"@, "#2ECC71"@),
        activity_is(r.clients@[0].activities@[1], "research"@, "Research"@, "#F59E0B"@),
        client_is(r.clients@[1], "sample-client"@, "Sample Client"@, "#FF6B6B"@, rate_hundred()),
        r.clients@[1].projects@.len() == 2,
        project_is(r.clients@[1].projects@[0], "website"@, "Website"@, "#4ECDC4"@),
        project_is(r.clients@[1].projects@[1], "mobile-app"@, "Mobile App"@, "#FF8A65"@),
        r.clients@[1].activities@.len() == 4,
        activity_is(r.clients@[1].activities@[0], "development"@, "Development"@, "#2ECC71"@),
        activity_is(r.clients@[1].activities@[1], "design"@, "Design"@, "#E040FB"@),
        activity_is(r.clients@[1].activities@[2], "meeting"@, "Meeting"@, "#42A5F5"@),
        activity_is(r.clients@[1].activities@[3], "review"@, "Code Review"@, "#FFA726"@),
{
    let mut p1: Vec<Project> = Vec::new();
    p1.push(project("side-project", "Side Project", "#7C3AED"));
    p1.push(project("learning", "Learning", "#06B6D4"));
    let mut a1: Vec<Activity> = Vec::new();
    a1.push(activity("development", "Development", "#2ECC71"));
    a1.push(activity("research", "Research", "#F59E0B"));
    let personal = Client {
        id: text("personal"),
        name: text("Personal"),
        color: text("#4F46E5"),
        rate: Rate { bits: 0 },
        currency: text("USD"),
        archived: false,
        address: None,
        email: None,
        tax_id: None,
        payment_terms: None,
        notes: None,
        projects: p1,
        activities: a1,
    };
    let mut p2: Vec<Project> = Vec::new();
    p2.push(project("website", "Website", "#4ECDC4"));
    p2.push(project("mobile-app", "Mobile App", "#FF8A65"));
    let mut a2: Vec<Activity> = Vec::new();
    a2.push(activity("development", "Development", "#2ECC71"));
    a2.push(activity("design", "Design", "#E040FB"));
    a2.push(activity("meeting", "Meeting", "#42A5F5"));
    a2.push(activity("review", "Code Review", "#FFA726"));
    let sample = Client {
        id: text("sample-client"),
        name: text("Sample Client"),
        color: text("#FF6B6B"),
        rate: Rate { bits: 0x4059_0000_0000_0000 },
        currency: text("USD"),
        archived: false,
        address: None,
        email: None,
        tax_id: None,
        payment_terms: None,
        notes: None,
        projects: p2,
        activities: a2,
    };
    let mut clients: Vec<Client> = Vec::new();
    clients.push(personal);
    clients.push(sample);
    AppConfig { preferences: Preferences::default(), bill_from: BillFrom::default(), clients }
}

} // verus!
