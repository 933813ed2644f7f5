//! Reports: the minutes of a date range grouped by client, then project, then
//! activity, each level with the names, colours and rates that the
//! configuration gives, largest first.
use vstd::prelude::*;

use crate::config::AppConfig;
use crate::date_range::DateRange;
use crate::model::{all_wf, entries_view, Activity, Client, EntryView, Project, Rate, TimeEntry};
use crate::storage::{in_range, starts_in};
use crate::text::{push_str, same_text};
use crate::validation::{find_activity, find_client, find_project};

verus! {

/// Minutes of one activity within a project.
#[derive(Debug, Clone)]
pub struct ActivityReport {
    pub activity_id: String,
    pub name: String,
    pub color: String,
    pub total_minutes: i64,
}

/// Minutes of one project within a client, with the rate that bills them.
#[derive(Debug, Clone)]
pub struct ProjectReport {
    pub project_id: String,
    pub name: String,
    pub color: String,
    pub rate: Rate,
    pub total_minutes: i64,
    pub activity_breakdown: Vec<ActivityReport>,
}

/// Minutes of one client.
#[derive(Debug, Clone)]
pub struct ClientReport {
    pub client_id: String,
    pub name: String,
    pub color: String,
    pub rate: Rate,
    pub currency: String,
    pub total_minutes: i64,
    pub project_breakdown: Vec<ProjectReport>,
}

pub struct ActivityLine {
    pub id: Seq<char>,
    pub name: Seq<char>,
    pub color: Seq<char>,
    pub total: int,
}

pub struct ProjectLine {
    pub id: Seq<char>,
    pub name: Seq<char>,
    pub color: Seq<char>,
    pub rate: Rate,
    pub total: int,
    pub activities: Seq<ActivityLine>,
}

pub struct ClientLine {
    pub id: Seq<char>,
    pub name: Seq<char>,
    pub color: Seq<char>,
    pub rate: Rate,
    pub currency: Seq<char>,
    pub total: int,
    pub projects: Seq<ProjectLine>,
}

impl View for ActivityReport {
    type V = ActivityLine;

    open spec fn view(&self) -> ActivityLine {
        ActivityLine {
            id: self.activity_id@,
            name: self.name@,
            color: self.color@,
            total: self.total_minutes as int,
        }
    }
}

impl View for ProjectReport {
    type V = ProjectLine;

    open spec fn view(&self) -> ProjectLine {
        ProjectLine {
            id: self.project_id@,
            name: self.name@,
            color: self.color@,
            rate: self.rate,
            total: self.total_minutes as int,
            activities: self.activity_breakdown@.map_values(|a: ActivityReport| a@),
        }
    }
}

impl View for ClientReport {
    type V = ClientLine;

    open spec fn view(&self) -> ClientLine {
        ClientLine {
            id: self.client_id@,
            name: self.name@,
            color: self.color@,
            rate: self.rate,
            currency: self.currency@,
            total: self.total_minutes as int,
            projects: self.project_breakdown@.map_values(|p: ProjectReport| p@),
        }
    }
}

/// The three levels that a report groups by.
#[derive(Clone, Copy, PartialEq, Eq, Structural)]
pub enum Level {
    Client,
    Project,
    Activity,
}

/// The key that an entry is grouped under at a level: its client, its project or
/// `(no project)`, its activity or `(no activity)`.
pub open spec fn key_of(level: Level, e: EntryView) -> Seq<char> {
    match level {
        Level::Client => e.client,
        Level::Project => match e.project {
            Some(p) => p,
            None => "(no project)"@,
        },
        Level::Activity => match e.activity {
            Some(a) => a,
            None => "(no activity)"@,
        },
    }
}

/// The distinct keys of the entries at a level, in order of first appearance.
pub open spec fn keys(es: Seq<EntryView>, level: Level) -> Seq<Seq<char>>
    decreases es.len(),
{
    if es.len() == 0 {
        Seq::empty()
    } else {
        let k = keys(es.drop_last(), level);
        let x = key_of(level, es.last());
        if k.contains(x) {
            k
        } else {
            k.push(x)
        }
    }
}

/// The entries, in order, grouped under `key` at a level.
pub open spec fn with_key(es: Seq<EntryView>, level: Level, key: Seq<char>) -> Seq<EntryView>
    decreases es.len(),
{
    if es.len() == 0 {
        es
    } else {
        let rest = with_key(es.drop_last(), level, key);
        if key_of(level, es.last()) == key {
            rest.push(es.last())
        } else {
            rest
        }
    }
}

/// Total minutes of the entries.
pub open spec fn total(es: Seq<EntryView>) -> int
    decreases es.len(),
{
    if es.len() == 0 {
        0
    } else {
        total(es.drop_last()) + es.last().duration()
    }
}

/// Total of the entries' lengths, each counted as a positive number.
pub open spec fn abs_total(es: Seq<EntryView>) -> int
    decreases es.len(),
{
    if es.len() == 0 {
        0
    } else {
        abs_total(es.drop_last()) + if es.last().duration() < 0 {
            -es.last().duration()
        } else {
            es.last().duration()
        }
    }
}

/// Each key at a level with the total minutes of its entries, in order of first appearance.
pub open spec fn groups(es: Seq<EntryView>, level: Level) -> Seq<(Seq<char>, int)> {
    keys(es, level).map_values(|k: Seq<char>| (k, total(with_key(es, level, k))))
}

/// Inserts `x` after every pair with at least its total.
pub open spec fn insert_desc(t: Seq<(Seq<char>, int)>, x: (Seq<char>, int)) -> Seq<(Seq<char>, int)>
    decreases t.len(),
{
    if t.len() == 0 || t.last().1 >= x.1 {
        t.push(x)
    } else {
        insert_desc(t.drop_last(), x).push(t.last())
    }
}

/// Stable sort by total, largest first.
pub open spec fn sort_desc(s: Seq<(Seq<char>, int)>) -> Seq<(Seq<char>, int)>
    decreases s.len(),
{
    if s.len() == 0 {
        s
    } else {
        insert_desc(sort_desc(s.drop_last()), s.last())
    }
}

pub open spec fn is_first_project(c: Client, id: Seq<char>, i: int) -> bool {
    &&& 0 <= i < c.projects@.len()
    &&& c.projects@[i].id@ == id
    &&& forall|j: int| 0 <= j < i ==> (#[trigger] c.projects@[j]).id@ != id
}

pub open spec fn project_with_id(c: Client, id: Seq<char>) -> Project {
    c.projects@[choose|i: int| is_first_project(c, id, i)]
}

pub open spec fn is_first_activity(c: Client, id: Seq<char>, i: int) -> bool {
    &&& 0 <= i < c.activities@.len()
    &&& c.activities@[i].id@ == id
    &&& forall|j: int| 0 <= j < i ==> (#[trigger] c.activities@[j]).id@ != id
}

pub open spec fn activity_with_id(c: Client, id: Seq<char>) -> Activity {
    c.activities@[choose|i: int| is_first_activity(c, id, i)]
}

/// The configured client with the given id, if any.
pub open spec fn client_config(config: AppConfig, id: Seq<char>) -> Option<Client> {
    if crate::validation::has_client(config.clients@, id) {
        Some(crate::validation::client_with_id(config.clients@, id))
    } else {
        None
    }
}

pub open spec fn project_config(client: Option<Client>, id: Seq<char>) -> Option<Project> {
    match client {
        Some(c) => if crate::validation::has_project(c, id) {
            Some(project_with_id(c, id))
        } else {
            None
        },
        None => None,
    }
}

pub open spec fn activity_config(client: Option<Client>, id: Seq<char>) -> Option<Activity> {
    match client {
        Some(c) => if crate::validation::has_activity(c, id) {
            Some(activity_with_id(c, id))
        } else {
            None
        },
        None => None,
    }
}

/// The bit pattern of the rate 0.0.
pub open spec fn zero_rate() -> Rate {
    Rate { bits: 0 }
}

/// An activity's line: the configured name and colour, else its id and the project's colour.
pub open spec fn activity_line(client: Option<Client>, project_color: Seq<char>, id: Seq<char>, es: Seq<EntryView>) -> ActivityLine {
    let conf = activity_config(client, id);
    ActivityLine {
        id,
        name: match conf {
            Some(a) => a.name@,
            None => id,
        },
        color: match conf {
            Some(a) => a.color@,
            None => project_color,
        },
        total: total(es),
    }
}

/// A project's line: the configured name, colour and rate override, else its id,
/// the client's colour and the client's rate; its activities largest first.
pub open spec fn project_line(client: Option<Client>, client_color: Seq<char>, client_rate: Rate, id: Seq<char>, es: Seq<EntryView>) -> ProjectLine {
    let conf = project_config(client, id);
    let color = match conf {
        Some(p) => p.color@,
        None => client_color,
    };
    ProjectLine {
        id,
        name: match conf {
            Some(p) => p.name@,
            None => id,
        },
        color,
        rate: match conf {
            Some(p) => match p.rate_override {
                Some(r) => r,
                None => client_rate,
            },
            None => client_rate,
        },
        total: total(es),
        activities: sort_desc(groups(es, Level::Activity)).map_values(
            |g: (Seq<char>, int)| activity_line(client, color, g.0, with_key(es, Level::Activity, g.0)),
        ),
    }
}

/// A client's line: the configured name, colour, rate and currency, else its id,
/// `#888888`, a zero rate and `USD`; its projects largest first.
pub open spec fn client_line(config: AppConfig, id: Seq<char>, es: Seq<EntryView>) -> ClientLine {
    let conf = client_config(config, id);
    let color = match conf {
        Some(c) => c.color@,
        None => "#888888"@,
    };
    let rate = match conf {
        Some(c) => c.rate,
        None => zero_rate(),
    };
    ClientLine {
        id,
        name: match conf {
            Some(c) => c.name@,
            None => id,
        },
        color,
        rate,
        currency: match conf {
            Some(c) => c.currency@,
            None => "USD"@,
        },
        total: total(es),
        projects: sort_desc(groups(es, Level::Project)).map_values(
            |g: (Seq<char>, int)| project_line(conf, color, rate, g.0, with_key(es, Level::Project, g.0)),
        ),
    }
}

/// The report of a range: the entries that start on a day of the range, grouped
/// by client, clients with the most minutes first (ties in order of first appearance).
pub open spec fn report_lines(range: DateRange, es: Seq<EntryView>, config: AppConfig) -> Seq<ClientLine> {
    let f = in_range(range, es);
    sort_desc(groups(f, Level::Client)).map_values(
        |g: (Seq<char>, int)| client_line(config, g.0, with_key(f, Level::Client, g.0)),
    )
}

// ---------------------------------------------------------------------------
// Facts about the groupings.

proof fn lemma_total_bounded(es: Seq<EntryView>)
    ensures
        -abs_total(es) <= total(es) <= abs_total(es),
        abs_total(es) >= 0,
    decreases es.len(),
{
    if es.len() > 0 {
        lemma_total_bounded(es.drop_last());
    }
}

proof fn lemma_with_key_abs(es: Seq<EntryView>, level: Level, key: Seq<char>)
    ensures
        abs_total(with_key(es, level, key)) <= abs_total(es),
    decreases es.len(),
{
    if es.len() > 0 {
        lemma_with_key_abs(es.drop_last(), level, key);
        let rest = with_key(es.drop_last(), level, key);
        if key_of(level, es.last()) == key {
            assert(rest.push(es.last()).drop_last() =~= rest);
            assert(rest.push(es.last()).last() == es.last());
        }
        lemma_total_bounded(es.drop_last());
    }
}

proof fn lemma_in_range_abs(range: DateRange, es: Seq<EntryView>)
    ensures
        abs_total(in_range(range, es)) <= abs_total(es),
        all_wf(es) ==> all_wf(in_range(range, es)),
    decreases es.len(),
{
    if es.len() > 0 {
        lemma_in_range_abs(range, es.drop_last());
        let rest = in_range(range, es.drop_last());
        if starts_in(range, es.last()) {
            assert(rest.push(es.last()).drop_last() =~= rest);
            assert(rest.push(es.last()).last() == es.last());
        }
        lemma_total_bounded(es.drop_last());
        if all_wf(es) {
            assert forall|i: int| 0 <= i < es.drop_last().len() implies (#[trigger] es.drop_last()[i]).wf() by {
                assert(es.drop_last()[i] == es[i]);
            }
            assert(es.last() == es[es.len() - 1]);
        }
    }
}

proof fn lemma_with_key_wf(es: Seq<EntryView>, level: Level, key: Seq<char>)
    requires
        all_wf(es),
    ensures
        all_wf(with_key(es, level, key)),
    decreases es.len(),
{
    if es.len() > 0 {
        assert forall|i: int| 0 <= i < es.drop_last().len() implies (#[trigger] es.drop_last()[i]).wf() by {
            assert(es.drop_last()[i] == es[i]);
        }
        lemma_with_key_wf(es.drop_last(), level, key);
        assert(es.last() == es[es.len() - 1]);
    }
}

// ---------------------------------------------------------------------------
// Executable parts.

/// The key of an entry at a level.
fn key_text(level: Level, e: &TimeEntry) -> (r: String)
    ensures
        r@ == key_of(level, e@),
{
    match level {
        Level::Client => e.client.clone(),
        Level::Project => match &e.project {
            Some(p) => p.clone(),
            None => String::from_str("(no project)"),
        },
        Level::Activity => match &e.activity {
            Some(a) => a.clone(),
            None => String::from_str("(no activity)"),
        },
    }
}

/// The entries that start on a day of the range, in order.
fn select_in_range(range: &DateRange, entries: &[TimeEntry]) -> (r: Vec<TimeEntry>)
    ensures
        entries_view(r@) == in_range(*range, entries_view(entries@)),
{
    let ghost es = entries_view(entries@);
    let mut out: Vec<TimeEntry> = Vec::new();
    for i in 0..entries.len()
        invariant
            es == entries_view(entries@),
            entries_view(out@) == in_range(*range, es.take(i as int)),
    {
        let e = &entries[i];
        proof {
            assert(es.take(i + 1).drop_last() =~= es.take(i as int));
            assert(es.take(i + 1).last() == e@);
        }
        if range.start.day <= e.start.day && e.start.day <= range.end.day {
            let ghost prev = entries_view(out@);
            out.push(e.duplicate());
            assert(entries_view(out@) =~= prev.push(e@));
        }
    }
    assert(es.take(entries.len() as int) =~= es);
    out
}

/// The entries grouped under `key` at a level, in order.
fn select_key(entries: &[TimeEntry], level: Level, key: &str) -> (r: Vec<TimeEntry>)
    ensures
        entries_view(r@) == with_key(entries_view(entries@), level, key@),
{
    let ghost es = entries_view(entries@);
    let mut out: Vec<TimeEntry> = Vec::new();
    for i in 0..entries.len()
        invariant
            es == entries_view(entries@),
            entries_view(out@) == with_key(es.take(i as int), level, key@),
    {
        let e = &entries[i];
        proof {
            assert(es.take(i + 1).drop_last() =~= es.take(i as int));
            assert(es.take(i + 1).last() == e@);
        }
        let k = key_text(level, e);
        if same_text(k.as_str(), key) {
            let ghost prev = entries_view(out@);
            out.push(e.duplicate());
            assert(entries_view(out@) =~= prev.push(e@));
        }
    }
    assert(es.take(entries.len() as int) =~= es);
    out
}

/// Total minutes of the entries.
fn sum_minutes(entries: &[TimeEntry]) -> (r: i64)
    requires
        all_wf(entries_view(entries@)),
        abs_total(entries_view(entries@)) <= i64::MAX,
    ensures
        r == total(entries_view(entries@)),
{
    let ghost es = entries_view(entries@);
    let mut sum: i64 = 0;
    for i in 0..entries.len()
        invariant
            es == entries_view(entries@),
            all_wf(es),
            abs_total(es) <= i64::MAX,
            sum == total(es.take(i as int)),
    {
        proof {
            assert(es.take(i + 1).drop_last() =~= es.take(i as int));
            assert(es.take(i + 1).last() == entries[i as int]@);
            assert(es[i as int].wf());
            lemma_total_bounded(es.take(i + 1));
            lemma_prefix_abs(es, i + 1);
        }
        let d = entries[i].duration_minutes();
        sum = sum + d;
    }
    assert(es.take(entries.len() as int) =~= es);
    sum
}

proof fn lemma_prefix_abs(es: Seq<EntryView>, n: int)
    requires
        0 <= n <= es.len(),
    ensures
        abs_total(es.take(n)) <= abs_total(es),
    decreases es.len() - n,
{
    if n < es.len() {
        lemma_prefix_abs(es, n + 1);
        assert(es.take(n + 1).drop_last() =~= es.take(n));
    } else {
        assert(es.take(n) =~= es);
    }
}

/// The distinct keys at a level, in order of first appearance.
fn distinct_keys(entries: &[TimeEntry], level: Level) -> (r: Vec<String>)
    ensures
        r@.map_values(|s: String| s@) == keys(entries_view(entries@), level),
{
    let ghost es = entries_view(entries@);
    let mut out: Vec<String> = Vec::new();
    for i in 0..entries.len()
        invariant
            es == entries_view(entries@),
            out@.map_values(|s: String| s@) == keys(es.take(i as int), level),
    {
        let e = &entries[i];
        proof {
            assert(es.take(i + 1).drop_last() =~= es.take(i as int));
            assert(es.take(i + 1).last() == e@);
        }
        let k = key_text(level, e);
        let ghost seen = out@.map_values(|s: String| s@);
        let mut found = false;
        let mut j: usize = 0;
        while j < out.len()
            invariant
                j <= out.len(),
                seen == out@.map_values(|s: String| s@),
                found == exists|m: int| 0 <= m < j && seen[m] == k@,
            decreases out.len() - j,
        {
            assert(seen[j as int] == out@[j as int]@);
            if same_text(out[j].as_str(), k.as_str()) {
                found = true;
            }
            j = j + 1;
        }
        proof {
            if found {
                let m = choose|m: int| 0 <= m < out.len() && seen[m] == k@;
                assert(seen.contains(k@));
            } else {
                assert(!seen.contains(k@));
            }
        }
        if !found {
            out.push(k);
            assert(out@.map_values(|s: String| s@) =~= seen.push(key_of(level, e@)));
        }
    }
    assert(es.take(entries.len() as int) =~= es);
    out
}

proof fn lemma_insert_desc_shape(t: Seq<(Seq<char>, int)>, x: (Seq<char>, int), j: int)
    requires
        0 <= j <= t.len(),
        forall|k: int| j <= k < t.len() ==> (#[trigger] t[k]).1 < x.1,
        j == 0 || t[j - 1].1 >= x.1,
    ensures
        insert_desc(t, x) == t.take(j).push(x) + t.skip(j),
    decreases t.len(),
{
    if j == t.len() {
        assert(t.skip(j) =~= Seq::<(Seq<char>, int)>::empty());
        assert(t.take(j) =~= t);
        assert(t.take(j).push(x) + t.skip(j) =~= t.push(x));
    } else {
        lemma_insert_desc_shape(t.drop_last(), x, j);
        assert(t.drop_last().take(j) =~= t.take(j));
        assert(t.drop_last().skip(j).push(t.last()) =~= t.skip(j));
        assert((t.take(j).push(x) + t.drop_last().skip(j)).push(t.last()) =~= t.take(j).push(x)
            + t.skip(j));
    }
}

pub open spec fn pairs_view(v: Seq<(String, i64)>) -> Seq<(Seq<char>, int)> {
    v.map_values(|p: (String, i64)| (p.0@, p.1 as int))
}

/// Stable sort of (key, total) pairs, largest total first.
fn sort_pairs_desc(v: &Vec<(String, i64)>) -> (r: Vec<(String, i64)>)
    ensures
        pairs_view(r@) == sort_desc(pairs_view(v@)),
{
    let ghost all = pairs_view(v@);
    let mut out: Vec<(String, i64)> = Vec::new();
    assert(all.take(0) =~= Seq::<(Seq<char>, int)>::empty());
    assert(pairs_view(out@) =~= Seq::<(Seq<char>, int)>::empty());
    for i in 0..v.len()
        invariant
            all == pairs_view(v@),
            pairs_view(out@) == sort_desc(all.take(i as int)),
    {
        let x: (String, i64) = (v[i].0.clone(), v[i].1);
        let ghost xv = (x.0@, x.1 as int);
        assert(xv == all[i as int]);
        let mut j = out.len();
        while j > 0 && out[j - 1].1 < x.1
            invariant
                j <= out@.len(),
                forall|k: int| j <= k < out@.len() ==> out@[k].1 < x.1,
            decreases j,
        {
            j = j - 1;
        }
        let ghost t = pairs_view(out@);
        proof {
            assert forall|k: int| j <= k < t.len() implies (#[trigger] t[k]).1 < xv.1 by {
                assert(t[k] == (out@[k].0@, out@[k].1 as int));
            }
            if j > 0 {
                assert(t[j - 1] == (out@[j - 1].0@, out@[j - 1].1 as int));
            }
            lemma_insert_desc_shape(t, xv, j as int);
            assert(all.take(i + 1).drop_last() =~= all.take(i as int));
            assert(all.take(i + 1).last() == xv);
        }
        out.insert(j, x);
        assert(pairs_view(out@) =~= t.take(j as int).push(xv) + t.skip(j as int));
    }
    assert(all.take(v.len() as int) =~= all);
    out
}

/// Each key at a level with the total minutes of its entries, largest first.
fn sorted_groups(entries: &[TimeEntry], level: Level) -> (r: Vec<(String, i64)>)
    requires
        all_wf(entries_view(entries@)),
        abs_total(entries_view(entries@)) <= i64::MAX,
    ensures
        pairs_view(r@) == sort_desc(groups(entries_view(entries@), level)),
{
    let ghost es = entries_view(entries@);
    let ks = distinct_keys(entries, level);
    let ghost kv = ks@.map_values(|s: String| s@);
    let mut pairs: Vec<(String, i64)> = Vec::new();
    for i in 0..ks.len()
        invariant
            es == entries_view(entries@),
            all_wf(es),
            abs_total(es) <= i64::MAX,
            kv == ks@.map_values(|s: String| s@),
            kv == keys(es, level),
            pairs_view(pairs@) == groups(es, level).take(i as int),
    {
        let sel = select_key(entries, level, ks[i].as_str());
        proof {
            lemma_with_key_abs(es, level, kv[i as int]);
            lemma_with_key_wf(es, level, kv[i as int]);
            assert(kv[i as int] == ks@[i as int]@);
        }
        let t = sum_minutes(sel.as_slice());
        let ghost prev = pairs_view(pairs@);
        let key = ks[i].clone();
        pairs.push((key, t));
        proof {
            let g = groups(es, level);
            assert(g[i as int] == (kv[i as int], total(with_key(es, level, kv[i as int]))));
            assert(g.take(i + 1) =~= g.take(i as int).push(g[i as int]));
            assert(pairs_view(pairs@) =~= prev.push((key@, t as int)));
        }
    }
    assert(groups(es, level).take(ks.len() as int) =~= groups(es, level));
    sort_pairs_desc(&pairs)
}

pub open spec fn opt_client(c: Option<&Client>) -> Option<Client> {
    match c {
        Some(x) => Some(*x),
        None => None,
    }
}

proof fn lemma_first_project_unique(c: Client, id: Seq<char>, i: int, j: int)
    requires
        is_first_project(c, id, i),
        is_first_project(c, id, j),
    ensures
        i == j,
{
}

proof fn lemma_first_activity_unique(c: Client, id: Seq<char>, i: int, j: int)
    requires
        is_first_activity(c, id, i),
        is_first_activity(c, id, j),
    ensures
        i == j,
{
}

/// The configured project with the given id under the client, if any.
fn lookup_project<'a>(client: Option<&'a Client>, id: &str) -> (r: Option<&'a Project>)
    ensures
        match r {
            Some(p) => project_config(opt_client(client), id@) == Some(*p),
            None => project_config(opt_client(client), id@) is None,
        },
{
    match client {
        Some(c) => {
            let found = find_project(c, id);
            proof {
                if let Some(p) = found {
                    let i = choose|i: int|
                        0 <= i < c.projects@.len() && *p == c.projects@[i] && p.id@ == id@
                            && forall|j: int|
                            0 <= j < i ==> (#[trigger] c.projects@[j]).id@ != id@;
                    assert(is_first_project(*c, id@, i));
                    let k = choose|k: int| is_first_project(*c, id@, k);
                    lemma_first_project_unique(*c, id@, i, k);
                }
            }
            found
        },
        None => None,
    }
}

/// The configured activity with the given id under the client, if any.
fn lookup_activity<'a>(client: Option<&'a Client>, id: &str) -> (r: Option<&'a Activity>)
    ensures
        match r {
            Some(a) => activity_config(opt_client(client), id@) == Some(*a),
            None => activity_config(opt_client(client), id@) is None,
        },
{
    match client {
        Some(c) => {
            let found = find_activity(c, id);
            proof {
                if let Some(a) = found {
                    let i = choose|i: int|
                        0 <= i < c.activities@.len() && *a == c.activities@[i] && a.id@ == id@
                            && forall|j: int|
                            0 <= j < i ==> (#[trigger] c.activities@[j]).id@ != id@;
                    assert(is_first_activity(*c, id@, i));
                    let k = choose|k: int| is_first_activity(*c, id@, k);
                    lemma_first_activity_unique(*c, id@, i, k);
                }
            }
            found
        },
        None => None,
    }
}

/// The configured client with the given id, if any.
fn lookup_client<'a>(config: &'a AppConfig, id: &str) -> (r: Option<&'a Client>)
    ensures
        match r {
            Some(c) => client_config(*config, id@) == Some(*c),
            None => client_config(*config, id@) is None,
        },
{
    let found = find_client(config, id);
    proof {
        if let Some(c) = found {
            let i = choose|i: int|
                crate::validation::is_first_client(config.clients@, id@, i) && *c == config.clients@[i];
            let k = choose|k: int| crate::validation::is_first_client(config.clients@, id@, k);
            crate::validation::lemma_first_client_unique(config.clients@, id@, i, k);
        }
    }
    found
}

fn build_activity(client: Option<&Client>, project_color: &String, id: &String, es: &Vec<TimeEntry>) -> (r: ActivityReport)
    requires
        all_wf(entries_view(es@)),
        abs_total(entries_view(es@)) <= i64::MAX,
    ensures
        r@ == activity_line(opt_client(client), project_color@, id@, entries_view(es@)),
{
    let conf = lookup_activity(client, id.as_str());
    let name = match conf {
        Some(a) => a.name.clone(),
        None => id.clone(),
    };
    let color = match conf {
        Some(a) => a.color.clone(),
        None => project_color.clone(),
    };
    let total = sum_minutes(es.as_slice());
    ActivityReport { activity_id: id.clone(), name, color, total_minutes: total }
}

fn build_project(
    client: Option<&Client>,
    client_color: &String,
    client_rate: Rate,
    id: &String,
    es: &Vec<TimeEntry>,
) -> (r: ProjectReport)
    requires
        all_wf(entries_view(es@)),
        abs_total(entries_view(es@)) <= i64::MAX,
    ensures
        r@ == project_line(opt_client(client), client_color@, client_rate, id@, entries_view(es@)),
{
    let ghost ev = entries_view(es@);
    let conf = lookup_project(client, id.as_str());
    let name = match conf {
        Some(p) => p.name.clone(),
        None => id.clone(),
    };
    let color = match conf {
        Some(p) => p.color.clone(),
        None => client_color.clone(),
    };
    let rate = match conf {
        Some(p) => match p.rate_override {
            Some(r) => r,
            None => client_rate,
        },
        None => client_rate,
    };
    let total = sum_minutes(es.as_slice());
    let order = sorted_groups(es.as_slice(), Level::Activity);
    let ghost want = sort_desc(groups(ev, Level::Activity)).map_values(
        |g: (Seq<char>, int)| activity_line(opt_client(client), color@, g.0, with_key(ev, Level::Activity, g.0)),
    );
    let mut acts: Vec<ActivityReport> = Vec::new();
    for i in 0..order.len()
        invariant
            ev == entries_view(es@),
            all_wf(ev),
            abs_total(ev) <= i64::MAX,
            pairs_view(order@) == sort_desc(groups(ev, Level::Activity)),
            want == sort_desc(groups(ev, Level::Activity)).map_values(
                |g: (Seq<char>, int)| activity_line(opt_client(client), color@, g.0, with_key(ev, Level::Activity, g.0)),
            ),
            acts@.map_values(|a: ActivityReport| a@) == want.take(i as int),
    {
        let key = &order[i].0;
        let sel = select_key(es.as_slice(), Level::Activity, key.as_str());
        proof {
            lemma_with_key_abs(ev, Level::Activity, key@);
            lemma_with_key_wf(ev, Level::Activity, key@);
            assert(pairs_view(order@)[i as int].0 == key@);
        }
        let a = build_activity(client, &color, key, &sel);
        let ghost prev = acts@.map_values(|a: ActivityReport| a@);
        proof {
            let sorted = sort_desc(groups(ev, Level::Activity));
            assert(sorted.len() == order@.len());
            assert(sorted[i as int].0 == key@);
            assert(want[i as int] == a@);
            assert(want.take(i + 1) =~= want.take(i as int).push(want[i as int]));
        }
        acts.push(a);
        assert(acts@.map_values(|a: ActivityReport| a@) =~= prev.push(want[i as int]));
    }
    assert(want.take(order.len() as int) =~= want);
    ProjectReport {
        project_id: id.clone(),
        name,
        color,
        rate,
        total_minutes: total,
        activity_breakdown: acts,
    }
}

fn build_client(config: &AppConfig, id: &String, es: &Vec<TimeEntry>) -> (r: ClientReport)
    requires
        all_wf(entries_view(es@)),
        abs_total(entries_view(es@)) <= i64::MAX,
    ensures
        r@ == client_line(*config, id@, entries_view(es@)),
{
    let ghost ev = entries_view(es@);
    let conf = lookup_client(config, id.as_str());
    let name = match conf {
        Some(c) => c.name.clone(),
        None => id.clone(),
    };
    let color = match conf {
        Some(c) => c.color.clone(),
        None => String::from_str("#888888"),
    };
    let rate = match conf {
        Some(c) => c.rate,
        None => Rate { bits: 0 },
    };
    let currency = match conf {
        Some(c) => c.currency.clone(),
        None => String::from_str("USD"),
    };
    let total = sum_minutes(es.as_slice());
    let order = sorted_groups(es.as_slice(), Level::Project);
    let ghost want = sort_desc(groups(ev, Level::Project)).map_values(
        |g: (Seq<char>, int)| project_line(opt_client(conf), color@, rate, g.0, with_key(ev, Level::Project, g.0)),
    );
    let mut projects: Vec<ProjectReport> = Vec::new();
    for i in 0..order.len()
        invariant
            ev == entries_view(es@),
            all_wf(ev),
            abs_total(ev) <= i64::MAX,
            pairs_view(order@) == sort_desc(groups(ev, Level::Project)),
            want == sort_desc(groups(ev, Level::Project)).map_values(
                |g: (Seq<char>, int)| project_line(opt_client(conf), color@, rate, g.0, with_key(ev, Level::Project, g.0)),
            ),
            projects@.map_values(|p: ProjectReport| p@) == want.take(i as int),
    {
        let key = &order[i].0;
        let sel = select_key(es.as_slice(), Level::Project, key.as_str());
        proof {
            lemma_with_key_abs(ev, Level::Project, key@);
            lemma_with_key_wf(ev, Level::Project, key@);
            assert(pairs_view(order@)[i as int].0 == key@);
        }
        let p = build_project(conf, &color, rate, key, &sel);
        let ghost prev = projects@.map_values(|p: ProjectReport| p@);
        proof {
            let sorted = sort_desc(groups(ev, Level::Project));
            assert(sorted.len() == order@.len());
            assert(sorted[i as int].0 == key@);
            assert(want[i as int] == p@);
            assert(want.take(i + 1) =~= want.take(i as int).push(want[i as int]));
        }
        projects.push(p);
        assert(projects@.map_values(|p: ProjectReport| p@) =~= prev.push(want[i as int]));
    }
    assert(want.take(order.len() as int) =~= want);
    ClientReport {
        client_id: id.clone(),
        name,
        color,
        rate,
        currency,
        total_minutes: total,
        project_breakdown: projects,
    }
}

/// Generate a hierarchical report from entries within a date range.
/// Groups by Client -> Project -> Activity with totals; each level is sorted by
/// total minutes, largest first.
pub fn generate_report(range: &DateRange, entries: &[TimeEntry], config: &AppConfig) -> (r: Vec<
    ClientReport,
>)
    requires
        all_wf(entries_view(entries@)),
        abs_total(in_range(*range, entries_view(entries@))) <= i64::MAX,
    ensures
        r@.map_values(|c: ClientReport| c@) == report_lines(*range, entries_view(entries@), *config),
{
    let filtered = select_in_range(range, entries);
    let ghost f = entries_view(filtered@);
    proof {
        lemma_in_range_abs(*range, entries_view(entries@));
    }
    let order = sorted_groups(filtered.as_slice(), Level::Client);
    let ghost want = sort_desc(groups(f, Level::Client)).map_values(
        |g: (Seq<char>, int)| client_line(*config, g.0, with_key(f, Level::Client, g.0)),
    );
    let mut out: Vec<ClientReport> = Vec::new();
    for i in 0..order.len()
        invariant
            f == entries_view(filtered@),
            all_wf(f),
            abs_total(f) <= i64::MAX,
            pairs_view(order@) == sort_desc(groups(f, Level::Client)),
            want == sort_desc(groups(f, Level::Client)).map_values(
                |g: (Seq<char>, int)| client_line(*config, g.0, with_key(f, Level::Client, g.0)),
            ),
            out@.map_values(|c: ClientReport| c@) == want.take(i as int),
    {
        let key = &order[i].0;
        let sel = select_key(filtered.as_slice(), Level::Client, key.as_str());
        proof {
            lemma_with_key_abs(f, Level::Client, key@);
            lemma_with_key_wf(f, Level::Client, key@);
            assert(pairs_view(order@)[i as int].0 == key@);
        }
        let c = build_client(config, key, &sel);
        let ghost prev = out@.map_values(|c: ClientReport| c@);
        proof {
            let sorted = sort_desc(groups(f, Level::Client));
            assert(sorted.len() == order@.len());
            assert(sorted[i as int].0 == key@);
            assert(want[i as int] == c@);
            assert(want.take(i + 1) =~= want.take(i as int).push(want[i as int]));
        }
        out.push(c);
        assert(out@.map_values(|c: ClientReport| c@) =~= prev.push(want[i as int]));
    }
    assert(want.take(order.len() as int) =~= want);
    out
}

} // verus!
