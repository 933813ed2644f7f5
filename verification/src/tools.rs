//! The configuration changes that the assistant-facing tools make: adding,
//! changing and archiving clients, and the projects and activities of a client.
//! A refused change leaves the configuration as it was and says why.
use vstd::prelude::*;

use crate::config::AppConfig;
use crate::entry_form::{
    activity_position, client_position, find_activity_index, find_client_index,
    find_project_index, project_position,
};
use crate::model::{Activity, Client, Project, Rate};
use crate::text::push_str;

verus! {

/// Parameters for the `create_client` tool.
#[derive(Debug)]
pub struct CreateClientParams {
    pub id: String,
    pub name: String,
    pub color: String,
    pub rate: Rate,
    pub currency: Option<String>,
    pub address: Option<String>,
    pub email: Option<String>,
    pub tax_id: Option<String>,
    pub payment_terms: Option<String>,
    pub notes: Option<String>,
}

/// Parameters for the `update_client` tool: the fields given are changed.
#[derive(Debug)]
pub struct UpdateClientParams {
    pub id: String,
    pub name: Option<String>,
    pub color: Option<String>,
    pub rate: Option<Rate>,
    pub currency: Option<String>,
    pub address: Option<String>,
    pub email: Option<String>,
    pub tax_id: Option<String>,
    pub payment_terms: Option<String>,
    pub notes: Option<String>,
}

/// Parameters for the `archive_client` tool.
#[derive(Debug)]
pub struct ArchiveClientParams {
    pub id: String,
    pub archived: bool,
}

/// Parameters for the `create_project` tool.
#[derive(Debug)]
pub struct CreateProjectParams {
    pub client_id: String,
    pub id: String,
    pub name: String,
    pub color: String,
    pub rate_override: Option<Rate>,
}

/// Parameters for the `update_project` tool.
#[derive(Debug)]
pub struct UpdateProjectParams {
    pub client_id: String,
    pub id: String,
    pub name: Option<String>,
    pub color: Option<String>,
    pub rate_override: Option<Rate>,
}

/// Parameters for the `archive_project` tool.
#[derive(Debug)]
pub struct ArchiveProjectParams {
    pub client_id: String,
    pub id: String,
    pub archived: bool,
}

/// Parameters for the `create_activity` tool.
#[derive(Debug)]
pub struct CreateActivityParams {
    pub client_id: String,
    pub id: String,
    pub name: String,
    pub color: String,
}

/// Parameters for the `update_activity` tool.
#[derive(Debug)]
pub struct UpdateActivityParams {
    pub client_id: String,
    pub id: String,
    pub name: Option<String>,
    pub color: Option<String>,
}

/// Parameters for the `archive_activity` tool.
#[derive(Debug)]
pub struct ArchiveActivityParams {
    pub client_id: String,
    pub id: String,
    pub archived: bool,
}

pub open spec fn client_exists_message(id: Seq<char>) -> Seq<char> {
    "client ID '"@ + id + "' already exists"@
}

pub open spec fn client_missing_message(id: Seq<char>) -> Seq<char> {
    "client '"@ + id + "' not found"@
}

pub open spec fn project_exists_message(id: Seq<char>, client_id: Seq<char>) -> Seq<char> {
    "project ID '"@ + id + "' already exists under client '"@ + client_id + "'"@
}

pub open spec fn project_missing_message(id: Seq<char>) -> Seq<char> {
    "project '"@ + id + "' not found"@
}

pub open spec fn activity_exists_message(id: Seq<char>, client_id: Seq<char>) -> Seq<char> {
    "activity ID '"@ + id + "' already exists under client '"@ + client_id + "'"@
}

pub open spec fn activity_missing_message(id: Seq<char>) -> Seq<char> {
    "activity '"@ + id + "' not found"@
}

/// The value given, else the current one.
pub open spec fn given_or<T>(given: Option<T>, current: T) -> T {
    match given {
        Some(x) => x,
        None => current,
    }
}

/// The value given, else the current optional one.
pub open spec fn given_or_opt<T>(given: Option<T>, current: Option<T>) -> Option<T> {
    match given {
        Some(x) => Some(x),
        None => current,
    }
}

/// The client that `create_client` adds: the fields given, currency `USD` where
/// none is given, not archived, without projects or activities.
pub open spec fn is_new_client(c: Client, p: CreateClientParams) -> bool {
    &&& c.id == p.id
    &&& c.name == p.name
    &&& c.color == p.color
    &&& c.rate == p.rate
    &&& c.currency@ == match p.currency {
        Some(x) => x@,
        None => "USD"@,
    }
    &&& !c.archived
    &&& c.address == p.address
    &&& c.email == p.email
    &&& c.tax_id == p.tax_id
    &&& c.payment_terms == p.payment_terms
    &&& c.notes == p.notes
    &&& c.projects@.len() == 0
    &&& c.activities@.len() == 0
}

/// A client with the fields that an update gives changed.
pub open spec fn updated_client(c: Client, p: UpdateClientParams) -> Client {
    Client {
        name: given_or(p.name, c.name),
        color: given_or(p.color, c.color),
        rate: given_or(p.rate, c.rate),
        currency: given_or(p.currency, c.currency),
        address: given_or_opt(p.address, c.address),
        email: given_or_opt(p.email, c.email),
        tax_id: given_or_opt(p.tax_id, c.tax_id),
        payment_terms: given_or_opt(p.payment_terms, c.payment_terms),
        notes: given_or_opt(p.notes, c.notes),
        ..c
    }
}

/// Only the clients changed.
pub open spec fn same_settings(a: AppConfig, b: AppConfig) -> bool {
    a.preferences == b.preferences && a.bill_from == b.bill_from
}

/// `a` + `x` + `b`.
fn message(a: &str, x: &str, b: &str) -> (r: String)
    ensures
        r@ == a@ + x@ + b@,
{
    let mut m = String::new();
    push_str(&mut m, a);
    push_str(&mut m, x);
    push_str(&mut m, b);
    m
}

/// Adds a client, refused where one with the same id exists.
pub fn create_client(config: &mut AppConfig, params: CreateClientParams) -> (r: Result<(), String>)
    ensures
        same_settings(*old(config), *final(config)),
        match r {
            Ok(()) => client_position(old(config).clients@, params.id@, 0) is None
                && final(config).clients@.len() == old(config).clients@.len() + 1
                && final(config).clients@.take(old(config).clients@.len() as int)
                == old(config).clients@ && is_new_client(final(config).clients@.last(), params),
            Err(m) => client_position(old(config).clients@, params.id@, 0) is Some && m@
                == client_exists_message(params.id@) && final(config).clients@ == old(config).clients@,
        },
{
    if find_client_index(&config.clients, params.id.as_str()).is_some() {
        proof {
            reveal_strlit("client ID '");
            reveal_strlit("' already exists");
        }
        return Err(message("client ID '", params.id.as_str(), "' already exists"));
    }
    let ghost before = config.clients@;
    let ghost p = params;
    let currency = match params.currency {
        Some(c) => c,
        None => String::from_str("USD"),
    };
    proof {
        reveal_strlit("USD");
    }
    config.clients.push(
        Client {
            id: params.id,
            name: params.name,
            color: params.color,
            rate: params.rate,
            currency,
            archived: false,
            address: params.address,
            email: params.email,
            tax_id: params.tax_id,
            payment_terms: params.payment_terms,
            notes: params.notes,
            projects: Vec::new(),
            activities: Vec::new(),
        },
    );
    assert(config.clients@.take(before.len() as int) =~= before);
    Ok(())
}

/// Changes the fields given of the client with the id (the first such), refused
/// where there is none; gives the client's position.
pub fn update_client(config: &mut AppConfig, params: UpdateClientParams) -> (r: Result<usize, String>)
    ensures
        same_settings(*old(config), *final(config)),
        match r {
            Ok(i) => client_position(old(config).clients@, params.id@, 0) == Some(i as int)
                && final(config).clients@ == old(config).clients@.update(
                i as int,
                updated_client(old(config).clients@[i as int], params),
            ),
            Err(m) => client_position(old(config).clients@, params.id@, 0) is None && m@
                == client_missing_message(params.id@) && final(config).clients@ == old(config).clients@,
        },
{
    let i = match find_client_index(&config.clients, params.id.as_str()) {
        Some(i) => i,
        None => {
            proof {
                reveal_strlit("client '");
                reveal_strlit("' not found");
            }
            return Err(message("client '", params.id.as_str(), "' not found"));
        },
    };
    let ghost before = config.clients@;
    let ghost p = params;
    let mut client = config.clients.remove(i);
    if let Some(name) = params.name {
        client.name = name;
    }
    if let Some(color) = params.color {
        client.color = color;
    }
    if let Some(rate) = params.rate {
        client.rate = rate;
    }
    if let Some(currency) = params.currency {
        client.currency = currency;
    }
    if let Some(address) = params.address {
        client.address = Some(address);
    }
    if let Some(email) = params.email {
        client.email = Some(email);
    }
    if let Some(tax_id) = params.tax_id {
        client.tax_id = Some(tax_id);
    }
    if let Some(payment_terms) = params.payment_terms {
        client.payment_terms = Some(payment_terms);
    }
    if let Some(notes) = params.notes {
        client.notes = Some(notes);
    }
    assert(client == updated_client(before[i as int], p));
    config.clients.insert(i, client);
    assert(config.clients@ =~= before.update(i as int, updated_client(before[i as int], p)));
    Ok(i)
}

/// The projects, each with its archived flag set to `a`.
pub open spec fn flagged_projects(ps: Seq<Project>, a: bool) -> Seq<Project> {
    ps.map_values(|p: Project| Project { archived: a, ..p })
}

/// The activities, each with its archived flag set to `a`.
pub open spec fn flagged_activities(acts: Seq<Activity>, a: bool) -> Seq<Activity> {
    acts.map_values(|x: Activity| Activity { archived: a, ..x })
}

/// `after` is `before` archived or restored with its projects and activities.
pub open spec fn archived_client(before: Client, after: Client, a: bool) -> bool {
    &&& after == Client {
        archived: a,
        projects: after.projects,
        activities: after.activities,
        ..before
    }
    &&& after.projects@ == flagged_projects(before.projects@, a)
    &&& after.activities@ == flagged_activities(before.activities@, a)
}

/// The projects with their archived flags set to `a`.
fn flag_projects(ps: Vec<Project>, a: bool) -> (r: Vec<Project>)
    ensures
        r@ == flagged_projects(ps@, a),
{
    let ghost orig = ps@;
    let mut rest = ps;
    let mut out: Vec<Project> = Vec::new();
    while rest.len() > 0
        invariant
            out@.len() + rest@.len() == orig.len(),
            rest@ == orig.skip(out@.len() as int),
            out@ == flagged_projects(orig.take(out@.len() as int), a),
        decreases rest@.len(),
    {
        let ghost k = out@.len() as int;
        let mut p = rest.remove(0);
        p.archived = a;
        out.push(p);
        assert(rest@ =~= orig.skip(k + 1));
        assert(out@ =~= flagged_projects(orig.take(k + 1), a));
    }
    assert(orig.take(orig.len() as int) =~= orig);
    out
}

/// The activities with their archived flags set to `a`.
fn flag_activities(acts: Vec<Activity>, a: bool) -> (r: Vec<Activity>)
    ensures
        r@ == flagged_activities(acts@, a),
{
    let ghost orig = acts@;
    let mut rest = acts;
    let mut out: Vec<Activity> = Vec::new();
    while rest.len() > 0
        invariant
            out@.len() + rest@.len() == orig.len(),
            rest@ == orig.skip(out@.len() as int),
            out@ == flagged_activities(orig.take(out@.len() as int), a),
        decreases rest@.len(),
    {
        let ghost k = out@.len() as int;
        let mut x = rest.remove(0);
        x.archived = a;
        out.push(x);
        assert(rest@ =~= orig.skip(k + 1));
        assert(out@ =~= flagged_activities(orig.take(k + 1), a));
    }
    assert(orig.take(orig.len() as int) =~= orig);
    out
}

/// Archives or restores the client with the id, together with all its projects
/// and activities; refused where there is no such client. Gives the client's
/// position.
pub fn archive_client(config: &mut AppConfig, params: ArchiveClientParams) -> (r: Result<usize, String>)
    ensures
        same_settings(*old(config), *final(config)),
        match r {
            Ok(i) => {
                &&& client_position(old(config).clients@, params.id@, 0) == Some(i as int)
                &&& final(config).clients@.len() == old(config).clients@.len()
                &&& forall|j: int|
                    0 <= j < old(config).clients@.len() && j != i ==> final(config).clients@[j]
                        == old(config).clients@[j]
                &&& archived_client(
                    old(config).clients@[i as int],
                    final(config).clients@[i as int],
                    params.archived,
                )
            },
            Err(m) => client_position(old(config).clients@, params.id@, 0) is None && m@
                == client_missing_message(params.id@) && final(config).clients@ == old(config).clients@,
        },
{
    let i = match find_client_index(&config.clients, params.id.as_str()) {
        Some(i) => i,
        None => {
            proof {
                reveal_strlit("client '");
                reveal_strlit("' not found");
            }
            return Err(message("client '", params.id.as_str(), "' not found"));
        },
    };
    let ghost before = config.clients@;
    let client = config.clients.remove(i);
    let ghost old_client = client;
    let Client {
        id,
        name,
        color,
        rate,
        currency,
        archived: _,
        address,
        email,
        tax_id,
        payment_terms,
        notes,
        projects,
        activities,
    } = client;
    let projects = flag_projects(projects, params.archived);
    let activities = flag_activities(activities, params.archived);
    let updated = Client {
        id,
        name,
        color,
        rate,
        currency,
        archived: params.archived,
        address,
        email,
        tax_id,
        payment_terms,
        notes,
        projects,
        activities,
    };
    assert(archived_client(old_client, updated, params.archived));
    config.clients.insert(i, updated);
    assert(forall|j: int|
        0 <= j < before.len() && j != i ==> config.clients@[j] == before[j]);
    Ok(i)
}

/// The projects of client `ci` changed to `ps`, nothing else.
pub open spec fn with_projects(clients: Seq<Client>, ci: int, ps: Seq<Project>, after: Seq<Client>) -> bool {
    &&& after.len() == clients.len()
    &&& forall|i: int| 0 <= i < clients.len() && i != ci ==> after[i] == clients[i]
    &&& after[ci] == Client { projects: after[ci].projects, ..clients[ci] }
    &&& after[ci].projects@ == ps
}

/// The activities of client `ci` changed to `acts`, nothing else.
pub open spec fn with_activities(clients: Seq<Client>, ci: int, acts: Seq<Activity>, after: Seq<Client>) -> bool {
    &&& after.len() == clients.len()
    &&& forall|i: int| 0 <= i < clients.len() && i != ci ==> after[i] == clients[i]
    &&& after[ci] == Client { activities: after[ci].activities, ..clients[ci] }
    &&& after[ci].activities@ == acts
}

/// Adds a project to a client, refused where the client is missing or already
/// has a project with the id; gives the client's position.
pub fn create_project(config: &mut AppConfig, params: CreateProjectParams) -> (r: Result<usize, String>)
    ensures
        same_settings(*old(config), *final(config)),
        match client_position(old(config).clients@, params.client_id@, 0) {
            None => r matches Err(m) && m@ == client_missing_message(params.client_id@)
                && final(config).clients@ == old(config).clients@,
            Some(ci) => {
                let c = old(config).clients@[ci];
                if project_position(c.projects@, params.id@, 0) is Some {
                    r matches Err(m) && m@ == project_exists_message(
                        params.id@,
                        params.client_id@,
                    ) && final(config).clients@ == old(config).clients@
                } else {
                    r == Ok::<usize, String>(ci as usize) && with_projects(
                        old(config).clients@,
                        ci,
                        c.projects@.push(
                            Project {
                                id: params.id,
                                name: params.name,
                                color: params.color,
                                rate_override: params.rate_override,
                                archived: false,
                            },
                        ),
                        final(config).clients@,
                    )
                }
            },
        },
{
    let ci = match find_client_index(&config.clients, params.client_id.as_str()) {
        Some(i) => i,
        None => {
            proof {
                reveal_strlit("client '");
                reveal_strlit("' not found");
            }
            return Err(message("client '", params.client_id.as_str(), "' not found"));
        },
    };
    if find_project_index(&config.clients[ci].projects, params.id.as_str()).is_some() {
        let mut m = message("project ID '", params.id.as_str(), "' already exists under client '");
        push_str(&mut m, params.client_id.as_str());
        push_str(&mut m, "'");
        proof {
            reveal_strlit("project ID '");
            reveal_strlit("' already exists under client '");
            reveal_strlit("'");
        }
        return Err(m);
    }
    let ghost before = config.clients@;
    let ghost p = params;
    let mut client = config.clients.remove(ci);
    client.projects.push(
        Project {
            id: params.id,
            name: params.name,
            color: params.color,
            rate_override: params.rate_override,
            archived: false,
        },
    );
    config.clients.insert(ci, client);
    assert forall|i: int| 0 <= i < before.len() && i != ci implies config.clients@[i] == before[i] by {}
    Ok(ci)
}

/// Finds a client and one of its projects, or the message of what is missing.
fn find_client_project(config: &AppConfig, client_id: &str, id: &str) -> (r: Result<(usize, usize), String>)
    ensures
        match client_position(config.clients@, client_id@, 0) {
            None => r matches Err(m) && m@ == client_missing_message(client_id@),
            Some(ci) => match project_position(config.clients@[ci].projects@, id@, 0) {
                None => r matches Err(m) && m@ == project_missing_message(id@),
                Some(pi) => r matches Ok(pos) && pos.0 as int == ci && pos.1 as int == pi
                    && 0 <= ci < config.clients@.len() && 0 <= pi
                    < config.clients@[ci].projects@.len(),
            },
        },
{
    let ci = match find_client_index(&config.clients, client_id) {
        Some(i) => i,
        None => {
            proof {
                reveal_strlit("client '");
                reveal_strlit("' not found");
            }
            return Err(message("client '", client_id, "' not found"));
        },
    };
    match find_project_index(&config.clients[ci].projects, id) {
        Some(pi) => Ok((ci, pi)),
        None => {
            proof {
                reveal_strlit("project '");
                reveal_strlit("' not found");
            }
            Err(message("project '", id, "' not found"))
        },
    }
}

/// Finds a client and one of its activities, or the message of what is missing.
fn find_client_activity(config: &AppConfig, client_id: &str, id: &str) -> (r: Result<(usize, usize), String>)
    ensures
        match client_position(config.clients@, client_id@, 0) {
            None => r matches Err(m) && m@ == client_missing_message(client_id@),
            Some(ci) => match activity_position(config.clients@[ci].activities@, id@, 0) {
                None => r matches Err(m) && m@ == activity_missing_message(id@),
                Some(ai) => r matches Ok(pos) && pos.0 as int == ci && pos.1 as int == ai
                    && 0 <= ci < config.clients@.len() && 0 <= ai
                    < config.clients@[ci].activities@.len(),
            },
        },
{
    let ci = match find_client_index(&config.clients, client_id) {
        Some(i) => i,
        None => {
            proof {
                reveal_strlit("client '");
                reveal_strlit("' not found");
            }
            return Err(message("client '", client_id, "' not found"));
        },
    };
    match find_activity_index(&config.clients[ci].activities, id) {
        Some(ai) => Ok((ci, ai)),
        None => {
            proof {
                reveal_strlit("activity '");
                reveal_strlit("' not found");
            }
            Err(message("activity '", id, "' not found"))
        },
    }
}

/// Changes the fields given of a client's project; refused where either is
/// missing. Gives the positions of both.
pub fn update_project(config: &mut AppConfig, params: UpdateProjectParams) -> (r: Result<
    (usize, usize),
    String,
>)
    ensures
        same_settings(*old(config), *final(config)),
        match client_position(old(config).clients@, params.client_id@, 0) {
            None => r matches Err(m) && m@ == client_missing_message(params.client_id@)
                && final(config).clients@ == old(config).clients@,
            Some(ci) => {
                let c = old(config).clients@[ci];
                match project_position(c.projects@, params.id@, 0) {
                    None => r matches Err(m) && m@ == project_missing_message(params.id@)
                        && final(config).clients@ == old(config).clients@,
                    Some(pi) => r == Ok::<(usize, usize), String>((ci as usize, pi as usize))
                        && with_projects(
                        old(config).clients@,
                        ci,
                        c.projects@.update(
                            pi,
                            Project {
                                name: given_or(params.name, c.projects@[pi].name),
                                color: given_or(params.color, c.projects@[pi].color),
                                rate_override: given_or_opt(
                                    params.rate_override,
                                    c.projects@[pi].rate_override,
                                ),
                                ..c.projects@[pi]
                            },
                        ),
                        final(config).clients@,
                    ),
                }
            },
        },
{
    let (ci, pi) = match find_client_project(config, params.client_id.as_str(), params.id.as_str()) {
        Ok(pos) => pos,
        Err(m) => return Err(m),
    };
    let ghost before = config.clients@;
    let ghost p = params;
    let mut client = config.clients.remove(ci);
    let ghost c = client;
    let mut project = client.projects.remove(pi);
    if let Some(name) = params.name {
        project.name = name;
    }
    if let Some(color) = params.color {
        project.color = color;
    }
    if let Some(rate) = params.rate_override {
        project.rate_override = Some(rate);
    }
    client.projects.insert(pi, project);
    assert(client.projects@ =~= c.projects@.update(
        pi as int,
        Project {
            name: given_or(p.name, c.projects@[pi as int].name),
            color: given_or(p.color, c.projects@[pi as int].color),
            rate_override: given_or_opt(p.rate_override, c.projects@[pi as int].rate_override),
            ..c.projects@[pi as int]
        },
    ));
    config.clients.insert(ci, client);
    assert forall|i: int| 0 <= i < before.len() && i != ci implies config.clients@[i] == before[i] by {}
    Ok((ci, pi))
}

/// Archives or restores a client's project; refused where either is missing.
pub fn archive_project(config: &mut AppConfig, params: ArchiveProjectParams) -> (r: Result<
    (usize, usize),
    String,
>)
    ensures
        same_settings(*old(config), *final(config)),
        match client_position(old(config).clients@, params.client_id@, 0) {
            None => r matches Err(m) && m@ == client_missing_message(params.client_id@)
                && final(config).clients@ == old(config).clients@,
            Some(ci) => {
                let c = old(config).clients@[ci];
                match project_position(c.projects@, params.id@, 0) {
                    None => r matches Err(m) && m@ == project_missing_message(params.id@)
                        && final(config).clients@ == old(config).clients@,
                    Some(pi) => r == Ok::<(usize, usize), String>((ci as usize, pi as usize))
                        && with_projects(
                        old(config).clients@,
                        ci,
                        c.projects@.update(pi, Project { archived: params.archived, ..c.projects@[pi] }),
                        final(config).clients@,
                    ),
                }
            },
        },
{
    let (ci, pi) = match find_client_project(config, params.client_id.as_str(), params.id.as_str()) {
        Ok(pos) => pos,
        Err(m) => return Err(m),
    };
    let ghost before = config.clients@;
    let mut client = config.clients.remove(ci);
    let ghost c = client;
    let mut project = client.projects.remove(pi);
    project.archived = params.archived;
    client.projects.insert(pi, project);
    assert(client.projects@ =~= c.projects@.update(
        pi as int,
        Project { archived: params.archived, ..c.projects@[pi as int] },
    ));
    config.clients.insert(ci, client);
    assert forall|i: int| 0 <= i < before.len() && i != ci implies config.clients@[i] == before[i] by {}
    Ok((ci, pi))
}

/// Adds an activity to a client, refused where the client is missing or already
/// has an activity with the id; gives the client's position.
pub fn create_activity(config: &mut AppConfig, params: CreateActivityParams) -> (r: Result<usize, String>)
    ensures
        same_settings(*old(config), *final(config)),
        match client_position(old(config).clients@, params.client_id@, 0) {
            None => r matches Err(m) && m@ == client_missing_message(params.client_id@)
                && final(config).clients@ == old(config).clients@,
            Some(ci) => {
                let c = old(config).clients@[ci];
                if activity_position(c.activities@, params.id@, 0) is Some {
                    r matches Err(m) && m@ == activity_exists_message(
                        params.id@,
                        params.client_id@,
                    ) && final(config).clients@ == old(config).clients@
                } else {
                    r == Ok::<usize, String>(ci as usize) && with_activities(
                        old(config).clients@,
                        ci,
                        c.activities@.push(
                            Activity {
                                id: params.id,
                                name: params.name,
                                color: params.color,
                                archived: false,
                            },
                        ),
                        final(config).clients@,
                    )
                }
            },
        },
{
    let ci = match find_client_index(&config.clients, params.client_id.as_str()) {
        Some(i) => i,
        None => {
            proof {
                reveal_strlit("client '");
                reveal_strlit("' not found");
            }
            return Err(message("client '", params.client_id.as_str(), "' not found"));
        },
    };
    if find_activity_index(&config.clients[ci].activities, params.id.as_str()).is_some() {
        let mut m = message("activity ID '", params.id.as_str(), "' already exists under client '");
        push_str(&mut m, params.client_id.as_str());
        push_str(&mut m, "'");
        proof {
            reveal_strlit("activity ID '");
            reveal_strlit("' already exists under client '");
            reveal_strlit("'");
        }
        return Err(m);
    }
    let ghost before = config.clients@;
    let mut client = config.clients.remove(ci);
    client.activities.push(
        Activity { id: params.id, name: params.name, color: params.color, archived: false },
    );
    config.clients.insert(ci, client);
    assert forall|i: int| 0 <= i < before.len() && i != ci implies config.clients@[i] == before[i] by {}
    Ok(ci)
}

/// Changes the fields given of a client's activity; refused where either is
/// missing. Gives the positions of both.
pub fn update_activity(config: &mut AppConfig, params: UpdateActivityParams) -> (r: Result<
    (usize, usize),
    String,
>)
    ensures
        same_settings(*old(config), *final(config)),
        match client_position(old(config).clients@, params.client_id@, 0) {
            None => r matches Err(m) && m@ == client_missing_message(params.client_id@)
                && final(config).clients@ == old(config).clients@,
            Some(ci) => {
                let c = old(config).clients@[ci];
                match activity_position(c.activities@, params.id@, 0) {
                    None => r matches Err(m) && m@ == activity_missing_message(params.id@)
                        && final(config).clients@ == old(config).clients@,
                    Some(ai) => r == Ok::<(usize, usize), String>((ci as usize, ai as usize))
                        && with_activities(
                        old(config).clients@,
                        ci,
                        c.activities@.update(
                            ai,
                            Activity {
                                name: given_or(params.name, c.activities@[ai].name),
                                color: given_or(params.color, c.activities@[ai].color),
                                ..c.activities@[ai]
                            },
                        ),
                        final(config).clients@,
                    ),
                }
            },
        },
{
    let (ci, ai) = match find_client_activity(config, params.client_id.as_str(), params.id.as_str()) {
        Ok(pos) => pos,
        Err(m) => return Err(m),
    };
    let ghost before = config.clients@;
    let ghost p = params;
    let mut client = config.clients.remove(ci);
    let ghost c = client;
    let mut activity = client.activities.remove(ai);
    if let Some(name) = params.name {
        activity.name = name;
    }
    if let Some(color) = params.color {
        activity.color = color;
    }
    client.activities.insert(ai, activity);
    assert(client.activities@ =~= c.activities@.update(
        ai as int,
        Activity {
            name: given_or(p.name, c.activities@[ai as int].name),
            color: given_or(p.color, c.activities@[ai as int].color),
            ..c.activities@[ai as int]
        },
    ));
    config.clients.insert(ci, client);
    assert forall|i: int| 0 <= i < before.len() && i != ci implies config.clients@[i] == before[i] by {}
    Ok((ci, ai))
}

/// Archives or restores a client's activity; refused where either is missing.
pub fn archive_activity(config: &mut AppConfig, params: ArchiveActivityParams) -> (r: Result<
    (usize, usize),
    String,
>)
    ensures
        same_settings(*old(config), *final(config)),
        match client_position(old(config).clients@, params.client_id@, 0) {
            None => r matches Err(m) && m@ == client_missing_message(params.client_id@)
                && final(config).clients@ == old(config).clients@,
            Some(ci) => {
                let c = old(config).clients@[ci];
                match activity_position(c.activities@, params.id@, 0) {
                    None => r matches Err(m) && m@ == activity_missing_message(params.id@)
                        && final(config).clients@ == old(config).clients@,
                    Some(ai) => r == Ok::<(usize, usize), String>((ci as usize, ai as usize))
                        && with_activities(
                        old(config).clients@,
                        ci,
                        c.activities@.update(
                            ai,
                            Activity { archived: params.archived, ..c.activities@[ai] },
                        ),
                        final(config).clients@,
                    ),
                }
            },
        },
{
    let (ci, ai) = match find_client_activity(config, params.client_id.as_str(), params.id.as_str()) {
        Ok(pos) => pos,
        Err(m) => return Err(m),
    };
    let ghost before = config.clients@;
    let mut client = config.clients.remove(ci);
    let ghost c = client;
    let mut activity = client.activities.remove(ai);
    activity.archived = params.archived;
    client.activities.insert(ai, activity);
    assert(client.activities@ =~= c.activities@.update(
        ai as int,
        Activity { archived: params.archived, ..c.activities@[ai as int] },
    ));
    config.clients.insert(ci, client);
    assert forall|i: int| 0 <= i < before.len() && i != ci implies config.clients@[i] == before[i] by {}
    Ok((ci, ai))
}

/// The positions of the flags that are false (items not archived), or of all
/// of them where archived items are included, in order.
pub open spec fn shown_positions(archived: Seq<bool>, include_archived: bool) -> Seq<usize>
    decreases archived.len(),
{
    if archived.len() == 0 {
        Seq::empty()
    } else {
        let rest = shown_positions(archived.drop_last(), include_archived);
        if include_archived || !archived.last() {
            rest.push((archived.len() - 1) as usize)
        } else {
            rest
        }
    }
}

pub open spec fn client_flags(cs: Seq<Client>) -> Seq<bool> {
    cs.map_values(|c: Client| c.archived)
}

pub open spec fn project_flags(ps: Seq<Project>) -> Seq<bool> {
    ps.map_values(|p: Project| p.archived)
}

pub open spec fn activity_flags(acts: Seq<Activity>) -> Seq<bool> {
    acts.map_values(|a: Activity| a.archived)
}

/// The positions of the items whose flag is shown.
fn shown(flags: &Vec<bool>, include_archived: bool) -> (r: Vec<usize>)
    ensures
        r@ == shown_positions(flags@, include_archived),
{
    let mut out: Vec<usize> = Vec::new();
    let mut i: usize = 0;
    while i < flags.len()
        invariant
            i <= flags@.len(),
            out@ == shown_positions(flags@.take(i as int), include_archived),
        decreases flags@.len() - i,
    {
        proof {
            assert(flags@.take(i + 1).drop_last() =~= flags@.take(i as int));
        }
        if include_archived || !flags[i] {
            out.push(i);
        }
        i = i + 1;
    }
    assert(flags@.take(flags@.len() as int) =~= flags@);
    out
}

/// What `list_clients` lists, by position: each client shown (every client
/// where archived ones are included, else those not archived) with its shown
/// projects and shown activities.
pub open spec fn listed_clients(clients: Seq<Client>, include_archived: bool) -> Seq<(usize, Seq<usize>, Seq<usize>)> {
    shown_positions(client_flags(clients), include_archived).map_values(
        |i: usize|
            (
                i,
                shown_positions(project_flags(clients[i as int].projects@), include_archived),
                shown_positions(activity_flags(clients[i as int].activities@), include_archived),
            ),
    )
}

/// The clients, projects and activities that `list_clients` shows, by position.
pub fn list_clients(config: &AppConfig, include_archived: bool) -> (r: Vec<(usize, Vec<usize>, Vec<usize>)>)
    ensures
        r@.map_values(|t: (usize, Vec<usize>, Vec<usize>)| (t.0, t.1@, t.2@)) == listed_clients(
            config.clients@,
            include_archived,
        ),
{
    let mut cflags: Vec<bool> = Vec::new();
    for i in 0..config.clients.len()
        invariant
            cflags@ == client_flags(config.clients@).take(i as int),
    {
        cflags.push(config.clients[i].archived);
        assert(cflags@ =~= client_flags(config.clients@).take(i + 1));
    }
    assert(client_flags(config.clients@).take(config.clients@.len() as int) =~= client_flags(config.clients@));
    let positions = shown(&cflags, include_archived);
    let ghost want = listed_clients(config.clients@, include_archived);
    proof {
        lemma_shown_in_bounds(cflags@, include_archived);
    }
    let mut out: Vec<(usize, Vec<usize>, Vec<usize>)> = Vec::new();
    for k in 0..positions.len()
        invariant
            positions@ == shown_positions(client_flags(config.clients@), include_archived),
            want == listed_clients(config.clients@, include_archived),
            forall|j: int| 0 <= j < positions@.len() ==> (#[trigger] positions@[j]) < config.clients@.len(),
            out@.map_values(|t: (usize, Vec<usize>, Vec<usize>)| (t.0, t.1@, t.2@)) == want.take(k as int),
    {
        let i = positions[k];
        let c = &config.clients[i];
        let mut pflags: Vec<bool> = Vec::new();
        for j in 0..c.projects.len()
            invariant
                pflags@ == project_flags(c.projects@).take(j as int),
        {
            pflags.push(c.projects[j].archived);
            assert(pflags@ =~= project_flags(c.projects@).take(j + 1));
        }
        assert(project_flags(c.projects@).take(c.projects@.len() as int) =~= project_flags(c.projects@));
        let mut aflags: Vec<bool> = Vec::new();
        for j in 0..c.activities.len()
            invariant
                aflags@ == activity_flags(c.activities@).take(j as int),
        {
            aflags.push(c.activities[j].archived);
            assert(aflags@ =~= activity_flags(c.activities@).take(j + 1));
        }
        assert(activity_flags(c.activities@).take(c.activities@.len() as int) =~= activity_flags(c.activities@));
        let ps = shown(&pflags, include_archived);
        let acts = shown(&aflags, include_archived);
        let ghost before = out@.map_values(|t: (usize, Vec<usize>, Vec<usize>)| (t.0, t.1@, t.2@));
        assert(*c == config.clients@[i as int]);
        assert(want[k as int] == (i, ps@, acts@));
        out.push((i, ps, acts));
        assert(out@.map_values(|t: (usize, Vec<usize>, Vec<usize>)| (t.0, t.1@, t.2@)) =~= before.push((i, ps@, acts@)));
        assert(out@.map_values(|t: (usize, Vec<usize>, Vec<usize>)| (t.0, t.1@, t.2@)) =~= want.take(k + 1));
    }
    assert(want.take(positions@.len() as int) =~= want);
    out
}

/// The shown positions lie within the flags.
proof fn lemma_shown_in_bounds(flags: Seq<bool>, include_archived: bool)
    ensures
        forall|j: int|
            0 <= j < shown_positions(flags, include_archived).len() ==> (#[trigger] shown_positions(
                flags,
                include_archived,
            )[j]) < flags.len(),
        shown_positions(flags, include_archived).len() <= flags.len(),
    decreases flags.len(),
{
    if flags.len() > 0 {
        lemma_shown_in_bounds(flags.drop_last(), include_archived);
    }
}

} // verus!
