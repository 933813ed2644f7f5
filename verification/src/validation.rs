//! Checks on entries against the configured clients, projects and activities.
use vstd::prelude::*;

use crate::config::AppConfig;
use crate::error::{Error, Result};
use crate::model::{Activity, Client, EntryView, NewEntry, Project};
use crate::text::{decimal, push_char, push_decimal, push_str, same_text};

verus! {

/// `clients[i]` is the first client with the given id.
pub open spec fn is_first_client(clients: Seq<Client>, id: Seq<char>, i: int) -> bool {
    &&& 0 <= i < clients.len()
    &&& clients[i].id@ == id
    &&& forall|j: int| 0 <= j < i ==> (#[trigger] clients[j]).id@ != id
}

pub open spec fn has_client(clients: Seq<Client>, id: Seq<char>) -> bool {
    exists|i: int| 0 <= i < clients.len() && (#[trigger] clients[i]).id@ == id
}

/// The first client with the given id (meaningful where there is one).
pub open spec fn client_with_id(clients: Seq<Client>, id: Seq<char>) -> Client {
    clients[choose|i: int| is_first_client(clients, id, i)]
}

pub open spec fn has_project(client: Client, id: Seq<char>) -> bool {
    exists|i: int| 0 <= i < client.projects@.len() && (#[trigger] client.projects@[i]).id@ == id
}

pub open spec fn has_activity(client: Client, id: Seq<char>) -> bool {
    exists|i: int|
        0 <= i < client.activities@.len() && (#[trigger] client.activities@[i]).id@ == id
}

pub proof fn lemma_first_client(clients: Seq<Client>, id: Seq<char>)
    requires
        has_client(clients, id),
    ensures
        exists|i: int| is_first_client(clients, id, i),
    decreases clients.len(),
{
    let init = clients.drop_last();
    if has_client(init, id) {
        lemma_first_client(init, id);
        let i = choose|i: int| is_first_client(init, id, i);
        assert forall|j: int| 0 <= j < i implies (#[trigger] clients[j]).id@ != id by {
            assert(clients[j] == init[j]);
        }
        assert(clients[i] == init[i]);
        assert(is_first_client(clients, id, i));
    } else {
        let i = clients.len() - 1;
        assert forall|j: int| 0 <= j < i implies (#[trigger] clients[j]).id@ != id by {
            assert(clients[j] == init[j]);
        }
        assert(is_first_client(clients, id, i));
    }
}

pub proof fn lemma_first_client_unique(clients: Seq<Client>, id: Seq<char>, i: int, j: int)
    requires
        is_first_client(clients, id, i),
        is_first_client(clients, id, j),
    ensures
        i == j,
{
}

/// Look up a client by ID in the config.
pub fn find_client<'a>(config: &'a AppConfig, client_id: &str) -> (r: Option<&'a Client>)
    ensures
        r is None <==> !has_client(config.clients@, client_id@),
        r matches Some(c) ==> exists|i: int|
            is_first_client(config.clients@, client_id@, i) && *c == config.clients@[i],
{
    let mut i: usize = 0;
    while i < config.clients.len()
        invariant
            i <= config.clients.len(),
            forall|j: int| 0 <= j < i ==> (#[trigger] config.clients@[j]).id@ != client_id@,
        decreases config.clients.len() - i,
    {
        if same_text(config.clients[i].id.as_str(), client_id) {
            assert(is_first_client(config.clients@, client_id@, i as int));
            return Some(&config.clients[i]);
        }
        i = i + 1;
    }
    None
}

/// Look up a project by ID within a client.
pub fn find_project<'a>(client: &'a Client, project_id: &str) -> (r: Option<&'a Project>)
    ensures
        r is None <==> !has_project(*client, project_id@),
        r matches Some(p) ==> exists|i: int|
            0 <= i < client.projects@.len() && *p == client.projects@[i] && p.id@ == project_id@
                && forall|j: int|
                0 <= j < i ==> (#[trigger] client.projects@[j]).id@ != project_id@,
{
    let mut i: usize = 0;
    while i < client.projects.len()
        invariant
            i <= client.projects.len(),
            forall|j: int| 0 <= j < i ==> (#[trigger] client.projects@[j]).id@ != project_id@,
        decreases client.projects.len() - i,
    {
        if same_text(client.projects[i].id.as_str(), project_id) {
            return Some(&client.projects[i]);
        }
        i = i + 1;
    }
    None
}

/// Look up an activity by ID within a client.
pub fn find_activity<'a>(client: &'a Client, activity_id: &str) -> (r: Option<&'a Activity>)
    ensures
        r is None <==> !has_activity(*client, activity_id@),
        r matches Some(a) ==> exists|i: int|
            0 <= i < client.activities@.len() && *a == client.activities@[i] && a.id@
                == activity_id@ && forall|j: int|
                0 <= j < i ==> (#[trigger] client.activities@[j]).id@ != activity_id@,
{
    let mut i: usize = 0;
    while i < client.activities.len()
        invariant
            i <= client.activities.len(),
            forall|j: int|
                0 <= j < i ==> (#[trigger] client.activities@[j]).id@ != activity_id@,
        decreases client.activities.len() - i,
    {
        if same_text(client.activities[i].id.as_str(), activity_id) {
            return Some(&client.activities[i]);
        }
        i = i + 1;
    }
    None
}

/// Length of a text in UTF-8 bytes (`str::len`).
pub open spec fn byte_len(s: Seq<char>) -> int {
    vstd::utf8::encode_utf8(s).len() as int
}

/// Why the entry is refused, or `None` where it is valid: the checks run in
/// order and the first that fails gives the message.
pub open spec fn entry_problem(e: EntryView, config: AppConfig) -> Option<Seq<char>> {
    let clients = config.clients@;
    let max = config.preferences.description_max_length;
    if e.end.stamp() <= e.start.stamp() {
        Some("end must be after start"@)
    } else if e.duration() > 1440 {
        Some("duration "@ + decimal(e.duration() as nat) + " minutes exceeds 24-hour limit"@)
    } else if !has_client(clients, e.client) {
        Some("client \""@ + e.client + "\" not found in config"@)
    } else if client_with_id(clients, e.client).archived {
        Some("client \""@ + e.client + "\" is archived"@)
    } else if e.project is Some && !has_project(client_with_id(clients, e.client), e.project->0) {
        Some(
            "project \""@ + e.project->0 + "\" not found under client \""@ + e.client + seq!['"'],
        )
    } else if e.activity is Some && !has_activity(
        client_with_id(clients, e.client),
        e.activity->0,
    ) {
        Some(
            "activity \""@ + e.activity->0 + "\" not found under client \""@ + e.client + seq![
                '"',
            ],
        )
    } else if max > 0 && byte_len(e.description) > max {
        Some(
            "description length "@ + decimal(byte_len(e.description) as nat) + " exceeds max "@
                + decimal(max as nat),
        )
    } else {
        None
    }
}

/// What a valid entry is: it ends after it starts, lasts at most a day, names a
/// configured client that is not archived, only a project and an activity that
/// client has, and a description within the configured length (where one is
/// set). An entry for an archived client is refused whatever else it names.
pub proof fn lemma_valid_entry(e: EntryView, config: AppConfig)
    ensures
        entry_problem(e, config) is None <==> {
            let clients = config.clients@;
            let max = config.preferences.description_max_length;
            &&& e.start.stamp() < e.end.stamp()
            &&& e.end.stamp() - e.start.stamp() <= 1440
            &&& has_client(clients, e.client)
            &&& !client_with_id(clients, e.client).archived
            &&& (e.project matches Some(p) ==> has_project(client_with_id(clients, e.client), p))
            &&& (e.activity matches Some(a) ==> has_activity(client_with_id(clients, e.client), a))
            &&& (max > 0 ==> byte_len(e.description) <= max)
        },
        has_client(config.clients@, e.client) && client_with_id(config.clients@, e.client).archived
            ==> entry_problem(e, config) is Some,
{
}

/// Validate a new entry against temporal constraints and config rules.
pub fn validate_new_entry(entry: &NewEntry, config: &AppConfig) -> (r: Result<()>)
    requires
        entry@.wf(),
        byte_len(entry.description@) <= usize::MAX,
    ensures
        match r {
            Ok(_) => entry_problem(entry@, *config) is None,
            Err(Error::Validation(m)) => entry_problem(entry@, *config) == Some(m@),
            Err(_) => false,
        },
{
    let ghost e = entry@;
    if !entry.start.before(&entry.end) {
        let mut m = String::new();
        push_str(&mut m, "end must be after start");
        return Err(Error::Validation(m));
    }
    let duration = entry.start.minutes_until(&entry.end);
    if duration > 1440 {
        let mut m = String::new();
        push_str(&mut m, "duration ");
        push_decimal(&mut m, duration as u64);
        push_str(&mut m, " minutes exceeds 24-hour limit");
        return Err(Error::Validation(m));
    }
    let client = match find_client(config, entry.client.as_str()) {
        Some(c) => c,
        None => {
            let mut m = String::new();
            push_str(&mut m, "client \"");
            push_str(&mut m, entry.client.as_str());
            push_str(&mut m, "\" not found in config");
            return Err(Error::Validation(m));
        },
    };
    proof {
        let i = choose|i: int| is_first_client(config.clients@, e.client, i) && *client == config.clients@[i];
        let k = choose|k: int| is_first_client(config.clients@, e.client, k);
        lemma_first_client_unique(config.clients@, e.client, i, k);
        assert(*client == client_with_id(config.clients@, e.client));
    }
    if client.archived {
        let mut m = String::new();
        push_str(&mut m, "client \"");
        push_str(&mut m, entry.client.as_str());
        push_str(&mut m, "\" is archived");
        return Err(Error::Validation(m));
    }
    if let Some(project_id) = &entry.project {
        if find_project(client, project_id.as_str()).is_none() {
            let mut m = String::new();
            push_str(&mut m, "project \"");
            push_str(&mut m, project_id.as_str());
            push_str(&mut m, "\" not found under client \"");
            push_str(&mut m, entry.client.as_str());
            push_char(&mut m, '"');
            return Err(Error::Validation(m));
        }
    }
    if let Some(activity_id) = &entry.activity {
        if find_activity(client, activity_id.as_str()).is_none() {
            let mut m = String::new();
            push_str(&mut m, "activity \"");
            push_str(&mut m, activity_id.as_str());
            push_str(&mut m, "\" not found under client \"");
            push_str(&mut m, entry.client.as_str());
            push_char(&mut m, '"');
            return Err(Error::Validation(m));
        }
    }
    let max_len = config.preferences.description_max_length;
    let len = entry.description.as_str().len();
    if max_len > 0 && len > max_len as usize {
        let mut m = String::new();
        push_str(&mut m, "description length ");
        push_decimal(&mut m, len as u64);
        push_str(&mut m, " exceeds max ");
        push_decimal(&mut m, max_len as u64);
        return Err(Error::Validation(m));
    }
    Ok(())
}

} // verus!
