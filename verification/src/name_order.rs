//! Keeping the configuration in order: clients, and each client's projects and
//! activities, sorted by name without regard to case (stable).
use vstd::prelude::*;

use crate::config::AppConfig;
use crate::model::{Activity, Client, Project};
use crate::text::{chars_of, lowercase, to_lowercase};

verus! {

/// `a` comes before `b` or equals it, character by character (the order of
/// Rust's text comparison, which follows the code points).
pub open spec fn text_le(a: Seq<char>, b: Seq<char>) -> bool
    decreases a.len(),
{
    if a.len() == 0 {
        true
    } else if b.len() == 0 {
        false
    } else if a[0] != b[0] {
        (a[0] as u32) < (b[0] as u32)
    } else {
        text_le(a.skip(1), b.skip(1))
    }
}

/// Inserts `x` after the last element whose key does not come after its own.
pub open spec fn insert_by_key<A>(t: Seq<A>, x: A, key: spec_fn(A) -> Seq<char>) -> Seq<A>
    decreases t.len(),
{
    if t.len() == 0 || text_le(key(t.last()), key(x)) {
        t.push(x)
    } else {
        insert_by_key(t.drop_last(), x, key).push(t.last())
    }
}

/// Stable sort by key.
pub open spec fn sort_by_key<A>(s: Seq<A>, key: spec_fn(A) -> Seq<char>) -> Seq<A>
    decreases s.len(),
{
    if s.len() == 0 {
        s
    } else {
        insert_by_key(sort_by_key(s.drop_last(), key), s.last(), key)
    }
}

pub open spec fn client_key() -> spec_fn(Client) -> Seq<char> {
    |c: Client| lowercase(c.name@)
}

pub open spec fn project_key() -> spec_fn(Project) -> Seq<char> {
    |p: Project| lowercase(p.name@)
}

pub open spec fn activity_key() -> spec_fn(Activity) -> Seq<char> {
    |a: Activity| lowercase(a.name@)
}

/// Whether `a` comes before `b` or equals it.
fn text_le_exec(a: &Vec<char>, b: &Vec<char>) -> (r: bool)
    ensures
        r == text_le(a@, b@),
{
    let mut i: usize = 0;
    assert(a@.skip(0) =~= a@ && b@.skip(0) =~= b@);
    while i < a.len() && i < b.len() && a[i] == b[i]
        invariant
            i <= a@.len(),
            i <= b@.len(),
            text_le(a@, b@) == text_le(a@.skip(i as int), b@.skip(i as int)),
        decreases a@.len() - i,
    {
        proof {
            assert(a@.skip(i as int).skip(1) =~= a@.skip(i + 1));
            assert(b@.skip(i as int).skip(1) =~= b@.skip(i + 1));
        }
        i = i + 1;
    }
    proof {
        if i < a.len() && i < b.len() {
            assert(a@.skip(i as int)[0] == a@[i as int]);
            assert(b@.skip(i as int)[0] == b@[i as int]);
        }
    }
    if i == a.len() {
        true
    } else if i == b.len() {
        false
    } else {
        (a[i] as u32) < (b[i] as u32)
    }
}

/// The index at which `x` goes into `t`, by key.
proof fn lemma_insert_by_key<A>(t: Seq<A>, x: A, key: spec_fn(A) -> Seq<char>, j: int)
    requires
        0 <= j <= t.len(),
        forall|k: int| j <= k < t.len() ==> !text_le(key(#[trigger] t[k]), key(x)),
        j == 0 || text_le(key(t[j - 1]), key(x)),
    ensures
        insert_by_key(t, x, key) == t.take(j).push(x) + t.skip(j),
    decreases t.len(),
{
    if t.len() == j {
        assert(t.take(j) =~= t);
        assert(t.take(j).push(x) + t.skip(j) =~= t.push(x));
    } else {
        assert(!text_le(key(t[t.len() - 1]), key(x)));
        lemma_insert_by_key(t.drop_last(), x, key, j);
        assert(t.drop_last().take(j) =~= t.take(j));
        assert(t.drop_last().skip(j).push(t.last()) =~= t.skip(j));
        assert((t.take(j).push(x) + t.drop_last().skip(j)).push(t.last()) =~= t.take(j).push(x)
            + t.skip(j));
    }
}

/// Clients sorted by name, ignoring case.
fn sort_clients(v: Vec<Client>) -> (r: Vec<Client>)
    ensures
        r@ == sort_by_key(v@, client_key()),
{
    let ghost all = v@;
    let n = v.len();
    let mut rest = v;
    let mut out: Vec<Client> = Vec::new();
    let mut i: usize = 0;
    while rest.len() > 0
        invariant
            i + rest@.len() == all.len(),
            all.len() == n,
            rest@ == all.skip(i as int),
            out@ == sort_by_key(all.take(i as int), client_key()),
        decreases rest@.len(),
    {
        let x = rest.remove(0);
        let xk = chars_of(to_lowercase(x.name.as_str()).as_str());
        let mut j = out.len();
        while j > 0 && !text_le_exec(&chars_of(to_lowercase(out[j - 1].name.as_str()).as_str()), &xk)
            invariant
                j <= out@.len(),
                xk@ == client_key()(x),
                forall|k: int| j <= k < out@.len() ==> !text_le(client_key()(#[trigger] out@[k]), client_key()(x)),
            decreases j,
        {
            j = j - 1;
        }
        let ghost t = out@;
        proof {
            lemma_insert_by_key(t, x, client_key(), j as int);
            assert(all.take(i + 1).drop_last() =~= all.take(i as int));
            assert(all.take(i + 1).last() == x);
            assert(all.skip(i as int).skip(1) =~= all.skip(i + 1));
        }
        out.insert(j, x);
        assert(out@ =~= t.take(j as int).push(x) + t.skip(j as int));
        i = i + 1;
    }
    assert(all.take(all.len() as int) =~= all);
    out
}

/// Projects sorted by name, ignoring case.
fn sort_projects(v: Vec<Project>) -> (r: Vec<Project>)
    ensures
        r@ == sort_by_key(v@, project_key()),
{
    let ghost all = v@;
    let n = v.len();
    let mut rest = v;
    let mut out: Vec<Project> = Vec::new();
    let mut i: usize = 0;
    while rest.len() > 0
        invariant
            i + rest@.len() == all.len(),
            all.len() == n,
            rest@ == all.skip(i as int),
            out@ == sort_by_key(all.take(i as int), project_key()),
        decreases rest@.len(),
    {
        let x = rest.remove(0);
        let xk = chars_of(to_lowercase(x.name.as_str()).as_str());
        let mut j = out.len();
        while j > 0 && !text_le_exec(&chars_of(to_lowercase(out[j - 1].name.as_str()).as_str()), &xk)
            invariant
                j <= out@.len(),
                xk@ == project_key()(x),
                forall|k: int| j <= k < out@.len() ==> !text_le(project_key()(#[trigger] out@[k]), project_key()(x)),
            decreases j,
        {
            j = j - 1;
        }
        let ghost t = out@;
        proof {
            lemma_insert_by_key(t, x, project_key(), j as int);
            assert(all.take(i + 1).drop_last() =~= all.take(i as int));
            assert(all.take(i + 1).last() == x);
            assert(all.skip(i as int).skip(1) =~= all.skip(i + 1));
        }
        out.insert(j, x);
        assert(out@ =~= t.take(j as int).push(x) + t.skip(j as int));
        i = i + 1;
    }
    assert(all.take(all.len() as int) =~= all);
    out
}

/// Activities sorted by name, ignoring case.
fn sort_activities(v: Vec<Activity>) -> (r: Vec<Activity>)
    ensures
        r@ == sort_by_key(v@, activity_key()),
{
    let ghost all = v@;
    let n = v.len();
    let mut rest = v;
    let mut out: Vec<Activity> = Vec::new();
    let mut i: usize = 0;
    while rest.len() > 0
        invariant
            i + rest@.len() == all.len(),
            all.len() == n,
            rest@ == all.skip(i as int),
            out@ == sort_by_key(all.take(i as int), activity_key()),
        decreases rest@.len(),
    {
        let x = rest.remove(0);
        let xk = chars_of(to_lowercase(x.name.as_str()).as_str());
        let mut j = out.len();
        while j > 0 && !text_le_exec(&chars_of(to_lowercase(out[j - 1].name.as_str()).as_str()), &xk)
            invariant
                j <= out@.len(),
                xk@ == activity_key()(x),
                forall|k: int| j <= k < out@.len() ==> !text_le(activity_key()(#[trigger] out@[k]), activity_key()(x)),
            decreases j,
        {
            j = j - 1;
        }
        let ghost t = out@;
        proof {
            lemma_insert_by_key(t, x, activity_key(), j as int);
            assert(all.take(i + 1).drop_last() =~= all.take(i as int));
            assert(all.take(i + 1).last() == x);
            assert(all.skip(i as int).skip(1) =~= all.skip(i + 1));
        }
        out.insert(j, x);
        assert(out@ =~= t.take(j as int).push(x) + t.skip(j as int));
        i = i + 1;
    }
    assert(all.take(all.len() as int) =~= all);
    out
}

/// Sorts the clients by name, then each client's projects and activities by
/// name, all without regard to case and keeping the order of equal names.
pub fn sort_config(config: &mut AppConfig)
    ensures
        final(config).preferences == old(config).preferences,
        final(config).bill_from == old(config).bill_from,
        ({
            let sorted = sort_by_key(old(config).clients@, client_key());
            &&& final(config).clients@.len() == sorted.len()
            &&& forall|i: int|
                0 <= i < sorted.len() ==> {
                    let c = #[trigger] final(config).clients@[i];
                    &&& c == Client {
                        projects: c.projects,
                        activities: c.activities,
                        ..sorted[i]
                    }
                    &&& c.projects@ == sort_by_key(sorted[i].projects@, project_key())
                    &&& c.activities@ == sort_by_key(sorted[i].activities@, activity_key())
                }
        }),
{
    let mut clients: Vec<Client> = Vec::new();
    std::mem::swap(&mut clients, &mut config.clients);
    let sorted = sort_clients(clients);
    let ghost want = sorted@;
    let n = sorted.len();
    let mut rest = sorted;
    let mut out: Vec<Client> = Vec::new();
    let mut i: usize = 0;
    while rest.len() > 0
        invariant
            i + rest@.len() == want.len(),
            want.len() == n,
            rest@ == want.skip(i as int),
            out@.len() == i,
            forall|k: int|
                0 <= k < i ==> {
                    let c = #[trigger] out@[k];
                    &&& c == Client { projects: c.projects, activities: c.activities, ..want[k] }
                    &&& c.projects@ == sort_by_key(want[k].projects@, project_key())
                    &&& c.activities@ == sort_by_key(want[k].activities@, activity_key())
                },
        decreases rest@.len(),
    {
        let mut c = rest.remove(0);
        let ghost orig = c;
        let mut ps: Vec<Project> = Vec::new();
        std::mem::swap(&mut ps, &mut c.projects);
        c.projects = sort_projects(ps);
        let mut acts: Vec<Activity> = Vec::new();
        std::mem::swap(&mut acts, &mut c.activities);
        c.activities = sort_activities(acts);
        proof {
            assert(want.skip(i as int)[0] == want[i as int]);
            assert(want.skip(i as int).skip(1) =~= want.skip(i + 1));
        }
        out.push(c);
        i = i + 1;
    }
    config.clients = out;
}

} // verus!
