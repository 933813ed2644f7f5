//! What holds of reports: their minutes add up at every level.
use vstd::prelude::*;

use crate::config::AppConfig;
use crate::date_range::DateRange;
use crate::model::EntryView;
use crate::report::{
    groups, insert_desc, key_of, keys, report_lines, sort_desc, total, with_key, ActivityLine,
    ClientLine, Level, ProjectLine,
};
use crate::storage::in_range;

verus! {

/// The sum of the totals of (key, total) groups.
pub open spec fn group_sum(gs: Seq<(Seq<char>, int)>) -> int
    decreases gs.len(),
{
    if gs.len() == 0 {
        0
    } else {
        group_sum(gs.drop_last()) + gs.last().1
    }
}

/// The sum of the clients' totals.
pub open spec fn client_sum(ls: Seq<ClientLine>) -> int
    decreases ls.len(),
{
    if ls.len() == 0 {
        0
    } else {
        client_sum(ls.drop_last()) + ls.last().total
    }
}

/// The sum of the projects' totals.
pub open spec fn project_sum(ls: Seq<ProjectLine>) -> int
    decreases ls.len(),
{
    if ls.len() == 0 {
        0
    } else {
        project_sum(ls.drop_last()) + ls.last().total
    }
}

/// The sum of the activities' totals.
pub open spec fn activity_sum(ls: Seq<ActivityLine>) -> int
    decreases ls.len(),
{
    if ls.len() == 0 {
        0
    } else {
        activity_sum(ls.drop_last()) + ls.last().total
    }
}

/// The minutes of the entries with each of the keys, added up.
spec fn key_sum(ks: Seq<Seq<char>>, es: Seq<EntryView>, level: Level) -> int
    decreases ks.len(),
{
    if ks.len() == 0 {
        0
    } else {
        key_sum(ks.drop_last(), es, level) + total(with_key(es, level, ks.last()))
    }
}

/// The minutes of the entries with a key grow by the last entry where it has
/// that key.
proof fn lemma_with_key_last(es: Seq<EntryView>, level: Level, k: Seq<char>)
    requires
        es.len() > 0,
    ensures
        total(with_key(es, level, k)) == total(with_key(es.drop_last(), level, k)) + if key_of(
            level,
            es.last(),
        ) == k {
            es.last().duration()
        } else {
            0
        },
{
    let rest = with_key(es.drop_last(), level, k);
    if key_of(level, es.last()) == k {
        assert(rest.push(es.last()).drop_last() =~= rest);
    }
}

/// The keys of entries occur once each, and include the key of every entry.
proof fn lemma_keys_distinct(es: Seq<EntryView>, level: Level)
    ensures
        keys(es, level).no_duplicates(),
        forall|i: int| 0 <= i < es.len() ==> keys(es, level).contains(#[trigger] key_of(level, es[i])),
    decreases es.len(),
{
    if es.len() > 0 {
        let init = es.drop_last();
        lemma_keys_distinct(init, level);
        let k = keys(init, level);
        let x = key_of(level, es.last());
        assert forall|i: int| 0 <= i < es.len() implies keys(es, level).contains(
            #[trigger] key_of(level, es[i]),
        ) by {
            if i < es.len() - 1 {
                assert(es[i] == init[i]);
                assert(k.contains(key_of(level, init[i])));
                if !k.contains(x) {
                    let j = choose|j: int| 0 <= j < k.len() && k[j] == key_of(level, init[i]);
                    assert(k.push(x)[j] == k[j]);
                }
            } else {
                if !k.contains(x) {
                    assert(k.push(x)[k.len() as int] == x);
                }
            }
        }
    }
}

/// Entries whose keys do not include `k` have no minutes under `k`.
proof fn lemma_missing_key(es: Seq<EntryView>, level: Level, k: Seq<char>)
    requires
        !keys(es, level).contains(k),
    ensures
        total(with_key(es, level, k)) == 0,
    decreases es.len(),
{
    if es.len() > 0 {
        lemma_keys_distinct(es, level);
        assert(key_of(level, es[es.len() - 1]) != k);
        let init = es.drop_last();
        let x = key_of(level, es.last());
        if keys(init, level).contains(k) {
            let j = choose|j: int| 0 <= j < keys(init, level).len() && keys(init, level)[j] == k;
            if !keys(init, level).contains(x) {
                assert(keys(init, level).push(x)[j] == k);
            }
        }
        lemma_missing_key(init, level, k);
    }
}

/// Adding the last entry adds its minutes once, under its key, where the keys
/// hold that key once.
proof fn lemma_key_sum_last(ks: Seq<Seq<char>>, es: Seq<EntryView>, level: Level)
    requires
        es.len() > 0,
        ks.no_duplicates(),
    ensures
        key_sum(ks, es, level) == key_sum(ks, es.drop_last(), level) + if ks.contains(
            key_of(level, es.last()),
        ) {
            es.last().duration()
        } else {
            0
        },
    decreases ks.len(),
{
    if ks.len() > 0 {
        let init = ks.drop_last();
        let x = key_of(level, es.last());
        assert(init.no_duplicates());
        lemma_key_sum_last(init, es, level);
        lemma_with_key_last(es, level, ks.last());
        if ks.last() == x {
            if init.contains(x) {
                let j = choose|j: int| 0 <= j < init.len() && init[j] == x;
                assert(ks[j] == ks[ks.len() - 1]);
            }
            assert(ks.contains(x)) by {
                assert(ks[ks.len() - 1] == x);
            }
        } else {
            if ks.contains(x) {
                let j = choose|j: int| 0 <= j < ks.len() && ks[j] == x;
                assert(init[j] == x);
            }
            if init.contains(x) {
                let j = choose|j: int| 0 <= j < init.len() && init[j] == x;
                assert(ks[j] == x);
            }
        }
    }
}

/// The groups of entries hold all their minutes.
proof fn lemma_keys_cover(es: Seq<EntryView>, level: Level)
    ensures
        key_sum(keys(es, level), es, level) == total(es),
    decreases es.len(),
{
    if es.len() > 0 {
        let init = es.drop_last();
        let x = key_of(level, es.last());
        let k = keys(init, level);
        lemma_keys_cover(init, level);
        lemma_keys_distinct(init, level);
        lemma_keys_distinct(es, level);
        if k.contains(x) {
            lemma_key_sum_last(k, es, level);
        } else {
            let ks = k.push(x);
            assert(ks.drop_last() =~= k);
            lemma_key_sum_last(k, es, level);
            lemma_with_key_last(es, level, x);
            lemma_missing_key(init, level, x);
        }
    }
}

/// Summing the groups is summing their keys' minutes.
proof fn lemma_group_sum_keys(ks: Seq<Seq<char>>, es: Seq<EntryView>, level: Level)
    ensures
        group_sum(ks.map_values(|k: Seq<char>| (k, total(with_key(es, level, k))))) == key_sum(
            ks,
            es,
            level,
        ),
    decreases ks.len(),
{
    if ks.len() > 0 {
        lemma_group_sum_keys(ks.drop_last(), es, level);
        let f = |k: Seq<char>| (k, total(with_key(es, level, k)));
        assert(ks.map_values(f).drop_last() =~= ks.drop_last().map_values(f));
    }
}

/// The groups of entries at a level add up to the entries' minutes.
proof fn lemma_groups_cover(es: Seq<EntryView>, level: Level)
    ensures
        group_sum(groups(es, level)) == total(es),
{
    lemma_group_sum_keys(keys(es, level), es, level);
    lemma_keys_cover(es, level);
}

/// Inserting a group adds its total; the groups after are those before and it.
proof fn lemma_insert_desc_sum(t: Seq<(Seq<char>, int)>, x: (Seq<char>, int))
    ensures
        group_sum(insert_desc(t, x)) == group_sum(t) + x.1,
        forall|y: (Seq<char>, int)| #[trigger] insert_desc(t, x).contains(y) ==> t.contains(y) || y == x,
    decreases t.len(),
{
    if t.len() == 0 || t.last().1 >= x.1 {
        assert(t.push(x).drop_last() =~= t);
        assert forall|y: (Seq<char>, int)| #[trigger] t.push(x).contains(y) implies t.contains(y) || y == x by {
            let j = choose|j: int| 0 <= j < t.push(x).len() && t.push(x)[j] == y;
            if j < t.len() {
                assert(t[j] == y);
            }
        }
    } else {
        let init = t.drop_last();
        lemma_insert_desc_sum(init, x);
        let r = insert_desc(init, x);
        assert(r.push(t.last()).drop_last() =~= r);
        assert forall|y: (Seq<char>, int)| #[trigger] r.push(t.last()).contains(y) implies t.contains(y) || y == x by {
            let j = choose|j: int| 0 <= j < r.push(t.last()).len() && r.push(t.last())[j] == y;
            if j < r.len() {
                assert(r[j] == y);
                assert(r.contains(y));
                if init.contains(y) {
                    let m = choose|m: int| 0 <= m < init.len() && init[m] == y;
                    assert(t[m] == y);
                }
            } else {
                assert(t[t.len() - 1] == y);
            }
        }
    }
}

/// Sorting groups keeps their sum, and every sorted group is one of them.
proof fn lemma_sort_desc_sum(s: Seq<(Seq<char>, int)>)
    ensures
        group_sum(sort_desc(s)) == group_sum(s),
        forall|y: (Seq<char>, int)| #[trigger] sort_desc(s).contains(y) ==> s.contains(y),
    decreases s.len(),
{
    if s.len() > 0 {
        let init = s.drop_last();
        lemma_sort_desc_sum(init);
        lemma_insert_desc_sum(sort_desc(init), s.last());
        assert forall|y: (Seq<char>, int)| #[trigger] sort_desc(s).contains(y) implies s.contains(y) by {
            if sort_desc(init).contains(y) {
                let m = choose|m: int| 0 <= m < init.len() && init[m] == y;
                assert(s[m] == y);
            } else {
                assert(s[s.len() - 1] == y);
            }
        }
    }
}

/// Every group of entries pairs its key with the minutes under it.
proof fn lemma_group_total(es: Seq<EntryView>, level: Level, g: (Seq<char>, int))
    requires
        groups(es, level).contains(g),
    ensures
        g.1 == total(with_key(es, level, g.0)),
{
    let j = choose|j: int| 0 <= j < groups(es, level).len() && groups(es, level)[j] == g;
    assert(groups(es, level)[j] == (keys(es, level)[j], total(with_key(es, level, keys(es, level)[j]))));
}

/// The sorted groups at a level, each mapped to a line whose total is the
/// group's, add up to the entries' minutes.
proof fn lemma_sorted_groups_cover(es: Seq<EntryView>, level: Level)
    ensures
        group_sum(sort_desc(groups(es, level))) == total(es),
        forall|i: int|
            0 <= i < sort_desc(groups(es, level)).len() ==> (#[trigger] sort_desc(groups(es, level))[i]).1
                == total(with_key(es, level, sort_desc(groups(es, level))[i].0)),
{
    let gs = groups(es, level);
    lemma_groups_cover(es, level);
    lemma_sort_desc_sum(gs);
    assert forall|i: int| 0 <= i < sort_desc(gs).len() implies (#[trigger] sort_desc(gs)[i]).1 == total(
        with_key(es, level, sort_desc(gs)[i].0),
    ) by {
        assert(sort_desc(gs).contains(sort_desc(gs)[i]));
        lemma_group_total(es, level, sort_desc(gs)[i]);
    }
}

proof fn lemma_client_sum_pointwise(ls: Seq<ClientLine>, gs: Seq<(Seq<char>, int)>)
    requires
        ls.len() == gs.len(),
        forall|i: int| 0 <= i < ls.len() ==> (#[trigger] ls[i]).total == gs[i].1,
    ensures
        client_sum(ls) == group_sum(gs),
    decreases ls.len(),
{
    if ls.len() > 0 {
        lemma_client_sum_pointwise(ls.drop_last(), gs.drop_last());
    }
}

proof fn lemma_project_sum_pointwise(ls: Seq<ProjectLine>, gs: Seq<(Seq<char>, int)>)
    requires
        ls.len() == gs.len(),
        forall|i: int| 0 <= i < ls.len() ==> (#[trigger] ls[i]).total == gs[i].1,
    ensures
        project_sum(ls) == group_sum(gs),
    decreases ls.len(),
{
    if ls.len() > 0 {
        lemma_project_sum_pointwise(ls.drop_last(), gs.drop_last());
    }
}

proof fn lemma_activity_sum_pointwise(ls: Seq<ActivityLine>, gs: Seq<(Seq<char>, int)>)
    requires
        ls.len() == gs.len(),
        forall|i: int| 0 <= i < ls.len() ==> (#[trigger] ls[i]).total == gs[i].1,
    ensures
        activity_sum(ls) == group_sum(gs),
    decreases ls.len(),
{
    if ls.len() > 0 {
        lemma_activity_sum_pointwise(ls.drop_last(), gs.drop_last());
    }
}

/// The minutes of a report add up: the clients' totals sum to the minutes of
/// the entries that start in the range, each client's projects sum to the
/// client's total, and each project's activities sum to the project's total.
pub proof fn lemma_report_totals_add_up(range: DateRange, es: Seq<EntryView>, config: AppConfig)
    ensures
        client_sum(report_lines(range, es, config)) == total(in_range(range, es)),
        forall|i: int|
            0 <= i < report_lines(range, es, config).len() ==> project_sum(
                (#[trigger] report_lines(range, es, config)[i]).projects,
            ) == report_lines(range, es, config)[i].total,
        forall|i: int, j: int|
            0 <= i < report_lines(range, es, config).len() && 0 <= j
                < report_lines(range, es, config)[i].projects.len() ==> activity_sum(
                (#[trigger] report_lines(range, es, config)[i].projects[j]).activities,
            ) == report_lines(range, es, config)[i].projects[j].total,
{
    let f = in_range(range, es);
    let cgs = sort_desc(groups(f, Level::Client));
    let lines = report_lines(range, es, config);
    lemma_sorted_groups_cover(f, Level::Client);
    lemma_client_sum_pointwise(lines, cgs);
    assert forall|i: int| 0 <= i < lines.len() implies project_sum((#[trigger] lines[i]).projects)
        == lines[i].total by {
        let ces = with_key(f, Level::Client, cgs[i].0);
        let pgs = sort_desc(groups(ces, Level::Project));
        lemma_sorted_groups_cover(ces, Level::Project);
        lemma_project_sum_pointwise(lines[i].projects, pgs);
    }
    assert forall|i: int, j: int|
        0 <= i < lines.len() && 0 <= j < lines[i].projects.len() implies activity_sum(
        (#[trigger] lines[i].projects[j]).activities,
    ) == lines[i].projects[j].total by {
        let ces = with_key(f, Level::Client, cgs[i].0);
        let pgs = sort_desc(groups(ces, Level::Project));
        let pes = with_key(ces, Level::Project, pgs[j].0);
        let ags = sort_desc(groups(pes, Level::Activity));
        lemma_sorted_groups_cover(pes, Level::Activity);
        lemma_activity_sum_pointwise(lines[i].projects[j].activities, ags);
    }
}

} // verus!
