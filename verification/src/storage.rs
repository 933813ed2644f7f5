//! The decisions behind creating, updating, deleting and finding entries in
//! monthly files: which entries a month holds afterwards, and which error
//! refuses a change. Reading and writing the files is left to the caller.
use vstd::prelude::*;

use crate::date_range::DateRange;
use crate::datetime::{clock_text, DateTime};
use crate::error::{Error, Result};
use crate::model::{all_wf, entries_view, entry_id_text, EntryFilter, EntryView, TimeEntry};
use crate::overlap::{find_overlaps, opt_entry_view, overlap_list};
use crate::parser::{sort_by_start, sort_entries};
use crate::text::{push_char, push_str, same_text};

verus! {

/// The message that refuses an entry overlapping `c`.
pub open spec fn conflict_message(c: EntryView) -> Seq<char> {
    "conflicts with "@ + clock_text(c.start.minute as int) + " - "@ + clock_text(
        c.end.minute as int,
    ) + " ("@ + c.description + seq![')']
}

/// `es[i]` is the first entry with exactly this start and end.
pub open spec fn is_first_span(es: Seq<EntryView>, start: DateTime, end: DateTime, i: int) -> bool {
    &&& 0 <= i < es.len()
    &&& es[i].start == start && es[i].end == end
    &&& forall|j: int| 0 <= j < i ==> !((#[trigger] es[j]).start == start && es[j].end == end)
}

pub open spec fn has_span(es: Seq<EntryView>, start: DateTime, end: DateTime) -> bool {
    exists|i: int| 0 <= i < es.len() && (#[trigger] es[i]).start == start && es[i].end == end
}

/// Position of the entry with the given start and end.
pub fn find_entry_index(entries: &[TimeEntry], start: DateTime, end: DateTime) -> (r: Option<
    usize,
>)
    ensures
        r is None <==> !has_span(entries_view(entries@), start, end),
        r matches Some(i) ==> is_first_span(entries_view(entries@), start, end, i as int),
{
    let ghost es = entries_view(entries@);
    let mut i: usize = 0;
    while i < entries.len()
        invariant
            es == entries_view(entries@),
            i <= entries.len(),
            forall|j: int| 0 <= j < i ==> !((#[trigger] es[j]).start == start && es[j].end == end),
        decreases entries.len() - i,
    {
        if entries[i].start == start && entries[i].end == end {
            assert(es[i as int] == entries[i as int]@);
            return Some(i);
        }
        assert(es[i as int] == entries[i as int]@);
        i = i + 1;
    }
    None
}

/// The error that refuses an entry overlapping `conflict`:
/// `conflicts with HH:MM - HH:MM (description)`.
pub fn conflict_error(conflict: &TimeEntry) -> (r: Error)
    requires
        conflict.wf(),
    ensures
        r matches Error::Overlap(m) && m@ == conflict_message(conflict@),
{
    let mut m = String::new();
    push_str(&mut m, "conflicts with ");
    let s = conflict.start.format_clock();
    push_str(&mut m, s.as_str());
    push_str(&mut m, " - ");
    let e = conflict.end.format_clock();
    push_str(&mut m, e.as_str());
    push_str(&mut m, " (");
    push_str(&mut m, conflict.description.as_str());
    push_char(&mut m, ')');
    Error::Overlap(m)
}

/// The entries with one more, kept in order of start (stable).
pub fn insert_sorted(entries: Vec<TimeEntry>, entry: TimeEntry) -> (r: Vec<TimeEntry>)
    requires
        all_wf(entries_view(entries@)),
        entry.wf(),
    ensures
        entries_view(r@) == sort_by_start(entries_view(entries@).push(entry@)),
        all_wf(entries_view(r@)),
{
    let mut entries = entries;
    let ghost before = entries_view(entries@);
    entries.push(entry);
    assert(entries_view(entries@) =~= before.push(entry@));
    assert forall|k: int| 0 <= k < entries@.len() implies (#[trigger] entries@[k]).wf() by {
        if k < before.len() {
            assert(before[k] == entries@[k]@);
        }
    }
    let r = sort_entries(entries);
    assert forall|k: int| 0 <= k < entries_view(r@).len() implies (#[trigger] entries_view(r@)[k]).wf() by {
        assert(entries_view(r@)[k] == r@[k]@);
    }
    r
}

/// Adds an entry to a month's entries, refused where it overlaps one of them
/// (other than one with the span of `exclude`): the month's entries afterwards,
/// sorted by start, or the error naming the first conflict.
pub fn add_checked(entries: Vec<TimeEntry>, entry: TimeEntry, exclude: Option<&TimeEntry>) -> (r:
    Result<Vec<TimeEntry>>)
    requires
        all_wf(entries_view(entries@)),
        entry.wf(),
        exclude matches Some(x) ==> x.wf(),
    ensures
        ({
            let conflicts = overlap_list(
                entry.start,
                entry.end,
                entries_view(entries@),
                opt_entry_view(exclude),
            );
            match r {
                Ok(v) => conflicts.len() == 0 && entries_view(v@) == sort_by_start(
                    entries_view(entries@).push(entry@),
                ) && all_wf(entries_view(v@)),
                Err(Error::Overlap(m)) => conflicts.len() > 0 && m@ == conflict_message(
                    conflicts[0].1,
                ),
                Err(_) => false,
            }
        }),
{
    proof {
        assert forall|k: int| 0 <= k < entries@.len() implies (#[trigger] entries@[k]).wf() by {
            assert(entries_view(entries@)[k] == entries@[k]@);
        }
    }
    let result = find_overlaps(entry.start, entry.end, entries.as_slice(), exclude);
    if result.has_overlaps {
        let first = &result.overlaps[0];
        proof {
            assert(result.overlaps@.map_values(|o: crate::overlap::OverlapInfo| crate::overlap::info_view(o))[0] == crate::overlap::info_view(result.overlaps@[0]));
            lemma_overlap_list_wf(entry.start, entry.end, entries_view(entries@), opt_entry_view(exclude));
        }
        return Err(conflict_error(&first.conflicting_entry));
    }
    proof {
        assert(result.overlaps@.map_values(|o: crate::overlap::OverlapInfo| crate::overlap::info_view(o)).len() == 0);
    }
    Ok(insert_sorted(entries, entry))
}

/// Every conflict found is one of the entries.
pub(crate) proof fn lemma_overlap_list_wf(
    start: DateTime,
    end: DateTime,
    es: Seq<EntryView>,
    exclude: Option<EntryView>,
)
    requires
        all_wf(es),
    ensures
        forall|k: int|
            0 <= k < overlap_list(start, end, es, exclude).len() ==> (#[trigger] overlap_list(
                start,
                end,
                es,
                exclude,
            )[k]).1.wf(),
    decreases es.len(),
{
    if es.len() > 0 {
        let init = es.drop_last();
        assert forall|k: int| 0 <= k < init.len() implies (#[trigger] init[k]).wf() by {
            assert(init[k] == es[k]);
        }
        lemma_overlap_list_wf(start, end, init, exclude);
        assert(es.last() == es[es.len() - 1]);
        let rest = overlap_list(start, end, init, exclude);
        let all = overlap_list(start, end, es, exclude);
        assert forall|k: int| 0 <= k < all.len() implies (#[trigger] all[k]).1.wf() by {
            if k < rest.len() {
                assert(all[k] == rest[k]);
            }
        }
    }
}

/// Replaces the entry at `idx` by `entry`, refused where `entry` overlaps another
/// entry of the month (the one replaced is left out of the check by its span):
/// the month's entries afterwards, sorted by start (stable).
pub fn replace_checked(entries: Vec<TimeEntry>, idx: usize, entry: TimeEntry) -> (r: Result<
    Vec<TimeEntry>,
>)
    requires
        all_wf(entries_view(entries@)),
        entry.wf(),
        idx < entries@.len(),
    ensures
        ({
            let es = entries_view(entries@);
            let conflicts = overlap_list(entry.start, entry.end, es, Some(es[idx as int]));
            match r {
                Ok(v) => conflicts.len() == 0 && entries_view(v@) == sort_by_start(
                    es.update(idx as int, entry@),
                ) && all_wf(entries_view(v@)),
                Err(Error::Overlap(m)) => conflicts.len() > 0 && m@ == conflict_message(
                    conflicts[0].1,
                ),
                Err(_) => false,
            }
        }),
{
    let ghost es = entries_view(entries@);
    proof {
        assert forall|k: int| 0 <= k < entries@.len() implies (#[trigger] entries@[k]).wf() by {
            assert(es[k] == entries@[k]@);
        }
        assert(es[idx as int] == entries@[idx as int]@);
    }
    let result = find_overlaps(entry.start, entry.end, entries.as_slice(), Some(&entries[idx]));
    if result.has_overlaps {
        let first = &result.overlaps[0];
        proof {
            assert(result.overlaps@.map_values(|o: crate::overlap::OverlapInfo| crate::overlap::info_view(o))[0] == crate::overlap::info_view(result.overlaps@[0]));
            lemma_overlap_list_wf(entry.start, entry.end, es, Some(es[idx as int]));
        }
        return Err(conflict_error(&first.conflicting_entry));
    }
    proof {
        assert(result.overlaps@.map_values(|o: crate::overlap::OverlapInfo| crate::overlap::info_view(o)).len() == 0);
    }
    let mut entries = entries;
    entries.set(idx, entry);
    assert(entries_view(entries@) =~= es.update(idx as int, entry@));
    assert forall|k: int| 0 <= k < entries@.len() implies (#[trigger] entries@[k]).wf() by {
        if k != idx {
            assert(es[k] == entries@[k]@);
        }
    }
    let r = sort_entries(entries);
    assert forall|k: int| 0 <= k < entries_view(r@).len() implies (#[trigger] entries_view(r@)[k]).wf() by {
        assert(entries_view(r@)[k] == r@[k]@);
    }
    Ok(r)
}

/// Removes the entry with the given start and end: the month's entries
/// afterwards, or `NotFound` where there is none.
pub fn remove_entry(entries: Vec<TimeEntry>, start: DateTime, end: DateTime) -> (r: Result<
    Vec<TimeEntry>,
>)
    ensures
        ({
            let es = entries_view(entries@);
            match r {
                Ok(v) => exists|i: int|
                    is_first_span(es, start, end, i) && entries_view(v@) == es.remove(i),
                Err(Error::NotFound) => !has_span(es, start, end),
                Err(_) => false,
            }
        }),
{
    let ghost es = entries_view(entries@);
    match find_entry_index(entries.as_slice(), start, end) {
        Some(idx) => {
            let mut entries = entries;
            entries.remove(idx);
            assert(entries_view(entries@) =~= es.remove(idx as int));
            Ok(entries)
        },
        None => Err(Error::NotFound),
    }
}

/// The first entry whose computed ID is `entry_id`, or `NotFound`.
pub fn find_by_id(entries: &[TimeEntry], entry_id: &str) -> (r: Result<TimeEntry>)
    requires
        all_wf(entries_view(entries@)),
    ensures
        ({
            let es = entries_view(entries@);
            match r {
                Ok(e) => exists|i: int|
                    0 <= i < es.len() && e@ == es[i] && entry_id_text(es[i].start, es[i].end)
                        == entry_id@ && forall|j: int|
                        0 <= j < i ==> entry_id_text((#[trigger] es[j]).start, es[j].end)
                            != entry_id@,
                Err(Error::NotFound) => forall|j: int|
                    0 <= j < es.len() ==> entry_id_text((#[trigger] es[j]).start, es[j].end)
                        != entry_id@,
                Err(_) => false,
            }
        }),
{
    let ghost es = entries_view(entries@);
    let mut i: usize = 0;
    while i < entries.len()
        invariant
            es == entries_view(entries@),
            all_wf(es),
            i <= entries.len(),
            forall|j: int|
                0 <= j < i ==> entry_id_text((#[trigger] es[j]).start, es[j].end) != entry_id@,
        decreases entries.len() - i,
    {
        assert(es[i as int] == entries[i as int]@);
        assert(es[i as int].wf());
        let id = entries[i].entry_id();
        if same_text(id.as_str(), entry_id) {
            return Ok(entries[i].duplicate());
        }
        i = i + 1;
    }
    Err(Error::NotFound)
}

/// The entry starts on a day of the range.
pub open spec fn starts_in(range: DateRange, e: EntryView) -> bool {
    range.start.day <= e.start.day <= range.end.day
}

/// The entries of the loaded months, in order, that start on a day of the range.
pub open spec fn in_range(range: DateRange, es: Seq<EntryView>) -> Seq<EntryView>
    decreases es.len(),
{
    if es.len() == 0 {
        es
    } else {
        let rest = in_range(range, es.drop_last());
        if starts_in(range, es.last()) {
            rest.push(es.last())
        } else {
            rest
        }
    }
}

/// The months' entries one after another.
pub open spec fn concat_months(months: Seq<Vec<TimeEntry>>) -> Seq<EntryView>
    decreases months.len(),
{
    if months.len() == 0 {
        Seq::empty()
    } else {
        concat_months(months.drop_last()) + entries_view(months.last()@)
    }
}

/// The entries of a range from its loaded months: those that start on a day of
/// the range, sorted by start (stable).
pub fn gather_range(range: &DateRange, months: Vec<Vec<TimeEntry>>) -> (r: Vec<TimeEntry>)
    requires
        forall|m: int| 0 <= m < months@.len() ==> all_wf(entries_view(#[trigger] months@[m]@)),
    ensures
        entries_view(r@) == sort_by_start(in_range(*range, concat_months(months@))),
        all_wf(entries_view(r@)),
{
    let mut all: Vec<TimeEntry> = Vec::new();
    let mut m: usize = 0;
    while m < months.len()
        invariant
            m <= months.len(),
            forall|k: int| 0 <= k < months@.len() ==> all_wf(entries_view(#[trigger] months@[k]@)),
            entries_view(all@) == in_range(*range, concat_months(months@.take(m as int))),
            all_wf(entries_view(all@)),
        decreases months.len() - m,
    {
        let month = &months[m];
        let ghost before = concat_months(months@.take(m as int));
        proof {
            assert(months@.take(m + 1).drop_last() =~= months@.take(m as int));
            assert(months@.take(m + 1).last() == months@[m as int]);
            assert(all_wf(entries_view(months@[m as int]@)));
        }
        let ghost mv = entries_view(month@);
        let mut i: usize = 0;
        while i < month.len()
            invariant
                i <= month.len(),
                mv == entries_view(month@),
                all_wf(mv),
                entries_view(all@) == in_range(*range, before + mv.take(i as int)),
                all_wf(entries_view(all@)),
            decreases month.len() - i,
        {
            let e = &month[i];
            proof {
                assert((before + mv.take(i + 1)).drop_last() =~= before + mv.take(i as int));
                assert((before + mv.take(i + 1)).last() == e@);
                assert(mv[i as int] == e@);
            }
            if range.start.day <= e.start.day && e.start.day <= range.end.day {
                let ghost prev = entries_view(all@);
                all.push(e.duplicate());
                assert(entries_view(all@) =~= prev.push(e@));
            }
            i = i + 1;
        }
        assert(mv.take(month.len() as int) =~= mv);
        assert(concat_months(months@.take(m + 1)) =~= before + mv);
        m = m + 1;
    }
    assert(months@.take(months.len() as int) =~= months@);
    proof {
        assert forall|k: int| 0 <= k < all@.len() implies (#[trigger] all@[k]).wf() by {
            assert(entries_view(all@)[k] == all@[k]@);
        }
    }
    let r = sort_entries(all);
    assert forall|k: int| 0 <= k < entries_view(r@).len() implies (#[trigger] entries_view(r@)[k]).wf() by {
        assert(entries_view(r@)[k] == r@[k]@);
    }
    r
}

/// The entries, in order, that meet the filter.
pub open spec fn filtered(filter: EntryFilter, es: Seq<EntryView>) -> Seq<EntryView> {
    es.filter(|e: EntryView| filter.accepts(e))
}

/// The entries that the filter accepts, in order.
pub fn select_filtered(entries: Vec<TimeEntry>, filter: &EntryFilter) -> (r: Vec<TimeEntry>)
    ensures
        entries_view(r@) == filtered(*filter, entries_view(entries@)),
{
    let ghost es = entries_view(entries@);
    let mut out: Vec<TimeEntry> = Vec::new();
    for i in 0..entries.len()
        invariant
            es == entries_view(entries@),
            entries_view(out@) == filtered(*filter, es.take(i as int)),
    {
        proof {
            assert(es.take(i + 1).drop_last() =~= es.take(i as int));
            assert(es.take(i + 1).last() == entries[i as int]@);
            reveal(Seq::filter);
        }
        if filter.matches(&entries[i]) {
            let ghost prev = entries_view(out@);
            out.push(entries[i].duplicate());
            assert(entries_view(out@) =~= prev.push(entries[i as int]@));
        }
    }
    assert(es.take(entries.len() as int) =~= es);
    out
}

} // verus!
