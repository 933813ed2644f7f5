//! Detecting overlaps between a proposed time range and existing entries.
use vstd::prelude::*;

use crate::datetime::DateTime;
use crate::model::{entries_view, EntryView, TimeEntry};

verus! {

#[derive(Debug, Clone, Copy, PartialEq, Eq, Structural)]
pub enum OverlapType {
    /// new.start falls inside an existing entry
    StartOverlap,
    /// new.end falls inside an existing entry
    EndOverlap,
    /// new fully contains an existing entry
    Encompassed,
}

#[derive(Debug, Clone)]
pub struct OverlapInfo {
    pub overlap_type: OverlapType,
    pub conflicting_entry: TimeEntry,
}

#[derive(Debug)]
pub struct OverlapResult {
    pub has_overlaps: bool,
    pub overlaps: Vec<OverlapInfo>,
}

/// Two time ranges `[s1, e1)` and `[s2, e2)` share some time.
pub open spec fn ranges_overlap(s1: int, e1: int, s2: int, e2: int) -> bool {
    s1 < e2 && e1 > s2
}

pub open spec fn overlap_kind(start: DateTime, end: DateTime, e: EntryView) -> OverlapType {
    if start.stamp() >= e.start.stamp() && start.stamp() < e.end.stamp() {
        OverlapType::StartOverlap
    } else if end.stamp() > e.start.stamp() && end.stamp() <= e.end.stamp() {
        OverlapType::EndOverlap
    } else {
        OverlapType::Encompassed
    }
}

/// The entry is the one being edited (same start and end).
pub open spec fn is_excluded(e: EntryView, exclude: Option<EntryView>) -> bool {
    exclude matches Some(x) && e.start == x.start && e.end == x.end
}

pub open spec fn conflicts(start: DateTime, end: DateTime, e: EntryView, exclude: Option<EntryView>) -> bool {
    !is_excluded(e, exclude) && ranges_overlap(
        start.stamp(),
        end.stamp(),
        e.start.stamp(),
        e.end.stamp(),
    )
}

/// The conflicts of `[start, end)` with the entries, in order, with their kinds.
pub open spec fn overlap_list(
    start: DateTime,
    end: DateTime,
    es: Seq<EntryView>,
    exclude: Option<EntryView>,
) -> Seq<(OverlapType, EntryView)>
    decreases es.len(),
{
    if es.len() == 0 {
        Seq::empty()
    } else {
        let rest = overlap_list(start, end, es.drop_last(), exclude);
        let e = es.last();
        if conflicts(start, end, e, exclude) {
            rest.push((overlap_kind(start, end, e), e))
        } else {
            rest
        }
    }
}

pub open spec fn info_view(o: OverlapInfo) -> (OverlapType, EntryView) {
    (o.overlap_type, o.conflicting_entry@)
}

pub open spec fn opt_entry_view(o: Option<&TimeEntry>) -> Option<EntryView> {
    match o {
        Some(e) => Some(e@),
        None => None,
    }
}

/// Detect overlaps between a proposed (start, end) and existing entries.
/// If `exclude` is provided, entries with its start and end are skipped (for edits).
pub fn find_overlaps(
    start: DateTime,
    end: DateTime,
    existing: &[TimeEntry],
    exclude: Option<&TimeEntry>,
) -> (r: OverlapResult)
    requires
        start.wf(),
        end.wf(),
        forall|k: int| 0 <= k < existing@.len() ==> (#[trigger] existing@[k]).wf(),
        exclude matches Some(x) ==> x.wf(),
    ensures
        r.overlaps@.map_values(|o: OverlapInfo| info_view(o)) == overlap_list(
            start,
            end,
            entries_view(existing@),
            opt_entry_view(exclude),
        ),
        r.has_overlaps == (r.overlaps@.len() > 0),
{
    let mut overlaps: Vec<OverlapInfo> = Vec::new();
    let ghost es = entries_view(existing@);
    let ghost ex = opt_entry_view(exclude);
    assert(es.take(0) =~= Seq::<EntryView>::empty());
    for i in 0..existing.len()
        invariant
            start.wf(),
            end.wf(),
            forall|k: int| 0 <= k < existing@.len() ==> (#[trigger] existing@[k]).wf(),
            exclude matches Some(x) ==> x.wf(),
            es == entries_view(existing@),
            ex == opt_entry_view(exclude),
            overlaps@.map_values(|o: OverlapInfo| info_view(o)) == overlap_list(
                start,
                end,
                es.take(i as int),
                ex,
            ),
    {
        let entry = &existing[i];
        proof {
            assert(es.take(i + 1).drop_last() =~= es.take(i as int));
            assert(es.take(i + 1).last() == entry@);
        }
        let skip = match exclude {
            Some(x) => entry.start == x.start && entry.end == x.end,
            None => false,
        };
        if !skip && start.before(&entry.end) && entry.start.before(&end) {
            let start_inside = !start.before(&entry.start) && start.before(&entry.end);
            let end_inside = entry.start.before(&end) && !entry.end.before(&end);
            let overlap_type = if start_inside {
                OverlapType::StartOverlap
            } else if end_inside {
                OverlapType::EndOverlap
            } else {
                OverlapType::Encompassed
            };
            let ghost before = overlaps@;
            overlaps.push(OverlapInfo { overlap_type, conflicting_entry: entry.duplicate() });
            assert(overlaps@.map_values(|o: OverlapInfo| info_view(o)) =~= before.map_values(
                |o: OverlapInfo| info_view(o),
            ).push((overlap_kind(start, end, entry@), entry@)));
        }
    }
    assert(es.take(existing@.len() as int) =~= es);
    let has = overlaps.len() > 0;
    OverlapResult { has_overlaps: has, overlaps }
}

/// Overlap is symmetric: `[s1, e1)` meets `[s2, e2)` exactly when `[s2, e2)` meets `[s1, e1)`.
pub proof fn lemma_overlap_symmetric(s1: int, e1: int, s2: int, e2: int)
    ensures
        ranges_overlap(s1, e1, s2, e2) == ranges_overlap(s2, e2, s1, e1),
{
}

/// A proposed range conflicts with exactly those entries (not the excluded one) that
/// share time with it; entries that only touch it at an end do not conflict.
pub proof fn lemma_overlap_list_members(
    start: DateTime,
    end: DateTime,
    es: Seq<EntryView>,
    exclude: Option<EntryView>,
)
    ensures
        forall|o: (OverlapType, EntryView)| #[trigger]
            overlap_list(start, end, es, exclude).contains(o) ==> es.contains(o.1) && conflicts(
                start,
                end,
                o.1,
                exclude,
            ) && o.0 == overlap_kind(start, end, o.1),
        forall|e: EntryView| #[trigger]
            es.contains(e) && conflicts(start, end, e, exclude) ==> overlap_list(
                start,
                end,
                es,
                exclude,
            ).contains((overlap_kind(start, end, e), e)),
        (overlap_list(start, end, es, exclude).len() > 0) == (exists|e: EntryView| #[trigger]
            es.contains(e) && conflicts(start, end, e, exclude)),
    decreases es.len(),
{
    if es.len() > 0 {
        lemma_overlap_list_members(start, end, es.drop_last(), exclude);
        let rest = overlap_list(start, end, es.drop_last(), exclude);
        let l = overlap_list(start, end, es, exclude);
        assert forall|o: (OverlapType, EntryView)| #[trigger] l.contains(o) implies es.contains(
            o.1,
        ) && conflicts(start, end, o.1, exclude) && o.0 == overlap_kind(start, end, o.1) by {
            if rest.contains(o) {
                let k = choose|k: int| 0 <= k < es.drop_last().len() && es.drop_last()[k] == o.1;
                assert(es[k] == o.1);
            } else {
                assert(o == l.last());
                assert(es[es.len() - 1] == o.1);
            }
        }
        assert forall|e: EntryView| #[trigger]
            es.contains(e) && conflicts(start, end, e, exclude) implies l.contains(
            (overlap_kind(start, end, e), e),
        ) by {
            let k = choose|k: int| 0 <= k < es.len() && es[k] == e;
            if k < es.len() - 1 {
                assert(es.drop_last()[k] == e);
                assert(es.drop_last().contains(e));
                assert(rest.contains((overlap_kind(start, end, e), e)));
                let j = choose|j: int|
                    0 <= j < rest.len() && rest[j] == (overlap_kind(start, end, e), e);
                assert(l[j] == rest[j]);
            } else {
                assert(l.last() == (overlap_kind(start, end, e), e));
            }
        }
        if l.len() > 0 {
            assert(l.contains(l[0]));
        }
    }
}

/// An entry that ends when the proposed range starts, or starts when it ends,
/// is never reported as an overlap.
pub proof fn lemma_adjacent_no_overlap(start: DateTime, end: DateTime, e: EntryView, exclude: Option<EntryView>)
    requires
        e.end.stamp() <= start.stamp() || e.start.stamp() >= end.stamp(),
    ensures
        !conflicts(start, end, e, exclude),
{
}

} // verus!
