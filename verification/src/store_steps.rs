//! The steps of creating, updating and deleting an entry in the monthly files:
//! a machine that, given what the last read or write gave, says which month to
//! read or write next, or how the operation ends. The caller does the reading
//! and writing (through the month cache) and hands back what came of it.
use vstd::prelude::*;

use crate::datetime::DateTime;
use crate::error::Error;
use crate::model::{all_wf, entries_view, EntryView, TimeEntry};
use crate::overlap::overlap_list;
use crate::parser::sort_by_start;
use crate::storage::{
    add_checked, conflict_message, find_entry_index, has_span, is_first_span, replace_checked,
};

verus! {

/// An operation on the stored entries.
pub enum StoreRequest {
    /// Add the entry to the month it starts in.
    Create(TimeEntry),
    /// Replace the entry with this start and end by `entry`, moving it to
    /// another month where it now starts in one.
    Update { original_start: DateTime, original_end: DateTime, entry: TimeEntry },
    /// Remove the entry with this start and end.
    Delete { start: DateTime, end: DateTime },
}

/// Where an operation stands: which read or write it waits on, and what it
/// carries to the next step.
pub enum StoreState {
    /// Waiting for the month the new entry goes into.
    CreateRead { month: String, entry: TimeEntry },
    /// Waiting for that month to be written.
    CreateWrite { entry: TimeEntry },
    /// Waiting for the month of the entry to remove.
    DeleteRead { month: String, start: DateTime, end: DateTime },
    /// Waiting for that month to be written.
    DeleteWrite,
    /// Waiting for the month that holds the entry to replace.
    UpdateRead {
        old_month: String,
        new_month: String,
        original_start: DateTime,
        original_end: DateTime,
        entry: TimeEntry,
    },
    /// Waiting for the month, with the entry replaced in place, to be written.
    UpdateWriteSame { entry: TimeEntry },
    /// Waiting for the old month, without the entry, to be written.
    UpdateWriteRemoved {
        new_month: String,
        old_month: String,
        entry: TimeEntry,
        remaining: Vec<TimeEntry>,
        old_entry: TimeEntry,
    },
    /// Waiting for the month the entry moves into.
    UpdateReadNew {
        new_month: String,
        old_month: String,
        entry: TimeEntry,
        remaining: Vec<TimeEntry>,
        old_entry: TimeEntry,
    },
    /// Waiting for that month, with the entry added, to be written.
    UpdateWriteNew { entry: TimeEntry },
    /// Waiting for the old month, with the old entry put back, to be written;
    /// the move was refused by `conflict`.
    UpdateRollback { conflict: Error },
    /// The operation has ended.
    Done,
}

/// What came of the last read or write.
pub enum StoreEvent {
    /// The month asked for holds these entries.
    MonthRead(Vec<TimeEntry>),
    /// The month was written (and its cached copy dropped).
    Written,
    /// The read or write failed.
    Failed(Error),
}

/// What to do next.
pub enum StoreAction {
    /// Read this month's entries.
    Read(String),
    /// Write this month with these entries.
    Write(String, Vec<TimeEntry>),
    /// The operation ends: the entry stored (none for a removal), or the error.
    Finish(Result<Option<TimeEntry>, Error>),
}

impl StoreState {
    /// The entries the state carries are well formed.
    pub open spec fn wf(&self) -> bool {
        match self {
            StoreState::CreateRead { entry, .. } => entry.wf(),
            StoreState::CreateWrite { entry } => entry.wf(),
            StoreState::UpdateRead { entry, .. } => entry.wf(),
            StoreState::UpdateWriteSame { entry } => entry.wf(),
            StoreState::UpdateWriteRemoved { entry, remaining, old_entry, .. } => entry.wf()
                && old_entry.wf() && all_wf(entries_view(remaining@)),
            StoreState::UpdateReadNew { entry, remaining, old_entry, .. } => entry.wf()
                && old_entry.wf() && all_wf(entries_view(remaining@)),
            StoreState::UpdateWriteNew { entry } => entry.wf(),
            _ => true,
        }
    }

    /// The state waits on a read.
    pub open spec fn reading(&self) -> bool {
        ||| self is CreateRead
        ||| self is DeleteRead
        ||| self is UpdateRead
        ||| self is UpdateReadNew
    }

    /// The state waits on a write.
    pub open spec fn writing(&self) -> bool {
        ||| self is CreateWrite
        ||| self is DeleteWrite
        ||| self is UpdateWriteSame
        ||| self is UpdateWriteRemoved
        ||| self is UpdateWriteNew
        ||| self is UpdateRollback
    }
}

/// The event answers what the state waits on: a read gives entries, which are
/// well formed, a write is written, and either may fail.
pub open spec fn answers(state: StoreState, event: StoreEvent) -> bool {
    match event {
        StoreEvent::MonthRead(es) => state.reading() && all_wf(entries_view(es@)),
        StoreEvent::Written => state.writing(),
        StoreEvent::Failed(_) => state.reading() || state.writing(),
    }
}

/// The action fits the state that waits on it.
pub open spec fn fits(state: StoreState, action: StoreAction) -> bool {
    &&& state.wf()
    &&& action is Read ==> state.reading()
    &&& action is Write ==> state.writing()
    &&& action is Finish <==> state is Done
}

/// The entries and date-times a request carries are well formed.
pub open spec fn request_wf(req: StoreRequest) -> bool {
    match req {
        StoreRequest::Create(e) => e.wf(),
        StoreRequest::Update { original_start, entry, .. } => original_start.wf() && entry.wf(),
        StoreRequest::Delete { start, .. } => start.wf(),
    }
}

/// An entry added to a month: refused by the first entry it overlaps, else the
/// month with it, by start time, is written and `next` waits on that write.
pub open spec fn adds(es: Seq<EntryView>, e: EntryView, month: Seq<char>, next: StoreState, r: (StoreState, StoreAction)) -> bool {
    let cs = overlap_list(e.start, e.end, es, None);
    if cs.len() == 0 {
        &&& r.0 == next
        &&& r.1 matches StoreAction::Write(m, v) && m@ == month && entries_view(v@) == sort_by_start(es.push(e))
    } else {
        &&& r.0 is Done
        &&& r.1 matches StoreAction::Finish(Err(Error::Overlap(msg))) && msg@ == conflict_message(cs[0].1)
    }
}

/// The first read of a month: where `when` falls.
pub open spec fn reads(r: StoreAction, when: DateTime) -> bool {
    r matches StoreAction::Read(m) && m@ == when.month_key_text()
}

/// Starts an operation: the first month to read.
pub fn store_begin(req: StoreRequest) -> (r: (StoreState, StoreAction))
    requires
        request_wf(req),
    ensures
        fits(r.0, r.1),
        match req {
            StoreRequest::Create(e) => {
                &&& r.0 matches StoreState::CreateRead { month, entry } && month@
                    == e.start.month_key_text() && entry == e
                &&& reads(r.1, e.start)
            },
            StoreRequest::Update { original_start, original_end, entry } => {
                &&& r.0 matches StoreState::UpdateRead {
                    old_month,
                    new_month,
                    original_start: s,
                    original_end: t,
                    entry: x,
                } && old_month@ == original_start.month_key_text() && new_month@
                    == entry.start.month_key_text() && s == original_start && t == original_end
                    && x == entry
                &&& reads(r.1, original_start)
            },
            StoreRequest::Delete { start, end } => {
                &&& r.0 matches StoreState::DeleteRead { month, start: s, end: t } && month@
                    == start.month_key_text() && s == start && t == end
                &&& reads(r.1, start)
            },
        },
{
    match req {
        StoreRequest::Create(entry) => {
            let month = entry.start.month_key();
            let read = entry.start.month_key();
            (StoreState::CreateRead { month, entry }, StoreAction::Read(read))
        },
        StoreRequest::Update { original_start, original_end, entry } => {
            let old_month = original_start.month_key();
            let new_month = entry.start.month_key();
            let read = original_start.month_key();
            (
                StoreState::UpdateRead { old_month, new_month, original_start, original_end, entry },
                StoreAction::Read(read),
            )
        },
        StoreRequest::Delete { start, end } => {
            let month = start.month_key();
            let read = start.month_key();
            (StoreState::DeleteRead { month, start, end }, StoreAction::Read(read))
        },
    }
}

/// The month with its first entry of this span taken out, and that entry.
pub open spec fn takes_out(es: Seq<EntryView>, start: DateTime, end: DateTime, i: int) -> bool {
    is_first_span(es, start, end, i)
}

/// What a step does with the state it was in and what came of the last read or
/// write.
/// - A failed read or write ends the operation with its error.
/// - Creating: the month read takes the entry unless it overlaps one there,
///   and is written; once written, the entry is the result.
/// - Deleting: the month read loses its first entry of the span, which must be
///   there (else not found), and is written; once written, nothing is returned.
/// - Updating: the old month must hold the entry (else not found). Where the
///   entry stays in its month, it is replaced there unless it then overlaps
///   another, and the month is written. Where it moves, the old month is
///   written without it, then the new month is read; it takes the entry unless
///   that overlaps one there, in which case the old entry is put back into the
///   old month, which is written, and the operation ends with the overlap (or
///   with the overlap that putting it back meets).
pub open spec fn stepped(state: StoreState, event: StoreEvent, r: (StoreState, StoreAction)) -> bool {
    match event {
        StoreEvent::Failed(e) => r.0 is Done && r.1 == StoreAction::Finish(Err(e)),
        StoreEvent::Written => match state {
            StoreState::CreateWrite { entry } => r.0 is Done && r.1 == StoreAction::Finish(Ok(Some(entry))),
            StoreState::DeleteWrite => r.0 is Done && r.1 == StoreAction::Finish(Ok(None)),
            StoreState::UpdateWriteSame { entry } => r.0 is Done && r.1 == StoreAction::Finish(
                Ok(Some(entry)),
            ),
            StoreState::UpdateWriteRemoved { new_month, old_month, entry, remaining, old_entry } => {
                &&& r.0 == (StoreState::UpdateReadNew {
                    new_month,
                    old_month,
                    entry,
                    remaining,
                    old_entry,
                })
                &&& r.1 matches StoreAction::Read(m) && m@ == new_month@
            },
            StoreState::UpdateWriteNew { entry } => r.0 is Done && r.1 == StoreAction::Finish(
                Ok(Some(entry)),
            ),
            StoreState::UpdateRollback { conflict } => r.0 is Done && r.1 == StoreAction::Finish(
                Err(conflict),
            ),
            _ => true,
        },
        StoreEvent::MonthRead(v) => {
            let es = entries_view(v@);
            match state {
                StoreState::CreateRead { month, entry } => adds(
                    es,
                    entry@,
                    month@,
                    StoreState::CreateWrite { entry },
                    r,
                ),
                StoreState::DeleteRead { month, start, end } => if has_span(es, start, end) {
                    &&& r.0 is DeleteWrite
                    &&& r.1 matches StoreAction::Write(m, w) && m@ == month@ && exists|i: int|
                        takes_out(es, start, end, i) && entries_view(w@) == es.remove(i)
                } else {
                    &&& r.0 is Done
                    &&& r.1 matches StoreAction::Finish(Err(Error::NotFound))
                },
                StoreState::UpdateRead {
                    old_month,
                    new_month,
                    original_start,
                    original_end,
                    entry,
                } => if !has_span(es, original_start, original_end) {
                    &&& r.0 is Done
                    &&& r.1 matches StoreAction::Finish(Err(Error::NotFound))
                } else {
                    forall|i: int|
                        #![trigger takes_out(es, original_start, original_end, i)]
                        takes_out(es, original_start, original_end, i) ==> if old_month@
                            == new_month@ {
                            let cs = overlap_list(entry.start, entry.end, es, Some(es[i]));
                            if cs.len() == 0 {
                                &&& r.0 == (StoreState::UpdateWriteSame { entry })
                                &&& r.1 matches StoreAction::Write(m, w) && m@ == old_month@
                                    && entries_view(w@) == sort_by_start(es.update(i, entry@))
                            } else {
                                &&& r.0 is Done
                                &&& r.1 matches StoreAction::Finish(Err(Error::Overlap(msg)))
                                    && msg@ == conflict_message(cs[0].1)
                            }
                        } else {
                            &&& r.0 matches StoreState::UpdateWriteRemoved {
                                new_month: n,
                                old_month: o,
                                entry: x,
                                remaining,
                                old_entry,
                            } && n == new_month && o == old_month && x == entry && entries_view(
                                remaining@,
                            ) == es.remove(i) && old_entry@ == es[i]
                            &&& r.1 matches StoreAction::Write(m, w) && m@ == old_month@
                                && entries_view(w@) == es.remove(i)
                        }
                },
                StoreState::UpdateReadNew { new_month, old_month, entry, remaining, old_entry } => {
                    let cs = overlap_list(entry.start, entry.end, es, None);
                    if cs.len() == 0 {
                        &&& r.0 == (StoreState::UpdateWriteNew { entry })
                        &&& r.1 matches StoreAction::Write(m, w) && m@ == new_month@ && entries_view(
                            w@,
                        ) == sort_by_start(es.push(entry@))
                    } else {
                        let back = overlap_list(
                            old_entry.start,
                            old_entry.end,
                            entries_view(remaining@),
                            None,
                        );
                        if back.len() == 0 {
                            &&& r.0 matches StoreState::UpdateRollback {
                                conflict: Error::Overlap(msg),
                            } && msg@ == conflict_message(cs[0].1)
                            &&& r.1 matches StoreAction::Write(m, w) && m@ == old_month@
                                && entries_view(w@) == sort_by_start(
                                entries_view(remaining@).push(old_entry@),
                            )
                        } else {
                            &&& r.0 is Done
                            &&& r.1 matches StoreAction::Finish(Err(Error::Overlap(msg))) && msg@
                                == conflict_message(back[0].1)
                        }
                    }
                },
                _ => true,
            }
        },
    }
}

/// Takes one step: from the state and what came of its read or write, the next
/// state and what to do.
pub fn store_step(state: StoreState, event: StoreEvent) -> (r: (StoreState, StoreAction))
    requires
        state.wf(),
        answers(state, event),
    ensures
        fits(r.0, r.1),
        stepped(state, event, r),
{
    match event {
        StoreEvent::Failed(e) => (StoreState::Done, StoreAction::Finish(Err(e))),
        StoreEvent::Written => match state {
            StoreState::CreateWrite { entry } => (StoreState::Done, StoreAction::Finish(Ok(Some(entry)))),
            StoreState::DeleteWrite => (StoreState::Done, StoreAction::Finish(Ok(None))),
            StoreState::UpdateWriteSame { entry } => (
                StoreState::Done,
                StoreAction::Finish(Ok(Some(entry))),
            ),
            StoreState::UpdateWriteRemoved { new_month, old_month, entry, remaining, old_entry } => {
                let read = new_month.clone();
                (
                    StoreState::UpdateReadNew { new_month, old_month, entry, remaining, old_entry },
                    StoreAction::Read(read),
                )
            },
            StoreState::UpdateWriteNew { entry } => (
                StoreState::Done,
                StoreAction::Finish(Ok(Some(entry))),
            ),
            StoreState::UpdateRollback { conflict } => (
                StoreState::Done,
                StoreAction::Finish(Err(conflict)),
            ),
            _ => (StoreState::Done, StoreAction::Finish(Ok(None))),
        },
        StoreEvent::MonthRead(v) => match state {
            StoreState::CreateRead { month, entry } => {
                match add_checked(v, entry.duplicate(), None) {
                    Ok(w) => (StoreState::CreateWrite { entry }, StoreAction::Write(month, w)),
                    Err(e) => (StoreState::Done, StoreAction::Finish(Err(e))),
                }
            },
            StoreState::DeleteRead { month, start, end } => {
                match find_entry_index(v.as_slice(), start, end) {
                    Some(i) => {
                        let ghost es = entries_view(v@);
                        let mut w = v;
                        w.remove(i);
                        proof {
                            assert(entries_view(w@) =~= es.remove(i as int));
                            assert(takes_out(es, start, end, i as int));
                        }
                        (StoreState::DeleteWrite, StoreAction::Write(month, w))
                    },
                    None => (StoreState::Done, StoreAction::Finish(Err(Error::NotFound))),
                }
            },
            StoreState::UpdateRead { old_month, new_month, original_start, original_end, entry } => {
                let ghost es = entries_view(v@);
                match find_entry_index(v.as_slice(), original_start, original_end) {
                    None => (StoreState::Done, StoreAction::Finish(Err(Error::NotFound))),
                    Some(i) => {
                        proof {
                            assert forall|j: int| #[trigger]
                                takes_out(es, original_start, original_end, j) implies j
                                == i as int by {
                                if j < i {
                                    assert(es[j].start == original_start && es[j].end
                                        == original_end);
                                } else if j > i {
                                    assert(es[i as int].start == original_start && es[i as int].end
                                        == original_end);
                                }
                            }
                        }
                        if old_month == new_month {
                            match replace_checked(v, i, entry.duplicate()) {
                                Ok(w) => (
                                    StoreState::UpdateWriteSame { entry },
                                    StoreAction::Write(old_month, w),
                                ),
                                Err(e) => (StoreState::Done, StoreAction::Finish(Err(e))),
                            }
                        } else {
                            let old_entry = v[i].duplicate();
                            let mut remaining = v;
                            remaining.remove(i);
                            proof {
                                assert(entries_view(remaining@) =~= es.remove(i as int));
                                assert forall|k: int| 0 <= k < es.remove(i as int).len() implies (#[trigger] es.remove(i as int)[k]).wf() by {
                                    if k < i {
                                        assert(es.remove(i as int)[k] == es[k]);
                                    } else {
                                        assert(es.remove(i as int)[k] == es[k + 1]);
                                    }
                                }
                            }
                            let written = copy_entries(&remaining);
                            let write_to = old_month.clone();
                            (
                                StoreState::UpdateWriteRemoved {
                                    new_month,
                                    old_month,
                                    entry,
                                    remaining,
                                    old_entry,
                                },
                                StoreAction::Write(write_to, written),
                            )
                        }
                    },
                }
            },
            StoreState::UpdateReadNew { new_month, old_month, entry, remaining, old_entry } => {
                match add_checked(v, entry.duplicate(), None) {
                    Ok(w) => (StoreState::UpdateWriteNew { entry }, StoreAction::Write(new_month, w)),
                    Err(conflict) => match add_checked(remaining, old_entry, None) {
                        Ok(restored) => (
                            StoreState::UpdateRollback { conflict },
                            StoreAction::Write(old_month, restored),
                        ),
                        Err(e) => (StoreState::Done, StoreAction::Finish(Err(e))),
                    },
                }
            },
            _ => (StoreState::Done, StoreAction::Finish(Ok(None))),
        },
    }
}

/// A copy of the entries.
fn copy_entries(v: &Vec<TimeEntry>) -> (r: Vec<TimeEntry>)
    ensures
        entries_view(r@) == entries_view(v@),
{
    let mut out: Vec<TimeEntry> = Vec::new();
    for i in 0..v.len()
        invariant
            out@.len() == i,
            entries_view(out@) == entries_view(v@).take(i as int),
    {
        let ghost before = out@;
        out.push(v[i].duplicate());
        assert(out@ =~= before.push(out@[i as int]));
        assert(entries_view(out@) =~= entries_view(before).push(v@[i as int]@));
        assert(entries_view(v@).take(i + 1) =~= entries_view(v@).take(i as int).push(v@[i as int]@));
    }
    assert(entries_view(v@).take(v.len() as int) =~= entries_view(v@));
    out
}

} // verus!
