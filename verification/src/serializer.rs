//! Writing a monthly markdown file: a heading and a GFM table of entries.
use vstd::prelude::*;

use crate::model::{entries_view, EntryView, TimeEntry};
use crate::parser::{sort_by_start, sort_entries};
use crate::text::{chars_of, push_char, push_str};

verus! {

/// Pipes in cell text are written as `\|`.
pub open spec fn escape_pipe(s: Seq<char>) -> Seq<char>
    decreases s.len(),
{
    if s.len() == 0 {
        s
    } else if s.last() == '|' {
        escape_pipe(s.drop_last()) + seq!['\\', '|']
    } else {
        escape_pipe(s.drop_last()).push(s.last())
    }
}

pub open spec fn opt_cell(o: Option<Seq<char>>) -> Seq<char> {
    match o {
        Some(s) => escape_pipe(s),
        None => Seq::empty(),
    }
}

pub open spec fn table_header() -> Seq<char> {
    "| Start | End | Description | Client | Project | Activity | Notes |\n"@
}

pub open spec fn table_rule() -> Seq<char> {
    "|-------|-----|-------------|--------|---------|----------|-------|\n"@
}

/// One table row.
pub open spec fn row_text(e: EntryView) -> Seq<char> {
    "| "@ + e.start.text() + " | "@ + e.end.text() + " | "@ + escape_pipe(e.description) + " | "@
        + escape_pipe(e.client) + " | "@ + opt_cell(e.project) + " | "@ + opt_cell(e.activity)
        + " | "@ + opt_cell(e.notes) + " |\n"@
}

pub open spec fn rows_text(s: Seq<EntryView>) -> Seq<char>
    decreases s.len(),
{
    if s.len() == 0 {
        Seq::empty()
    } else {
        rows_text(s.drop_last()) + row_text(s.last())
    }
}

/// The text of a monthly file: heading, table head, then one row per entry by start time.
pub open spec fn month_file_text(month_key: Seq<char>, es: Seq<EntryView>) -> Seq<char> {
    "# "@ + month_key + "\n\n"@ + table_header() + table_rule() + rows_text(sort_by_start(es))
}

/// Escape pipe characters in cell content so they don't break the table.
pub fn escape_pipe_text(s: &str) -> (r: String)
    ensures
        r@ == escape_pipe(s@),
{
    let v = chars_of(s);
    let mut out = String::new();
    assert(v@.take(0) =~= Seq::<char>::empty());
    for i in 0..v.len()
        invariant
            v@ == s@,
            out@ == escape_pipe(v@.take(i as int)),
    {
        assert(v@.take(i + 1).drop_last() =~= v@.take(i as int));
        if v[i] == '|' {
            push_char(&mut out, '\\');
            push_char(&mut out, '|');
            assert(out@ =~= escape_pipe(v@.take(i as int)) + seq!['\\', '|']);
        } else {
            push_char(&mut out, v[i]);
        }
    }
    assert(v@.take(v.len() as int) =~= v@);
    out
}

fn push_opt_cell(out: &mut String, o: &Option<String>)
    ensures
        final(out)@ == old(out)@ + opt_cell(crate::model::opt_view(*o)),
{
    match o {
        Some(s) => {
            let t = escape_pipe_text(s.as_str());
            push_str(out, t.as_str());
        },
        None => {
            assert(old(out)@ + Seq::<char>::empty() =~= old(out)@);
        },
    }
}

fn push_row(out: &mut String, e: &TimeEntry)
    requires
        e.wf(),
    ensures
        final(out)@ == old(out)@ + row_text(e@),
{
    let mut row = String::new();
    push_str(&mut row, "| ");
    let s = e.start.format();
    push_str(&mut row, s.as_str());
    push_str(&mut row, " | ");
    let t = e.end.format();
    push_str(&mut row, t.as_str());
    push_str(&mut row, " | ");
    assert(row@ =~= "| "@ + e.start.text() + " | "@ + e.end.text() + " | "@);
    let ghost a = row@;
    let d = escape_pipe_text(e.description.as_str());
    push_str(&mut row, d.as_str());
    push_str(&mut row, " | ");
    let c = escape_pipe_text(e.client.as_str());
    push_str(&mut row, c.as_str());
    push_str(&mut row, " | ");
    assert(row@ =~= a + escape_pipe(e@.description) + " | "@ + escape_pipe(e@.client) + " | "@);
    let ghost b = row@;
    push_opt_cell(&mut row, &e.project);
    push_str(&mut row, " | ");
    push_opt_cell(&mut row, &e.activity);
    push_str(&mut row, " | ");
    push_opt_cell(&mut row, &e.notes);
    push_str(&mut row, " |\n");
    assert(row@ =~= b + opt_cell(e@.project) + " | "@ + opt_cell(e@.activity) + " | "@ + opt_cell(
        e@.notes,
    ) + " |\n"@);
    assert(row@ =~= row_text(e@));
    push_str(out, row.as_str());
}

/// Serialize entries into a GFM markdown table for a monthly file.
/// Entries are sorted by start time before writing.
pub fn serialize_entries(month_key: &str, entries: &[TimeEntry]) -> (r: String)
    requires
        forall|k: int| 0 <= k < entries@.len() ==> (#[trigger] entries@[k]).wf(),
    ensures
        r@ == month_file_text(month_key@, entries_view(entries@)),
{
    let mut copy: Vec<TimeEntry> = Vec::new();
    for i in 0..entries.len()
        invariant
            forall|k: int| 0 <= k < entries@.len() ==> (#[trigger] entries@[k]).wf(),
            entries_view(copy@) == entries_view(entries@).take(i as int),
            forall|k: int| 0 <= k < copy@.len() ==> (#[trigger] copy@[k]).wf(),
    {
        let ghost before = copy@;
        let d = entries[i].duplicate();
        copy.push(d);
        assert(copy@ == before.push(d));
        assert(d@ == entries@[i as int]@);
        assert(entries_view(copy@) =~= entries_view(before).push(d@));
        assert(entries_view(entries@).take(i + 1) =~= entries_view(entries@).take(i as int).push(
            entries@[i as int]@,
        ));
    }
    assert(entries_view(entries@).take(entries@.len() as int) =~= entries_view(entries@));
    let sorted = sort_entries(copy);
    let mut out = String::new();
    push_str(&mut out, "# ");
    push_str(&mut out, month_key);
    push_str(&mut out, "\n\n");
    push_str(&mut out, "| Start | End | Description | Client | Project | Activity | Notes |\n");
    push_str(&mut out, "|-------|-----|-------------|--------|---------|----------|-------|\n");
    let ghost head = out@;
    let ghost sv = entries_view(sorted@);
    assert(sv.take(0) =~= Seq::<EntryView>::empty());
    assert(head + rows_text(Seq::<EntryView>::empty()) =~= head);
    for i in 0..sorted.len()
        invariant
            sv == entries_view(sorted@),
            forall|k: int| 0 <= k < sorted@.len() ==> (#[trigger] sorted@[k]).wf(),
            out@ == head + rows_text(sv.take(i as int)),
    {
        push_row(&mut out, &sorted[i]);
        proof {
            assert(sv.take(i + 1).drop_last() =~= sv.take(i as int));
            assert(sv.take(i + 1).last() == sorted@[i as int]@);
            assert(out@ =~= head + rows_text(sv.take(i + 1)));
        }
    }
    assert(sv.take(sorted@.len() as int) =~= sv);
    out
}

} // verus!
