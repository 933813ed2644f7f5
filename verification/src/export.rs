//! Export of entries as CSV.
use vstd::prelude::*;

use crate::model::{all_wf, entries_view, EntryView, TimeEntry};
use crate::text::{chars_of, push_char, push_str, string_of};
use crate::time_utils::{duration_text, format_duration};

verus! {

pub open spec fn br_tag() -> Seq<char> {
    seq!['<', 'b', 'r', '>']
}

/// `str::replace("<br>", "\n")`: each `<br>`, found left to right, becomes a newline.
pub open spec fn br_to_newline(s: Seq<char>) -> Seq<char>
    decreases s.len(),
{
    if s.len() == 0 {
        s
    } else if s.len() >= 4 && s.take(4) == br_tag() {
        seq!['\n'] + br_to_newline(s.skip(4))
    } else {
        seq![s[0]] + br_to_newline(s.skip(1))
    }
}

/// Each double quote doubled.
pub open spec fn doubled_quotes(s: Seq<char>) -> Seq<char>
    decreases s.len(),
{
    if s.len() == 0 {
        s
    } else {
        doubled_quotes(s.drop_last()) + if s.last() == '"' {
            seq!['"', '"']
        } else {
            seq![s.last()]
        }
    }
}

pub open spec fn needs_quotes(s: Seq<char>) -> bool {
    s.contains(',') || s.contains('"') || s.contains('\n') || s.contains('\r')
}

/// A CSV field (RFC 4180): `<br>` becomes a newline, and a field holding a comma,
/// quote, newline or carriage return is quoted with its quotes doubled.
pub open spec fn csv_field(s: Seq<char>) -> Seq<char> {
    let t = br_to_newline(s);
    if needs_quotes(t) {
        seq!['"'] + doubled_quotes(t) + seq!['"']
    } else {
        t
    }
}

pub open spec fn csv_header() -> Seq<char> {
    "Start,End,Duration,Client,Project,Activity,Description,Notes\n"@
}

pub open spec fn or_empty(o: Option<Seq<char>>) -> Seq<char> {
    match o {
        Some(s) => s,
        None => Seq::empty(),
    }
}

/// The time columns of an entry's CSV line, each followed by a comma.
pub open spec fn csv_times(e: EntryView) -> Seq<char> {
    e.start.text() + seq![','] + e.end.text() + seq![','] + duration_text(e.duration()) + seq![
        ',',
    ]
}

/// The text columns of an entry's CSV line, ending the line.
pub open spec fn csv_texts(e: EntryView) -> Seq<char> {
    csv_field(e.client) + seq![','] + csv_field(or_empty(e.project)) + seq![','] + csv_field(
        or_empty(e.activity),
    ) + seq![','] + csv_field(e.description) + seq![','] + csv_field(or_empty(e.notes)) + seq![
        '\n',
    ]
}

/// One CSV line for an entry.
pub open spec fn csv_row(e: EntryView) -> Seq<char> {
    csv_times(e) + csv_texts(e)
}

pub open spec fn csv_rows(es: Seq<EntryView>) -> Seq<char>
    decreases es.len(),
{
    if es.len() == 0 {
        Seq::empty()
    } else {
        csv_rows(es.drop_last()) + csv_row(es.last())
    }
}

/// Replaces each `<br>` with a newline.
fn replace_br(v: &Vec<char>) -> (r: Vec<char>)
    ensures
        r@ == br_to_newline(v@),
{
    let mut out: Vec<char> = Vec::new();
    let mut i: usize = 0;
    assert(v@.skip(0) =~= v@);
    assert(out@ + br_to_newline(v@) =~= br_to_newline(v@));
    while i < v.len()
        invariant
            i <= v.len(),
            out@ + br_to_newline(v@.skip(i as int)) == br_to_newline(v@),
        decreases v.len() - i,
    {
        let ghost rest = v@.skip(i as int);
        if v.len() - i >= 4 && v[i] == '<' && v[i + 1] == 'b' && v[i + 2] == 'r' && v[i + 3]
            == '>' {
            assert(rest.take(4) =~= br_tag());
            assert(rest.skip(4) =~= v@.skip(i + 4));
            out.push('\n');
            i = i + 4;
        } else {
            assert(!(rest.len() >= 4 && rest.take(4) == br_tag())) by {
                if rest.len() >= 4 && rest.take(4) == br_tag() {
                    assert(rest.take(4)[0] == v@[i as int]);
                    assert(rest.take(4)[1] == v@[i + 1]);
                    assert(rest.take(4)[2] == v@[i + 2]);
                    assert(rest.take(4)[3] == v@[i + 3]);
                }
            }
            assert(rest.skip(1) =~= v@.skip(i + 1));
            out.push(v[i]);
            i = i + 1;
        }
        assert(out@ + br_to_newline(v@.skip(i as int)) =~= br_to_newline(v@));
    }
    assert(v@.skip(v.len() as int) =~= Seq::<char>::empty());
    assert(out@ + Seq::<char>::empty() =~= out@);
    out
}

/// Escape a value for CSV (RFC 4180). Converts `<br>` to real newlines first,
/// then quotes the field if it contains commas, quotes, newlines, or carriage returns.
pub fn csv_escape(s: &str) -> (r: String)
    ensures
        r@ == csv_field(s@),
{
    let v = replace_br(&chars_of(s));
    let mut special = false;
    let mut i: usize = 0;
    while i < v.len()
        invariant
            i <= v.len(),
            special == exists|k: int|
                0 <= k < i && (v@[k] == ',' || v@[k] == '"' || v@[k] == '\n' || v@[k] == '\r'),
        decreases v.len() - i,
    {
        let c = v[i];
        if c == ',' || c == '"' || c == '\n' || c == '\r' {
            special = true;
        }
        i = i + 1;
    }
    proof {
        if special {
            let k = choose|k: int|
                0 <= k < v.len() && (v@[k] == ',' || v@[k] == '"' || v@[k] == '\n' || v@[k]
                    == '\r');
            if v@[k] == ',' {
                assert(v@.contains(','));
            } else if v@[k] == '"' {
                assert(v@.contains('"'));
            } else if v@[k] == '\n' {
                assert(v@.contains('\n'));
            } else {
                assert(v@.contains('\r'));
            }
        }
    }
    if !special {
        return string_of(&v);
    }
    let mut out = String::new();
    push_char(&mut out, '"');
    let mut j: usize = 0;
    while j < v.len()
        invariant
            j <= v.len(),
            out@ == seq!['"'] + doubled_quotes(v@.take(j as int)),
        decreases v.len() - j,
    {
        assert(v@.take(j + 1).drop_last() =~= v@.take(j as int));
        assert(v@.take(j + 1).last() == v@[j as int]);
        if v[j] == '"' {
            push_char(&mut out, '"');
            push_char(&mut out, '"');
        } else {
            push_char(&mut out, v[j]);
        }
        j = j + 1;
        assert(out@ =~= seq!['"'] + doubled_quotes(v@.take(j as int)));
    }
    push_char(&mut out, '"');
    assert(v@.take(v.len() as int) =~= v@);
    out
}

fn push_field(out: &mut String, s: &str)
    ensures
        final(out)@ == old(out)@ + csv_field(s@),
{
    let f = csv_escape(s);
    push_str(out, f.as_str());
}

fn push_opt_field(out: &mut String, s: &Option<String>)
    ensures
        final(out)@ == old(out)@ + csv_field(or_empty(crate::model::opt_view(*s))),
{
    match s {
        Some(t) => push_field(out, t.as_str()),
        None => {
            proof {
                reveal_strlit("");
            }
            push_field(out, "");
        },
    }
}

fn push_times(out: &mut String, e: &TimeEntry)
    requires
        e.wf(),
    ensures
        final(out)@ == old(out)@ + csv_times(e@),
{
    let ghost before = out@;
    let start = e.start.format();
    push_str(out, start.as_str());
    push_char(out, ',');
    let end = e.end.format();
    push_str(out, end.as_str());
    push_char(out, ',');
    let duration = format_duration(e.duration_minutes());
    push_str(out, duration.as_str());
    push_char(out, ',');
    assert(out@ =~= before + csv_times(e@));
}

fn push_texts(out: &mut String, e: &TimeEntry)
    ensures
        final(out)@ == old(out)@ + csv_texts(e@),
{
    let ghost before = out@;
    push_field(out, e.client.as_str());
    push_char(out, ',');
    let ghost a = out@;
    push_opt_field(out, &e.project);
    push_char(out, ',');
    let ghost b = out@;
    assert(b =~= before + (csv_field(e@.client) + seq![','] + csv_field(or_empty(e@.project)) + seq![',']));
    push_opt_field(out, &e.activity);
    push_char(out, ',');
    push_field(out, e.description.as_str());
    push_char(out, ',');
    let ghost c = out@;
    assert(c =~= b + (csv_field(or_empty(e@.activity)) + seq![','] + csv_field(e@.description) + seq![',']));
    push_opt_field(out, &e.notes);
    push_char(out, '\n');
    assert(out@ =~= before + csv_texts(e@));
}

fn push_row(out: &mut String, e: &TimeEntry)
    requires
        e.wf(),
    ensures
        final(out)@ == old(out)@ + csv_row(e@),
{
    let ghost before = out@;
    push_times(out, e);
    push_texts(out, e);
    assert(out@ =~= before + csv_row(e@));
}

/// Export time entries as CSV. One row per entry.
/// Columns: Start, End, Duration, Client, Project, Activity, Description, Notes
pub fn entries_to_csv(entries: &[TimeEntry]) -> (r: String)
    requires
        all_wf(entries_view(entries@)),
    ensures
        r@ == csv_header() + csv_rows(entries_view(entries@)),
{
    let ghost es = entries_view(entries@);
    let mut out = String::new();
    push_str(&mut out, "Start,End,Duration,Client,Project,Activity,Description,Notes\n");
    for i in 0..entries.len()
        invariant
            es == entries_view(entries@),
            all_wf(es),
            out@ == csv_header() + csv_rows(es.take(i as int)),
    {
        let e = &entries[i];
        proof {
            assert(es.take(i + 1).drop_last() =~= es.take(i as int));
            assert(es.take(i + 1).last() == e@);
            assert(es[i as int].wf());
        }
        push_row(&mut out, e);
        assert(out@ =~= csv_header() + csv_rows(es.take(i + 1)));
    }
    assert(es.take(entries.len() as int) =~= es);
    out
}

} // verus!
