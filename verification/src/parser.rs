//! Reading a monthly markdown file: a GFM table whose rows are entries.
use vstd::prelude::*;

use crate::datetime::{parsed_datetime, DateTime};
use crate::error::Error;
use crate::model::{entries_view, EntryView, TimeEntry};
use crate::text::{
    chars_of, contains_chars, decimal, is_space, lines_of, lowercase, push_char, push_decimal,
    push_str, seq_contains, split_on, string_of_range, strip_cr, to_lowercase, trim, trim_range,
};

verus! {

/// Columns of a table row: Start, End, Description, Client, Project, Activity, Notes.
pub open spec fn expected_columns() -> int {
    7
}

/// The text between the outer pipes of a trimmed row.
pub open spec fn row_inner(t: Seq<char>) -> Seq<char> {
    let a = if t.len() > 0 && t[0] == '|' {
        t.skip(1)
    } else {
        t
    };
    if a.len() > 0 && a.last() == '|' {
        a.drop_last()
    } else {
        a
    }
}

/// A pipe that stands for cell text: one right after a backslash.
pub open spec fn escaped_at(s: Seq<char>, i: int) -> bool {
    s[i] == '|' && i > 0 && s[i - 1] == '\\'
}

/// The pieces between the pipes of `s` that are not escaped by a backslash
/// (one empty piece for empty text).
pub open spec fn split_cells(s: Seq<char>) -> Seq<Seq<char>>
    decreases s.len(),
{
    if s.len() == 0 {
        seq![Seq::<char>::empty()]
    } else {
        let rest = split_cells(s.drop_last());
        if s.last() == '|' && !escaped_at(s, s.len() - 1) {
            rest.push(Seq::<char>::empty())
        } else {
            rest.update(rest.len() - 1, rest.last().push(s.last()))
        }
    }
}

/// The text of a cell: each `\|` read as a pipe.
pub open spec fn unescape_cell(c: Seq<char>) -> Seq<char>
    decreases c.len(),
{
    if c.len() == 0 {
        c
    } else if escaped_at(c, c.len() - 1) {
        unescape_cell(c.drop_last().drop_last()).push('|')
    } else {
        unescape_cell(c.drop_last()).push(c.last())
    }
}

/// The trimmed cells of a table row as written, escapes included.
pub open spec fn raw_cells(row: Seq<char>) -> Seq<Seq<char>> {
    split_cells(row_inner(trim(row))).map_values(|c: Seq<char>| trim(c))
}

/// The cells of a table row: `"| a | b \| c |"` gives `["a", "b | c"]`. Cells
/// are split at pipes not escaped by a backslash, trimmed, and an escaped pipe
/// is read as a pipe.
pub open spec fn split_row(row: Seq<char>) -> Seq<Seq<char>> {
    raw_cells(row).map_values(|c: Seq<char>| unescape_cell(c))
}

pub open spec fn non_empty(s: Seq<char>) -> Option<Seq<char>> {
    if s.len() == 0 {
        None
    } else {
        Some(s)
    }
}

pub open spec fn is_table_row(t: Seq<char>) -> bool {
    t.len() > 0 && t[0] == '|'
}

/// A line that starts (after trimming) with a pipe and mentions "start" in any case.
pub open spec fn is_header_line(l: Seq<char>) -> bool {
    is_table_row(trim(l)) && seq_contains(lowercase(trim(l)), "start"@)
}

/// Index of the first header line at or after `i`.
pub open spec fn header_from(lines: Seq<Seq<char>>, i: int) -> Option<int>
    decreases lines.len() - i,
{
    if i < 0 || i >= lines.len() {
        None
    } else if is_header_line(lines[i]) {
        Some(i)
    } else {
        header_from(lines, i + 1)
    }
}

pub open spec fn columns_message(n: nat) -> Seq<char> {
    "expected 7 columns, found "@ + decimal(n)
}

pub open spec fn datetime_message(field: Seq<char>, s: Seq<char>) -> Seq<char> {
    "invalid "@ + field + " datetime: \""@ + s + "\""@
}

/// The entry of a data row (`index` counts lines from 0), or its error:
/// line number and message.
pub open spec fn row_result(index: int, cols: Seq<Seq<char>>) -> Result<EntryView, (int, Seq<char>)> {
    if cols.len() != expected_columns() {
        Err((index + 1, columns_message(cols.len())))
    } else {
        match parsed_datetime(cols[0]) {
            None => Err((index + 1, datetime_message("Start"@, cols[0]))),
            Some(start) => match parsed_datetime(cols[1]) {
                None => Err((index + 1, datetime_message("End"@, cols[1]))),
                Some(end) => if cols[3].len() == 0 {
                    Err((index + 1, "Client is required"@))
                } else {
                    Ok(
                        EntryView {
                            start,
                            end,
                            description: cols[2],
                            client: cols[3],
                            project: non_empty(cols[4]),
                            activity: non_empty(cols[5]),
                            notes: non_empty(cols[6]),
                        },
                    )
                },
            },
        }
    }
}

/// The entries of the data rows from line `i` on, in file order, or the first error.
pub open spec fn rows_from(lines: Seq<Seq<char>>, i: int) -> Result<Seq<EntryView>, (int, Seq<char>)>
    decreases lines.len() - i,
{
    if i < 0 || i >= lines.len() {
        Ok(Seq::empty())
    } else {
        let t = trim(lines[i]);
        if !is_table_row(t) {
            rows_from(lines, i + 1)
        } else {
            match row_result(i, split_row(t)) {
                Err(e) => Err(e),
                Ok(e) => match rows_from(lines, i + 1) {
                    Ok(rest) => Ok(seq![e] + rest),
                    Err(err) => Err(err),
                },
            }
        }
    }
}

/// Inserts `x` after the last element whose start is not later than its own.
pub open spec fn insert_by_start(t: Seq<EntryView>, x: EntryView) -> Seq<EntryView>
    decreases t.len(),
{
    if t.len() == 0 || t.last().start.stamp() <= x.start.stamp() {
        t.push(x)
    } else {
        insert_by_start(t.drop_last(), x).push(t.last())
    }
}

/// Stable sort by start time.
pub open spec fn sort_by_start(s: Seq<EntryView>) -> Seq<EntryView>
    decreases s.len(),
{
    if s.len() == 0 {
        s
    } else {
        insert_by_start(sort_by_start(s.drop_last()), s.last())
    }
}

pub open spec fn sorted_by_start(s: Seq<EntryView>) -> bool {
    forall|i: int, j: int| 0 <= i <= j < s.len() ==> s[i].start.stamp() <= s[j].start.stamp()
}

/// What a monthly file reads as: the entries sorted by start, or the line and
/// message of the first problem.
pub open spec fn parse_month(content: Seq<char>) -> Result<Seq<EntryView>, (int, Seq<char>)> {
    let lines = lines_of(content);
    if lines.len() == 0 {
        Ok(Seq::empty())
    } else {
        match header_from(lines, 0) {
            None => Err((1, "no table header found"@)),
            Some(h) => {
                let hc = split_row(lines[h]);
                if hc.len() != expected_columns() {
                    Err((h + 1, columns_message(hc.len())))
                } else {
                    match rows_from(lines, h + 2) {
                        Ok(es) => Ok(sort_by_start(es)),
                        Err(e) => Err(e),
                    }
                }
            },
        }
    }
}

pub open spec fn ranges_within(r: Seq<(usize, usize)>, n: int) -> bool {
    forall|k: int| #![trigger r[k]] 0 <= k < r.len() ==> r[k].0 <= r[k].1 <= n
}

pub open spec fn range_texts(v: Seq<char>, r: Seq<(usize, usize)>) -> Seq<Seq<char>> {
    r.map_values(|p: (usize, usize)| v.subrange(p.0 as int, p.1 as int))
}

/// Ranges of the lines of `v` (as `str::lines` splits them).
fn line_ranges(v: &Vec<char>) -> (r: Vec<(usize, usize)>)
    ensures
        range_texts(v@, r@) == lines_of(v@),
        ranges_within(r@, v@.len() as int),
{
    let mut out: Vec<(usize, usize)> = Vec::new();
    let mut start: usize = 0;
    let mut i: usize = 0;
    assert(split_on(v@.subrange(0, 0), '\n') =~= seq![Seq::<char>::empty()]);
    while i < v.len()
        invariant
            start <= i <= v.len(),
            split_on(v@.subrange(0, i as int), '\n').len() == out@.len() + 1,
            split_on(v@.subrange(0, i as int), '\n').last() == v@.subrange(
                start as int,
                i as int,
            ),
            ranges_within(out@, v@.len() as int),
            range_texts(v@, out@) == split_on(v@.subrange(0, i as int), '\n').take(
                out@.len() as int,
            ).map_values(|l: Seq<char>| strip_cr(l)),
        decreases v.len() - i,
    {
        let ghost before = split_on(v@.subrange(0, i as int), '\n');
        let ghost old_out = out@;
        assert(v@.subrange(0, i + 1).drop_last() =~= v@.subrange(0, i as int));
        let ghost after = split_on(v@.subrange(0, i + 1), '\n');
        proof {
            if v@[i as int] == '\n' {
                assert(after == before.push(Seq::<char>::empty()));
            } else {
                assert(after == before.update(before.len() - 1, before.last().push(v@[i as int])));
            }
        }
        if v[i] == '\n' {
            let mut e = i;
            let ghost piece = v@.subrange(start as int, i as int);
            if e > start && v[e - 1] == '\r' {
                e = e - 1;
                assert(v@.subrange(start as int, e as int) =~= piece.drop_last());
                assert(piece.last() == '\r');
            } else {
                assert(strip_cr(piece) == piece);
            }
            assert(v@.subrange(start as int, e as int) == strip_cr(piece));
            out.push((start, e));
            proof {
                assert(after.take(out@.len() as int) =~= before.take(old_out.len() as int).push(
                    piece,
                ));
                assert(range_texts(v@, out@) =~= range_texts(v@, old_out).push(strip_cr(piece)));
                assert(after.take(out@.len() as int).map_values(|l: Seq<char>| strip_cr(l))
                    =~= before.take(old_out.len() as int).map_values(|l: Seq<char>| strip_cr(l)).push(
                    strip_cr(piece),
                ));
            }
            start = i + 1;
            assert(v@.subrange(start as int, i + 1) =~= Seq::<char>::empty());
        } else {
            assert(v@.subrange(start as int, i + 1) =~= v@.subrange(start as int, i as int).push(
                v@[i as int],
            ));
            assert(after.take(out@.len() as int) =~= before.take(out@.len() as int));
        }
        i = i + 1;
    }
    let ghost p = split_on(v@, '\n');
    assert(v@.subrange(0, v@.len() as int) =~= v@);
    if v.len() == 0 {
        assert(range_texts(v@, out@) =~= lines_of(v@));
        return out;
    }
    assert(p.take(out@.len() as int) =~= p.drop_last());
    let ghost m = range_texts(v@, out@);
    if v[v.len() - 1] == '\n' {
        assert(lines_of(v@) == p.drop_last().map_values(|l: Seq<char>| strip_cr(l)));
    } else {
        out.push((start, v.len()));
        assert(range_texts(v@, out@) =~= m.push(p.last()));
        assert(lines_of(v@) == p.drop_last().map_values(|l: Seq<char>| strip_cr(l)).push(
            p.last(),
        ));
    }
    out
}

/// Ranges of the trimmed cells of the row `v[from..to]`, escapes included.
fn row_cells(v: &Vec<char>, from: usize, to: usize) -> (r: Vec<(usize, usize)>)
    requires
        from <= to <= v.len(),
    ensures
        range_texts(v@, r@) == raw_cells(v@.subrange(from as int, to as int)),
        ranges_within(r@, v@.len() as int),
{
    let ghost row = v@.subrange(from as int, to as int);
    let (mut a, mut b) = trim_range(v, from, to);
    let ghost t = v@.subrange(a as int, b as int);
    assert(t == trim(row));
    if a < b && v[a] == '|' {
        assert(v@.subrange(a + 1, b as int) =~= t.skip(1));
        a = a + 1;
    }
    let ghost t1 = v@.subrange(a as int, b as int);
    if a < b && v[b - 1] == '|' {
        assert(v@.subrange(a as int, b - 1) =~= t1.drop_last());
        b = b - 1;
    }
    assert(v@.subrange(a as int, b as int) == row_inner(t));
    let mut out: Vec<(usize, usize)> = Vec::new();
    let mut cur = a;
    let mut i = a;
    assert(split_cells(v@.subrange(a as int, a as int)) =~= seq![Seq::<char>::empty()]);
    while i < b
        invariant
            a <= cur <= i <= b <= v.len(),
            split_cells(v@.subrange(a as int, i as int)).len() == out@.len() + 1,
            split_cells(v@.subrange(a as int, i as int)).last() == v@.subrange(
                cur as int,
                i as int,
            ),
            ranges_within(out@, v@.len() as int),
            range_texts(v@, out@) == split_cells(v@.subrange(a as int, i as int)).take(
                out@.len() as int,
            ).map_values(|c: Seq<char>| trim(c)),
        decreases b - i,
    {
        let ghost before = split_cells(v@.subrange(a as int, i as int));
        let ghost old_out = out@;
        let ghost s1 = v@.subrange(a as int, i + 1);
        assert(s1.drop_last() =~= v@.subrange(a as int, i as int));
        let ghost after = split_cells(s1);
        let sep = v[i] == '|' && !(i > a && v[i - 1] == '\\');
        proof {
            assert(s1.last() == v@[i as int]);
            if i > a {
                assert(s1[i - a - 1] == v@[i - 1]);
            }
            assert(sep == (s1.last() == '|' && !escaped_at(s1, s1.len() - 1)));
            if sep {
                assert(after == before.push(Seq::<char>::empty()));
            } else {
                assert(after == before.update(before.len() - 1, before.last().push(v@[i as int])));
            }
        }
        if sep {
            let ghost piece = v@.subrange(cur as int, i as int);
            let c = trim_range(v, cur, i);
            out.push(c);
            proof {
                assert(after.take(out@.len() as int) =~= before.take(old_out.len() as int).push(
                    piece,
                ));
                assert(range_texts(v@, out@) =~= range_texts(v@, old_out).push(trim(piece)));
                assert(after.take(out@.len() as int).map_values(|l: Seq<char>| trim(l))
                    =~= before.take(old_out.len() as int).map_values(|l: Seq<char>| trim(l)).push(
                    trim(piece),
                ));
            }
            cur = i + 1;
            assert(v@.subrange(cur as int, i + 1) =~= Seq::<char>::empty());
        } else {
            assert(v@.subrange(cur as int, i + 1) =~= v@.subrange(cur as int, i as int).push(
                v@[i as int],
            ));
            assert(after.take(out@.len() as int) =~= before.take(out@.len() as int));
        }
        i = i + 1;
    }
    let ghost p = split_cells(v@.subrange(a as int, b as int));
    let ghost old_out = out@;
    let c = trim_range(v, cur, b);
    out.push(c);
    proof {
        assert(p =~= p.take(old_out.len() as int).push(p.last()));
        assert(range_texts(v@, out@) =~= range_texts(v@, old_out).push(trim(p.last())));
        assert(p.map_values(|l: Seq<char>| trim(l)) =~= p.take(old_out.len() as int).map_values(
            |l: Seq<char>| trim(l),
        ).push(trim(p.last())));
        assert(raw_cells(row) == p.map_values(|c: Seq<char>| trim(c)));
    }
    out
}

/// The text of the cell `v[from..to]`, each `\|` read as a pipe.
fn cell_text(v: &Vec<char>, from: usize, to: usize) -> (r: String)
    requires
        from <= to <= v.len(),
    ensures
        r@ == unescape_cell(v@.subrange(from as int, to as int)),
{
    let mut out = String::new();
    let mut i = from;
    assert(v@.subrange(from as int, from as int) =~= Seq::<char>::empty());
    while i < to
        invariant
            from <= i <= to <= v.len(),
            out@ == unescape_cell(v@.subrange(from as int, i as int)),
            from < i < to && v@[i - 1] == '\\' ==> v@[i as int] != '|',
        decreases to - i,
    {
        let ghost s0 = v@.subrange(from as int, i as int);
        if v[i] == '\\' && i + 1 < to && v[i + 1] == '|' {
            push_char(&mut out, '|');
            proof {
                let s2 = v@.subrange(from as int, i + 2);
                assert(s2.drop_last().drop_last() =~= s0);
                assert(escaped_at(s2, s2.len() - 1));
            }
            i = i + 2;
        } else {
            push_char(&mut out, v[i]);
            proof {
                let s1 = v@.subrange(from as int, i + 1);
                assert(s1.drop_last() =~= s0);
                if i > from {
                    assert(s1[i - from - 1] == v@[i - 1]);
                }
                assert(!escaped_at(s1, s1.len() - 1));
            }
            i = i + 1;
        }
    }
    out
}

proof fn lemma_unescape_empty(c: Seq<char>)
    ensures
        unescape_cell(c).len() == 0 <==> c.len() == 0,
{
}

pub open spec fn opt_text(s: Seq<char>) -> Option<Seq<char>> {
    non_empty(s)
}

fn non_empty_string(v: &Vec<char>, r: (usize, usize)) -> (o: Option<String>)
    requires
        r.0 <= r.1 <= v.len(),
    ensures
        crate::model::opt_view(o) == non_empty(unescape_cell(v@.subrange(r.0 as int, r.1 as int))),
{
    proof {
        lemma_unescape_empty(v@.subrange(r.0 as int, r.1 as int));
    }
    if r.0 == r.1 {
        None
    } else {
        Some(cell_text(v, r.0, r.1))
    }
}

fn columns_error(line: usize, n: usize) -> (e: Error)
    ensures
        e matches Error::Parse { line: l, message: m } && l == line && m@ == columns_message(
            n as nat,
        ),
{
    let mut m = String::new();
    push_str(&mut m, "expected 7 columns, found ");
    push_decimal(&mut m, n as u64);
    Error::Parse { line, message: m }
}

fn datetime_error(line: usize, field: &str, s: &String) -> (e: Error)
    ensures
        e matches Error::Parse { line: l, message: m } && l == line && m@ == datetime_message(
            field@,
            s@,
        ),
{
    let mut m = String::new();
    push_str(&mut m, "invalid ");
    push_str(&mut m, field);
    push_str(&mut m, " datetime: \"");
    push_str(&mut m, s.as_str());
    push_str(&mut m, "\"");
    Error::Parse { line, message: m }
}

pub open spec fn error_matches(e: Error, err: (int, Seq<char>)) -> bool {
    e matches Error::Parse { line, message } && line == err.0 && message@ == err.1
}

/// The entry of the data row at line `index` whose cells are `cells`.
fn parse_row(v: &Vec<char>, index: usize, cells: &Vec<(usize, usize)>) -> (r: Result<TimeEntry, Error>)
    requires
        index < usize::MAX,
        ranges_within(cells@, v@.len() as int),
    ensures
        match row_result(
            index as int,
            range_texts(v@, cells@).map_values(|c: Seq<char>| unescape_cell(c)),
        ) {
            Ok(e) => r matches Ok(t) && t@ == e && t.wf(),
            Err(err) => r matches Err(x) && error_matches(x, err),
        },
{
    let line = index + 1;
    if cells.len() != 7 {
        return Err(columns_error(line, cells.len()));
    }
    let start_text = cell_text(v, cells[0].0, cells[0].1);
    let start = match DateTime::parse(start_text.as_str()) {
        Some(d) => d,
        None => {
            return Err(datetime_error(line, "Start", &start_text));
        },
    };
    let end_text = cell_text(v, cells[1].0, cells[1].1);
    let end = match DateTime::parse(end_text.as_str()) {
        Some(d) => d,
        None => {
            return Err(datetime_error(line, "End", &end_text));
        },
    };
    proof {
        lemma_unescape_empty(v@.subrange(cells@[3].0 as int, cells@[3].1 as int));
    }
    if cells[3].0 == cells[3].1 {
        return Err(Error::Parse { line, message: String::from_str("Client is required") });
    }
    let description = cell_text(v, cells[2].0, cells[2].1);
    let client = cell_text(v, cells[3].0, cells[3].1);
    let project = non_empty_string(v, cells[4]);
    let activity = non_empty_string(v, cells[5]);
    let notes = non_empty_string(v, cells[6]);
    Ok(TimeEntry { start, end, description, client, project, activity, notes })
}

/// Parse a monthly markdown file into entries sorted by start time.
/// Empty content gives no entries.
pub fn parse_month_file(content: &str) -> (r: Result<Vec<TimeEntry>, Error>)
    ensures
        match parse_month(content@) {
            Ok(es) => r matches Ok(v) && entries_view(v@) == es,
            Err(err) => r matches Err(x) && error_matches(x, err),
        },
{
    let v = chars_of(content);
    let lines = line_ranges(&v);
    let ghost ls = lines_of(content@);
    if lines.len() == 0 {
        return Ok(Vec::new());
    }
    let mut h: usize = 0;
    let mut found = false;
    while h < lines.len()
        invariant_except_break
            h <= lines@.len(),
            !found,
            header_from(ls, 0) == header_from(ls, h as int),
        invariant
            ranges_within(lines@, v@.len() as int),
            range_texts(v@, lines@) == ls,
            v@ == content@,
        ensures
            found ==> h < lines@.len() && header_from(ls, 0) == Some(h as int),
            !found ==> header_from(ls, 0) is None,
        decreases lines@.len() - h,
    {
        assert(v@.subrange(lines@[h as int].0 as int, lines@[h as int].1 as int) == ls[h as int]);
        let (a, b) = trim_range(&v, lines[h].0, lines[h].1);
        let ghost t = v@.subrange(a as int, b as int);
        assert(t == trim(ls[h as int]));
        if a < b && v[a] == '|' {
            let ts = string_of_range(&v, a, b);
            let lower = to_lowercase(ts.as_str());
            let lc = chars_of(lower.as_str());
            let needle = chars_of("start");
            if contains_chars(&lc, &needle) {
                proof {
                    assert(is_header_line(ls[h as int]));
                }
                found = true;
                break;
            }
        }
        h = h + 1;
    }
    if !found {
        return Err(Error::Parse { line: 1, message: String::from_str("no table header found") });
    }
    assert(v@.subrange(lines@[h as int].0 as int, lines@[h as int].1 as int) == ls[h as int]);
    let header = row_cells(&v, lines[h].0, lines[h].1);
    assert(range_texts(v@, header@) == raw_cells(ls[h as int]));
    if header.len() != 7 {
        return Err(columns_error(h + 1, header.len()));
    }
    assert(split_row(ls[h as int]).len() == expected_columns());
    let mut entries: Vec<TimeEntry> = Vec::new();
    let mut i = h + 1;
    if i < lines.len() {
        i = i + 1;
    }
    let ghost first = (h + 2) as int;
    assert(rows_from(ls, first) == rows_from(ls, i as int));
    assert(entries_view(entries@) =~= Seq::<EntryView>::empty());
    assert(parse_month(content@) == match rows_from(ls, first) {
        Ok(es) => Ok(sort_by_start(es)),
        Err(e) => Err(e),
    });
    while i < lines.len()
        invariant
            ranges_within(lines@, v@.len() as int),
            range_texts(v@, lines@) == ls,
            v@ == content@,
            i <= lines@.len(),
            forall|k: int| 0 <= k < entries@.len() ==> (#[trigger] entries@[k]).wf(),
            parse_month(content@) == match rows_from(ls, first) {
                Ok(es) => Ok(sort_by_start(es)),
                Err(e) => Err::<Seq<EntryView>, (int, Seq<char>)>(e),
            },
            rows_from(ls, first) == match rows_from(ls, i as int) {
                Ok(rest) => Ok(entries_view(entries@) + rest),
                Err(e) => Err(e),
            },
        decreases lines@.len() - i,
    {
        assert(v@.subrange(lines@[i as int].0 as int, lines@[i as int].1 as int) == ls[i as int]);
        let (a, b) = trim_range(&v, lines[i].0, lines[i].1);
        let ghost t = v@.subrange(a as int, b as int);
        assert(t == trim(ls[i as int]));
        let ghost old_entries = entries_view(entries@);
        if a < b && v[a] == '|' {
            let cells = row_cells(&v, a, b);
            match parse_row(&v, i, &cells) {
                Ok(e) => {
                    entries.push(e);
                    proof {
                        assert(entries_view(entries@) =~= old_entries.push(e@));
                        match rows_from(ls, i + 1) {
                            Ok(rest) => {
                                assert(old_entries + (seq![e@] + rest) =~= entries_view(entries@)
                                    + rest);
                            },
                            Err(_) => {},
                        }
                    }
                },
                Err(x) => {
                    proof {
                        assert(range_texts(v@, cells@) == raw_cells(t));
                        assert(range_texts(v@, cells@).map_values(|c: Seq<char>| unescape_cell(c))
                            == split_row(t));
                        assert(rows_from(ls, i as int) is Err);
                        assert(parse_month(content@) == rows_from(ls, i as int));
                    }
                    return Err(x);
                },
            }
        } else {
            assert(!is_table_row(t));
        }
        i = i + 1;
    }
    assert(entries_view(entries@) + Seq::<EntryView>::empty() =~= entries_view(entries@));
    Ok(sort_entries(entries))
}

/// Index at which `x` goes into `t` so that it follows every entry that does not start later.
proof fn lemma_insert_by_start(t: Seq<EntryView>, x: EntryView, j: int)
    requires
        0 <= j <= t.len(),
        forall|k: int| j <= k < t.len() ==> t[k].start.stamp() > x.start.stamp(),
        j == 0 || t[j - 1].start.stamp() <= x.start.stamp(),
    ensures
        insert_by_start(t, x) == t.take(j).push(x) + t.skip(j),
    decreases t.len(),
{
    if t.len() == j {
        assert(t.take(j) =~= t);
        assert(t.skip(j) =~= Seq::<EntryView>::empty());
        assert(t.take(j).push(x) + t.skip(j) =~= t.push(x));
    } else {
        lemma_insert_by_start(t.drop_last(), x, j);
        assert(t.drop_last().take(j) =~= t.take(j));
        assert(t.drop_last().skip(j).push(t.last()) =~= t.skip(j));
        assert((t.take(j).push(x) + t.drop_last().skip(j)).push(t.last()) =~= t.take(j).push(x)
            + t.skip(j));
    }
}

/// Stable sort of entries by start time.
pub fn sort_entries(v: Vec<TimeEntry>) -> (r: Vec<TimeEntry>)
    requires
        forall|k: int| 0 <= k < v@.len() ==> (#[trigger] v@[k]).wf(),
    ensures
        entries_view(r@) == sort_by_start(entries_view(v@)),
        forall|k: int| 0 <= k < r@.len() ==> (#[trigger] r@[k]).wf(),
{
    let mut out: Vec<TimeEntry> = Vec::new();
    let ghost all = entries_view(v@);
    assert(all.take(0) =~= Seq::<EntryView>::empty());
    assert(entries_view(out@) =~= Seq::<EntryView>::empty());
    for i in 0..v.len()
        invariant
            all == entries_view(v@),
            forall|k: int| 0 <= k < v@.len() ==> (#[trigger] v@[k]).wf(),
            entries_view(out@) == sort_by_start(all.take(i as int)),
            forall|k: int| 0 <= k < out@.len() ==> (#[trigger] out@[k]).wf(),
    {
        let x = v[i].duplicate();
        let mut j = out.len();
        while j > 0 && x.start.before(&out[j - 1].start)
            invariant
                j <= out@.len(),
                x.wf(),
                forall|k: int| 0 <= k < out@.len() ==> (#[trigger] out@[k]).wf(),
                forall|k: int| j <= k < out@.len() ==> out@[k].start.stamp() > x.start.stamp(),
            decreases j,
        {
            j = j - 1;
        }
        let ghost t = entries_view(out@);
        proof {
            lemma_insert_by_start(t, x@, j as int);
            assert(all.take(i + 1).drop_last() =~= all.take(i as int));
            assert(all.take(i + 1).last() == x@);
        }
        out.insert(j, x);
        assert(entries_view(out@) =~= t.take(j as int).push(x@) + t.skip(j as int));
    }
    assert(all.take(v@.len() as int) =~= all);
    out
}

} // verus!
