//! What holds across the library's operations: sorting by start, writing and
//! reading back a monthly file, and adding entries without overlaps.
use vstd::prelude::*;

use crate::calendar::{civil_of, days_from_ce, valid_civil};
use crate::datetime::{
    canonical_date, canonical_date_day, canonical_datetime, clock_text, date_text, num2, num4,
    parsed_datetime, DateTime,
};
use crate::model::EntryView;
use crate::overlap::{lemma_overlap_list_members, overlap_list, ranges_overlap};
use crate::text::{digit, digit_value, four_digits, is_digit, two_digits};
use crate::parser::{insert_by_start, sort_by_start, sorted_by_start};
use crate::parser::{
    expected_columns, header_from, is_header_line, is_table_row, non_empty, parse_month, row_inner,
    row_result, rows_from, split_row, escaped_at, split_cells, unescape_cell, raw_cells,
};
use crate::serializer::{
    escape_pipe, month_file_text, opt_cell, row_text, rows_text, table_header, table_rule,
};
use crate::text::{ascii_lower, contains_at, is_ascii_text, lowercase, seq_contains};
use crate::text::{is_space, lines_of, split_on, strip_cr, trim, trim_end, trim_start};

verus! {

proof fn lemma_insert_sorted(t: Seq<EntryView>, x: EntryView)
    requires
        sorted_by_start(t),
    ensures
        sorted_by_start(insert_by_start(t, x)),
        insert_by_start(t, x).len() == t.len() + 1,
        forall|y: EntryView|
            #![trigger insert_by_start(t, x).contains(y)]
            insert_by_start(t, x).contains(y) <==> (t.contains(y) || y == x),
        insert_by_start(t, x).to_multiset() == t.to_multiset().insert(x),
    decreases t.len(),
{
    let r = insert_by_start(t, x);
    if t.len() == 0 || t.last().start.stamp() <= x.start.stamp() {
        assert forall|y: EntryView| r.contains(y) <==> (t.contains(y) || y == x) by {
            if t.contains(y) {
                let i = choose|i: int| 0 <= i < t.len() && t[i] == y;
                assert(r[i] == y);
            }
            if y == x {
                assert(r[t.len() as int] == y);
            }
        }
        vstd::seq_lib::to_multiset_build(t, x);
    } else {
        let init = t.drop_last();
        assert forall|i: int, j: int| 0 <= i <= j < init.len() implies init[i].start.stamp()
            <= init[j].start.stamp() by {
            assert(init[i] == t[i] && init[j] == t[j]);
        }
        lemma_insert_sorted(init, x);
        let m = insert_by_start(init, x);
        assert forall|i: int, j: int| 0 <= i <= j < r.len() implies r[i].start.stamp()
            <= r[j].start.stamp() by {
            if j == r.len() - 1 {
                if i < j {
                    assert(m.contains(r[i]));
                    if init.contains(r[i]) {
                        let k = choose|k: int| 0 <= k < init.len() && init[k] == r[i];
                        assert(t[k] == r[i]);
                    }
                }
            } else {
                assert(r[i] == m[i] && r[j] == m[j]);
            }
        }
        assert forall|y: EntryView| r.contains(y) implies (t.contains(y) || y == x) by {
            let i = choose|i: int| 0 <= i < r.len() && r[i] == y;
            if i < m.len() {
                assert(m[i] == y);
                assert(m.contains(y));
                if init.contains(y) {
                    let k = choose|k: int| 0 <= k < init.len() && init[k] == y;
                    assert(t[k] == y);
                }
            } else {
                assert(t[t.len() - 1] == y);
            }
        }
        assert forall|y: EntryView| (t.contains(y) || y == x) implies r.contains(y) by {
            if y == x {
                assert(m.contains(x));
                let k = choose|k: int| 0 <= k < m.len() && m[k] == x;
                assert(r[k] == x);
            } else {
                let i = choose|i: int| 0 <= i < t.len() && t[i] == y;
                if i < init.len() {
                    assert(init[i] == y);
                    assert(init.contains(y));
                    assert(m.contains(y));
                    let k = choose|k: int| 0 <= k < m.len() && m[k] == y;
                    assert(r[k] == y);
                } else {
                    assert(r[r.len() - 1] == y);
                }
            }
        }
        assert(t =~= init.push(t.last()));
        vstd::seq_lib::to_multiset_build(m, t.last());
        vstd::seq_lib::to_multiset_build(init, t.last());
        broadcast use vstd::multiset::group_multiset_axioms;
        assert(r.to_multiset() =~= t.to_multiset().insert(x));
    }
}

/// Sorting by start gives a sequence sorted by start, with the same entries
/// (counted with their repetitions).
pub proof fn lemma_sort_by_start(s: Seq<EntryView>)
    ensures
        sorted_by_start(sort_by_start(s)),
        sort_by_start(s).len() == s.len(),
        sort_by_start(s).to_multiset() == s.to_multiset(),
        forall|y: EntryView|
            #![trigger sort_by_start(s).contains(y)]
            sort_by_start(s).contains(y) <==> s.contains(y),
    decreases s.len(),
{
    if s.len() > 0 {
        let init = s.drop_last();
        lemma_sort_by_start(init);
        lemma_insert_sorted(sort_by_start(init), s.last());
        assert(s =~= init.push(s.last()));
        vstd::seq_lib::to_multiset_build(init, s.last());
        assert forall|y: EntryView| sort_by_start(s).contains(y) <==> s.contains(y) by {
            if s.contains(y) {
                let i = choose|i: int| 0 <= i < s.len() && s[i] == y;
                if i < init.len() {
                    assert(init[i] == y);
                }
            }
            if init.contains(y) {
                let i = choose|i: int| 0 <= i < init.len() && init[i] == y;
                assert(s[i] == y);
            }
        }
    }
}

/// Sorting what is already sorted by start changes nothing.
pub proof fn lemma_sort_sorted_is_identity(s: Seq<EntryView>)
    requires
        sorted_by_start(s),
    ensures
        sort_by_start(s) == s,
    decreases s.len(),
{
    if s.len() > 0 {
        let init = s.drop_last();
        assert forall|i: int, j: int| 0 <= i <= j < init.len() implies init[i].start.stamp()
            <= init[j].start.stamp() by {
            assert(init[i] == s[i] && init[j] == s[j]);
        }
        lemma_sort_sorted_is_identity(init);
        if init.len() > 0 {
            assert(init.last() == s[s.len() - 2]);
        }
        assert(s =~= init.push(s.last()));
    }
}

/// Sorting twice by start is sorting once.
pub proof fn lemma_sort_idempotent(s: Seq<EntryView>)
    ensures
        sort_by_start(sort_by_start(s)) == sort_by_start(s),
{
    lemma_sort_by_start(s);
    lemma_sort_sorted_is_identity(sort_by_start(s));
}

// ---------------------------------------------------------------------------
// Splitting text into lines.

proof fn lemma_split_len(s: Seq<char>, c: char)
    ensures
        split_on(s, c).len() >= 1,
    decreases s.len(),
{
    if s.len() > 0 {
        lemma_split_len(s.drop_last(), c);
    }
}

/// Text without the separator extends the last piece.
proof fn lemma_split_append(p: Seq<char>, q: Seq<char>, c: char)
    requires
        !q.contains(c),
    ensures
        split_on(p + q, c) == split_on(p, c).update(
            split_on(p, c).len() - 1,
            split_on(p, c).last() + q,
        ),
    decreases q.len(),
{
    lemma_split_len(p, c);
    if q.len() == 0 {
        assert(p + q =~= p);
        assert(split_on(p, c).last() + q =~= split_on(p, c).last());
        assert(split_on(p, c).update(split_on(p, c).len() - 1, split_on(p, c).last()) =~= split_on(p, c));
    } else {
        let q0 = q.drop_last();
        assert forall|i: int| 0 <= i < q0.len() implies q0[i] != c by {
            assert(q0[i] == q[i]);
        }
        lemma_split_append(p, q0, c);
        assert((p + q).drop_last() =~= p + q0);
        assert((p + q).last() == q.last());
        assert(q[q.len() - 1] != c);
        lemma_split_len(p + q0, c);
        let sp = split_on(p, c);
        let rest = split_on(p + q0, c);
        assert(rest.len() == sp.len());
        assert(rest.last() == sp.last() + q0);
        assert(split_on(p + q, c) == rest.update(rest.len() - 1, rest.last().push(q.last())));
        assert((sp.last() + q0).push(q.last()) =~= sp.last() + q);
        assert(split_on(p + q, c) =~= split_on(p, c).update(
            split_on(p, c).len() - 1,
            split_on(p, c).last() + q,
        ));
    }
}

/// Lines, each ended by a newline.
pub open spec fn lines_text(ls: Seq<Seq<char>>) -> Seq<char>
    decreases ls.len(),
{
    if ls.len() == 0 {
        Seq::empty()
    } else {
        lines_text(ls.drop_last()) + ls.last() + seq!['\n']
    }
}

/// A line that `str::lines` gives back unchanged: no newline inside and no
/// carriage return at its end.
pub open spec fn plain_line(l: Seq<char>) -> bool {
    !l.contains('\n') && (l.len() > 0 ==> l.last() != '\r')
}

proof fn lemma_split_lines_text(ls: Seq<Seq<char>>)
    requires
        forall|i: int| 0 <= i < ls.len() ==> plain_line(#[trigger] ls[i]),
    ensures
        split_on(lines_text(ls), '\n') == ls.push(Seq::<char>::empty()),
    decreases ls.len(),
{
    if ls.len() == 0 {
        assert(split_on(Seq::<char>::empty(), '\n') =~= seq![Seq::<char>::empty()]);
    } else {
        let init = ls.drop_last();
        assert forall|i: int| 0 <= i < init.len() implies plain_line(#[trigger] init[i]) by {
            assert(init[i] == ls[i]);
        }
        lemma_split_lines_text(init);
        let x = lines_text(init);
        assert(plain_line(ls[ls.len() - 1]));
        lemma_split_append(x, ls.last(), '\n');
        let y = x + ls.last();
        assert(lines_text(ls) =~= y.push('\n'));
        assert(y.push('\n').drop_last() =~= y);
        assert(Seq::<char>::empty() + ls.last() =~= ls.last());
        assert(split_on(lines_text(ls), '\n') =~= ls.push(Seq::<char>::empty()));
    }
}

/// Reading the lines of newline-ended plain lines gives them back.
pub proof fn lemma_lines_of_lines_text(ls: Seq<Seq<char>>)
    requires
        ls.len() > 0,
        forall|i: int| 0 <= i < ls.len() ==> plain_line(#[trigger] ls[i]),
    ensures
        lines_of(lines_text(ls)) == ls,
{
    lemma_split_lines_text(ls);
    let s = lines_text(ls);
    assert(s == lines_text(ls.drop_last()) + ls.last() + seq!['\n']);
    assert(s.len() > 0 && s.last() == '\n');
    let p = split_on(s, '\n');
    assert(p.drop_last() =~= ls);
    assert forall|i: int| 0 <= i < ls.len() implies strip_cr(#[trigger] ls[i]) == ls[i] by {
        assert(plain_line(ls[i]));
    }
    assert(p.drop_last().map_values(|l: Seq<char>| strip_cr(l)) =~= ls);
}

// ---------------------------------------------------------------------------
// The lines of a monthly file.

pub open spec fn header_line() -> Seq<char> {
    "| Start | End | Description | Client | Project | Activity | Notes |"@
}

pub open spec fn rule_line() -> Seq<char> {
    "|-------|-----|-------------|--------|---------|----------|-------|"@
}

/// A table row without its line ending.
#[verifier::opaque]
pub open spec fn row_line(e: EntryView) -> Seq<char> {
    "| "@ + e.start.text() + " | "@ + e.end.text() + " | "@ + escape_pipe(e.description) + " | "@
        + escape_pipe(e.client) + " | "@ + opt_cell(e.project) + " | "@ + opt_cell(e.activity)
        + " | "@ + opt_cell(e.notes) + " |"@
}

/// The lines of a monthly file: heading, blank line, table head, rule, rows.
pub open spec fn file_lines(key: Seq<char>, rows: Seq<EntryView>) -> Seq<Seq<char>> {
    seq!["# "@ + key, Seq::<char>::empty(), header_line(), rule_line()] + rows.map_values(
        |e: EntryView| row_line(e),
    )
}

proof fn lemma_row_text_line(e: EntryView)
    ensures
        row_text(e) == row_line(e) + seq!['\n'],
{
    reveal(row_line);
    reveal_strlit(" |\n");
    reveal_strlit(" |");
    assert(row_text(e) =~= row_line(e) + seq!['\n']);
}

proof fn lemma_lines_text_rows(pre: Seq<Seq<char>>, rows: Seq<EntryView>)
    ensures
        lines_text(pre + rows.map_values(|e: EntryView| row_line(e))) == lines_text(pre) + rows_text(
            rows,
        ),
    decreases rows.len(),
{
    let all = pre + rows.map_values(|e: EntryView| row_line(e));
    if rows.len() == 0 {
        assert(all =~= pre);
        assert(lines_text(pre) + Seq::<char>::empty() =~= lines_text(pre));
    } else {
        let init = rows.drop_last();
        lemma_lines_text_rows(pre, init);
        assert(all.drop_last() =~= pre + init.map_values(|e: EntryView| row_line(e)));
        assert(all.last() == row_line(rows.last()));
        lemma_row_text_line(rows.last());
        assert(lines_text(all) =~= lines_text(pre) + rows_text(rows));
    }
}

/// A monthly file is the newline-ended lines of `file_lines`, rows by start.
pub proof fn lemma_file_text_lines(key: Seq<char>, es: Seq<EntryView>)
    ensures
        month_file_text(key, es) == lines_text(file_lines(key, sort_by_start(es))),
{
    let pre = seq!["# "@ + key, Seq::<char>::empty(), header_line(), rule_line()];
    lemma_lines_text_rows(pre, sort_by_start(es));
    reveal_strlit("\n\n");
    reveal_strlit("| Start | End | Description | Client | Project | Activity | Notes |\n");
    reveal_strlit("| Start | End | Description | Client | Project | Activity | Notes |");
    reveal_strlit("|-------|-----|-------------|--------|---------|----------|-------|\n");
    reveal_strlit("|-------|-----|-------------|--------|---------|----------|-------|");
    assert(table_header() =~= header_line() + seq!['\n']);
    assert(table_rule() =~= rule_line() + seq!['\n']);
    let p1 = seq!["# "@ + key];
    let p2 = seq!["# "@ + key, Seq::<char>::empty()];
    let p3 = seq!["# "@ + key, Seq::<char>::empty(), header_line()];
    assert(p1.drop_last() =~= Seq::<Seq<char>>::empty());
    assert(p2.drop_last() =~= p1);
    assert(p3.drop_last() =~= p2);
    assert(pre.drop_last() =~= p3);
    assert(lines_text(Seq::<Seq<char>>::empty()) == Seq::<char>::empty());
    assert(lines_text(p1) =~= "# "@ + key + seq!['\n']);
    assert(lines_text(p2) =~= "# "@ + key + seq!['\n'] + Seq::<char>::empty() + seq!['\n']);
    assert(lines_text(p3) == lines_text(p2) + header_line() + seq!['\n']);
    assert(lines_text(pre) == lines_text(p3) + rule_line() + seq!['\n']);
    assert("\n\n"@ =~= seq!['\n', '\n']);
    assert(lines_text(pre) =~= "# "@ + key + "\n\n"@ + table_header() + table_rule());
}

// ---------------------------------------------------------------------------
// Date-times written and read back.

/// The date-time's date is a calendar date with a year of four digits (0 to 9999).
pub open spec fn four_digit_year(dt: DateTime) -> bool {
    let c = civil_of(dt.day as int);
    &&& valid_civil(c.0, c.1, c.2)
    &&& days_from_ce(c.0, c.1, c.2) == dt.day
    &&& 0 <= c.0 <= 9999
}

proof fn lemma_digit(n: int)
    requires
        0 <= n <= 9,
    ensures
        is_digit(digit(n)),
        digit_value(digit(n)) == n,
{
    assert(digit(n) as int == 48 + n);
}

proof fn lemma_two_digits(n: int)
    requires
        0 <= n <= 99,
    ensures
        two_digits(n).len() == 2,
        is_digit(two_digits(n)[0]) && is_digit(two_digits(n)[1]),
        10 * digit_value(two_digits(n)[0]) + digit_value(two_digits(n)[1]) == n,
{
    lemma_digit(n / 10);
    lemma_digit(n % 10);
}

proof fn lemma_four_digits(n: int)
    requires
        0 <= n <= 9999,
    ensures
        four_digits(n).len() == 4,
        forall|k: int| 0 <= k < 4 ==> is_digit(#[trigger] four_digits(n)[k]),
        1000 * digit_value(four_digits(n)[0]) + 100 * digit_value(four_digits(n)[1]) + 10
            * digit_value(four_digits(n)[2]) + digit_value(four_digits(n)[3]) == n,
{
    lemma_digit(n / 1000);
    lemma_digit((n / 100) % 10);
    lemma_digit((n / 10) % 10);
    lemma_digit(n % 10);
}

/// A date-time with a four-digit year is written in the canonical form and read
/// back as itself.
pub proof fn lemma_datetime_text_parses_back(dt: DateTime)
    requires
        dt.wf(),
        four_digit_year(dt),
    ensures
        canonical_datetime(dt.text()),
        parsed_datetime(dt.text()) == Some(dt),
{
    let c = civil_of(dt.day as int);
    let t = dt.text();
    lemma_four_digits(c.0);
    lemma_two_digits(c.1);
    lemma_two_digits(c.2);
    lemma_two_digits(dt.minute as int / 60);
    lemma_two_digits(dt.minute as int % 60);
    assert(crate::datetime::year_text(c.0) == four_digits(c.0));
    let d = date_text(c);
    assert(d =~= four_digits(c.0) + seq!['-'] + two_digits(c.1) + seq!['-'] + two_digits(c.2));
    assert(t.take(10) =~= d);
    assert(canonical_date(d)) by {
        assert(d[4] == '-' && d[7] == '-');
        assert(num4(d, 0) == c.0);
        assert(num2(d, 5) == c.1);
        assert(num2(d, 8) == c.2);
    }
    assert(canonical_date_day(d) == dt.day);
    let k = clock_text(dt.minute as int);
    assert(t =~= d + seq![' '] + k);
    assert(t[10] == ' ' && t[13] == ':');
    assert(num2(t, 11) == dt.minute as int / 60);
    assert(num2(t, 14) == dt.minute as int % 60);
}

// ---------------------------------------------------------------------------
// Cells of a table row.

/// Text with no whitespace at either end.
pub open spec fn tight(x: Seq<char>) -> bool {
    x.len() > 0 ==> !is_space(x[0]) && !is_space(x.last())
}

/// Text that a table cell holds and gives back: no line break and no
/// whitespace at either end (pipes are written escaped).
pub open spec fn clean_cell(x: Seq<char>) -> bool {
    !x.contains('\n') && tight(x)
}

/// Every pipe of the text is escaped by a backslash.
pub open spec fn pipes_escaped(x: Seq<char>) -> bool {
    forall|k: int| 0 <= k < x.len() && x[k] == '|' ==> #[trigger] escaped_at(x, k)
}

/// Text as written in a cell: pipes escaped, no line break, no whitespace at
/// either end.
pub open spec fn written_cell(x: Seq<char>) -> bool {
    pipes_escaped(x) && !x.contains('\n') && tight(x)
}

proof fn lemma_trim_tight(x: Seq<char>)
    requires
        tight(x),
    ensures
        trim(x) == x,
{
    if x.len() > 0 {
        assert(trim_start(x) == x);
        assert(trim_end(x) == x);
    }
}

/// A cell written with one space on each side reads back as its text.
proof fn lemma_trim_padded(x: Seq<char>)
    requires
        tight(x),
    ensures
        trim(seq![' '] + x + seq![' ']) == x,
{
    let p = seq![' '] + x + seq![' '];
    assert(is_space(' '));
    assert(p.skip(1) =~= x + seq![' ']);
    assert(trim_start(p) == trim_start(x + seq![' ']));
    if x.len() > 0 {
        assert((x + seq![' '])[0] == x[0]);
        assert(trim_start(x + seq![' ']) == x + seq![' ']);
        assert((x + seq![' ']).drop_last() =~= x);
        assert(trim_end(x + seq![' ']) == trim_end(x));
        assert(trim_end(x) == x);
    } else {
        assert(x + seq![' '] =~= seq![' ']);
        assert(seq![' '].skip(1) =~= Seq::<char>::empty());
        assert(trim_start(seq![' ']) == trim_start(Seq::<char>::empty()));
    }
}

/// Text starting with a non-space character keeps it first when trimmed.
proof fn lemma_trim_first(x: Seq<char>)
    requires
        x.len() > 0,
        !is_space(x[0]),
    ensures
        trim(x).len() > 0,
        trim(x)[0] == x[0],
    decreases x.len(),
{
    assert(trim_start(x) == x);
    lemma_trim_end_keeps_first(x);
}

proof fn lemma_trim_end_keeps_first(x: Seq<char>)
    requires
        x.len() > 0,
        !is_space(x[0]),
    ensures
        trim_end(x).len() > 0,
        trim_end(x)[0] == x[0],
    decreases x.len(),
{
    if is_space(x.last()) {
        assert(x.len() > 1);
        assert(x.drop_last()[0] == x[0]);
        lemma_trim_end_keeps_first(x.drop_last());
    }
}

/// Text without pipes reads back unchanged from a cell.
proof fn lemma_unescape_plain(x: Seq<char>)
    requires
        !x.contains('|'),
    ensures
        unescape_cell(x) == x,
    decreases x.len(),
{
    if x.len() > 0 {
        let init = x.drop_last();
        assert forall|i: int| 0 <= i < init.len() implies init[i] != '|' by {
            assert(init[i] == x[i]);
        }
        lemma_unescape_plain(init);
        assert(x[x.len() - 1] != '|');
        assert(init.push(x.last()) =~= x);
    }
}

/// Escaped text: its pipes escaped, no line break added, empty only when the
/// text is, first character a backslash or the text's, last character the
/// text's, and read back as the text.
proof fn lemma_escape(x: Seq<char>)
    ensures
        pipes_escaped(escape_pipe(x)),
        x.contains('\n') == escape_pipe(x).contains('\n'),
        unescape_cell(escape_pipe(x)) == x,
        escape_pipe(x).len() == 0 <==> x.len() == 0,
        x.len() > 0 ==> escape_pipe(x).last() == x.last() && (escape_pipe(x)[0] == x[0]
            || escape_pipe(x)[0] == '\\'),
    decreases x.len(),
{
    if x.len() > 0 {
        let init = x.drop_last();
        lemma_escape(init);
        let ei = escape_pipe(init);
        let ex = escape_pipe(x);
        if x.last() == '|' {
            assert(ex == ei + seq!['\\', '|']);
            assert(escaped_at(ex, ex.len() - 1));
            assert(ex.drop_last().drop_last() =~= ei);
            assert forall|k: int| 0 <= k < ex.len() && ex[k] == '|' implies #[trigger] escaped_at(ex, k) by {
                if k < ei.len() {
                    assert(ex[k] == ei[k]);
                    assert(escaped_at(ei, k));
                    assert(ex[k - 1] == ei[k - 1]);
                }
            }
            assert forall|k: int| 0 <= k < ex.len() implies ex[k] != '\n' || (0 <= k < ei.len() && ei[k] == '\n') by {
                if k < ei.len() {
                    assert(ex[k] == ei[k]);
                }
            }
            if ei.len() > 0 {
                assert(ex[0] == ei[0]);
                assert(init[0] == x[0]);
            }
            assert(ei.contains('\n') ==> ex.contains('\n')) by {
                if ei.contains('\n') {
                    let k = choose|k: int| 0 <= k < ei.len() && ei[k] == '\n';
                    assert(ex[k] == ei[k]);
                }
            }
            assert(init.contains('\n') == x.contains('\n')) by {
                if x.contains('\n') {
                    let k = choose|k: int| 0 <= k < x.len() && x[k] == '\n';
                    assert(k < init.len() && init[k] == x[k]);
                }
                if init.contains('\n') {
                    let k = choose|k: int| 0 <= k < init.len() && init[k] == '\n';
                    assert(x[k] == init[k]);
                }
            }
            assert(init.push('|') =~= x);
        } else {
            assert(ex == ei.push(x.last()));
            assert(!escaped_at(ex, ex.len() - 1));
            assert(ex.drop_last() =~= ei);
            assert forall|k: int| 0 <= k < ex.len() && ex[k] == '|' implies #[trigger] escaped_at(ex, k) by {
                if k < ei.len() {
                    assert(ex[k] == ei[k]);
                    assert(escaped_at(ei, k));
                    assert(ex[k - 1] == ei[k - 1]);
                }
            }
            if ei.len() > 0 {
                assert(ex[0] == ei[0]);
                assert(init[0] == x[0]);
            }
            assert(ei.contains('\n') ==> ex.contains('\n')) by {
                if ei.contains('\n') {
                    let k = choose|k: int| 0 <= k < ei.len() && ei[k] == '\n';
                    assert(ex[k] == ei[k]);
                }
            }
            assert(ex.contains('\n') ==> ei.contains('\n') || x.last() == '\n') by {
                if ex.contains('\n') {
                    let k = choose|k: int| 0 <= k < ex.len() && ex[k] == '\n';
                    if k < ei.len() {
                        assert(ei[k] == ex[k]);
                    }
                }
            }
            assert(init.contains('\n') ==> x.contains('\n')) by {
                if init.contains('\n') {
                    let k = choose|k: int| 0 <= k < init.len() && init[k] == '\n';
                    assert(x[k] == init[k]);
                }
            }
            assert(x.contains('\n') ==> init.contains('\n') || x.last() == '\n') by {
                if x.contains('\n') {
                    let k = choose|k: int| 0 <= k < x.len() && x[k] == '\n';
                    if k < init.len() {
                        assert(init[k] == x[k]);
                    }
                }
            }
            assert(x.last() == '\n' ==> ex.contains('\n')) by {
                if x.last() == '\n' {
                    assert(ex[ex.len() - 1] == '\n');
                }
            }
            assert(x.last() == '\n' ==> x.contains('\n')) by {
                if x.last() == '\n' {
                    assert(x[x.len() - 1] == '\n');
                }
            }
            assert(init.push(x.last()) =~= x);
        }
    }
}

/// A tight text escaped stays tight.
proof fn lemma_escape_tight(x: Seq<char>)
    requires
        tight(x),
    ensures
        tight(escape_pipe(x)),
{
    lemma_escape(x);
    assert(!is_space('\\'));
}

/// Cells joined with pipes between them.
pub open spec fn join_cells(cells: Seq<Seq<char>>) -> Seq<char>
    decreases cells.len(),
{
    if cells.len() == 0 {
        Seq::empty()
    } else if cells.len() == 1 {
        cells[0]
    } else {
        join_cells(cells.drop_last()).push('|') + cells.last()
    }
}

proof fn lemma_cells_len(s: Seq<char>)
    ensures
        split_cells(s).len() >= 1,
    decreases s.len(),
{
    if s.len() > 0 {
        lemma_cells_len(s.drop_last());
    }
}

/// Text whose pipes are all escaped extends the last cell.
proof fn lemma_cells_append(p: Seq<char>, q: Seq<char>)
    requires
        pipes_escaped(q),
    ensures
        split_cells(p + q) == split_cells(p).update(
            split_cells(p).len() - 1,
            split_cells(p).last() + q,
        ),
    decreases q.len(),
{
    lemma_cells_len(p);
    if q.len() == 0 {
        assert(p + q =~= p);
        assert(split_cells(p).last() + q =~= split_cells(p).last());
        assert(split_cells(p).update(split_cells(p).len() - 1, split_cells(p).last()) =~= split_cells(p));
    } else {
        let q0 = q.drop_last();
        assert forall|k: int| 0 <= k < q0.len() && q0[k] == '|' implies #[trigger] escaped_at(q0, k) by {
            assert(q0[k] == q[k]);
            assert(escaped_at(q, k));
            assert(q0[k - 1] == q[k - 1]);
        }
        lemma_cells_append(p, q0);
        let pq = p + q;
        assert(pq.drop_last() =~= p + q0);
        assert(pq.last() == q.last());
        if q.last() == '|' {
            assert(escaped_at(q, q.len() - 1));
            assert(pq[pq.len() - 2] == q[q.len() - 2]);
            assert(escaped_at(pq, pq.len() - 1));
        }
        lemma_cells_len(p + q0);
        let sp = split_cells(p);
        let rest = split_cells(p + q0);
        assert(split_cells(pq) == rest.update(rest.len() - 1, rest.last().push(q.last())));
        assert((sp.last() + q0).push(q.last()) =~= sp.last() + q);
        assert(split_cells(pq) =~= sp.update(sp.len() - 1, sp.last() + q));
    }
}

/// A pipe not after a backslash, then text whose pipes are escaped, starts a
/// new last cell.
proof fn lemma_cells_piece(p: Seq<char>, q: Seq<char>)
    requires
        pipes_escaped(q),
        p.len() == 0 || p.last() != '\\',
    ensures
        split_cells(p.push('|') + q) == split_cells(p).push(q),
{
    lemma_cells_append(p.push('|'), q);
    let pp = p.push('|');
    assert(pp.drop_last() =~= p);
    assert(!escaped_at(pp, pp.len() - 1));
    lemma_cells_len(p);
    assert(split_cells(pp) == split_cells(p).push(Seq::<char>::empty()));
    assert(Seq::<char>::empty() + q =~= q);
    assert(split_cells(p).push(Seq::<char>::empty()).update(split_cells(p).len() as int, q) =~= split_cells(p).push(q));
}

/// Cells that do not end with a backslash, with their pipes escaped, are split
/// back out of their joined text.
proof fn lemma_split_join_cells(cells: Seq<Seq<char>>)
    requires
        cells.len() >= 1,
        forall|i: int| 0 <= i < cells.len() ==> pipes_escaped(#[trigger] cells[i]),
        forall|i: int| 0 <= i < cells.len() ==> (#[trigger] cells[i]).len() > 0 && cells[i].last() != '\\',
    ensures
        split_cells(join_cells(cells)) == cells,
        join_cells(cells).len() > 0 && join_cells(cells).last() == cells.last().last(),
    decreases cells.len(),
{
    if cells.len() == 1 {
        lemma_cells_append(Seq::<char>::empty(), cells[0]);
        assert(Seq::<char>::empty() + cells[0] =~= cells[0]);
        assert(split_cells(Seq::<char>::empty()) =~= seq![Seq::<char>::empty()]);
        assert(seq![Seq::<char>::empty()].update(0, Seq::<char>::empty() + cells[0]) =~= cells);
    } else {
        let init = cells.drop_last();
        assert forall|i: int| 0 <= i < init.len() implies pipes_escaped(#[trigger] init[i]) by {
            assert(init[i] == cells[i]);
        }
        assert forall|i: int| 0 <= i < init.len() implies (#[trigger] init[i]).len() > 0 && init[i].last() != '\\' by {
            assert(init[i] == cells[i]);
        }
        lemma_split_join_cells(init);
        assert(pipes_escaped(cells[cells.len() - 1]));
        assert(cells[cells.len() - 1].len() > 0);
        lemma_cells_piece(join_cells(init), cells.last());
        assert(init.push(cells.last()) =~= cells);
        let j = join_cells(init).push('|') + cells.last();
        assert(j.last() == cells.last().last());
    }
}

proof fn lemma_join_cells_no(cells: Seq<Seq<char>>, c: char)
    requires
        c != '|',
        forall|i: int| 0 <= i < cells.len() ==> !(#[trigger] cells[i]).contains(c),
    ensures
        !join_cells(cells).contains(c),
    decreases cells.len(),
{
    if cells.len() == 1 {
        assert(!cells[0].contains(c));
    } else if cells.len() > 1 {
        let init = cells.drop_last();
        assert forall|i: int| 0 <= i < init.len() implies !(#[trigger] init[i]).contains(c) by {
            assert(init[i] == cells[i]);
        }
        lemma_join_cells_no(init, c);
        let j = join_cells(init).push('|');
        assert(!cells[cells.len() - 1].contains(c));
        assert forall|k: int| 0 <= k < (j + cells.last()).len() implies (j + cells.last())[k] != c by {
            if k < j.len() {
                if k < join_cells(init).len() {
                    assert(j[k] == join_cells(init)[k]);
                }
            } else {
                assert((j + cells.last())[k] == cells.last()[k - j.len()]);
            }
        }
    }
}

/// A date-time's text is a clean cell of sixteen characters.
proof fn lemma_datetime_text_clean(dt: DateTime)
    requires
        dt.wf(),
        four_digit_year(dt),
    ensures
        clean_cell(dt.text()),
        !dt.text().contains('|'),
        dt.text().len() == 16,
{
    lemma_datetime_text_parses_back(dt);
    let t = dt.text();
    assert forall|k: int| 0 <= k < t.len() implies t[k] != '|' && t[k] != '\n' && !is_space(
        t[k],
    ) || t[k] == ' ' by {
        if k < 4 || (5 <= k < 7) || (8 <= k < 10) || (11 <= k < 13) || (14 <= k < 16) {
            assert(is_digit(t[k]));
        }
    }
    assert(is_digit(t[0]) && is_digit(t[15]));
}

/// The header row is found, reads as a header, and has seven columns.
proof fn lemma_header_line()
    ensures
        trim(header_line()) == header_line(),
        is_header_line(header_line()),
        split_row(header_line()).len() == expected_columns(),
        plain_line(header_line()),
        plain_line(rule_line()),
{
    reveal_strlit("| Start | End | Description | Client | Project | Activity | Notes |");
    reveal_strlit("|-------|-----|-------------|--------|---------|----------|-------|");
    reveal_strlit("start");
    let h = header_line();
    lemma_trim_tight(h);
    assert(is_ascii_text(h));
    assert(lowercase(h) == ascii_lower(h));
    assert(ascii_lower(h).subrange(2, 7) =~= "start"@);
    assert(contains_at(lowercase(h), "start"@, 2));
    let cells = seq![
        " Start "@,
        " End "@,
        " Description "@,
        " Client "@,
        " Project "@,
        " Activity "@,
        " Notes "@,
    ];
    reveal_strlit(" Start ");
    reveal_strlit(" End ");
    reveal_strlit(" Description ");
    reveal_strlit(" Client ");
    reveal_strlit(" Project ");
    reveal_strlit(" Activity ");
    reveal_strlit(" Notes ");
    reveal_with_fuel(join_cells, 8);
    assert(row_inner(h) =~= join_cells(cells));
    assert forall|i: int| 0 <= i < cells.len() implies pipes_escaped(#[trigger] cells[i]) by {
        assert(!cells[i].contains('|'));
    }
    assert forall|i: int| 0 <= i < cells.len() implies (#[trigger] cells[i]).len() > 0
        && cells[i].last() != '\\' by {}
    lemma_split_join_cells(cells);
    assert(!h.contains('\n'));
    assert(!rule_line().contains('\n'));
}

/// An optional cell that reads back: absent, or clean non-empty text.
pub open spec fn clean_opt(o: Option<Seq<char>>) -> bool {
    match o {
        Some(x) => x.len() > 0 && clean_cell(x),
        None => true,
    }
}

/// An entry that a monthly file holds and gives back exactly.
pub open spec fn storable(e: EntryView) -> bool {
    &&& e.wf()
    &&& four_digit_year(e.start)
    &&& four_digit_year(e.end)
    &&& clean_cell(e.description)
    &&& clean_cell(e.client)
    &&& e.client.len() > 0
    &&& clean_opt(e.project)
    &&& clean_opt(e.activity)
    &&& clean_opt(e.notes)
}

pub open spec fn padded(x: Seq<char>) -> Seq<char> {
    seq![' '] + x + seq![' ']
}

pub open spec fn or_blank(o: Option<Seq<char>>) -> Seq<char> {
    match o {
        Some(x) => x,
        None => Seq::empty(),
    }
}

/// The texts of an entry's cells.
pub open spec fn cell_texts(e: EntryView) -> Seq<Seq<char>> {
    seq![
        e.start.text(),
        e.end.text(),
        e.description,
        e.client,
        or_blank(e.project),
        or_blank(e.activity),
        or_blank(e.notes),
    ]
}

/// An entry's cells as written: its texts with their pipes escaped.
pub open spec fn written_texts(e: EntryView) -> Seq<Seq<char>> {
    seq![
        e.start.text(),
        e.end.text(),
        escape_pipe(e.description),
        escape_pipe(e.client),
        opt_cell(e.project),
        opt_cell(e.activity),
        opt_cell(e.notes),
    ]
}

/// A clean text, escaped, is written as a cell and reads back as the text.
proof fn lemma_clean_written(x: Seq<char>)
    requires
        clean_cell(x),
    ensures
        written_cell(escape_pipe(x)),
        unescape_cell(escape_pipe(x)) == x,
        escape_pipe(x).len() == 0 <==> x.len() == 0,
{
    lemma_escape(x);
    lemma_escape_tight(x);
}

proof fn lemma_opt_cell(o: Option<Seq<char>>)
    requires
        clean_opt(o),
    ensures
        written_cell(opt_cell(o)),
        unescape_cell(opt_cell(o)) == or_blank(o),
        non_empty(or_blank(o)) == o,
{
    match o {
        Some(x) => lemma_clean_written(x),
        None => {},
    }
}

/// The padded cells of an entry's row.
pub open spec fn padded_cells(e: EntryView) -> Seq<Seq<char>> {
    padded_all(written_texts(e))
}

pub open spec fn padded_all(texts: Seq<Seq<char>>) -> Seq<Seq<char>> {
    texts.map_values(|x: Seq<char>| padded(x))
}

/// The written cells of a stored entry are well formed and read back as its
/// texts.
proof fn lemma_written_texts(e: EntryView)
    requires
        storable(e),
    ensures
        forall|k: int| 0 <= k < 7 ==> written_cell(#[trigger] written_texts(e)[k]),
        forall|k: int| 0 <= k < 7 ==> unescape_cell(#[trigger] written_texts(e)[k]) == cell_texts(e)[k],
        written_texts(e).len() == 7,
        cell_texts(e).len() == 7,
{
    lemma_datetime_text_clean(e.start);
    lemma_datetime_text_clean(e.end);
    lemma_unescape_plain(e.start.text());
    lemma_unescape_plain(e.end.text());
    lemma_clean_written(e.description);
    lemma_clean_written(e.client);
    lemma_opt_cell(e.project);
    lemma_opt_cell(e.activity);
    lemma_opt_cell(e.notes);
    let w = written_texts(e);
    assert(written_cell(w[0])) by {
        assert(!e.start.text().contains('|'));
    }
    assert(written_cell(w[1])) by {
        assert(!e.end.text().contains('|'));
    }
}

/// Joining one more cell puts a pipe before it.
proof fn lemma_join_push(cs: Seq<Seq<char>>, x: Seq<char>)
    requires
        cs.len() >= 1,
    ensures
        join_cells(cs.push(x)) == join_cells(cs).push('|') + x,
{
    assert(cs.push(x).drop_last() =~= cs);
}

/// The first `k` texts written as row cells, without the space after the last.
pub open spec fn row_prefix(t: Seq<Seq<char>>, k: int) -> Seq<char>
    decreases k,
{
    if k <= 1 {
        "| "@ + t[0]
    } else {
        row_prefix(t, k - 1) + " | "@ + t[k - 1]
    }
}

proof fn lemma_row_prefix(t: Seq<Seq<char>>, k: int)
    requires
        1 <= k <= t.len(),
    ensures
        seq!['|'] + join_cells(padded_all(t).take(k)) == row_prefix(t, k) + seq![' '],
    decreases k,
{
    let p = padded_all(t);
    reveal_strlit("| ");
    reveal_strlit(" | ");
    if k == 1 {
        assert(p.take(1) =~= seq![p[0]]);
        assert(seq!['|'] + join_cells(p.take(1)) =~= row_prefix(t, 1) + seq![' ']);
    } else {
        lemma_row_prefix(t, k - 1);
        lemma_join_push(p.take(k - 1), p[k - 1]);
        assert(p.take(k) =~= p.take(k - 1).push(p[k - 1]));
        let j = join_cells(p.take(k - 1));
        assert(p[k - 1] == padded(t[k - 1]));
        assert(" | "@ =~= seq![' ', '|', ' ']);
        assert(seq!['|'] + j =~= row_prefix(t, k - 1) + seq![' ']);
        assert(seq!['|'] + (j.push('|') + p[k - 1]) =~= (seq!['|'] + j) + seq!['|'] + p[k - 1]);
        assert(row_prefix(t, k) == row_prefix(t, k - 1) + " | "@ + t[k - 1]);
        assert(seq!['|'] + join_cells(p.take(k)) =~= row_prefix(t, k) + seq![' ']);
    }
}

/// Seven texts, padded and joined with pipes between outer pipes, read as a row.
proof fn lemma_row_of_seven(t: Seq<Seq<char>>)
    requires
        t.len() == 7,
    ensures
        seq!['|'] + join_cells(padded_all(t)) + seq!['|'] == "| "@ + t[0] + " | "@ + t[1] + " | "@
            + t[2] + " | "@ + t[3] + " | "@ + t[4] + " | "@ + t[5] + " | "@ + t[6] + " |"@,
{
    let p = padded_all(t);
    lemma_row_prefix(t, 7);
    assert(p.take(7) =~= p);
    reveal_strlit(" |");
    reveal_with_fuel(row_prefix, 7);
    assert(seq!['|'] + join_cells(p) + seq!['|'] =~= row_prefix(t, 7) + " |"@);
}

/// A stored entry's row is its padded cells between pipes.
proof fn lemma_row_line_shape(e: EntryView)
    ensures
        row_line(e) == seq!['|'] + join_cells(padded_cells(e)) + seq!['|'],
{
    reveal(row_line);
    lemma_row_of_seven(written_texts(e));
}

/// Written cells, each padded with a space on both sides, keep their pipes
/// escaped, hold no line break, end with a space and trim back to the cells.
proof fn lemma_padded_clean(texts: Seq<Seq<char>>)
    requires
        forall|k: int| 0 <= k < texts.len() ==> written_cell(#[trigger] texts[k]),
    ensures
        forall|k: int| 0 <= k < texts.len() ==> pipes_escaped(#[trigger] padded_all(texts)[k]),
        forall|k: int|
            0 <= k < texts.len() ==> (#[trigger] padded_all(texts)[k]).len() > 0
                && padded_all(texts)[k].last() == ' ',
        forall|k: int|
            0 <= k < texts.len() ==> !(#[trigger] padded_all(texts)[k]).contains('\n'),
        forall|k: int|
            0 <= k < texts.len() ==> trim(#[trigger] padded_all(texts)[k]) == texts[k],
{
    let cells = padded_all(texts);
    assert forall|k: int| 0 <= k < texts.len() implies pipes_escaped(#[trigger] cells[k])
        && !cells[k].contains('\n') && trim(cells[k]) == texts[k] && cells[k].len() > 0
        && cells[k].last() == ' ' by {
        let x = texts[k];
        assert(written_cell(x));
        let c = cells[k];
        assert(c == seq![' '] + x + seq![' ']);
        assert forall|m: int| 0 <= m < c.len() && c[m] == '|' implies #[trigger] escaped_at(c, m) by {
            assert(0 < m < c.len() - 1);
            assert(c[m] == x[m - 1]);
            assert(escaped_at(x, m - 1));
            assert(c[m - 1] == x[m - 2]);
        }
        assert forall|m: int| 0 <= m < c.len() implies c[m] != '\n' by {
            if 0 < m < c.len() - 1 {
                assert(c[m] == x[m - 1]);
            }
        }
        lemma_trim_padded(x);
    }
}

/// A stored entry's row is a trimmed table row of one line whose cells, as
/// written, are the entry's escaped texts and read back as its texts.
#[verifier::spinoff_prover]
#[verifier::rlimit(40)]
proof fn lemma_row_cells(e: EntryView)
    requires
        storable(e),
    ensures
        trim(row_line(e)) == row_line(e),
        is_table_row(row_line(e)),
        plain_line(row_line(e)),
        raw_cells(row_line(e)) == written_texts(e),
        split_row(row_line(e)) == cell_texts(e),
{
    lemma_written_texts(e);
    lemma_row_line_shape(e);
    let texts = written_texts(e);
    let cells = padded_cells(e);
    lemma_padded_clean(texts);
    let line = row_line(e);
    assert(line[0] == '|' && line.last() == '|');
    assert(!is_space('|'));
    lemma_trim_tight(line);
    assert(row_inner(line) =~= join_cells(cells));
    assert forall|i: int| 0 <= i < cells.len() implies pipes_escaped(#[trigger] cells[i]) by {}
    assert forall|i: int| 0 <= i < cells.len() implies (#[trigger] cells[i]).len() > 0
        && cells[i].last() != '\\' by {}
    lemma_split_join_cells(cells);
    lemma_join_cells_no(cells, '\n');
    assert forall|m: int| 0 <= m < line.len() implies line[m] != '\n' by {
        if 0 < m < line.len() - 1 {
            assert(line[m] == join_cells(cells)[m - 1]);
        }
    }
    assert(raw_cells(line) =~= texts);
    assert(split_row(line) =~= cell_texts(e));
}

/// A stored entry's row reads back as the entry.
#[verifier::spinoff_prover]
#[verifier::rlimit(40)]
proof fn lemma_row_parses_back(e: EntryView, i: int)
    requires
        storable(e),
    ensures
        trim(row_line(e)) == row_line(e),
        is_table_row(row_line(e)),
        plain_line(row_line(e)),
        split_row(row_line(e)) == cell_texts(e),
        row_result(i, split_row(row_line(e))) == Ok::<EntryView, (int, Seq<char>)>(e),
{
    lemma_row_cells(e);
    lemma_datetime_text_parses_back(e.start);
    lemma_datetime_text_parses_back(e.end);
    lemma_opt_cell(e.project);
    lemma_opt_cell(e.activity);
    lemma_opt_cell(e.notes);
}

// ---------------------------------------------------------------------------
// A monthly file written and read back.

/// A month key that fits on the file's first line.
pub open spec fn one_line(key: Seq<char>) -> bool {
    !key.contains('\n') && !key.contains('\r')
}

proof fn lemma_file_lines_plain(key: Seq<char>, rows: Seq<EntryView>)
    requires
        one_line(key),
        forall|i: int| 0 <= i < rows.len() ==> storable(#[trigger] rows[i]),
    ensures
        forall|i: int|
            0 <= i < file_lines(key, rows).len() ==> plain_line(#[trigger] file_lines(key, rows)[i]),
{
    let ls = file_lines(key, rows);
    lemma_header_line();
    reveal_strlit("# ");
    let first = "# "@ + key;
    assert forall|m: int| 0 <= m < first.len() implies first[m] != '\n' && first[m] != '\r' by {
        if m >= 2 {
            assert(first[m] == key[m - 2]);
        }
    }
    assert forall|i: int| 0 <= i < ls.len() implies plain_line(#[trigger] ls[i]) by {
        if i >= 4 {
            assert(ls[i] == row_line(rows[i - 4]));
            lemma_row_cells(rows[i - 4]);
            lemma_row_line_shape(rows[i - 4]);
        } else if i == 0 {
            assert(ls[0] == first);
        }
    }
}

/// The table head of a monthly file is its third line.
proof fn lemma_header_found(key: Seq<char>, rows: Seq<EntryView>)
    ensures
        header_from(file_lines(key, rows), 0) == Some(2int),
        split_row(file_lines(key, rows)[2]).len() == expected_columns(),
{
    let ls = file_lines(key, rows);
    lemma_header_line();
    reveal_strlit("# ");
    let first = "# "@ + key;
    assert(ls[0] == first);
    assert(first[0] == '#');
    assert(!is_space('#'));
    lemma_trim_first(first);
    assert(!is_header_line(ls[0]));
    assert(ls[1] == Seq::<char>::empty());
    assert(trim(Seq::<char>::empty()) =~= Seq::<char>::empty());
    assert(!is_header_line(ls[1]));
    assert(ls[2] == header_line());
    assert(header_from(ls, 2) == Some(2int));
    assert(header_from(ls, 1) == Some(2int));
}

/// The data rows of a monthly file read back as the entries written, in order.
#[verifier::spinoff_prover]
#[verifier::rlimit(40)]
proof fn lemma_rows_read_back(key: Seq<char>, rows: Seq<EntryView>, j: int)
    requires
        0 <= j <= rows.len(),
        forall|i: int| 0 <= i < rows.len() ==> storable(#[trigger] rows[i]),
    ensures
        rows_from(file_lines(key, rows), 4 + j) == Ok::<Seq<EntryView>, (int, Seq<char>)>(
            rows.skip(j),
        ),
    decreases rows.len() - j,
{
    let ls = file_lines(key, rows);
    if j == rows.len() {
        assert(rows.skip(j) =~= Seq::<EntryView>::empty());
    } else {
        lemma_rows_read_back(key, rows, j + 1);
        assert(ls[4 + j] == row_line(rows[j]));
        lemma_row_parses_back(rows[j], 4 + j);
        assert(rows.skip(j) =~= seq![rows[j]] + rows.skip(j + 1));
    }
}

/// Entries that a monthly file can hold come back from it sorted by start:
/// reading what was written gives the entries, ordered by start time. Their
/// texts may hold pipes, which are written escaped and read back as pipes.
#[verifier::spinoff_prover]
#[verifier::rlimit(40)]
pub proof fn lemma_month_file_round_trip(key: Seq<char>, es: Seq<EntryView>)
    requires
        one_line(key),
        forall|i: int| 0 <= i < es.len() ==> storable(#[trigger] es[i]),
    ensures
        parse_month(month_file_text(key, es)) == Ok::<Seq<EntryView>, (int, Seq<char>)>(
            sort_by_start(es),
        ),
{
    let rows = sort_by_start(es);
    lemma_sort_by_start(es);
    assert forall|i: int| 0 <= i < rows.len() implies storable(#[trigger] rows[i]) by {
        assert(rows.contains(rows[i]));
        assert(es.contains(rows[i]));
        let k = choose|k: int| 0 <= k < es.len() && es[k] == rows[i];
        assert(storable(es[k]));
    }
    let ls = file_lines(key, rows);
    lemma_file_text_lines(key, es);
    lemma_file_lines_plain(key, rows);
    lemma_lines_of_lines_text(ls);
    lemma_header_found(key, rows);
    lemma_rows_read_back(key, rows, 0);
    assert(rows.skip(0) =~= rows);
    lemma_sort_idempotent(es);
}

// ---------------------------------------------------------------------------
// A month kept free of overlaps.

/// Two entries share some time.
pub open spec fn entries_overlap(a: EntryView, b: EntryView) -> bool {
    ranges_overlap(a.start.stamp(), a.end.stamp(), b.start.stamp(), b.end.stamp())
}

/// No two entries of the month share any time.
pub open spec fn no_overlaps(s: Seq<EntryView>) -> bool {
    forall|i: int, j: int| 0 <= i < j < s.len() ==> !entries_overlap(#[trigger] s[i], #[trigger] s[j])
}

/// Every entry ends after it starts.
pub open spec fn all_positive(s: Seq<EntryView>) -> bool {
    forall|i: int| 0 <= i < s.len() ==> (#[trigger] s[i]).start.stamp() < s[i].end.stamp()
}

proof fn lemma_insert_members(t: Seq<EntryView>, x: EntryView)
    ensures
        forall|y: EntryView| #[trigger] insert_by_start(t, x).contains(y) ==> y == x || t.contains(y),
    decreases t.len(),
{
    let r = insert_by_start(t, x);
    if t.len() > 0 && t.last().start.stamp() > x.start.stamp() {
        let init = t.drop_last();
        lemma_insert_members(init, x);
        let ri = insert_by_start(init, x);
        assert forall|y: EntryView| #[trigger] r.contains(y) implies y == x || t.contains(y) by {
            let k = choose|k: int| 0 <= k < r.len() && r[k] == y;
            if k < ri.len() {
                assert(ri[k] == y);
                assert(ri.contains(y));
                if y != x {
                    let m = choose|m: int| 0 <= m < init.len() && init[m] == y;
                    assert(t[m] == y);
                }
            } else {
                assert(t[t.len() - 1] == y);
            }
        }
    } else {
        assert forall|y: EntryView| #[trigger] r.contains(y) implies y == x || t.contains(y) by {
            let k = choose|k: int| 0 <= k < r.len() && r[k] == y;
            if k < t.len() {
                assert(t[k] == y);
            }
        }
    }
}

/// Inserting an entry that overlaps none of a clear sequence keeps it clear.
proof fn lemma_insert_clear(t: Seq<EntryView>, x: EntryView)
    requires
        no_overlaps(t),
        forall|k: int| 0 <= k < t.len() ==> !entries_overlap(#[trigger] t[k], x),
    ensures
        no_overlaps(insert_by_start(t, x)),
    decreases t.len(),
{
    let r = insert_by_start(t, x);
    if t.len() > 0 && t.last().start.stamp() > x.start.stamp() {
        let init = t.drop_last();
        let last = t.last();
        assert forall|k: int| 0 <= k < init.len() implies !entries_overlap(#[trigger] init[k], x) by {
            assert(init[k] == t[k]);
        }
        assert forall|i: int, j: int| 0 <= i < j < init.len() implies !entries_overlap(
            #[trigger] init[i],
            #[trigger] init[j],
        ) by {
            assert(init[i] == t[i] && init[j] == t[j]);
        }
        lemma_insert_clear(init, x);
        lemma_insert_members(init, x);
        let ri = insert_by_start(init, x);
        assert(r == ri.push(last));
        assert forall|i: int, j: int| 0 <= i < j < r.len() implies !entries_overlap(
            #[trigger] r[i],
            #[trigger] r[j],
        ) by {
            if j < ri.len() {
                assert(r[i] == ri[i] && r[j] == ri[j]);
            } else {
                assert(r[j] == last);
                assert(r[i] == ri[i]);
                assert(ri.contains(ri[i]));
                if ri[i] != x {
                    let m = choose|m: int| 0 <= m < init.len() && init[m] == ri[i];
                    assert(t[m] == ri[i]);
                    assert(t[t.len() - 1] == last);
                    assert(!entries_overlap(t[m], t[t.len() - 1]));
                } else {
                    assert(t[t.len() - 1] == last);
                    assert(!entries_overlap(t[t.len() - 1], x));
                }
            }
        }
    } else {
        assert(r == t.push(x));
        assert forall|i: int, j: int| 0 <= i < j < r.len() implies !entries_overlap(
            #[trigger] r[i],
            #[trigger] r[j],
        ) by {
            assert(r[i] == t[i]);
            if j < t.len() {
                assert(r[j] == t[j]);
            }
        }
    }
}

/// Sorting by start keeps a sequence clear of overlaps.
proof fn lemma_sort_clear(s: Seq<EntryView>)
    requires
        no_overlaps(s),
    ensures
        no_overlaps(sort_by_start(s)),
    decreases s.len(),
{
    if s.len() > 0 {
        let init = s.drop_last();
        assert forall|i: int, j: int| 0 <= i < j < init.len() implies !entries_overlap(
            #[trigger] init[i],
            #[trigger] init[j],
        ) by {
            assert(init[i] == s[i] && init[j] == s[j]);
        }
        lemma_sort_clear(init);
        lemma_sort_by_start(init);
        let t = sort_by_start(init);
        assert forall|k: int| 0 <= k < t.len() implies !entries_overlap(#[trigger] t[k], s.last()) by {
            assert(t.contains(t[k]));
            assert(init.contains(t[k]));
            let m = choose|m: int| 0 <= m < init.len() && init[m] == t[k];
            assert(s[m] == t[k]);
            assert(s[s.len() - 1] == s.last());
            assert(!entries_overlap(s[m], s[s.len() - 1]));
        }
        lemma_insert_clear(t, s.last());
    }
}

/// Adding an entry that conflicts with none of a month's entries keeps the
/// month free of overlaps: what `add_checked` accepts leaves no two entries
/// sharing time.
pub proof fn lemma_add_keeps_month_clear(es: Seq<EntryView>, x: EntryView)
    requires
        no_overlaps(es),
        overlap_list(x.start, x.end, es, None).len() == 0,
    ensures
        no_overlaps(sort_by_start(es.push(x))),
        sorted_by_start(sort_by_start(es.push(x))),
{
    lemma_overlap_list_members(x.start, x.end, es, None);
    let p = es.push(x);
    assert forall|i: int, j: int| 0 <= i < j < p.len() implies !entries_overlap(
        #[trigger] p[i],
        #[trigger] p[j],
    ) by {
        assert(p[i] == es[i]);
        if j < es.len() {
            assert(p[j] == es[j]);
        } else {
            assert(es.contains(es[i]));
        }
    }
    lemma_sort_clear(p);
    lemma_sort_by_start(p);
}

/// Replacing an entry of a month by one that conflicts with none of the others
/// keeps the month free of overlaps, where every entry ends after it starts:
/// what `replace_checked` accepts leaves no two entries sharing time.
pub proof fn lemma_replace_keeps_month_clear(es: Seq<EntryView>, idx: int, x: EntryView)
    requires
        0 <= idx < es.len(),
        no_overlaps(es),
        all_positive(es),
        overlap_list(x.start, x.end, es, Some(es[idx])).len() == 0,
    ensures
        no_overlaps(sort_by_start(es.update(idx, x))),
        sorted_by_start(sort_by_start(es.update(idx, x))),
{
    lemma_overlap_list_members(x.start, x.end, es, Some(es[idx]));
    let p = es.update(idx, x);
    assert forall|i: int, j: int| 0 <= i < j < p.len() implies !entries_overlap(
        #[trigger] p[i],
        #[trigger] p[j],
    ) by {
        if i != idx && j != idx {
            assert(p[i] == es[i] && p[j] == es[j]);
        } else {
            let k = if i == idx { j } else { i };
            assert(p[k] == es[k]);
            assert(es.contains(es[k]));
            assert(es[k].start.stamp() < es[k].end.stamp());
            assert(es[idx].start.stamp() < es[idx].end.stamp());
            if k < idx {
                assert(!entries_overlap(es[k], es[idx]));
            } else {
                assert(!entries_overlap(es[idx], es[k]));
            }
        }
    }
    lemma_sort_clear(p);
    lemma_sort_by_start(p);
}

} // verus!
