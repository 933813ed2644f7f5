//! Time arithmetic for the timeline: snapping to a grid, duration and clock
//! text, the free slots of a range and the neighbours of a time window.
use vstd::prelude::*;

use crate::calendar::valid_day;
use crate::datetime::{DateTime, Time};
use crate::model::{all_wf, entries_view, EntryView, TimeEntry};
use crate::text::{
    chars_of, decimal, digit_value, is_digit, lowercase, push_char, push_decimal, push_two_digits,
    string_of, string_of_range, to_lowercase, trim, trim_range, two_digits,
};

verus! {

/// The minute of the hour that `m` rounds to on a grid of `s` minutes:
/// halfway and above rounds up (for odd `s`, the middle minute rounds down).
pub open spec fn snapped_minute(m: int, s: int) -> int {
    let r = m % s;
    if r < s / 2 + s % 2 {
        m - r
    } else {
        m + (s - r)
    }
}

/// The minute stamp that `snap_to_grid` gives: unchanged for a zero grid,
/// otherwise the snapped minute of the same hour, or the start of the next hour
/// where rounding reaches 60.
pub open spec fn snap_stamp(dt: DateTime, s: int) -> int {
    if s == 0 {
        dt.stamp()
    } else {
        let hour_start = dt.stamp() - dt.minute_of();
        let t = snapped_minute(dt.minute_of(), s);
        if t >= 60 {
            hour_start + 60
        } else {
            hour_start + t
        }
    }
}

/// A minute already on the grid snaps to itself.
proof fn lemma_snapped_on_grid(m: int, s: int)
    requires
        s > 0,
        0 <= m,
    ensures
        snapped_minute(m, s) >= 0,
        snapped_minute(m, s) % s == 0,
        m % s == 0 ==> snapped_minute(m, s) == m,
{
    let r = m % s;
    assert(0 <= r < s && m == (m / s) * s + r) by (nonlinear_arith)
        requires
            s > 0,
            r == m % s,
    ;
    assert((m - r) % s == 0) by (nonlinear_arith)
        requires
            s > 0,
            m == (m / s) * s + r,
    {
        assert(m - r == (m / s) * s);
    }
    assert((m + (s - r)) % s == 0) by (nonlinear_arith)
        requires
            s > 0,
            m == (m / s) * s + r,
    {
        assert(m + (s - r) == (m / s + 1) * s);
    }
}

/// Snapping is idempotent: the date-time that a snap gives snaps to itself.
pub proof fn lemma_snap_idempotent(dt: DateTime, s: int)
    requires
        dt.wf(),
        s >= 0,
    ensures
        ({
            let r = snap_stamp(dt, s);
            snap_stamp(DateTime { day: (r / 1440) as i32, minute: (r % 1440) as u32 }, s) == r
        }),
{
    let r = snap_stamp(dt, s);
    let m = dt.minute_of();
    let hs = dt.stamp() - m;
    let k = dt.day * 24 + dt.minute as int / 60;
    vstd::arithmetic::div_mod::lemma_fundamental_div_mod(dt.minute as int, 60);
    assert(0 <= m < 60);
    assert(hs == k * 60);
    let t: int = if s == 0 {
        m
    } else if snapped_minute(m, s) >= 60 {
        60
    } else {
        snapped_minute(m, s)
    };
    if s > 0 {
        lemma_snapped_on_grid(m, s);
    }
    assert(r == hs + t);
    assert(0 <= t <= 60);
    // The date-time of stamp `r` and its minute within the hour.
    let q = r / 1440;
    let mm = r % 1440;
    vstd::arithmetic::div_mod::lemma_fundamental_div_mod(r, 1440);
    assert(0 <= mm < 1440);
    assert(dt.day <= q <= dt.day + 1) by (nonlinear_arith)
        requires
            r == 1440 * q + mm,
            0 <= mm < 1440,
            r == dt.day * 1440 + dt.minute - m + t,
            0 <= dt.minute < 1440,
            0 <= m <= dt.minute,
            0 <= t <= 60,
    ;
    let d2 = DateTime { day: q as i32, minute: mm as u32 };
    assert(d2.day == q);
    assert(d2.minute == mm);
    assert(d2.stamp() == r);
    vstd::arithmetic::div_mod::lemma_mod_mod(r, 60, 24);
    assert(d2.minute_of() == r % 60);
    let t2: int = if t == 60 {
        0
    } else {
        t
    };
    if t == 60 {
        vstd::arithmetic::div_mod::lemma_fundamental_div_mod_converse(r, 60, k + 1, 0);
    } else {
        vstd::arithmetic::div_mod::lemma_fundamental_div_mod_converse(r, 60, k, t);
    }
    assert(d2.minute_of() == t2);
    if s > 0 {
        if t == 60 {
            assert(0int % s == 0);
            lemma_snapped_on_grid(0, s);
        } else {
            lemma_snapped_on_grid(t, s);
        }
        assert(snapped_minute(t2, s) == t2);
    }
}

/// Snap a datetime to the nearest N-minute grid boundary.
/// snap_minutes of 0 returns the datetime unchanged.
pub fn snap_to_grid(dt: DateTime, snap_minutes: u32) -> (r: DateTime)
    requires
        dt.wf(),
        valid_day(snap_stamp(dt, snap_minutes as int) / 1440),
    ensures
        r.wf(),
        r.stamp() == snap_stamp(dt, snap_minutes as int),
{
    if snap_minutes == 0 {
        return dt;
    }
    let minute: u64 = dt.minute_of_hour() as u64;
    let s: u64 = snap_minutes as u64;
    let remainder = minute % s;
    let half = s / 2;
    assert(remainder <= minute) by (nonlinear_arith)
        requires
            remainder == minute % s,
            s > 0,
    ;
    let snapped = if remainder < half + (s % 2) {
        minute - remainder
    } else {
        minute + (s - remainder)
    };
    let hour_start = DateTime { day: dt.day, minute: dt.minute - dt.minute_of_hour() };
    let offset: i64 = if snapped >= 60 {
        60
    } else {
        snapped as i64
    };
    match hour_start.plus_minutes(offset) {
        Some(d) => d,
        None => {
            assert(false);
            dt
        },
    }
}

pub open spec fn abs_int(n: int) -> int {
    if n < 0 {
        -n
    } else {
        n
    }
}

/// "Xh Ym" if >= 60, "Ym" if < 60, "0m" for zero; negative durations get a sign.
pub open spec fn duration_text(minutes: int) -> Seq<char> {
    let a = abs_int(minutes);
    let h = a / 60;
    let m = a % 60;
    let sign = if minutes < 0 {
        seq!['-']
    } else {
        Seq::<char>::empty()
    };
    if minutes == 0 {
        seq!['0', 'm']
    } else if h > 0 && m > 0 {
        sign + decimal(h as nat) + seq!['h', ' '] + decimal(m as nat) + seq!['m']
    } else if h > 0 {
        sign + decimal(h as nat) + seq!['h']
    } else {
        sign + decimal(m as nat) + seq!['m']
    }
}

/// Format a duration in minutes as a human-readable string.
/// "Xh Ym" if >= 60, "Ym" if < 60, "0m" for zero.
pub fn format_duration(minutes: i64) -> (r: String)
    ensures
        r@ == duration_text(minutes as int),
{
    let mut out = String::new();
    if minutes == 0 {
        push_char(&mut out, '0');
        push_char(&mut out, 'm');
        return out;
    }
    let negative = minutes < 0;
    let abs: u64 = if negative {
        (-(minutes as i128)) as u64
    } else {
        minutes as u64
    };
    let h = abs / 60;
    let m = abs % 60;
    if negative {
        push_char(&mut out, '-');
    }
    if h > 0 {
        push_decimal(&mut out, h);
        push_char(&mut out, 'h');
        if m > 0 {
            push_char(&mut out, ' ');
            push_decimal(&mut out, m);
            push_char(&mut out, 'm');
        }
    } else {
        push_decimal(&mut out, m);
        push_char(&mut out, 'm');
    }
    out
}

/// `%H:%M` in 24-hour form; in 12-hour form the hour without padding, then the
/// minute, a space and `AM` or `PM` (midnight and noon are 12).
pub open spec fn time_text(minute: int, format_24h: bool) -> Seq<char> {
    let hour = minute / 60;
    let min = minute % 60;
    if format_24h {
        two_digits(hour) + seq![':'] + two_digits(min)
    } else {
        let h12 = if hour == 0 {
            12
        } else if hour <= 12 {
            hour
        } else {
            hour - 12
        };
        let period = if hour < 12 {
            seq!['A', 'M']
        } else {
            seq!['P', 'M']
        };
        decimal(h12 as nat) + seq![':'] + two_digits(min) + seq![' '] + period
    }
}

/// Format a time for display, respecting 12h/24h preference.
pub fn format_time(time: Time, format_24h: bool) -> (r: String)
    requires
        time.wf(),
    ensures
        r@ == time_text(time.minute as int, format_24h),
{
    let hour = time.minute / 60;
    let minute = time.minute % 60;
    let mut out = String::new();
    if format_24h {
        push_two_digits(&mut out, hour);
        push_char(&mut out, ':');
        push_two_digits(&mut out, minute);
    } else {
        let h12: u32 = if hour == 0 {
            12
        } else if hour <= 12 {
            hour
        } else {
            hour - 12
        };
        push_decimal(&mut out, h12 as u64);
        push_char(&mut out, ':');
        push_two_digits(&mut out, minute);
        push_char(&mut out, ' ');
        if hour < 12 {
            push_char(&mut out, 'A');
        } else {
            push_char(&mut out, 'P');
        }
        push_char(&mut out, 'M');
    }
    out
}

/// An available (unoccupied) time slot within a queried range.
#[derive(Debug, Clone, Copy, PartialEq, Eq, Structural)]
pub struct AvailableSlot {
    pub start: DateTime,
    pub end: DateTime,
    pub duration_minutes: i64,
}

/// The later of two date-times (the second where they are equal).
pub open spec fn later_of(a: DateTime, b: DateTime) -> DateTime {
    if b.stamp() < a.stamp() {
        a
    } else {
        b
    }
}

/// The earlier of two date-times (the first where they are equal).
pub open spec fn earlier_of(a: DateTime, b: DateTime) -> DateTime {
    if b.stamp() < a.stamp() {
        b
    } else {
        a
    }
}

/// The entry lies entirely before or after the range.
pub open spec fn outside_range(e: EntryView, rs: DateTime, re: DateTime) -> bool {
    e.end.stamp() <= rs.stamp() || e.start.stamp() >= re.stamp()
}

/// The gap `[from, to)` as a slot, kept where it is non-empty and at least `min` long.
pub open spec fn with_gap(
    slots: Seq<AvailableSlot>,
    from: DateTime,
    to: DateTime,
    min: int,
) -> Seq<AvailableSlot> {
    if from.stamp() < to.stamp() && to.stamp() - from.stamp() >= min {
        slots.push(
            AvailableSlot {
                start: from,
                end: to,
                duration_minutes: (to.stamp() - from.stamp()) as i64,
            },
        )
    } else {
        slots
    }
}

/// One pass over the entries in order: a cursor that starts at the range start
/// and moves past each entry that meets the range (clipped to the range), and the
/// gaps that the cursor leaves before each such entry.
pub open spec fn slot_scan(rs: DateTime, re: DateTime, es: Seq<EntryView>, min: int) -> (
    DateTime,
    Seq<AvailableSlot>,
)
    decreases es.len(),
{
    if es.len() == 0 {
        (rs, Seq::empty())
    } else {
        let prev = slot_scan(rs, re, es.drop_last(), min);
        let cursor = prev.0;
        let e = es.last();
        if outside_range(e, rs, re) {
            prev
        } else {
            let occupied_start = later_of(e.start, rs);
            let occupied_end = earlier_of(e.end, re);
            let slots = with_gap(prev.1, cursor, occupied_start, min);
            let next = if cursor.stamp() < occupied_end.stamp() {
                occupied_end
            } else {
                cursor
            };
            (next, slots)
        }
    }
}

/// The free slots of `[rs, re)` around the entries: the gaps of the pass, then the
/// gap from the final cursor to the range end.
pub open spec fn available_slots(
    rs: DateTime,
    re: DateTime,
    es: Seq<EntryView>,
    min: int,
) -> Seq<AvailableSlot> {
    let scan = slot_scan(rs, re, es, min);
    with_gap(scan.1, scan.0, re, min)
}

pub open spec fn min_or_zero(m: Option<i64>) -> int {
    match m {
        Some(v) => v as int,
        None => 0,
    }
}

/// Compute available time slots within a range by finding gaps between entries.
///
/// `entries` should be sorted by start time. Entries partially overlapping the
/// range boundaries are clipped. If `min_duration_minutes` is provided, slots
/// shorter than that threshold are excluded.
pub fn compute_available_slots(
    range_start: DateTime,
    range_end: DateTime,
    entries: &[TimeEntry],
    min_duration_minutes: Option<i64>,
) -> (r: Vec<AvailableSlot>)
    requires
        range_start.wf(),
        range_end.wf(),
        all_wf(entries_view(entries@)),
    ensures
        r@ == available_slots(
            range_start,
            range_end,
            entries_view(entries@),
            min_or_zero(min_duration_minutes),
        ),
{
    let min_dur: i64 = match min_duration_minutes {
        Some(m) => m,
        None => 0,
    };
    let ghost es = entries_view(entries@);
    let mut slots: Vec<AvailableSlot> = Vec::new();
    let mut cursor = range_start;
    for i in 0..entries.len()
        invariant
            es == entries_view(entries@),
            all_wf(es),
            range_start.wf(),
            range_end.wf(),
            cursor.wf(),
            min_dur == min_or_zero(min_duration_minutes),
            cursor == slot_scan(range_start, range_end, es.take(i as int), min_dur as int).0,
            slots@ == slot_scan(range_start, range_end, es.take(i as int), min_dur as int).1,
    {
        let entry = &entries[i];
        proof {
            assert(es.take(i + 1).drop_last() == es.take(i as int));
            assert(es.take(i + 1).last() == entry@);
            assert(es[i as int].wf());
        }
        if !(entry.end.stamp_value() <= range_start.stamp_value() || entry.start.stamp_value()
            >= range_end.stamp_value()) {
            let occupied_start = if range_start.before(&entry.start) {
                entry.start
            } else {
                range_start
            };
            if cursor.before(&occupied_start) {
                let duration = cursor.minutes_until(&occupied_start);
                if duration >= min_dur {
                    slots.push(
                        AvailableSlot { start: cursor, end: occupied_start, duration_minutes: duration },
                    );
                }
            }
            let occupied_end = if range_end.before(&entry.end) {
                range_end
            } else {
                entry.end
            };
            if cursor.before(&occupied_end) {
                cursor = occupied_end;
            }
        }
    }
    proof {
        assert(es.take(entries.len() as int) == es);
    }
    if cursor.before(&range_end) {
        let duration = cursor.minutes_until(&range_end);
        if duration >= min_dur {
            slots.push(AvailableSlot { start: cursor, end: range_end, duration_minutes: duration });
        }
    }
    slots
}

/// Every entry starts no later than it ends.
pub open spec fn spans_ordered(es: Seq<EntryView>) -> bool {
    forall|i: int| 0 <= i < es.len() ==> (#[trigger] es[i]).start.stamp() <= es[i].end.stamp()
}

/// The slot lies in `[rs, re]`, is non-empty and at least `min` long, and its
/// duration is its length in minutes.
pub open spec fn slot_within(sl: AvailableSlot, rs: DateTime, re: DateTime, min: int) -> bool {
    &&& sl.start.wf()
    &&& sl.end.wf()
    &&& rs.stamp() <= sl.start.stamp()
    &&& sl.start.stamp() < sl.end.stamp()
    &&& sl.end.stamp() <= re.stamp()
    &&& sl.duration_minutes == sl.end.stamp() - sl.start.stamp()
    &&& sl.duration_minutes >= min
}

/// The minute `t` lies in the slot.
pub open spec fn slot_covers(sl: AvailableSlot, t: int) -> bool {
    sl.start.stamp() <= t < sl.end.stamp()
}

/// No entry occupies the minute `t`.
pub open spec fn free_at(es: Seq<EntryView>, t: int) -> bool {
    forall|j: int| 0 <= j < es.len() ==> !((#[trigger] es[j]).start.stamp() <= t && t < es[j].end.stamp())
}

/// The slot and the entry share no minute.
pub open spec fn slot_clear_of(sl: AvailableSlot, e: EntryView) -> bool {
    sl.end.stamp() <= e.start.stamp() || e.end.stamp() <= sl.start.stamp()
}

proof fn lemma_scan_ordered(rs: DateTime, re: DateTime, es: Seq<EntryView>, min: int)
    requires
        rs.wf(),
        re.wf(),
        all_wf(es),
        spans_ordered(es),
    ensures
        ({
            let scan = slot_scan(rs, re, es, min);
            &&& scan.0.wf()
            &&& rs.stamp() <= scan.0.stamp()
            &&& forall|k: int|
                0 <= k < scan.1.len() ==> slot_within(#[trigger] scan.1[k], rs, re, min)
                    && scan.1[k].end.stamp() <= scan.0.stamp()
            &&& forall|i: int, j: int|
                0 <= i < j < scan.1.len() ==> (#[trigger] scan.1[i]).end.stamp() <= (
                #[trigger] scan.1[j]).start.stamp()
        }),
    decreases es.len(),
{
    if es.len() > 0 {
        let init = es.drop_last();
        assert forall|i: int| 0 <= i < init.len() implies (#[trigger] init[i]).wf()
            && init[i].start.stamp() <= init[i].end.stamp() by {
            assert(init[i] == es[i]);
        }
        lemma_scan_ordered(rs, re, init, min);
        assert(es.last() == es[es.len() - 1]);
    }
}

/// Each free slot lies inside the range, is non-empty, at least the minimum long
/// and measured by its duration; the slots come in time order and do not overlap
/// (for entries that start no later than they end).
pub proof fn lemma_slots_ordered_within(rs: DateTime, re: DateTime, es: Seq<EntryView>, min: int)
    requires
        rs.wf(),
        re.wf(),
        all_wf(es),
        spans_ordered(es),
    ensures
        ({
            let s = available_slots(rs, re, es, min);
            &&& forall|k: int| 0 <= k < s.len() ==> slot_within(#[trigger] s[k], rs, re, min)
            &&& forall|i: int, j: int|
                0 <= i < j < s.len() ==> (#[trigger] s[i]).end.stamp() <= (
                #[trigger] s[j]).start.stamp()
        }),
{
    lemma_scan_ordered(rs, re, es, min);
}

proof fn lemma_scan_clear(rs: DateTime, re: DateTime, es: Seq<EntryView>, min: int, n: int)
    requires
        0 <= n <= es.len(),
        crate::parser::sorted_by_start(es),
    ensures
        ({
            let scan = slot_scan(rs, re, es.take(n), min);
            let c = scan.0;
            let s = scan.1;
            &&& rs.stamp() <= c.stamp()
            &&& forall|k: int|
                0 <= k < s.len() ==> rs.stamp() <= (#[trigger] s[k]).start.stamp()
                    && s[k].end.stamp() <= re.stamp()
            &&& forall|k: int, j: int|
                0 <= k < s.len() && n <= j < es.len() ==> (#[trigger] s[k]).end.stamp() <= (
                #[trigger] es[j]).start.stamp()
            &&& forall|j: int|
                0 <= j < n ==> (#[trigger] es[j]).end.stamp() <= c.stamp() || es[j].start.stamp()
                    >= re.stamp() || re.stamp() <= c.stamp()
            &&& forall|k: int, j: int|
                0 <= k < s.len() && 0 <= j < n ==> slot_clear_of(#[trigger] s[k], #[trigger] es[j])
        }),
    decreases n,
{
    if n > 0 {
        lemma_scan_clear(rs, re, es, min, n - 1);
        assert(es.take(n).drop_last() == es.take(n - 1));
        assert(es.take(n).last() == es[n - 1]);
    } else {
        assert(es.take(0).len() == 0);
    }
}

/// For entries sorted by start, no free slot shares a minute with any entry.
pub proof fn lemma_slots_clear_of_entries(
    rs: DateTime,
    re: DateTime,
    es: Seq<EntryView>,
    min: int,
)
    requires
        crate::parser::sorted_by_start(es),
    ensures
        ({
            let s = available_slots(rs, re, es, min);
            forall|k: int, j: int|
                0 <= k < s.len() && 0 <= j < es.len() ==> slot_clear_of(
                    #[trigger] s[k],
                    #[trigger] es[j],
                )
        }),
{
    lemma_scan_clear(rs, re, es, min, es.len() as int);
    assert(es.take(es.len() as int) == es);
}

proof fn lemma_scan_covers(rs: DateTime, re: DateTime, es: Seq<EntryView>, min: int, n: int, t: int)
    requires
        0 <= n <= es.len(),
        min <= 0,
        free_at(es, t),
    ensures
        ({
            let scan = slot_scan(rs, re, es.take(n), min);
            rs.stamp() <= t < scan.0.stamp() ==> exists|k: int|
                0 <= k < scan.1.len() && slot_covers(#[trigger] scan.1[k], t)
        }),
    decreases n,
{
    if n > 0 {
        lemma_scan_covers(rs, re, es, min, n - 1, t);
        assert(es.take(n).drop_last() == es.take(n - 1));
        assert(es.take(n).last() == es[n - 1]);
        let prev = slot_scan(rs, re, es.take(n - 1), min);
        let scan = slot_scan(rs, re, es.take(n), min);
        if rs.stamp() <= t < scan.0.stamp() {
            if t < prev.0.stamp() {
                let k = choose|k: int| 0 <= k < prev.1.len() && slot_covers(#[trigger] prev.1[k], t);
                assert(scan.1[k] == prev.1[k]);
            } else {
                let e = es[n - 1];
                assert(!(e.start.stamp() <= t && t < e.end.stamp()));
                let k = prev.1.len() as int;
                assert(slot_covers(scan.1[k], t));
            }
        }
    }
}

/// With no minimum length, every free minute of the range lies in some free slot.
pub proof fn lemma_slots_cover_free_time(
    rs: DateTime,
    re: DateTime,
    es: Seq<EntryView>,
    min: int,
    t: int,
)
    requires
        min <= 0,
        rs.stamp() <= t < re.stamp(),
        free_at(es, t),
    ensures
        ({
            let s = available_slots(rs, re, es, min);
            exists|k: int| 0 <= k < s.len() && slot_covers(#[trigger] s[k], t)
        }),
{
    lemma_scan_covers(rs, re, es, min, es.len() as int, t);
    assert(es.take(es.len() as int) == es);
    let scan = slot_scan(rs, re, es, min);
    let s = available_slots(rs, re, es, min);
    if t < scan.0.stamp() {
        let k = choose|k: int| 0 <= k < scan.1.len() && slot_covers(#[trigger] scan.1[k], t);
        assert(s[k] == scan.1[k]);
    } else {
        let k = scan.1.len() as int;
        assert(slot_covers(s[k], t));
    }
}

/// `[a, b)` is a stretch of free minutes of the range `[rs, re)` that cannot be
/// made longer within it: the minute before it and the minute after it are
/// taken or outside the range.
pub open spec fn free_stretch(rs: DateTime, re: DateTime, es: Seq<EntryView>, a: int, b: int) -> bool {
    &&& rs.stamp() <= a < b <= re.stamp()
    &&& forall|u: int| a <= u < b ==> free_at(es, u)
    &&& (a == rs.stamp() || !free_at(es, a - 1))
    &&& (b == re.stamp() || !free_at(es, b))
}

/// Every entry takes at least one minute.
pub open spec fn spans_positive(es: Seq<EntryView>) -> bool {
    forall|i: int| 0 <= i < es.len() ==> (#[trigger] es[i]).start.stamp() < es[i].end.stamp()
}

/// The entry takes the minute `u`.
proof fn lemma_taken(es: Seq<EntryView>, j: int, u: int)
    requires
        0 <= j < es.len(),
        es[j].start.stamp() <= u < es[j].end.stamp(),
    ensures
        !free_at(es, u),
{
}

proof fn lemma_scan_stretch(
    rs: DateTime,
    re: DateTime,
    es: Seq<EntryView>,
    min: int,
    n: int,
    a: int,
    b: int,
)
    requires
        0 <= n <= es.len(),
        crate::parser::sorted_by_start(es),
        spans_positive(es),
        free_stretch(rs, re, es, a, b),
        b - a >= min,
    ensures
        ({
            let scan = slot_scan(rs, re, es.take(n), min);
            let c = scan.0.stamp();
            &&& rs.stamp() <= c <= re.stamp()
            &&& (c == rs.stamp() || c == re.stamp() || !free_at(es, c - 1))
            &&& (a < c ==> exists|k: int|
                0 <= k < scan.1.len() && (#[trigger] scan.1[k]).start.stamp() == a
                    && scan.1[k].end.stamp() == b)
        }),
    decreases n,
{
    if n > 0 {
        let m = n - 1;
        lemma_scan_stretch(rs, re, es, min, m, a, b);
        lemma_scan_clear(rs, re, es, min, m);
        assert(es.take(n).drop_last() == es.take(m));
        assert(es.take(n).last() == es[m]);
        let prev = slot_scan(rs, re, es.take(m), min);
        let scan = slot_scan(rs, re, es.take(n), min);
        let c = prev.0.stamp();
        let e = es[m];
        assert(e.start.stamp() < e.end.stamp());
        if !outside_range(e, rs, re) {
            let os = later_of(e.start, rs).stamp();
            let oe = earlier_of(e.end, re).stamp();
            assert(os < oe);
            if c < oe && oe < re.stamp() {
                assert(oe == e.end.stamp());
                lemma_taken(es, m, oe - 1);
            }
            if a < c {
                let k = choose|k: int|
                    0 <= k < prev.1.len() && (#[trigger] prev.1[k]).start.stamp() == a
                        && prev.1[k].end.stamp() == b;
                assert(scan.1[k] == prev.1[k]);
            } else if a < scan.0.stamp() {
                assert(scan.0.stamp() == oe);
                // The entry takes every minute of [os, oe), so the stretch ends by os.
                if a >= os {
                    lemma_taken(es, m, a);
                    assert(free_at(es, a));
                }
                if b > os {
                    lemma_taken(es, m, os);
                    assert(free_at(es, os));
                }
                // The gap [c, os) is free.
                assert forall|u: int| c <= u < os implies free_at(es, u) by {
                    assert forall|j: int| 0 <= j < es.len() implies !((#[trigger] es[j]).start.stamp()
                        <= u && u < es[j].end.stamp()) by {
                        if j < m {
                            assert(es[j].end.stamp() <= c || es[j].start.stamp() >= re.stamp()
                                || re.stamp() <= c);
                        } else {
                            assert(es[m].start.stamp() <= es[j].start.stamp());
                        }
                    }
                }
                if a > c {
                    assert(free_at(es, a - 1));
                }
                if b < os {
                    assert(free_at(es, b));
                }
                assert(a == c && b == os);
                let k = prev.1.len() as int;
                assert(scan.1[k].start.stamp() == a && scan.1[k].end.stamp() == b);
            }
        }
    }
}

/// Every free stretch of the range at least the minimum long is one of the
/// free slots, for entries sorted by start that each take at least a minute:
/// no stretch long enough is left out or cut.
pub proof fn lemma_slots_include_long_stretches(
    rs: DateTime,
    re: DateTime,
    es: Seq<EntryView>,
    min: int,
    a: int,
    b: int,
)
    requires
        crate::parser::sorted_by_start(es),
        spans_positive(es),
        free_stretch(rs, re, es, a, b),
        b - a >= min,
    ensures
        ({
            let s = available_slots(rs, re, es, min);
            exists|k: int|
                0 <= k < s.len() && (#[trigger] s[k]).start.stamp() == a && s[k].end.stamp() == b
        }),
{
    let n = es.len() as int;
    lemma_scan_stretch(rs, re, es, min, n, a, b);
    lemma_scan_clear(rs, re, es, min, n);
    assert(es.take(n) == es);
    let scan = slot_scan(rs, re, es, min);
    let s = available_slots(rs, re, es, min);
    let c = scan.0.stamp();
    if a < c {
        let k = choose|k: int|
            0 <= k < scan.1.len() && (#[trigger] scan.1[k]).start.stamp() == a
                && scan.1[k].end.stamp() == b;
        assert(s[k] == scan.1[k]);
    } else {
        assert forall|u: int| c <= u < re.stamp() implies free_at(es, u) by {
            assert forall|j: int| 0 <= j < es.len() implies !((#[trigger] es[j]).start.stamp() <= u
                && u < es[j].end.stamp()) by {
                assert(es[j].end.stamp() <= c || es[j].start.stamp() >= re.stamp() || re.stamp()
                    <= c);
            }
        }
        if a > c {
            assert(free_at(es, a - 1));
        }
        if b < re.stamp() {
            assert(free_at(es, b));
        }
        assert(a == c && b == re.stamp());
        let k = scan.1.len() as int;
        assert(s[k].start.stamp() == a && s[k].end.stamp() == b);
    }
}

/// The minimum length asked for is the one given, or none (zero).
pub proof fn lemma_min_or_zero(m: Option<i64>)
    ensures
        m matches Some(x) ==> min_or_zero(m) == x,
        m is None ==> min_or_zero(m) == 0,
{
}

/// Adjacent entries around a target time window.
pub struct AdjacentEntries {
    pub previous: Option<TimeEntry>,
    pub next: Option<TimeEntry>,
}

/// The span (start, end) of an optional entry to leave out.
pub open spec fn excluded_span(exclude: Option<&TimeEntry>) -> Option<(DateTime, DateTime)> {
    match exclude {
        Some(x) => Some((x.start, x.end)),
        None => None,
    }
}

pub open spec fn is_excluded(e: EntryView, exc: Option<(DateTime, DateTime)>) -> bool {
    match exc {
        Some(span) => e.start == span.0 && e.end == span.1,
        None => false,
    }
}

/// An entry that may precede the window: not left out, and ending by its start.
pub open spec fn before_window(e: EntryView, ts: DateTime, exc: Option<(DateTime, DateTime)>) -> bool {
    !is_excluded(e, exc) && e.end.stamp() <= ts.stamp()
}

/// An entry that may follow the window: not left out, and starting at or after its end.
pub open spec fn after_window(e: EntryView, te: DateTime, exc: Option<(DateTime, DateTime)>) -> bool {
    !is_excluded(e, exc) && e.start.stamp() >= te.stamp()
}

/// `es[i]` is the first of the entries before the window with the latest end.
pub open spec fn is_previous(
    es: Seq<EntryView>,
    ts: DateTime,
    exc: Option<(DateTime, DateTime)>,
    i: int,
) -> bool {
    &&& 0 <= i < es.len()
    &&& before_window(es[i], ts, exc)
    &&& forall|j: int|
        0 <= j < es.len() && before_window(#[trigger] es[j], ts, exc) ==> es[j].end.stamp()
            <= es[i].end.stamp()
    &&& forall|j: int|
        0 <= j < i && before_window(#[trigger] es[j], ts, exc) ==> es[j].end.stamp()
            < es[i].end.stamp()
}

/// `es[i]` is the first of the entries after the window with the earliest start.
pub open spec fn is_next(
    es: Seq<EntryView>,
    te: DateTime,
    exc: Option<(DateTime, DateTime)>,
    i: int,
) -> bool {
    &&& 0 <= i < es.len()
    &&& after_window(es[i], te, exc)
    &&& forall|j: int|
        0 <= j < es.len() && after_window(#[trigger] es[j], te, exc) ==> es[i].start.stamp()
            <= es[j].start.stamp()
    &&& forall|j: int|
        0 <= j < i && after_window(#[trigger] es[j], te, exc) ==> es[i].start.stamp()
            < es[j].start.stamp()
}

/// Find entries adjacent to a target time window.
/// Previous: entry whose end is closest to (but <=) target_start.
/// Next: entry whose start is closest to (but >=) target_end.
/// An entry with the same start and end as `exclude` is left out; among equally
/// close entries the first one wins.
pub fn find_adjacent(
    target_start: DateTime,
    target_end: DateTime,
    entries: &[TimeEntry],
    exclude: Option<&TimeEntry>,
) -> (r: AdjacentEntries)
    requires
        target_start.wf(),
        target_end.wf(),
        all_wf(entries_view(entries@)),
    ensures
        ({
            let es = entries_view(entries@);
            let exc = excluded_span(exclude);
            &&& (r.previous is None <==> forall|j: int|
                0 <= j < es.len() ==> !before_window(#[trigger] es[j], target_start, exc))
            &&& (r.previous matches Some(p) ==> exists|i: int|
                is_previous(es, target_start, exc, i) && p@ == #[trigger] es[i])
            &&& (r.next is None <==> forall|j: int|
                0 <= j < es.len() ==> !after_window(#[trigger] es[j], target_end, exc))
            &&& (r.next matches Some(n) ==> exists|i: int|
                is_next(es, target_end, exc, i) && n@ == #[trigger] es[i])
        }),
{
    let ghost es = entries_view(entries@);
    let ghost exc = excluded_span(exclude);
    let mut previous: Option<usize> = None;
    let mut next: Option<usize> = None;
    for i in 0..entries.len()
        invariant
            es == entries_view(entries@),
            exc == excluded_span(exclude),
            all_wf(es),
            target_start.wf(),
            target_end.wf(),
            previous is None <==> forall|j: int|
                0 <= j < i ==> !before_window(#[trigger] es[j], target_start, exc),
            previous matches Some(p) ==> p < i && is_previous(es.take(i as int), target_start, exc, p as int),
            next is None <==> forall|j: int|
                0 <= j < i ==> !after_window(#[trigger] es[j], target_end, exc),
            next matches Some(p) ==> p < i && is_next(es.take(i as int), target_end, exc, p as int),
    {
        let entry = &entries[i];
        let ghost before = es.take(i as int);
        let ghost after = es.take(i + 1);
        proof {
            assert(es[i as int] == entry@);
            assert(es[i as int].wf());
            assert forall|j: int| 0 <= j < i + 1 implies after[j] == es[j] by {}
            assert forall|j: int| 0 <= j < i implies before[j] == es[j] by {}
        }
        let skipped = match exclude {
            Some(exc_entry) => entry.start == exc_entry.start && entry.end == exc_entry.end,
            None => false,
        };
        if !skipped {
            if entry.end.stamp_value() <= target_start.stamp_value() {
                let replace = match previous {
                    Some(p) => {
                        proof {
                            assert(es[p as int].wf());
                        }
                        entries[p].end.stamp_value() < entry.end.stamp_value()
                    },
                    None => true,
                };
                if replace {
                    previous = Some(i);
                }
            }
            if entry.start.stamp_value() >= target_end.stamp_value() {
                let replace = match next {
                    Some(p) => {
                        proof {
                            assert(es[p as int].wf());
                        }
                        entry.start.stamp_value() < entries[p].start.stamp_value()
                    },
                    None => true,
                };
                if replace {
                    next = Some(i);
                }
            }
        }
        proof {
            assert(skipped == is_excluded(es[i as int], exc));
            if let Some(p) = previous {
                assert(is_previous(after, target_start, exc, p as int));
            }
            if let Some(p) = next {
                assert(is_next(after, target_end, exc, p as int));
            }
        }
    }
    proof {
        assert(es.take(entries.len() as int) == es);
    }
    let previous_entry = match previous {
        Some(p) => Some(entries[p].duplicate()),
        None => None,
    };
    let next_entry = match next {
        Some(p) => Some(entries[p].duplicate()),
        None => None,
    };
    AdjacentEntries { previous: previous_entry, next: next_entry }
}

// ---------------------------------------------------------------------------
// How a duration is written.

/// The shape of a duration as typed: `H:MM` as two integers, a plain integer of
/// minutes, hours (and minutes) written with `h` (and `m`) as decimal numbers,
/// or minutes written with `m` as a decimal number. The decimal numbers are
/// left as text, to be read as floating-point numbers.
#[derive(Debug, Clone, PartialEq)]
pub enum DurationForm {
    Invalid,
    Clock(i64, i64),
    Minutes(i64),
    HoursAndMinutes(String, Option<String>),
    DecimalMinutes(String),
}

/// What a `DurationForm` holds, with its texts as character sequences.
pub enum DurationShape {
    Invalid,
    Clock(int, int),
    Minutes(int),
    HoursAndMinutes(Seq<char>, Option<Seq<char>>),
    DecimalMinutes(Seq<char>),
}

impl View for DurationForm {
    type V = DurationShape;

    open spec fn view(&self) -> DurationShape {
        match self {
            DurationForm::Invalid => DurationShape::Invalid,
            DurationForm::Clock(h, m) => DurationShape::Clock(*h as int, *m as int),
            DurationForm::Minutes(m) => DurationShape::Minutes(*m as int),
            DurationForm::HoursAndMinutes(h, m) => DurationShape::HoursAndMinutes(
                h@,
                match m {
                    Some(x) => Some(x@),
                    None => None,
                },
            ),
            DurationForm::DecimalMinutes(m) => DurationShape::DecimalMinutes(m@),
        }
    }
}

/// The position of the first `c` in `s`, or its length where there is none.
pub open spec fn first_of(s: Seq<char>, c: char) -> int
    decreases s.len(),
{
    if s.len() == 0 {
        0
    } else if s[0] == c {
        0
    } else {
        1 + first_of(s.skip(1), c)
    }
}

pub open spec fn all_digit_chars(s: Seq<char>) -> bool {
    forall|i: int| 0 <= i < s.len() ==> is_digit(#[trigger] s[i])
}

pub open spec fn digits_number(s: Seq<char>) -> int
    decreases s.len(),
{
    if s.len() == 0 {
        0
    } else {
        10 * digits_number(s.drop_last()) + digit_value(s.last())
    }
}

/// Text read as an `i64` by `str::parse`: an optional sign, one or more ASCII
/// digits, and a value within the range of `i64`.
pub open spec fn i64_value(s: Seq<char>) -> Option<int> {
    let v: Option<int> = if s.len() >= 2 && (s[0] == '+' || s[0] == '-') && all_digit_chars(s.skip(1)) {
        Some(if s[0] == '-' {
            -digits_number(s.skip(1))
        } else {
            digits_number(s.skip(1))
        })
    } else if s.len() >= 1 && all_digit_chars(s) {
        Some(digits_number(s))
    } else {
        None
    };
    match v {
        Some(x) => if i64::MIN <= x <= i64::MAX {
            Some(x)
        } else {
            None
        },
        None => None,
    }
}

/// The text with every `a` replaced by `b`.
pub open spec fn replaced(s: Seq<char>, a: char, b: char) -> Seq<char> {
    s.map_values(|c: char| if c == a {
        b
    } else {
        c
    })
}

/// The text without any `c`.
pub open spec fn without_char(s: Seq<char>, c: char) -> Seq<char>
    decreases s.len(),
{
    if s.len() == 0 {
        s
    } else if s.last() == c {
        without_char(s.drop_last(), c)
    } else {
        without_char(s.drop_last(), c).push(s.last())
    }
}

/// The text with every `c` at its end taken off.
pub open spec fn trimmed_end(s: Seq<char>, c: char) -> Seq<char>
    decreases s.len(),
{
    if s.len() > 0 && s.last() == c {
        trimmed_end(s.drop_last(), c)
    } else {
        s
    }
}

/// The shape of a written duration. Trimmed and lowercased, it is empty
/// (invalid), or `H:MM` split at the first colon, each side trimmed and read as
/// an integer; otherwise, with commas read as points, a text with `h` or `m`
/// has its spaces removed and is either hours before the first `h` and, up to
/// the next `h` with trailing `m`s taken off, minutes (none where that is
/// empty), or decimal minutes with trailing `m`s taken off; anything else is a
/// plain integer of minutes.
pub open spec fn duration_shape(input: Seq<char>) -> DurationShape {
    let s = lowercase(trim(input));
    if s.len() == 0 {
        DurationShape::Invalid
    } else if s.contains(':') {
        let k = first_of(s, ':');
        match (i64_value(trim(s.take(k))), i64_value(trim(s.skip(k + 1)))) {
            (Some(h), Some(m)) => DurationShape::Clock(h, m),
            _ => DurationShape::Invalid,
        }
    } else {
        let s2 = replaced(s, ',', '.');
        if s2.contains('h') || s2.contains('m') {
            let n = without_char(s2, ' ');
            if n.contains('h') {
                let k = first_of(n, 'h');
                let rest = n.skip(k + 1);
                let second = rest.take(first_of(rest, 'h'));
                let m = trimmed_end(second, 'm');
                DurationShape::HoursAndMinutes(
                    n.take(k),
                    if m.len() == 0 {
                        None
                    } else {
                        Some(m)
                    },
                )
            } else {
                DurationShape::DecimalMinutes(trimmed_end(n, 'm'))
            }
        } else {
            match i64_value(s2) {
                Some(v) => DurationShape::Minutes(v),
                None => DurationShape::Invalid,
            }
        }
    }
}

proof fn lemma_first_of(s: Seq<char>, c: char)
    ensures
        0 <= first_of(s, c) <= s.len(),
        first_of(s, c) < s.len() ==> s[first_of(s, c)] == c,
        forall|i: int| 0 <= i < first_of(s, c) ==> s[i] != c,
        s.contains(c) <==> first_of(s, c) < s.len(),
    decreases s.len(),
{
    if s.len() > 0 && s[0] != c {
        lemma_first_of(s.skip(1), c);
        assert forall|i: int| 0 <= i < first_of(s, c) implies s[i] != c by {
            if i > 0 {
                assert(s[i] == s.skip(1)[i - 1]);
            }
        }
        if s.contains(c) {
            let j = choose|j: int| 0 <= j < s.len() && s[j] == c;
            assert(s.skip(1)[j - 1] == c);
        }
        if first_of(s, c) < s.len() {
            assert(s[first_of(s, c)] == s.skip(1)[first_of(s, c) - 1]);
        }
    }
}

/// The position of the first `c` in `v[from..]`, or `v.len()`.
fn find_char(v: &Vec<char>, from: usize, c: char) -> (r: usize)
    requires
        from <= v.len(),
    ensures
        r == from + first_of(v@.skip(from as int), c),
        from <= r <= v.len(),
{
    proof {
        lemma_first_of(v@.skip(from as int), c);
    }
    let mut i = from;
    while i < v.len()
        invariant
            from <= i <= v.len(),
            forall|j: int| from <= j < i ==> v@[j] != c,
        decreases v.len() - i,
    {
        if v[i] == c {
            proof {
                lemma_first_of(v@.skip(from as int), c);
                let f = first_of(v@.skip(from as int), c);
                if f < i - from {
                    assert(v@.skip(from as int)[f] == v@[from + f]);
                }
                if f > i - from {
                    assert(v@.skip(from as int)[i - from] == c);
                }
            }
            return i;
        }
        i = i + 1;
    }
    proof {
        lemma_first_of(v@.skip(from as int), c);
        let f = first_of(v@.skip(from as int), c);
        if f < v.len() - from {
            assert(v@.skip(from as int)[f] == v@[from + f]);
        }
    }
    v.len()
}

/// `v[from..to]` read as an `i64` by `str::parse`.
fn parse_i64(v: &Vec<char>, from: usize, to: usize) -> (r: Option<i64>)
    requires
        from <= to <= v.len(),
    ensures
        match r {
            Some(x) => i64_value(v@.subrange(from as int, to as int)) == Some(x as int),
            None => i64_value(v@.subrange(from as int, to as int)) is None,
        },
{
    let ghost s = v@.subrange(from as int, to as int);
    if from == to {
        return None;
    }
    let first = v[from];
    let has_sign = first == '+' || first == '-';
    let start = if has_sign {
        from + 1
    } else {
        from
    };
    if start == to {
        return None;
    }
    let ghost d = v@.subrange(start as int, to as int);
    proof {
        if has_sign {
            assert(s.skip(1) =~= d);
        } else {
            assert(s =~= d);
        }
    }
    let limit: i128 = if has_sign && first == '-' {
        9223372036854775808
    } else {
        9223372036854775807
    };
    let mut value: i128 = 0;
    let mut over = false;
    let mut i = start;
    while i < to
        invariant
            start <= i <= to <= v@.len(),
            from < to,
            s == v@.subrange(from as int, to as int),
            d == v@.subrange(start as int, to as int),
            first == v@[from as int],
            has_sign == (first == '+' || first == '-'),
            start == if has_sign {
                from + 1
            } else {
                from as int
            },
            has_sign ==> s.skip(1) == d,
            !has_sign ==> s == d,
            all_digit_chars(v@.subrange(start as int, i as int)),
            !over ==> value == digits_number(v@.subrange(start as int, i as int)),
            !over ==> value <= limit,
            over ==> digits_number(v@.subrange(start as int, i as int)) > limit,
            0 <= value <= 9223372036854775808,
            limit == (if has_sign && first == '-' {
                9223372036854775808int
            } else {
                9223372036854775807int
            }),
        decreases to - i,
    {
        let c = v[i];
        if !(c >= '0' && c <= '9') {
            proof {
                assert(d[i - start] == c);
                assert(!all_digit_chars(d));
                assert(s[0] == first);
            }
            return None;
        }
        let ghost prev = v@.subrange(start as int, i as int);
        proof {
            assert(v@.subrange(start as int, i + 1).drop_last() =~= prev);
            assert(v@.subrange(start as int, i + 1).last() == c);
            if over {
                assert(digits_number(prev) >= 0) by {
                    lemma_digits_nonneg(prev);
                }
            }
        }
        if !over {
            let next = value * 10 + (c as u32 - '0' as u32) as i128;
            if next > limit {
                over = true;
            } else {
                value = next;
            }
        }
        proof {
            lemma_digits_nonneg(prev);
        }
        i = i + 1;
    }
    proof {
        assert(v@.subrange(start as int, to as int) =~= d);
        assert(s[0] == first);
    }
    if over {
        return None;
    }
    if has_sign && first == '-' {
        Some((-value) as i64)
    } else {
        Some(value as i64)
    }
}

proof fn lemma_digits_nonneg(s: Seq<char>)
    requires
        all_digit_chars(s),
    ensures
        digits_number(s) >= 0,
    decreases s.len(),
{
    if s.len() > 0 {
        assert(all_digit_chars(s.drop_last())) by {
            assert forall|i: int| 0 <= i < s.drop_last().len() implies is_digit(#[trigger] s.drop_last()[i]) by {
                assert(s.drop_last()[i] == s[i]);
            }
        }
        lemma_digits_nonneg(s.drop_last());
        assert(is_digit(s[s.len() - 1]));
    }
}

/// The text with commas as points, and whether it holds an `h` or an `m`.
fn commas_as_points(s: &Vec<char>) -> (r: (Vec<char>, bool))
    ensures
        r.0@ == replaced(s@, ',', '.'),
        r.1 == (r.0@.contains('h') || r.0@.contains('m')),
{
    let mut s2: Vec<char> = Vec::new();
    let mut has_hm = false;
    let mut i: usize = 0;
    while i < s.len()
        invariant
            i <= s@.len(),
            s2@ == replaced(s@.take(i as int), ',', '.'),
            has_hm == (s2@.contains('h') || s2@.contains('m')),
        decreases s@.len() - i,
    {
        let c = if s[i] == ',' {
            '.'
        } else {
            s[i]
        };
        let ghost prev = s2@;
        s2.push(c);
        proof {
            assert(s@.take(i + 1) =~= s@.take(i as int).push(s@[i as int]));
            assert(replaced(s@.take(i + 1), ',', '.') =~= prev.push(c));
            if c == 'h' || c == 'm' {
                assert(s2@[s2@.len() - 1] == c);
            }
            if prev.contains('h') {
                let j = choose|j: int| 0 <= j < prev.len() && prev[j] == 'h';
                assert(s2@[j] == 'h');
            }
            if prev.contains('m') {
                let j = choose|j: int| 0 <= j < prev.len() && prev[j] == 'm';
                assert(s2@[j] == 'm');
            }
            if s2@.contains('h') && c != 'h' {
                let j = choose|j: int| 0 <= j < s2@.len() && s2@[j] == 'h';
                assert(prev[j] == 'h');
            }
            if s2@.contains('m') && c != 'm' {
                let j = choose|j: int| 0 <= j < s2@.len() && s2@[j] == 'm';
                assert(prev[j] == 'm');
            }
        }
        has_hm = has_hm || c == 'h' || c == 'm';
        i = i + 1;
    }
    assert(s@.take(s@.len() as int) =~= s@);
    (s2, has_hm)
}

/// The text without spaces.
fn spaces_removed(s: &Vec<char>) -> (r: Vec<char>)
    ensures
        r@ == without_char(s@, ' '),
{
    let mut n: Vec<char> = Vec::new();
    let mut j: usize = 0;
    while j < s.len()
        invariant
            j <= s@.len(),
            n@ == without_char(s@.take(j as int), ' '),
        decreases s@.len() - j,
    {
        proof {
            assert(s@.take(j + 1).drop_last() =~= s@.take(j as int));
            assert(s@.take(j + 1).last() == s@[j as int]);
        }
        if s[j] != ' ' {
            n.push(s[j]);
        }
        j = j + 1;
    }
    assert(s@.take(s@.len() as int) =~= s@);
    n
}

/// The end of `n[from..to]` once every `m` at its end is taken off.
fn end_without_m(n: &Vec<char>, from: usize, to: usize) -> (r: usize)
    requires
        from <= to <= n@.len(),
    ensures
        from <= r <= to,
        n@.subrange(from as int, r as int) == trimmed_end(n@.subrange(from as int, to as int), 'm'),
{
    let mut m_end = to;
    while m_end > from && n[m_end - 1] == 'm'
        invariant
            from <= m_end <= to <= n@.len(),
            trimmed_end(n@.subrange(from as int, to as int), 'm') == trimmed_end(
                n@.subrange(from as int, m_end as int),
                'm',
            ),
        decreases m_end,
    {
        assert(n@.subrange(from as int, m_end as int).drop_last() =~= n@.subrange(
            from as int,
            m_end - 1,
        ));
        m_end = m_end - 1;
    }
    m_end
}

/// The shape of a space-free text with an `h` or an `m`.
fn units_form(n: &Vec<char>) -> (r: DurationForm)
    ensures
        r@ == (if n@.contains('h') {
            let k = first_of(n@, 'h');
            let rest = n@.skip(k + 1);
            let second = rest.take(first_of(rest, 'h'));
            let m = trimmed_end(second, 'm');
            DurationShape::HoursAndMinutes(
                n@.take(k),
                if m.len() == 0 {
                    None
                } else {
                    Some(m)
                },
            )
        } else {
            DurationShape::DecimalMinutes(trimmed_end(n@, 'm'))
        }),
{
    let hpos = find_char(n, 0, 'h');
    proof {
        lemma_first_of(n@, 'h');
        assert(n@.skip(0) =~= n@);
    }
    if hpos < n.len() {
        let hours = string_of_range(n, 0, hpos);
        let next_h = find_char(n, hpos + 1, 'h');
        let m_end = end_without_m(n, hpos + 1, next_h);
        proof {
            let rest = n@.skip(hpos + 1);
            assert(rest.take(first_of(rest, 'h')) =~= n@.subrange(hpos + 1, next_h as int));
            assert(n@.subrange(0, hpos as int) =~= n@.take(hpos as int));
        }
        let minutes = if m_end == hpos + 1 {
            None
        } else {
            Some(string_of_range(n, hpos + 1, m_end))
        };
        DurationForm::HoursAndMinutes(hours, minutes)
    } else {
        let m_end = end_without_m(n, 0, n.len());
        assert(n@.subrange(0, n@.len() as int) =~= n@);
        DurationForm::DecimalMinutes(string_of_range(n, 0, m_end))
    }
}

/// The shape of trimmed, lowercased text holding a colon.
fn clock_form(s: &Vec<char>, colon: usize) -> (r: DurationForm)
    requires
        colon < s@.len(),
    ensures
        r@ == match (
            i64_value(trim(s@.take(colon as int))),
            i64_value(trim(s@.skip(colon + 1))),
        ) {
            (Some(h), Some(m)) => DurationShape::Clock(h, m),
            _ => DurationShape::Invalid,
        },
{
    let len = s.len();
    let (ha, hb) = trim_range(s, 0, colon);
    let (ma, mb) = trim_range(s, colon + 1, len);
    proof {
        assert(s@.subrange(0, colon as int) =~= s@.take(colon as int));
        assert(s@.subrange(colon + 1, s@.len() as int) =~= s@.skip(colon + 1));
    }
    match (parse_i64(s, ha, hb), parse_i64(s, ma, mb)) {
        (Some(h), Some(m)) => DurationForm::Clock(h, m),
        _ => DurationForm::Invalid,
    }
}

/// Reads the shape of a written duration: `1h 30m`, `1h30m`, `90m`, `1.5h`,
/// `1,5h`, `1:30`, `2h` or a plain number of minutes.
pub fn duration_form(input: &str) -> (r: DurationForm)
    ensures
        r@ == duration_shape(input@),
{
    let raw = chars_of(input);
    let (a, b) = trim_range(&raw, 0, raw.len());
    let trimmed = string_of_range(&raw, a, b);
    assert(raw@.subrange(0, raw@.len() as int) =~= input@);
    let low = to_lowercase(trimmed.as_str());
    let s = chars_of(low.as_str());
    if s.len() == 0 {
        return DurationForm::Invalid;
    }
    let colon = find_char(&s, 0, ':');
    proof {
        lemma_first_of(s@, ':');
        assert(s@.skip(0) =~= s@);
    }
    if colon < s.len() {
        return clock_form(&s, colon);
    }
    let (s2, has_hm) = commas_as_points(&s);
    if !has_hm {
        let v = parse_i64(&s2, 0, s2.len());
        assert(s2@.subrange(0, s2@.len() as int) =~= s2@);
        return match v {
            Some(v) => DurationForm::Minutes(v),
            None => DurationForm::Invalid,
        };
    }
    let n = spaces_removed(&s2);
    units_form(&n)
}

} // verus!
