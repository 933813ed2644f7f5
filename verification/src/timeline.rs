//! The timeline screen: a cursor moving through the days in steps of minutes,
//! a scroll position counted in quarter-hour slots from the midnight of a
//! centre date, and the entries of the days that have been loaded.
use vstd::prelude::*;

use std::collections::HashMap;
use std::path::PathBuf;

use crate::cache::{without, MonthCache};
use crate::calendar::{civil_of, max_day, valid_day};
use crate::config::AppConfig;
use crate::date_range::{month_of, padded_month_key, padded_month_text, DateRange};
use crate::datetime::{Date, DateTime};
use crate::files::{joined_path, FileManager};
use crate::mcp::local_today;
use crate::model::{entries_view, EntryView, TimeEntry};

verus! {

broadcast use vstd::std_specs::hash::group_hash_axioms;

/// Quarter-hour slots in a day.
pub const SLOTS_PER_DAY: i32 = 96;

pub struct TimelineState {
    pub cursor_date: Date,
    pub cursor_hour: u32,
    pub cursor_minute: u32,
    pub selected_entry: Option<usize>,
    /// The entries of each loaded day, by day number.
    pub day_entries: HashMap<i32, Vec<TimeEntry>>,
    /// Scroll position in slots, from the midnight of `center_date`.
    pub scroll_offset: i32,
    pub center_date: Date,
    /// The height of the view in slots.
    pub viewport_slots: i32,
    /// The start of a range being marked.
    pub mark_start: Option<DateTime>,
    pub file_manager: FileManager,
    pub cache: MonthCache,
}

/// The hour of the day on this machine's clock and time zone (`Local::now`); it
/// depends on the moment of the call, so only its range is stated.
#[verifier::external_body]
fn local_hour() -> (r: u32)
    ensures
        r < 24,
{
    chrono::Timelike::hour(&chrono::Local::now().time())
}

/// The date `n` days away, or the date itself where that leaves the range of dates.
pub open spec fn shifted_date(d: Date, n: int) -> Date {
    if valid_day(d.day + n) {
        Date { day: (d.day + n) as i32 }
    } else {
        d
    }
}

/// The slot of a date and time of day, counted from the midnight of `center`.
pub open spec fn slot_of(center: Date, date: Date, hour: int, minute: int) -> int {
    (date.day - center.day) * 96 + hour * 4 + minute / 15
}

/// Integer division rounding toward zero, for a positive divisor.
pub open spec fn trunc_div(a: int, b: int) -> int {
    if a >= 0 {
        a / b
    } else {
        -((-a) / b)
    }
}

/// The scroll position that keeps the cursor's slot in view: two slots of margin
/// above it, and where the view has a height, the cursor above its last two slots.
pub open spec fn scrolled_to(scroll: int, cursor_slot: int, viewport: int) -> int {
    let s1 = if cursor_slot < scroll + 2 {
        cursor_slot - 2
    } else {
        scroll
    };
    if viewport > 0 && cursor_slot >= s1 + viewport - 2 {
        cursor_slot - viewport + 4
    } else {
        s1
    }
}

/// Where the scroll has drifted more than three days from the centre, the centre
/// moves by the whole days of the drift and the scroll by as many slots back
/// (kept where the new centre would leave the range of dates).
pub open spec fn recentered(center: Date, scroll: int) -> (Date, int) {
    let drift = trunc_div(scroll, 96);
    if (drift > 3 || drift < -3) && valid_day(center.day + drift) {
        (Date { day: (center.day + drift) as i32 }, scroll - drift * 96)
    } else {
        (center, scroll)
    }
}

/// The index of the first entry from `i` on whose span covers `stamp`.
pub open spec fn covering_from(es: Seq<EntryView>, stamp: int, i: int) -> Option<usize>
    decreases es.len() - i,
{
    if i < 0 || i >= es.len() {
        None
    } else if es[i].start.stamp() <= stamp < es[i].end.stamp() {
        Some(i as usize)
    } else {
        covering_from(es, stamp, i + 1)
    }
}

/// The selected entry for a cursor: the first of its day's loaded entries that
/// covers it.
pub open spec fn selection_for(days: Map<i32, Vec<TimeEntry>>, date: Date, stamp: int) -> Option<
    usize,
> {
    if days.contains_key(date.day) {
        covering_from(entries_view(days[date.day]@), stamp, 0)
    } else {
        None
    }
}

/// The midnight stamp of `date` plus a time of day.
pub open spec fn stamp_at(date: Date, hour: int, minute: int) -> int {
    date.day * 1440 + hour * 60 + minute
}

/// The state after the cursor moved to `date`, `hour:minute`: scrolled to keep it
/// in view, recentred, and the entry under it selected; nothing else changed.
pub open spec fn moved_to(a: TimelineState, b: TimelineState, date: Date, hour: int, minute: int) -> bool {
    let cs = slot_of(a.center_date, date, hour, minute);
    let sc = scrolled_to(a.scroll_offset as int, cs, a.viewport_slots as int);
    let rc = recentered(a.center_date, sc);
    &&& b.cursor_date == date
    &&& b.cursor_hour == hour
    &&& b.cursor_minute == minute
    &&& b.center_date == rc.0
    &&& b.scroll_offset == rc.1
    &&& b.selected_entry == selection_for(a.day_entries@, date, stamp_at(date, hour, minute))
    &&& b.day_entries@ == a.day_entries@
    &&& b.viewport_slots == a.viewport_slots
    &&& b.mark_start == a.mark_start
    &&& b.file_manager == a.file_manager
    &&& b.cache == a.cache
}

/// The loaded days are unchanged.
pub open spec fn same_days(a: TimelineState, b: TimelineState) -> bool {
    &&& b.day_entries@ == a.day_entries@
    &&& b.file_manager == a.file_manager
    &&& b.cache == a.cache
}

/// The entries of a month that start on `day`.
pub open spec fn starting_on(es: Seq<EntryView>, day: int) -> Seq<EntryView>
    decreases es.len(),
{
    if es.len() == 0 {
        es
    } else if es.last().start.day == day {
        starting_on(es.drop_last(), day).push(es.last())
    } else {
        starting_on(es.drop_last(), day)
    }
}

/// The days from `center + lo` to `center + hi` that lie within the range of dates.
pub open spec fn days_between(center: Date, lo: int, hi: int) -> Seq<Date>
    decreases hi - lo + 1,
{
    if hi < lo {
        Seq::empty()
    } else if valid_day(center.day + hi) {
        days_between(center, lo, hi - 1).push(Date { day: (center.day + hi) as i32 })
    } else {
        days_between(center, lo, hi - 1)
    }
}

impl TimelineState {
    /// The cursor's slot, counted from the midnight of the centre date.
    pub open spec fn cursor_slot(&self) -> int {
        slot_of(self.center_date, self.cursor_date, self.cursor_hour as int, self.cursor_minute as int)
    }

    /// The dates are valid, the cursor is a time of day, and the cursor, the mark,
    /// the scroll and the view stay within bounds where slot counts fit in `i32`.
    pub open spec fn bounded(&self) -> bool {
        &&& self.cursor_date.wf()
        &&& self.center_date.wf()
        &&& self.cursor_hour < 24
        &&& self.cursor_minute < 60
        &&& -1_000_000 <= self.cursor_date.day - self.center_date.day <= 1_000_000
        &&& -1_000_000_000 <= self.scroll_offset <= 1_000_000_000
        &&& 0 <= self.viewport_slots <= 1_000_000
        &&& (self.mark_start matches Some(m) ==> m.wf() && -1_000_000 <= m.day - self.center_date.day
            <= 1_000_000)
    }

    /// Checks `bounded`.
    pub fn is_bounded(&self) -> (r: bool)
        ensures
            r == self.bounded(),
    {
        let d = self.cursor_date.day as i64 - self.center_date.day as i64;
        let mark_ok = match self.mark_start {
            Some(m) => {
                let md = m.day as i64 - self.center_date.day as i64;
                m.day >= -95746129 && m.day <= 95745399 && m.minute < 1440 && md >= -1_000_000
                    && md <= 1_000_000
            },
            None => true,
        };
        self.cursor_date.day >= -95746129 && self.cursor_date.day <= 95745399
            && self.center_date.day >= -95746129 && self.center_date.day <= 95745399
            && self.cursor_hour < 24 && self.cursor_minute < 60 && d >= -1_000_000 && d <= 1_000_000
            && self.scroll_offset >= -1_000_000_000 && self.scroll_offset <= 1_000_000_000
            && self.viewport_slots >= 0 && self.viewport_slots <= 1_000_000 && mark_ok
    }

    /// A timeline on `today` with the cursor at the start of `hour`, scrolled to
    /// show the two hours before it.
    pub fn new_at(data_dir: PathBuf, today: Date, hour: u32) -> (r: TimelineState)
        requires
            today.wf(),
            hour < 24,
        ensures
            r.bounded(),
            r.cache.wf(),
            r.cursor_date == today,
            r.cursor_hour == hour,
            r.cursor_minute == 0,
            r.selected_entry is None,
            r.day_entries@ == Map::<i32, Vec<TimeEntry>>::empty(),
            r.scroll_offset == (if hour >= 2 {
                hour - 2
            } else {
                0
            }) * 4,
            r.mark_start is None,
            r.center_date == today,
            r.viewport_slots == 40,
            r.file_manager.dir() == data_dir,
    {
        let initial: i32 = if hour >= 2 {
            (hour - 2) as i32
        } else {
            0
        };
        TimelineState {
            cursor_date: today,
            cursor_hour: hour,
            cursor_minute: 0,
            selected_entry: None,
            day_entries: HashMap::new(),
            scroll_offset: initial * 4,
            mark_start: None,
            center_date: today,
            viewport_slots: 40,
            file_manager: FileManager::new(data_dir),
            cache: MonthCache::default(),
        }
    }

    /// A timeline on today at the current hour of this machine's clock.
    pub fn new(data_dir: PathBuf) -> (r: TimelineState)
        ensures
            r.bounded(),
            r.cache.wf(),
            r.cursor_date == r.center_date,
            r.cursor_minute == 0,
            r.selected_entry is None,
            r.day_entries@ == Map::<i32, Vec<TimeEntry>>::empty(),
            r.scroll_offset == (if r.cursor_hour >= 2 {
                r.cursor_hour - 2
            } else {
                0
            }) * 4,
            r.mark_start is None,
            r.viewport_slots == 40,
            r.file_manager.dir() == data_dir,
    {
        let today = local_today();
        let hour = local_hour();
        Self::new_at(data_dir, today, hour)
    }

    /// The snapping step of the configuration, at least one minute.
    pub fn snap_minutes(&self, config: &AppConfig) -> (r: u32)
        ensures
            r == if config.preferences.snap_minutes >= 1 {
                config.preferences.snap_minutes
            } else {
                1
            },
    {
        if config.preferences.snap_minutes >= 1 {
            config.preferences.snap_minutes
        } else {
            1
        }
    }

    /// Keeps the entries of `month_entries` that start on `date` as that day's
    /// entries.
    pub fn insert_day(&mut self, date: Date, month_entries: Vec<TimeEntry>)
        ensures
            final(self).day_entries@.dom() == old(self).day_entries@.dom().insert(date.day),
            forall|k: i32|
                k != date.day && #[trigger] old(self).day_entries@.contains_key(k)
                    ==> final(self).day_entries@[k] == old(self).day_entries@[k],
            entries_view(final(self).day_entries@[date.day]@) == starting_on(
                entries_view(month_entries@),
                date.day as int,
            ),
            final(self).cursor_date == old(self).cursor_date,
            final(self).cursor_hour == old(self).cursor_hour,
            final(self).cursor_minute == old(self).cursor_minute,
            final(self).selected_entry == old(self).selected_entry,
            final(self).scroll_offset == old(self).scroll_offset,
            final(self).center_date == old(self).center_date,
            final(self).viewport_slots == old(self).viewport_slots,
            final(self).mark_start == old(self).mark_start,
            final(self).file_manager == old(self).file_manager,
            final(self).cache == old(self).cache,
    {
        let ghost all = entries_view(month_entries@);
        let mut day: Vec<TimeEntry> = Vec::new();
        let mut i: usize = 0;
        while i < month_entries.len()
            invariant
                i <= month_entries@.len(),
                all == entries_view(month_entries@),
                entries_view(day@) == starting_on(all.take(i as int), date.day as int),
            decreases month_entries@.len() - i,
        {
            let e = month_entries[i].duplicate();
            proof {
                assert(all.take(i + 1) =~= all.take(i as int).push(all[i as int]));
                assert(all.take(i as int).push(all[i as int]).drop_last() =~= all.take(i as int));
            }
            if e.start.day == date.day {
                day.push(e);
                assert(entries_view(day@) =~= starting_on(all.take(i as int), date.day as int).push(all[i as int]));
            }
            i = i + 1;
        }
        assert(all.take(month_entries@.len() as int) =~= all);
        self.day_entries.insert(date.day, day);
    }

    /// The days to load around the scroll position for a view of `visible_slots`:
    /// from the day before the first visible slot to the day after the last.
    pub fn days_to_preload(&self, visible_slots: i32) -> (r: Vec<Date>)
        requires
            self.center_date.wf(),
            -1_000_000_000 <= self.scroll_offset <= 1_000_000_000,
            0 <= visible_slots <= 1_000_000_000,
        ensures
            r@ == days_between(
                self.center_date,
                (self.scroll_offset as int) / 96 - 1,
                (self.scroll_offset + visible_slots) / 96 + 1,
            ),
    {
        let start_slot = self.scroll_offset;
        let end_slot = self.scroll_offset + visible_slots;
        let lo = floor_div_96(start_slot) as i64 - 1;
        let hi = floor_div_96(end_slot) as i64 + 1;
        proof {
            vstd::arithmetic::div_mod::lemma_div_is_ordered(
                start_slot as int,
                end_slot as int,
                96,
            );
        }
        let mut out: Vec<Date> = Vec::new();
        let mut off: i64 = lo;
        while off <= hi
            invariant
                lo <= off <= hi + 1,
                self.center_date.wf(),
                -30_000_000 <= lo <= hi <= 30_000_000,
                out@ == days_between(self.center_date, lo as int, off - 1),
            decreases hi - off + 1,
        {
            match self.center_date.add_days(off) {
                Some(d) => {
                    out.push(d);
                },
                None => {},
            }
            off = off + 1;
        }
        out
    }

    /// The date, hour and minute of a slot.
    pub fn slot_to_datetime(&self, slot: i32) -> (r: (Date, u32, u32))
        requires
            self.center_date.wf(),
        ensures
            r.0 == shifted_date(self.center_date, slot as int / 96),
            r.1 == (slot as int % 96) / 4,
            r.2 == (slot as int % 96) % 4 * 15,
    {
        let day_offset = floor_div_96(slot);
        let slot_in_day = (slot as i64 - day_offset as i64 * 96) as u32;
        let hour = slot_in_day / 4;
        let minute = (slot_in_day % 4) * 15;
        let date = match self.center_date.add_days(day_offset as i64) {
            Some(d) => d,
            None => self.center_date,
        };
        (date, hour, minute)
    }

    /// The cursor's slot.
    pub fn cursor_to_slot(&self) -> (r: i32)
        requires
            -20_000_000 <= self.cursor_date.day - self.center_date.day <= 20_000_000,
            self.cursor_hour < 24,
            self.cursor_minute < 60,
        ensures
            r == self.cursor_slot(),
    {
        let days = (self.cursor_date.day as i64 - self.center_date.day as i64) as i32;
        days * SLOTS_PER_DAY + (self.cursor_hour as i32) * 4 + (self.cursor_minute as i32 / 15)
    }

    /// The cursor as a date-time.
    pub fn cursor_datetime(&self) -> (r: DateTime)
        requires
            self.cursor_hour < 24,
            self.cursor_minute < 60,
        ensures
            r.day == self.cursor_date.day,
            r.minute == 60 * self.cursor_hour + self.cursor_minute,
    {
        self.cursor_date.at(self.cursor_hour, self.cursor_minute)
    }

    /// Selects the first loaded entry of the cursor's day that covers the cursor.
    fn update_selection(&mut self)
        requires
            old(self).cursor_hour < 24,
            old(self).cursor_minute < 60,
        ensures
            final(self).selected_entry == selection_for(
                old(self).day_entries@,
                old(self).cursor_date,
                stamp_at(
                    old(self).cursor_date,
                    old(self).cursor_hour as int,
                    old(self).cursor_minute as int,
                ),
            ),
            final(self).cursor_date == old(self).cursor_date,
            final(self).cursor_hour == old(self).cursor_hour,
            final(self).cursor_minute == old(self).cursor_minute,
            final(self).scroll_offset == old(self).scroll_offset,
            final(self).center_date == old(self).center_date,
            final(self).viewport_slots == old(self).viewport_slots,
            final(self).mark_start == old(self).mark_start,
            same_days(*old(self), *final(self)),
    {
        let cursor_dt = self.cursor_datetime();
        let found = match self.day_entries.get(&self.cursor_date.day) {
            Some(entries) => first_covering(entries, &cursor_dt),
            None => None,
        };
        self.selected_entry = found;
    }

    /// Where the scroll has drifted more than three days from the centre, moves the
    /// centre by those days.
    fn recenter_if_needed(&mut self)
        requires
            old(self).center_date.wf(),
            -2_100_000_000 <= old(self).scroll_offset,
        ensures
            (final(self).center_date, final(self).scroll_offset as int) == recentered(
                old(self).center_date,
                old(self).scroll_offset as int,
            ),
            final(self).center_date.wf(),
            final(self).cursor_date == old(self).cursor_date,
            final(self).cursor_hour == old(self).cursor_hour,
            final(self).cursor_minute == old(self).cursor_minute,
            final(self).selected_entry == old(self).selected_entry,
            final(self).viewport_slots == old(self).viewport_slots,
            final(self).mark_start == old(self).mark_start,
            same_days(*old(self), *final(self)),
    {
        let drift: i32 = if self.scroll_offset >= 0 {
            self.scroll_offset / SLOTS_PER_DAY
        } else {
            -((-self.scroll_offset) / SLOTS_PER_DAY)
        };
        if drift > 3 || drift < -3 {
            match self.center_date.add_days(drift as i64) {
                Some(new_center) => {
                    self.center_date = new_center;
                    self.scroll_offset = self.scroll_offset - drift * SLOTS_PER_DAY;
                },
                None => {},
            }
        }
    }

    /// Scrolls so that the cursor is in view, then recentres.
    fn ensure_cursor_visible(&mut self)
        requires
            old(self).center_date.wf(),
            old(self).cursor_hour < 24,
            old(self).cursor_minute < 60,
            -2_000_000 <= old(self).cursor_date.day - old(self).center_date.day <= 2_000_000,
            -1_000_000_000 <= old(self).scroll_offset <= 1_000_000_000,
            0 <= old(self).viewport_slots <= 1_000_000,
        ensures
            ({
                let sc = scrolled_to(
                    old(self).scroll_offset as int,
                    old(self).cursor_slot(),
                    old(self).viewport_slots as int,
                );
                (final(self).center_date, final(self).scroll_offset as int) == recentered(
                    old(self).center_date,
                    sc,
                )
            }),
            final(self).center_date.wf(),
            final(self).cursor_date == old(self).cursor_date,
            final(self).cursor_hour == old(self).cursor_hour,
            final(self).cursor_minute == old(self).cursor_minute,
            final(self).selected_entry == old(self).selected_entry,
            final(self).viewport_slots == old(self).viewport_slots,
            final(self).mark_start == old(self).mark_start,
            same_days(*old(self), *final(self)),
    {
        let cursor_slot = self.cursor_to_slot();
        let vp = self.viewport_slots;
        if cursor_slot < self.scroll_offset + 2 {
            self.scroll_offset = cursor_slot - 2;
        }
        if vp > 0 && cursor_slot >= self.scroll_offset + vp - 2 {
            self.scroll_offset = cursor_slot - vp + 4;
        }
        self.recenter_if_needed();
    }

    /// Moves the cursor to a date and time of day, keeps it in view and selects
    /// the entry under it.
    fn move_cursor(&mut self, date: Date, hour: u32, minute: u32)
        requires
            old(self).bounded(),
            date.wf(),
            -1_000_010 <= date.day - old(self).center_date.day <= 1_000_010,
            hour < 24,
            minute < 60,
        ensures
            moved_to(*old(self), *final(self), date, hour as int, minute as int),
    {
        self.cursor_date = date;
        self.cursor_hour = hour;
        self.cursor_minute = minute;
        self.ensure_cursor_visible();
        self.update_selection();
    }

    /// Moves the cursor `snap` minutes earlier, into the day before where it
    /// crosses midnight.
    pub fn navigate_up(&mut self, snap: u32)
        requires
            old(self).bounded(),
            snap <= old(self).cursor_hour * 60 + old(self).cursor_minute + 1440,
        ensures
            ({
                let total = old(self).cursor_hour * 60 + old(self).cursor_minute - snap;
                if total < 0 {
                    moved_to(
                        *old(self),
                        *final(self),
                        shifted_date(old(self).cursor_date, -1),
                        (1440 + total) / 60,
                        (1440 + total) % 60,
                    )
                } else {
                    moved_to(*old(self), *final(self), old(self).cursor_date, total / 60, total % 60)
                }
            }),
    {
        let total: i64 = self.cursor_hour as i64 * 60 + self.cursor_minute as i64 - snap as i64;
        if total < 0 {
            let date = self.prev_day();
            let wrapped = (24 * 60 + total) as u32;
            self.move_cursor(date, wrapped / 60, wrapped % 60);
        } else {
            let date = self.cursor_date;
            self.move_cursor(date, total as u32 / 60, total as u32 % 60);
        }
    }

    /// Moves the cursor `snap` minutes later, into the next day where it crosses
    /// midnight.
    pub fn navigate_down(&mut self, snap: u32)
        requires
            old(self).bounded(),
            old(self).cursor_hour * 60 + old(self).cursor_minute + snap < 2880,
        ensures
            ({
                let total = old(self).cursor_hour * 60 + old(self).cursor_minute + snap;
                if total >= 1440 {
                    moved_to(
                        *old(self),
                        *final(self),
                        shifted_date(old(self).cursor_date, 1),
                        (total - 1440) / 60,
                        (total - 1440) % 60,
                    )
                } else {
                    moved_to(*old(self), *final(self), old(self).cursor_date, total / 60, total % 60)
                }
            }),
    {
        let total = self.cursor_hour * 60 + self.cursor_minute + snap;
        if total >= 24 * 60 {
            let date = self.next_day();
            let wrapped = total - 24 * 60;
            self.move_cursor(date, wrapped / 60, wrapped % 60);
        } else {
            let date = self.cursor_date;
            self.move_cursor(date, total / 60, total % 60);
        }
    }

    /// The day before the cursor's, or the cursor's at the first date.
    fn prev_day(&self) -> (r: Date)
        requires
            self.cursor_date.wf(),
        ensures
            r == shifted_date(self.cursor_date, -1),
            r.wf(),
    {
        match self.cursor_date.add_days(-1) {
            Some(d) => d,
            None => self.cursor_date,
        }
    }

    /// The day after the cursor's, or the cursor's at the last date.
    fn next_day(&self) -> (r: Date)
        requires
            self.cursor_date.wf(),
        ensures
            r == shifted_date(self.cursor_date, 1),
            r.wf(),
    {
        match self.cursor_date.add_days(1) {
            Some(d) => d,
            None => self.cursor_date,
        }
    }

    /// The cursor's date `n` days away, or the cursor's where that leaves the dates.
    fn day_shifted(&self, n: i64) -> (r: Date)
        requires
            self.cursor_date.wf(),
            -7 <= n <= 7,
        ensures
            r == shifted_date(self.cursor_date, n as int),
            r.wf(),
    {
        match self.cursor_date.add_days(n) {
            Some(d) => d,
            None => self.cursor_date,
        }
    }

    pub fn navigate_left(&mut self)
        requires
            old(self).bounded(),
        ensures
            moved_to(
                *old(self),
                *final(self),
                shifted_date(old(self).cursor_date, -1),
                old(self).cursor_hour as int,
                old(self).cursor_minute as int,
            ),
    {
        let date = self.day_shifted(-1);
        let (h, m) = (self.cursor_hour, self.cursor_minute);
        self.move_cursor(date, h, m);
    }

    pub fn navigate_right(&mut self)
        requires
            old(self).bounded(),
        ensures
            moved_to(
                *old(self),
                *final(self),
                shifted_date(old(self).cursor_date, 1),
                old(self).cursor_hour as int,
                old(self).cursor_minute as int,
            ),
    {
        let date = self.day_shifted(1);
        let (h, m) = (self.cursor_hour, self.cursor_minute);
        self.move_cursor(date, h, m);
    }

    /// A week earlier.
    pub fn scroll_week_left(&mut self)
        requires
            old(self).bounded(),
        ensures
            moved_to(
                *old(self),
                *final(self),
                shifted_date(old(self).cursor_date, -7),
                old(self).cursor_hour as int,
                old(self).cursor_minute as int,
            ),
    {
        let date = self.day_shifted(-7);
        let (h, m) = (self.cursor_hour, self.cursor_minute);
        self.move_cursor(date, h, m);
    }

    /// A week later.
    pub fn scroll_week_right(&mut self)
        requires
            old(self).bounded(),
        ensures
            moved_to(
                *old(self),
                *final(self),
                shifted_date(old(self).cursor_date, 7),
                old(self).cursor_hour as int,
                old(self).cursor_minute as int,
            ),
    {
        let date = self.day_shifted(7);
        let (h, m) = (self.cursor_hour, self.cursor_minute);
        self.move_cursor(date, h, m);
    }

    /// Moves the cursor up by the view's height (fifteen minutes a slot).
    pub fn page_up(&mut self)
        requires
            old(self).bounded(),
            old(self).viewport_slots * 15 <= old(self).cursor_hour * 60 + old(self).cursor_minute
                + 1440,
        ensures
            ({
                let total = old(self).cursor_hour * 60 + old(self).cursor_minute
                    - old(self).viewport_slots * 15;
                if total < 0 {
                    moved_to(
                        *old(self),
                        *final(self),
                        shifted_date(old(self).cursor_date, -1),
                        (1440 + total) / 60,
                        (1440 + total) % 60,
                    )
                } else {
                    moved_to(*old(self), *final(self), old(self).cursor_date, total / 60, total % 60)
                }
            }),
    {
        let jump = (self.viewport_slots * 15) as u32;
        self.navigate_up(jump);
    }

    /// Moves the cursor down by the view's height (fifteen minutes a slot).
    pub fn page_down(&mut self)
        requires
            old(self).bounded(),
            old(self).cursor_hour * 60 + old(self).cursor_minute + old(self).viewport_slots * 15
                < 2880,
        ensures
            ({
                let total = old(self).cursor_hour * 60 + old(self).cursor_minute
                    + old(self).viewport_slots * 15;
                if total >= 1440 {
                    moved_to(
                        *old(self),
                        *final(self),
                        shifted_date(old(self).cursor_date, 1),
                        (total - 1440) / 60,
                        (total - 1440) % 60,
                    )
                } else {
                    moved_to(*old(self), *final(self), old(self).cursor_date, total / 60, total % 60)
                }
            }),
    {
        let jump = (self.viewport_slots * 15) as u32;
        self.navigate_down(jump);
    }

    /// Scrolls the view up by `lines` slots, then recentres.
    pub fn mouse_scroll_up(&mut self, lines: u32)
        requires
            old(self).bounded(),
            lines <= 1_000_000_000,
        ensures
            (final(self).center_date, final(self).scroll_offset as int) == recentered(
                old(self).center_date,
                old(self).scroll_offset - lines,
            ),
            final(self).cursor_date == old(self).cursor_date,
            final(self).cursor_hour == old(self).cursor_hour,
            final(self).cursor_minute == old(self).cursor_minute,
            final(self).selected_entry == old(self).selected_entry,
            final(self).viewport_slots == old(self).viewport_slots,
            final(self).mark_start == old(self).mark_start,
            same_days(*old(self), *final(self)),
    {
        self.scroll_offset = self.scroll_offset - lines as i32;
        self.recenter_if_needed();
    }

    /// Scrolls the view down by `lines` slots, then recentres.
    pub fn mouse_scroll_down(&mut self, lines: u32)
        requires
            old(self).bounded(),
            lines <= 1_000_000_000,
        ensures
            (final(self).center_date, final(self).scroll_offset as int) == recentered(
                old(self).center_date,
                old(self).scroll_offset + lines,
            ),
            final(self).cursor_date == old(self).cursor_date,
            final(self).cursor_hour == old(self).cursor_hour,
            final(self).cursor_minute == old(self).cursor_minute,
            final(self).selected_entry == old(self).selected_entry,
            final(self).viewport_slots == old(self).viewport_slots,
            final(self).mark_start == old(self).mark_start,
            same_days(*old(self), *final(self)),
    {
        self.scroll_offset = self.scroll_offset + lines as i32;
        self.recenter_if_needed();
    }

    /// Puts the cursor on `today` at the start of `hour`, centred there and
    /// scrolled to show the two hours before, and selects the entry under it.
    pub fn jump_to_today_at(&mut self, today: Date, hour: u32)
        requires
            today.wf(),
            hour < 24,
        ensures
            final(self).cursor_date == today,
            final(self).cursor_hour == hour,
            final(self).cursor_minute == 0,
            final(self).center_date == today,
            final(self).scroll_offset == (if hour >= 2 {
                hour - 2
            } else {
                0
            }) * 4,
            final(self).selected_entry == selection_for(
                old(self).day_entries@,
                today,
                stamp_at(today, hour as int, 0),
            ),
            final(self).viewport_slots == old(self).viewport_slots,
            final(self).mark_start == old(self).mark_start,
            same_days(*old(self), *final(self)),
    {
        self.cursor_date = today;
        self.cursor_hour = hour;
        self.cursor_minute = 0;
        self.center_date = today;
        let initial: i32 = if hour >= 2 {
            (hour - 2) as i32
        } else {
            0
        };
        self.scroll_offset = initial * 4;
        self.update_selection();
    }

    /// Puts the cursor on today at the current hour of this machine's clock.
    pub fn jump_to_today(&mut self)
        ensures
            final(self).cursor_date == final(self).center_date,
            final(self).cursor_date.wf(),
            final(self).cursor_hour < 24,
            final(self).cursor_minute == 0,
            final(self).scroll_offset == (if final(self).cursor_hour >= 2 {
                final(self).cursor_hour - 2
            } else {
                0
            }) * 4,
            final(self).selected_entry == selection_for(
                old(self).day_entries@,
                final(self).cursor_date,
                stamp_at(final(self).cursor_date, final(self).cursor_hour as int, 0),
            ),
            final(self).viewport_slots == old(self).viewport_slots,
            final(self).mark_start == old(self).mark_start,
            same_days(*old(self), *final(self)),
    {
        let today = local_today();
        let hour = local_hour();
        self.jump_to_today_at(today, hour);
    }

    /// The selected entry of the cursor's day.
    pub fn selected_time_entry(&self) -> (r: Option<&TimeEntry>)
        ensures
            r == match self.selected_entry {
                Some(i) => if self.day_entries@.contains_key(self.cursor_date.day) && (i as int)
                    < self.day_entries@[self.cursor_date.day]@.len() {
                    Some(&self.day_entries@[self.cursor_date.day]@[i as int])
                } else {
                    None
                },
                None => None,
            },
    {
        match self.day_entries.get(&self.cursor_date.day) {
            Some(entries) => match self.selected_entry {
                Some(i) => if i < entries.len() {
                    Some(&entries[i])
                } else {
                    None
                },
                None => None,
            },
            None => None,
        }
    }

    /// The slots of the marked range and the cursor, the earlier first; `None`
    /// where no mark is set.
    pub fn mark_range_slots(&self) -> (r: Option<(i32, i32)>)
        requires
            self.bounded(),
        ensures
            match self.mark_start {
                Some(m) => {
                    let ms = slot_of(
                        self.center_date,
                        Date { day: m.day },
                        m.minute as int / 60,
                        m.minute as int % 60,
                    );
                    let cs = self.cursor_slot();
                    r == Some(
                        (
                            if ms <= cs {
                                ms as i32
                            } else {
                                cs as i32
                            },
                            if ms <= cs {
                                cs as i32
                            } else {
                                ms as i32
                            },
                        ),
                    )
                },
                None => r is None,
            },
    {
        match self.mark_start {
            Some(m) => {
                let days = (m.day as i64 - self.center_date.day as i64) as i32;
                let mark_slot = days * SLOTS_PER_DAY + (m.hour() as i32) * 4 + (m.minute_of_hour()
                    as i32) / 15;
                let cursor_slot = self.cursor_to_slot();
                if mark_slot <= cursor_slot {
                    Some((mark_slot, cursor_slot))
                } else {
                    Some((cursor_slot, mark_slot))
                }
            },
            None => None,
        }
    }

    pub fn data_dir(&self) -> (r: PathBuf)
        ensures
            r == self.file_manager.dir(),
    {
        self.file_manager.dir_owned()
    }

    /// Forgets the month of `date`: drops it from the cache and drops its loaded days.
    pub fn invalidate_month(&mut self, date: Date)
        requires
            date.wf(),
            old(self).cache.wf(),
        ensures
            final(self).cache.wf(),
            final(self).cache.slots() == without(
                old(self).cache.slots(),
                padded_month_text(date.civil()),
            ),
            final(self).day_entries@ == old(self).day_entries@.remove_keys(
                Set::new(|k: i32| month_of(date.day as int).0 <= k <= month_of(date.day as int).1),
            ),
            final(self).cursor_date == old(self).cursor_date,
            final(self).cursor_hour == old(self).cursor_hour,
            final(self).cursor_minute == old(self).cursor_minute,
            final(self).selected_entry == old(self).selected_entry,
            final(self).scroll_offset == old(self).scroll_offset,
            final(self).center_date == old(self).center_date,
            final(self).viewport_slots == old(self).viewport_slots,
            final(self).mark_start == old(self).mark_start,
            final(self).file_manager == old(self).file_manager,
    {
        let key = padded_month_key(&date);
        self.cache.invalidate(key.as_str());
        let first = DateRange::first_of_month(date);
        let (y, m, _dd) = date.ymd();
        let last: i32 = if !(m == 12 && y >= 262142) {
            DateRange::month_containing(date).end.day
        } else {
            proof {
                lemma_last_month_ends_at_max(date.day as int);
            }
            95745399
        };
        let ghost before = self.day_entries@;
        let ghost after_cache = self.cache;
        let ghost fixed = *self;
        let ghost month = Set::new(
            |k: i32| month_of(date.day as int).0 <= k <= month_of(date.day as int).1,
        );
        let mut d: i32 = first.day;
        while d <= last
            invariant
                first.day == month_of(date.day as int).0,
                last == month_of(date.day as int).1,
                first.day <= d <= last + 1,
                last <= 95745399,
                month == Set::new(
                    |k: i32| month_of(date.day as int).0 <= k <= month_of(date.day as int).1,
                ),
                self.day_entries@ == before.remove_keys(Set::new(|k: i32| first.day <= k < d)),
                self.cache == after_cache,
                self.cursor_date == fixed.cursor_date,
                self.cursor_hour == fixed.cursor_hour,
                self.cursor_minute == fixed.cursor_minute,
                self.selected_entry == fixed.selected_entry,
                self.scroll_offset == fixed.scroll_offset,
                self.center_date == fixed.center_date,
                self.viewport_slots == fixed.viewport_slots,
                self.mark_start == fixed.mark_start,
                self.file_manager == fixed.file_manager,
            decreases last - d + 1,
        {
            self.day_entries.remove(&d);
            assert(before.remove_keys(Set::new(|k: i32| first.day <= k < d)).remove(d)
                =~= before.remove_keys(Set::new(|k: i32| first.day <= k < d + 1)));
            d = d + 1;
        }
        assert(Set::new(|k: i32| first.day <= k < d) =~= month);
    }
}

/// The month of the last date that can be held ends on that date.
proof fn lemma_last_month_ends_at_max(day: int)
    requires
        crate::calendar::valid_civil(civil_of(day).0, civil_of(day).1, civil_of(day).2),
        civil_of(day).1 == 12,
        civil_of(day).0 >= 262142,
    ensures
        month_of(day).1 == max_day(),
{
    let c = civil_of(day);
    assert(c.0 == 262142);
    assert(crate::calendar::days_from_ce(262142, 12, 31) == 95745399);
}

/// `slot.div_euclid(96)`.
fn floor_div_96(slot: i32) -> (r: i32)
    ensures
        r == slot as int / 96,
{
    let q = slot / 96;
    let rem = slot % 96;
    if rem < 0 {
        q - 1
    } else {
        q
    }
}

/// The index of the first entry whose span covers `dt`.
fn first_covering(entries: &Vec<TimeEntry>, dt: &DateTime) -> (r: Option<usize>)
    ensures
        r == covering_from(entries_view(entries@), dt.stamp(), 0),
{
    let ghost es = entries_view(entries@);
    let stamp = dt.stamp_value();
    let mut i: usize = 0;
    while i < entries.len()
        invariant
            i <= entries@.len(),
            es == entries_view(entries@),
            stamp == dt.stamp(),
            covering_from(es, dt.stamp(), 0) == covering_from(es, dt.stamp(), i as int),
        decreases entries@.len() - i,
    {
        let e = &entries[i];
        if e.start.stamp_value() <= stamp && stamp < e.end.stamp_value() {
            return Some(i);
        }
        i = i + 1;
    }
    None
}

/// The rows of the view that an entry's card covers, as (first row, height):
/// from the slot of its start (rounded down to a quarter hour) to that of its
/// end (rounded up), clipped to the view and at least one row high; `None`
/// where the card lies outside the view. Slots count from `day_base_slot`, the
/// slot of the midnight of the entry's day.
pub open spec fn card_rows_of(day_base_slot: int, start_minute: int, end_minute: int, scroll: int, visible: int) -> Option<(int, int)> {
    let first = day_base_slot + (start_minute / 60) * 4 + (start_minute % 60) / 15;
    let last = day_base_slot + (end_minute / 60) * 4 + ((end_minute % 60) + 14) / 15;
    if last <= scroll || first >= scroll + visible {
        None
    } else {
        let top = if first - scroll > 0 {
            first - scroll
        } else {
            0
        };
        let bottom = if last - scroll < visible {
            last - scroll
        } else {
            visible
        };
        Some((top, if bottom - top > 1 {
            bottom - top
        } else {
            1
        }))
    }
}

/// Where an entry's card goes in a view of `visible_rows` rows scrolled to
/// `scroll_offset`: its first row and height.
pub fn card_rows(
    day_base_slot: i32,
    start_minute: u32,
    end_minute: u32,
    scroll_offset: i32,
    visible_rows: i32,
) -> (r: Option<(u16, u16)>)
    requires
        start_minute < 1440,
        end_minute < 1440,
        -1_000_000_000 <= day_base_slot <= 1_000_000_000,
        -1_000_000_000 <= scroll_offset <= 1_000_000_000,
        0 <= visible_rows <= 65535,
    ensures
        match card_rows_of(
            day_base_slot as int,
            start_minute as int,
            end_minute as int,
            scroll_offset as int,
            visible_rows as int,
        ) {
            Some((top, height)) => r == Some((top as u16, height as u16)),
            None => r is None,
        },
{
    let first = day_base_slot + (start_minute / 60) as i32 * 4 + ((start_minute % 60) / 15) as i32;
    let last = day_base_slot + (end_minute / 60) as i32 * 4 + ((end_minute % 60 + 14) / 15) as i32;
    if last <= scroll_offset || first >= scroll_offset + visible_rows {
        return None;
    }
    let top = if first - scroll_offset > 0 {
        first - scroll_offset
    } else {
        0
    };
    let bottom = if last - scroll_offset < visible_rows {
        last - scroll_offset
    } else {
        visible_rows
    };
    let height = if bottom - top > 1 {
        bottom - top
    } else {
        1
    };
    Some((top as u16, height as u16))
}

} // verus!
