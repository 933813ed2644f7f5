//! The reports screen: the chosen range, the report for it, and which clients
//! and projects are unfolded, read as a list of rows.
use vstd::prelude::*;

use std::path::PathBuf;

use crate::cache::MonthCache;
use crate::config::AppConfig;
use crate::date_range::{preset_range, DateRange, TimeRangePreset};
use crate::datetime::Date;
use crate::files::FileManager;
use crate::mcp::{check_presets_defined, local_today, presets_defined};
use crate::model::{all_wf, entries_view, TimeEntry};
use crate::report::{abs_total, generate_report, report_lines, ClientReport, ProjectReport};

verus! {

/// A row of the reports table: a client, one of its projects, or one of that
/// project's activities, by position.
#[derive(Debug, Clone, Copy, PartialEq, Eq, Structural)]
pub enum VisibleRow {
    Client(usize),
    Project(usize, usize),
    Activity(usize, usize, usize),
}

pub struct ReportsState {
    pub preset: TimeRangePreset,
    pub range: DateRange,
    pub reports: Vec<ClientReport>,
    pub expanded_clients: Vec<bool>,
    pub expanded_projects: Vec<Vec<bool>>,
    pub scroll_offset: usize,
    pub selected_row: usize,
    pub needs_refresh: bool,
    pub file_manager: FileManager,
    pub cache: MonthCache,
}

/// The flags of each client's projects.
pub open spec fn flags(ep: Seq<Vec<bool>>) -> Seq<Seq<bool>> {
    ep.map_values(|v: Vec<bool>| v@)
}

/// For each client, the number of activities of each of its projects.
pub open spec fn shape_of(reports: Seq<ClientReport>) -> Seq<Seq<int>> {
    reports.map_values(
        |c: ClientReport|
            c.project_breakdown@.map_values(|p: ProjectReport| p.activity_breakdown@.len() as int),
    )
}

/// A client is unfolded where its flag exists and is set.
pub open spec fn client_open(ec: Seq<bool>, ci: int) -> bool {
    0 <= ci < ec.len() && ec[ci]
}

/// A project is unfolded where its flag exists and is set.
pub open spec fn project_open(ep: Seq<Seq<bool>>, ci: int, pi: int) -> bool {
    0 <= ci < ep.len() && 0 <= pi < ep[ci].len() && ep[ci][pi]
}

pub open spec fn activity_rows(ci: int, pi: int, n: int) -> Seq<VisibleRow> {
    Seq::new(n as nat, |ai: int| VisibleRow::Activity(ci as usize, pi as usize, ai as usize))
}

/// The rows of the first `k` projects of client `ci`: each project, then its
/// activities where it is unfolded.
pub open spec fn project_rows(shape: Seq<Seq<int>>, ep: Seq<Seq<bool>>, ci: int, k: int) -> Seq<
    VisibleRow,
>
    decreases k,
{
    if k <= 0 {
        Seq::empty()
    } else {
        project_rows(shape, ep, ci, k - 1) + seq![VisibleRow::Project(ci as usize, (k - 1) as usize)]
            + if project_open(ep, ci, k - 1) {
            activity_rows(ci, k - 1, shape[ci][k - 1])
        } else {
            Seq::empty()
        }
    }
}

/// The rows of the first `k` clients: each client, then its projects' rows
/// where it is unfolded.
pub open spec fn client_rows(shape: Seq<Seq<int>>, ec: Seq<bool>, ep: Seq<Seq<bool>>, k: int) -> Seq<
    VisibleRow,
>
    decreases k,
{
    if k <= 0 {
        Seq::empty()
    } else {
        client_rows(shape, ec, ep, k - 1) + seq![VisibleRow::Client((k - 1) as usize)]
            + if client_open(ec, k - 1) {
            project_rows(shape, ep, k - 1, shape[k - 1].len() as int)
        } else {
            Seq::empty()
        }
    }
}

proof fn lemma_project_rows_prefix(shape: Seq<Seq<int>>, ep: Seq<Seq<bool>>, ci: int, k: int, m: int)
    requires
        0 <= k <= m,
    ensures
        project_rows(shape, ep, ci, k).len() <= project_rows(shape, ep, ci, m).len(),
        forall|i: int|
            0 <= i < project_rows(shape, ep, ci, k).len() ==> #[trigger] project_rows(
                shape,
                ep,
                ci,
                m,
            )[i] == project_rows(shape, ep, ci, k)[i],
    decreases m - k,
{
    if k < m {
        lemma_project_rows_prefix(shape, ep, ci, k, m - 1);
    }
}

proof fn lemma_client_rows_prefix(shape: Seq<Seq<int>>, ec: Seq<bool>, ep: Seq<Seq<bool>>, k: int, m: int)
    requires
        0 <= k <= m,
    ensures
        client_rows(shape, ec, ep, k).len() <= client_rows(shape, ec, ep, m).len(),
        forall|i: int|
            0 <= i < client_rows(shape, ec, ep, k).len() ==> #[trigger] client_rows(
                shape,
                ec,
                ep,
                m,
            )[i] == client_rows(shape, ec, ep, k)[i],
    decreases m - k,
{
    if k < m {
        lemma_client_rows_prefix(shape, ec, ep, k, m - 1);
    }
}

/// The preset that follows in the cycle Today, Yesterday, This Week, Last Week,
/// This Month, Last Month (Custom goes to Today).
pub open spec fn preset_after(p: TimeRangePreset) -> TimeRangePreset {
    match p {
        TimeRangePreset::Today => TimeRangePreset::Yesterday,
        TimeRangePreset::Yesterday => TimeRangePreset::ThisWeek,
        TimeRangePreset::ThisWeek => TimeRangePreset::LastWeek,
        TimeRangePreset::LastWeek => TimeRangePreset::ThisMonth,
        TimeRangePreset::ThisMonth => TimeRangePreset::LastMonth,
        TimeRangePreset::LastMonth => TimeRangePreset::Today,
        TimeRangePreset::Custom => TimeRangePreset::Today,
    }
}

/// The preset before in the same cycle (Custom goes to Today).
pub open spec fn preset_before(p: TimeRangePreset) -> TimeRangePreset {
    match p {
        TimeRangePreset::Today => TimeRangePreset::LastMonth,
        TimeRangePreset::Yesterday => TimeRangePreset::Today,
        TimeRangePreset::ThisWeek => TimeRangePreset::Yesterday,
        TimeRangePreset::LastWeek => TimeRangePreset::ThisWeek,
        TimeRangePreset::ThisMonth => TimeRangePreset::LastWeek,
        TimeRangePreset::LastMonth => TimeRangePreset::ThisMonth,
        TimeRangePreset::Custom => TimeRangePreset::Today,
    }
}

pub open spec fn preset_label(p: TimeRangePreset) -> Seq<char> {
    match p {
        TimeRangePreset::Today => "Today"@,
        TimeRangePreset::Yesterday => "Yesterday"@,
        TimeRangePreset::ThisWeek => "This Week"@,
        TimeRangePreset::LastWeek => "Last Week"@,
        TimeRangePreset::ThisMonth => "This Month"@,
        TimeRangePreset::LastMonth => "Last Month"@,
        TimeRangePreset::Custom => "Custom"@,
    }
}

/// The week starts on Sunday in the configuration.
pub open spec fn sunday_first(config: AppConfig) -> bool {
    config.preferences.week_start@ == "sunday"@
}

/// Everything but the fold flags is the same.
pub open spec fn same_but_flags(a: ReportsState, b: ReportsState) -> bool {
    &&& a.preset == b.preset
    &&& a.range == b.range
    &&& a.reports@ == b.reports@
    &&& a.scroll_offset == b.scroll_offset
    &&& a.selected_row == b.selected_row
    &&& a.needs_refresh == b.needs_refresh
    &&& a.file_manager == b.file_manager
    &&& a.cache == b.cache
}

/// Only the preset, the range and the position changed, as a new preset does.
pub open spec fn preset_set(a: ReportsState, b: ReportsState, preset: TimeRangePreset) -> bool {
    &&& b.preset == preset
    &&& b.needs_refresh
    &&& b.selected_row == 0
    &&& b.scroll_offset == 0
    &&& a.reports@ == b.reports@
    &&& a.expanded_clients@ == b.expanded_clients@
    &&& flags(a.expanded_projects@) == flags(b.expanded_projects@)
    &&& a.file_manager == b.file_manager
    &&& a.cache == b.cache
}

impl ReportsState {
    /// The rows shown, in order.
    pub open spec fn rows(&self) -> Seq<VisibleRow> {
        client_rows(
            shape_of(self.reports@),
            self.expanded_clients@,
            flags(self.expanded_projects@),
            self.reports@.len() as int,
        )
    }

    /// The month cache is in order.
    pub open spec fn wf(&self) -> bool {
        self.cache.wf()
    }

    /// A state for `today`, on This Month, empty and waiting for its report.
    pub fn new_at(config: &AppConfig, data_dir: PathBuf, today: Date) -> (r: ReportsState)
        requires
            today.wf(),
            presets_defined(today.day as int, sunday_first(*config)),
        ensures
            r.wf(),
            r.preset == TimeRangePreset::ThisMonth,
            (r.range.start.day as int, r.range.end.day as int) == preset_range(
                TimeRangePreset::ThisMonth,
                today.day as int,
                sunday_first(*config),
            ),
            r.reports@.len() == 0,
            r.expanded_clients@.len() == 0,
            r.expanded_projects@.len() == 0,
            r.scroll_offset == 0,
            r.selected_row == 0,
            r.needs_refresh,
            r.file_manager.dir() == data_dir,
    {
        let range = DateRange::from_preset(
            TimeRangePreset::ThisMonth,
            today,
            config.preferences.week_start.as_str(),
        );
        ReportsState {
            preset: TimeRangePreset::ThisMonth,
            range,
            reports: Vec::new(),
            expanded_clients: Vec::new(),
            expanded_projects: Vec::new(),
            scroll_offset: 0,
            selected_row: 0,
            needs_refresh: true,
            file_manager: FileManager::new(data_dir),
            cache: MonthCache::default(),
        }
    }

    /// A state for today on this machine's clock, on This Month (Today where
    /// today lies too close to the first or last date that can be held),
    /// empty and waiting for its report.
    pub fn new(config: &AppConfig, data_dir: PathBuf) -> (r: ReportsState)
        ensures
            r.wf(),
            r.preset == TimeRangePreset::ThisMonth || r.preset == TimeRangePreset::Today,
            exists|t: int|
                crate::calendar::valid_day(t) && (r.range.start.day as int, r.range.end.day as int)
                    == preset_range(r.preset, t, sunday_first(*config)),
            r.reports@.len() == 0,
            r.expanded_clients@.len() == 0,
            r.expanded_projects@.len() == 0,
            r.scroll_offset == 0,
            r.selected_row == 0,
            r.needs_refresh,
            r.file_manager.dir() == data_dir,
    {
        let today = local_today();
        if check_presets_defined(today, config.preferences.week_start.as_str()) {
            Self::new_at(config, data_dir, today)
        } else {
            ReportsState {
                preset: TimeRangePreset::Today,
                range: DateRange::new(today, today),
                reports: Vec::new(),
                expanded_clients: Vec::new(),
                expanded_projects: Vec::new(),
                scroll_offset: 0,
                selected_row: 0,
                needs_refresh: true,
                file_manager: FileManager::new(data_dir),
                cache: MonthCache::default(),
            }
        }
    }

    /// Takes the report of the range over the entries loaded for it, unfolds
    /// every client and project, and marks the state fresh.
    pub fn refresh(&mut self, all_entries: &Vec<TimeEntry>, config: &AppConfig)
        requires
            all_wf(entries_view(all_entries@)),
            abs_total(crate::storage::in_range(old(self).range, entries_view(all_entries@)))
                <= i64::MAX,
        ensures
            final(self).reports@.map_values(|c: ClientReport| c@) == report_lines(
                old(self).range,
                entries_view(all_entries@),
                *config,
            ),
            final(self).expanded_clients@ == Seq::new(final(self).reports@.len(), |i: int| true),
            flags(final(self).expanded_projects@) == Seq::new(
                final(self).reports@.len(),
                |ci: int| Seq::new(final(self).reports@[ci].project_breakdown@.len(), |pi: int| true),
            ),
            !final(self).needs_refresh,
            final(self).preset == old(self).preset,
            final(self).range == old(self).range,
            final(self).selected_row == old(self).selected_row,
            final(self).scroll_offset == old(self).scroll_offset,
            final(self).file_manager == old(self).file_manager,
            final(self).cache == old(self).cache,
    {
        self.reports = generate_report(&self.range, all_entries.as_slice(), config);
        self.reset_expansion_state();
        self.needs_refresh = false;
    }

    /// Drops a month from the cache, so that it is read again.
    pub fn invalidate_month(&mut self, month_key: &str)
        requires
            old(self).wf(),
        ensures
            final(self).wf(),
            final(self).cache.slots() == crate::cache::without(old(self).cache.slots(), month_key@),
            final(self).reports@ == old(self).reports@,
            final(self).range == old(self).range,
            final(self).needs_refresh == old(self).needs_refresh,
    {
        self.cache.invalidate(month_key);
    }

    /// Switches to a preset's range around `today`, to be reported afresh from
    /// the first row.
    pub fn set_preset_at(&mut self, preset: TimeRangePreset, config: &AppConfig, today: Date)
        requires
            today.wf(),
            presets_defined(today.day as int, sunday_first(*config)),
        ensures
            preset_set(*old(self), *final(self), preset),
            (final(self).range.start.day as int, final(self).range.end.day as int) == preset_range(
                preset,
                today.day as int,
                sunday_first(*config),
            ),
    {
        self.preset = preset;
        self.range = DateRange::from_preset(preset, today, config.preferences.week_start.as_str());
        self.needs_refresh = true;
        self.selected_row = 0;
        self.scroll_offset = 0;
    }

    /// Switches to a preset's range around today on this machine's clock; left
    /// unchanged where today lies too close to the first or last date that can
    /// be held.
    pub fn set_preset(&mut self, preset: TimeRangePreset, config: &AppConfig)
        ensures
            *final(self) == *old(self) || (preset_set(*old(self), *final(self), preset) && exists|
                t: int,
            |
                crate::calendar::valid_day(t) && (
                    final(self).range.start.day as int,
                    final(self).range.end.day as int,
                ) == preset_range(preset, t, sunday_first(*config))),
    {
        let today = local_today();
        if check_presets_defined(today, config.preferences.week_start.as_str()) {
            self.set_preset_at(preset, config, today);
        }
    }

    /// The next preset of the cycle.
    pub fn cycle_preset_forward(&mut self, config: &AppConfig)
        ensures
            *final(self) == *old(self) || (preset_set(*old(self), *final(self), preset_after(old(self).preset))
                && exists|t: int|
                crate::calendar::valid_day(t) && (
                    final(self).range.start.day as int,
                    final(self).range.end.day as int,
                ) == preset_range(preset_after(old(self).preset), t, sunday_first(*config))),
    {
        let next = match self.preset {
            TimeRangePreset::Today => TimeRangePreset::Yesterday,
            TimeRangePreset::Yesterday => TimeRangePreset::ThisWeek,
            TimeRangePreset::ThisWeek => TimeRangePreset::LastWeek,
            TimeRangePreset::LastWeek => TimeRangePreset::ThisMonth,
            TimeRangePreset::ThisMonth => TimeRangePreset::LastMonth,
            TimeRangePreset::LastMonth => TimeRangePreset::Today,
            TimeRangePreset::Custom => TimeRangePreset::Today,
        };
        self.set_preset(next, config);
    }

    /// The previous preset of the cycle.
    pub fn cycle_preset_backward(&mut self, config: &AppConfig)
        ensures
            *final(self) == *old(self) || (preset_set(*old(self), *final(self), preset_before(old(self).preset))
                && exists|t: int|
                crate::calendar::valid_day(t) && (
                    final(self).range.start.day as int,
                    final(self).range.end.day as int,
                ) == preset_range(preset_before(old(self).preset), t, sunday_first(*config))),
    {
        let prev = match self.preset {
            TimeRangePreset::Today => TimeRangePreset::LastMonth,
            TimeRangePreset::Yesterday => TimeRangePreset::Today,
            TimeRangePreset::ThisWeek => TimeRangePreset::Yesterday,
            TimeRangePreset::LastWeek => TimeRangePreset::ThisWeek,
            TimeRangePreset::ThisMonth => TimeRangePreset::LastWeek,
            TimeRangePreset::LastMonth => TimeRangePreset::ThisMonth,
            TimeRangePreset::Custom => TimeRangePreset::Today,
        };
        self.set_preset(prev, config);
    }

    pub fn is_client_expanded(&self, client_idx: usize) -> (r: bool)
        ensures
            r == client_open(self.expanded_clients@, client_idx as int),
    {
        client_idx < self.expanded_clients.len() && self.expanded_clients[client_idx]
    }

    pub fn is_project_expanded(&self, client_idx: usize, project_idx: usize) -> (r: bool)
        ensures
            r == project_open(flags(self.expanded_projects@), client_idx as int, project_idx as int),
    {
        client_idx < self.expanded_projects.len() && project_idx
            < self.expanded_projects[client_idx].len()
            && self.expanded_projects[client_idx][project_idx]
    }

    /// Unfolds every client and every project of the report.
    pub fn reset_expansion_state(&mut self)
        ensures
            final(self).expanded_clients@ == Seq::new(old(self).reports@.len(), |i: int| true),
            flags(final(self).expanded_projects@) == Seq::new(
                old(self).reports@.len(),
                |ci: int| Seq::new(old(self).reports@[ci].project_breakdown@.len(), |pi: int| true),
            ),
            final(self).preset == old(self).preset,
            final(self).range == old(self).range,
            final(self).reports@ == old(self).reports@,
            final(self).scroll_offset == old(self).scroll_offset,
            final(self).selected_row == old(self).selected_row,
            final(self).needs_refresh == old(self).needs_refresh,
            final(self).file_manager == old(self).file_manager,
            final(self).cache == old(self).cache,
    {
        let n = self.reports.len();
        let mut clients: Vec<bool> = Vec::new();
        let mut projects: Vec<Vec<bool>> = Vec::new();
        let mut ci: usize = 0;
        while ci < n
            invariant
                n == self.reports@.len(),
                ci <= n,
                clients@ == Seq::new(ci as nat, |i: int| true),
                flags(projects@) == Seq::new(
                    ci as nat,
                    |k: int| Seq::new(self.reports@[k].project_breakdown@.len(), |pi: int| true),
                ),
            decreases n - ci,
        {
            let np = self.reports[ci].project_breakdown.len();
            let mut inner: Vec<bool> = Vec::new();
            let mut pi: usize = 0;
            while pi < np
                invariant
                    pi <= np,
                    inner@ == Seq::new(pi as nat, |i: int| true),
                decreases np - pi,
            {
                inner.push(true);
                pi = pi + 1;
                assert(inner@ =~= Seq::new(pi as nat, |i: int| true));
            }
            assert(np == self.reports@[ci as int].project_breakdown@.len());
            let ghost prev = flags(projects@);
            clients.push(true);
            projects.push(inner);
            assert(flags(projects@) =~= prev.push(inner@));
            ci = ci + 1;
            assert(clients@ =~= Seq::new(ci as nat, |i: int| true));
            assert(flags(projects@) =~= Seq::new(
                ci as nat,
                |k: int| Seq::new(self.reports@[k].project_breakdown@.len(), |pi: int| true),
            ));
        }
        self.expanded_clients = clients;
        self.expanded_projects = projects;
    }

    /// The row at a position of the table, or `None` past its end.
    pub fn visible_row_at(&self, target_row: usize) -> (r: Option<VisibleRow>)
        ensures
            r == if (target_row as int) < self.rows().len() {
                Some(self.rows()[target_row as int])
            } else {
                None::<VisibleRow>
            },
    {
        let ghost shape = shape_of(self.reports@);
        let ghost ec = self.expanded_clients@;
        let ghost ep = flags(self.expanded_projects@);
        let ghost n = self.reports@.len() as int;
        let mut row: usize = 0;
        let mut ci: usize = 0;
        while ci < self.reports.len()
            invariant
                ci <= self.reports@.len(),
                n == self.reports@.len(),
                shape == shape_of(self.reports@),
                ec == self.expanded_clients@,
                ep == flags(self.expanded_projects@),
                row == client_rows(shape, ec, ep, ci as int).len(),
                row <= target_row,
            decreases self.reports@.len() - ci,
        {
            proof {
                lemma_client_rows_prefix(shape, ec, ep, ci + 1, n);
            }
            if row == target_row {
                return Some(VisibleRow::Client(ci));
            }
            row = row + 1;
            if self.is_client_expanded(ci) {
                let report = &self.reports[ci];
                let np = report.project_breakdown.len();
                let ghost base = client_rows(shape, ec, ep, ci as int).len() + 1;
                assert(shape[ci as int].len() == np);
                let mut pi: usize = 0;
                while pi < np
                    invariant
                        ci < self.reports@.len(),
                        n == self.reports@.len(),
                        shape == shape_of(self.reports@),
                        ec == self.expanded_clients@,
                        ep == flags(self.expanded_projects@),
                        *report == self.reports@[ci as int],
                        np == report.project_breakdown@.len(),
                        client_open(ec, ci as int),
                        base == client_rows(shape, ec, ep, ci as int).len() + 1,
                        pi <= np,
                        row == base + project_rows(shape, ep, ci as int, pi as int).len(),
                        row <= target_row,
                        client_rows(shape, ec, ep, ci as int + 1).len() <= client_rows(shape, ec, ep, n).len(),
                        forall|i: int|
                            0 <= i < client_rows(shape, ec, ep, ci as int + 1).len() ==> #[trigger] client_rows(
                                shape,
                                ec,
                                ep,
                                n,
                            )[i] == client_rows(shape, ec, ep, ci as int + 1)[i],
                    decreases np - pi,
                {
                    proof {
                        lemma_project_rows_prefix(shape, ep, ci as int, pi + 1, np as int);
                    }
                    if row == target_row {
                        return Some(VisibleRow::Project(ci, pi));
                    }
                    row = row + 1;
                    if self.is_project_expanded(ci, pi) {
                        let na = report.project_breakdown[pi].activity_breakdown.len();
                        assert(shape[ci as int][pi as int] == na);
                        let mut ai: usize = 0;
                        while ai < na
                            invariant
                                ci < self.reports@.len(),
                                pi < np,
                                n == self.reports@.len(),
                                shape == shape_of(self.reports@),
                                ec == self.expanded_clients@,
                                ep == flags(self.expanded_projects@),
                                np == shape[ci as int].len(),
                                na == shape[ci as int][pi as int],
                                client_open(ec, ci as int),
                                project_open(ep, ci as int, pi as int),
                                base == client_rows(shape, ec, ep, ci as int).len() + 1,
                                ai <= na,
                                row == base + project_rows(shape, ep, ci as int, pi as int).len() + 1
                                    + ai,
                                row <= target_row,
                                client_rows(shape, ec, ep, ci as int + 1).len() <= client_rows(shape, ec, ep, n).len(),
                                forall|i: int|
                                    0 <= i < client_rows(shape, ec, ep, ci as int + 1).len() ==> #[trigger] client_rows(
                                        shape,
                                        ec,
                                        ep,
                                        n,
                                    )[i] == client_rows(shape, ec, ep, ci as int + 1)[i],
                                project_rows(shape, ep, ci as int, pi as int + 1).len() <= project_rows(shape, ep, ci as int, np as int).len(),
                                forall|i: int|
                                    0 <= i < project_rows(shape, ep, ci as int, pi as int + 1).len() ==> #[trigger] project_rows(
                                        shape,
                                        ep,
                                        ci as int,
                                        np as int,
                                    )[i] == project_rows(shape, ep, ci as int, pi as int + 1)[i],
                            decreases na - ai,
                        {
                            if row == target_row {
                                return Some(VisibleRow::Activity(ci, pi, ai));
                            }
                            row = row + 1;
                            ai = ai + 1;
                        }
                    }
                    pi = pi + 1;
                }
            }
            ci = ci + 1;
        }
        None
    }

    /// How many rows the table has.
    pub fn total_visible_rows(&self) -> (r: usize)
        requires
            self.rows().len() <= usize::MAX,
        ensures
            r == self.rows().len(),
    {
        let ghost shape = shape_of(self.reports@);
        let ghost ec = self.expanded_clients@;
        let ghost ep = flags(self.expanded_projects@);
        let ghost n = self.reports@.len() as int;
        let mut rows: usize = 0;
        let mut ci: usize = 0;
        while ci < self.reports.len()
            invariant
                ci <= self.reports@.len(),
                n == self.reports@.len(),
                shape == shape_of(self.reports@),
                ec == self.expanded_clients@,
                ep == flags(self.expanded_projects@),
                rows == client_rows(shape, ec, ep, ci as int).len(),
                client_rows(shape, ec, ep, n).len() <= usize::MAX,
            decreases self.reports@.len() - ci,
        {
            proof {
                lemma_client_rows_prefix(shape, ec, ep, ci + 1, n);
            }
            rows = rows + 1;
            if self.is_client_expanded(ci) {
                let report = &self.reports[ci];
                let np = report.project_breakdown.len();
                let ghost base = client_rows(shape, ec, ep, ci as int).len() + 1;
                assert(shape[ci as int].len() == np);
                let mut pi: usize = 0;
                while pi < np
                    invariant
                        ci < self.reports@.len(),
                        n == self.reports@.len(),
                        shape == shape_of(self.reports@),
                        ec == self.expanded_clients@,
                        ep == flags(self.expanded_projects@),
                        *report == self.reports@[ci as int],
                        np == report.project_breakdown@.len(),
                        np == shape[ci as int].len(),
                        client_open(ec, ci as int),
                        base == client_rows(shape, ec, ep, ci as int).len() + 1,
                        pi <= np,
                        rows == base + project_rows(shape, ep, ci as int, pi as int).len(),
                        client_rows(shape, ec, ep, ci as int + 1).len() <= usize::MAX,
                    decreases np - pi,
                {
                    proof {
                        lemma_project_rows_prefix(shape, ep, ci as int, pi + 1, np as int);
                    }
                    rows = rows + 1;
                    if self.is_project_expanded(ci, pi) {
                        let na = report.project_breakdown[pi].activity_breakdown.len();
                        assert(shape[ci as int][pi as int] == na);
                        rows = rows + na;
                    }
                    pi = pi + 1;
                }
            }
            ci = ci + 1;
        }
        rows
    }

    /// Folds or unfolds the client or project on the selected row; an activity
    /// row, or a row without a flag, changes nothing.
    pub fn toggle_expand(&mut self)
        ensures
            same_but_flags(*old(self), *final(self)),
            ({
                let rows = old(self).rows();
                let s = old(self).selected_row as int;
                let ec = old(self).expanded_clients@;
                let ep = flags(old(self).expanded_projects@);
                let row = if s < rows.len() {
                    Some(rows[s])
                } else {
                    None::<VisibleRow>
                };
                match row {
                    Some(VisibleRow::Client(ci)) => if (ci as int) < ec.len() {
                        final(self).expanded_clients@ == ec.update(ci as int, !ec[ci as int])
                            && flags(final(self).expanded_projects@) == ep
                    } else {
                        final(self).expanded_clients@ == ec && flags(final(self).expanded_projects@)
                            == ep
                    },
                    Some(VisibleRow::Project(ci, pi)) => if (ci as int) < ep.len() && (pi as int)
                        < ep[ci as int].len() {
                        final(self).expanded_clients@ == ec && flags(final(self).expanded_projects@)
                            == ep.update(
                            ci as int,
                            ep[ci as int].update(pi as int, !ep[ci as int][pi as int]),
                        )
                    } else {
                        final(self).expanded_clients@ == ec && flags(final(self).expanded_projects@)
                            == ep
                    },
                    _ => final(self).expanded_clients@ == ec && flags(final(self).expanded_projects@)
                        == ep,
                }
            }),
    {
        match self.visible_row_at(self.selected_row) {
            Some(VisibleRow::Client(client_idx)) => {
                if client_idx < self.expanded_clients.len() {
                    let flag = self.expanded_clients[client_idx];
                    self.expanded_clients.set(client_idx, !flag);
                }
            },
            Some(VisibleRow::Project(client_idx, project_idx)) => {
                if client_idx < self.expanded_projects.len() && project_idx
                    < self.expanded_projects[client_idx].len() {
                    let ghost before = flags(self.expanded_projects@);
                    let old_inner = &self.expanded_projects[client_idx];
                    let mut inner: Vec<bool> = Vec::new();
                    let mut k: usize = 0;
                    while k < old_inner.len()
                        invariant
                            k <= old_inner@.len(),
                            project_idx < old_inner@.len(),
                            inner@.len() == k,
                            forall|i: int|
                                0 <= i < k ==> #[trigger] inner@[i] == if i == project_idx {
                                    !old_inner@[i]
                                } else {
                                    old_inner@[i]
                                },
                        decreases old_inner@.len() - k,
                    {
                        let b = old_inner[k];
                        inner.push(
                            if k == project_idx {
                                !b
                            } else {
                                b
                            },
                        );
                        k = k + 1;
                    }
                    assert(inner@ =~= old_inner@.update(project_idx as int, !old_inner@[project_idx as int]));
                    self.expanded_projects.set(client_idx, inner);
                    assert(flags(self.expanded_projects@) =~= before.update(
                        client_idx as int,
                        before[client_idx as int].update(project_idx as int, !before[client_idx as int][project_idx as int]),
                    ));
                }
            },
            _ => {},
        }
    }

    pub fn move_up(&mut self)
        ensures
            final(self).selected_row == if old(self).selected_row > 0 {
                old(self).selected_row - 1
            } else {
                0
            },
            final(self).expanded_clients@ == old(self).expanded_clients@,
            flags(final(self).expanded_projects@) == flags(old(self).expanded_projects@),
            final(self).reports@ == old(self).reports@,
    {
        if self.selected_row > 0 {
            self.selected_row = self.selected_row - 1;
        }
    }

    /// Moves the selection down a row, staying on the last.
    pub fn move_down(&mut self)
        requires
            old(self).rows().len() <= usize::MAX,
        ensures
            final(self).selected_row == if old(self).selected_row + 1 < old(self).rows().len() {
                old(self).selected_row + 1
            } else {
                old(self).selected_row as int
            },
            final(self).expanded_clients@ == old(self).expanded_clients@,
            flags(final(self).expanded_projects@) == flags(old(self).expanded_projects@),
            final(self).reports@ == old(self).reports@,
    {
        let total = self.total_visible_rows();
        let max = if total > 0 {
            total - 1
        } else {
            0
        };
        if self.selected_row < max {
            self.selected_row = self.selected_row + 1;
        }
    }

    pub fn preset_name(&self) -> (r: &'static str)
        ensures
            r@ == preset_label(self.preset),
    {
        match self.preset {
            TimeRangePreset::Today => "Today",
            TimeRangePreset::Yesterday => "Yesterday",
            TimeRangePreset::ThisWeek => "This Week",
            TimeRangePreset::LastWeek => "Last Week",
            TimeRangePreset::ThisMonth => "This Month",
            TimeRangePreset::LastMonth => "Last Month",
            TimeRangePreset::Custom => "Custom",
        }
    }
}

} // verus!
