//! The week-shaped grid of a report: one row per project, one column per weekday.

use vstd::prelude::*;

use crate::date::Date;
use crate::report::{
    has_project, hours_on, hours_on_for, window_hours, window_hours_for, DatedEntry,
};

verus! {

/// How a day's hours compare with a working day.
#[derive(Clone, Copy, Debug, PartialEq, Eq, Structural)]
pub enum Severity {
    /// At most eight hours.
    Normal,
    /// Over eight hours, at most ten.
    Warning,
    /// Over ten hours.
    Overtime,
}

/// Most hundredths of an hour that a normal day holds.
pub const NORMAL_LIMIT: u64 = 800;

/// Most hundredths of an hour that a day holds before it counts as overtime.
pub const WARNING_LIMIT: u64 = 1000;

/// The severity of a day with `h` hundredths of an hour.
pub open spec fn severity_of(h: nat) -> Severity {
    if h <= NORMAL_LIMIT {
        Severity::Normal
    } else if h <= WARNING_LIMIT {
        Severity::Warning
    } else {
        Severity::Overtime
    }
}

/// The severity of a day with `h` hundredths of an hour.
pub fn classify(h: u64) -> (r: Severity)
    ensures
        r == severity_of(h as nat),
{
    if h <= NORMAL_LIMIT {
        Severity::Normal
    } else if h <= WARNING_LIMIT {
        Severity::Warning
    } else {
        Severity::Overtime
    }
}

/// A number of hours, and whether it is to be shown blank: it is, when it is zero.
#[derive(Clone, Copy, Debug, PartialEq, Eq, Structural)]
pub struct GridCell {
    /// Hundredths of an hour.
    pub hours: u64,
    pub blank: bool,
}

/// Whether cell `c` shows `h` hours.
pub open spec fn shows(c: GridCell, h: nat) -> bool {
    c.hours == h && c.blank == (h == 0)
}

/// The cell that shows `h` hours.
pub fn cell_of(h: u64) -> (r: GridCell)
    ensures
        shows(r, h as nat),
{
    GridCell { hours: h, blank: h == 0 }
}

/// The row of one project: its hours on each day of the week, and their sum.
#[derive(Clone, Debug, PartialEq)]
pub struct GridRow {
    pub project_id: i32,
    pub name: String,
    pub cells: Vec<GridCell>,
    pub total: GridCell,
}

/// The hours of one day of the week over all projects.
#[derive(Clone, Copy, Debug, PartialEq, Eq, Structural)]
pub struct DayTotal {
    pub day: Date,
    pub total: GridCell,
    pub severity: Severity,
}

/// Hours by project and weekday, with the sum of each row, of each column and of all.
#[derive(Clone, Debug, PartialEq)]
pub struct WeeklyGrid {
    /// Monday to Sunday.
    pub days: Vec<Date>,
    pub rows: Vec<GridRow>,
    pub day_totals: Vec<DayTotal>,
    /// Hundredths of an hour.
    pub grand_total: u64,
}

/// The name a project is shown with: its name, or nothing when it has none.
pub open spec fn display_name(n: Option<String>) -> Seq<char> {
    match n {
        Some(t) => t@,
        None => Seq::empty(),
    }
}

/// Sum of the hours of some cells.
pub open spec fn cells_sum(c: Seq<GridCell>) -> nat
    decreases c.len(),
{
    if c.len() == 0 {
        0
    } else {
        cells_sum(c.drop_last()) + c.last().hours as nat
    }
}

/// Sum of the row totals.
pub open spec fn row_totals_sum(r: Seq<GridRow>) -> nat
    decreases r.len(),
{
    if r.len() == 0 {
        0
    } else {
        row_totals_sum(r.drop_last()) + r.last().total.hours as nat
    }
}

/// Sum of the day totals.
pub open spec fn day_totals_sum(v: Seq<DayTotal>) -> nat
    decreases v.len(),
{
    if v.len() == 0 {
        0
    } else {
        day_totals_sum(v.drop_last()) + v.last().total.hours as nat
    }
}

/// Hours of the projects `ps`, each spent on a day numbered from `lo` up to, not
/// including, `hi`.
pub open spec fn projects_window_hours(s: Seq<DatedEntry>, lo: int, hi: int, ps: Seq<i32>) -> nat
    decreases ps.len(),
{
    if ps.len() == 0 {
        0
    } else {
        projects_window_hours(s, lo, hi, ps.drop_last()) + window_hours_for(s, lo, hi, ps.last())
    }
}

/// Whether no id occurs twice in `ps`.
pub open spec fn distinct_ids(ps: Seq<i32>) -> bool {
    forall|a: int, b: int| 0 <= a < b < ps.len() ==> ps[a] != ps[b]
}

/// Widening a window by one day adds the hours of that day.
pub proof fn lemma_window_step(s: Seq<DatedEntry>, lo: int, hi: int, p: i32)
    requires
        lo <= hi,
        i64::MIN <= hi <= i64::MAX,
    ensures
        window_hours(s, lo, hi + 1) == window_hours(s, lo, hi) + hours_on(s, Date { day: hi as i64 }),
        window_hours_for(s, lo, hi + 1, p) == window_hours_for(s, lo, hi, p) + hours_on_for(
            s,
            Date { day: hi as i64 },
            p,
        ),
        window_hours(s, lo, lo) == 0,
        window_hours_for(s, lo, lo, p) == 0,
    decreases s.len(),
{
    if s.len() > 0 {
        lemma_window_step(s.drop_last(), lo, hi, p);
    }
}

/// One more entry adds its hours to those of the projects `ps` when it lies in the
/// window and belongs to one of them.
proof fn lemma_projects_window_push(s: Seq<DatedEntry>, x: DatedEntry, lo: int, hi: int, ps: Seq<i32>)
    requires
        distinct_ids(ps),
    ensures
        projects_window_hours(s.push(x), lo, hi, ps) == projects_window_hours(s, lo, hi, ps) + if lo
            <= x.date.num() < hi && ps.contains(x.entry.project.id) {
            x.entry.hours as nat
        } else {
            0
        },
    decreases ps.len(),
{
    if ps.len() > 0 {
        let q = ps.drop_last();
        lemma_projects_window_push(s, x, lo, hi, q);
        assert(s.push(x).drop_last() =~= s);
        assert(ps =~= q.push(ps.last()));
        if q.contains(x.entry.project.id) {
            let k = choose|k: int| 0 <= k < q.len() && q[k] == x.entry.project.id;
            assert(ps[k] == x.entry.project.id);
            assert(ps.contains(x.entry.project.id));
        }
        if ps.contains(x.entry.project.id) && x.entry.project.id != ps.last() {
            let k = choose|k: int| 0 <= k < ps.len() && ps[k] == x.entry.project.id;
            assert(q[k] == x.entry.project.id);
        }
    }
}

/// The hours of distinct projects in a window make up at most the hours of the window,
/// and all of them when every project of the entries is among them.
pub proof fn lemma_projects_partition(s: Seq<DatedEntry>, lo: int, hi: int, ps: Seq<i32>)
    requires
        distinct_ids(ps),
    ensures
        projects_window_hours(s, lo, hi, ps) <= window_hours(s, lo, hi),
        (forall|p: i32| has_project(s, p) ==> ps.contains(p)) ==> projects_window_hours(s, lo, hi, ps)
            == window_hours(s, lo, hi),
    decreases s.len(),
{
    if s.len() == 0 {
        lemma_projects_empty(s, lo, hi, ps);
    } else {
        let t = s.drop_last();
        let x = s.last();
        assert(t.push(x) =~= s);
        lemma_projects_window_push(t, x, lo, hi, ps);
        lemma_projects_partition(t, lo, hi, ps);
        if forall|p: i32| has_project(s, p) ==> ps.contains(p) {
            assert forall|p: i32| has_project(t, p) implies ps.contains(p) by {
                assert(has_project(s, p));
            }
            assert(has_project(s, x.entry.project.id));
        }
    }
}

proof fn lemma_projects_empty(s: Seq<DatedEntry>, lo: int, hi: int, ps: Seq<i32>)
    requires
        s.len() == 0,
    ensures
        projects_window_hours(s, lo, hi, ps) == 0,
    decreases ps.len(),
{
    if ps.len() > 0 {
        lemma_projects_empty(s, lo, hi, ps.drop_last());
    }
}

} // verus!
