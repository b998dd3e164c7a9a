//! Aggregation of time entries by day and by project, the report of one day, and
//! the grid of one week.

use vstd::prelude::*;

use crate::date::{day_of_text, DATE_FORMAT, lemma_week_bounds, week_start, Date};
use crate::grid::{
    cell_of, cells_sum, classify, day_totals_sum, display_name, distinct_ids, lemma_projects_partition,
    lemma_window_step, projects_window_hours, row_totals_sum, severity_of, shows, DayTotal, GridCell,
    GridRow, WeeklyGrid,
};
use crate::order::{lemma_ranked_total, lemma_ranked_transitive, ranked_before, ranked_precedes};
use crate::redmine::{copy_text, Named, TimeEntry, TimeEntryView};

verus! {

/// An input entry together with the day it was spent on.
pub struct DatedEntry {
    pub date: Date,
    pub entry: TimeEntryView,
}

/// The views of a list of entries.
pub open spec fn entry_views(entries: Seq<TimeEntry>) -> Seq<TimeEntryView> {
    entries.map_values(|e: TimeEntry| e@)
}

/// Pairs each entry with the day at the same index.
pub open spec fn dated(entries: Seq<TimeEntryView>, days: Seq<Date>) -> Seq<DatedEntry> {
    Seq::new(entries.len(), |i: int| DatedEntry { date: days[i], entry: entries[i] })
}

/// Hours of all entries.
pub open spec fn total_hours(s: Seq<DatedEntry>) -> nat
    decreases s.len(),
{
    if s.len() == 0 {
        0
    } else {
        total_hours(s.drop_last()) + s.last().entry.hours as nat
    }
}

/// Hours of the entries spent on day `d`.
pub open spec fn hours_on(s: Seq<DatedEntry>, d: Date) -> nat
    decreases s.len(),
{
    if s.len() == 0 {
        0
    } else {
        hours_on(s.drop_last(), d) + if s.last().date == d {
            s.last().entry.hours as nat
        } else {
            0
        }
    }
}

/// Hours of the entries booked on project `p`.
pub open spec fn project_hours(s: Seq<DatedEntry>, p: i32) -> nat
    decreases s.len(),
{
    if s.len() == 0 {
        0
    } else {
        project_hours(s.drop_last(), p) + if s.last().entry.project.id == p {
            s.last().entry.hours as nat
        } else {
            0
        }
    }
}

/// Hours of the entries booked on project `p` and spent on day `d`.
pub open spec fn hours_on_for(s: Seq<DatedEntry>, d: Date, p: i32) -> nat
    decreases s.len(),
{
    if s.len() == 0 {
        0
    } else {
        hours_on_for(s.drop_last(), d, p) + if s.last().date == d && s.last().entry.project.id
            == p {
            s.last().entry.hours as nat
        } else {
            0
        }
    }
}

/// Hours of the entries spent on a day numbered from `lo` up to, not including, `hi`.
pub open spec fn window_hours(s: Seq<DatedEntry>, lo: int, hi: int) -> nat
    decreases s.len(),
{
    if s.len() == 0 {
        0
    } else {
        window_hours(s.drop_last(), lo, hi) + if lo <= s.last().date.num() < hi {
            s.last().entry.hours as nat
        } else {
            0
        }
    }
}

/// Hours of the entries of project `p` spent on a day numbered from `lo` up to, not
/// including, `hi`.
pub open spec fn window_hours_for(s: Seq<DatedEntry>, lo: int, hi: int, p: i32) -> nat
    decreases s.len(),
{
    if s.len() == 0 {
        0
    } else {
        window_hours_for(s.drop_last(), lo, hi, p) + if lo <= s.last().date.num() < hi
            && s.last().entry.project.id == p {
            s.last().entry.hours as nat
        } else {
            0
        }
    }
}

/// The entries spent on day `d`, in input order.
pub open spec fn entries_on(s: Seq<DatedEntry>, d: Date) -> Seq<TimeEntryView>
    decreases s.len(),
{
    if s.len() == 0 {
        Seq::empty()
    } else if s.last().date == d {
        entries_on(s.drop_last(), d).push(s.last().entry)
    } else {
        entries_on(s.drop_last(), d)
    }
}

/// Whether some entry was spent on day `d`.
pub open spec fn has_day(s: Seq<DatedEntry>, d: Date) -> bool
    decreases s.len(),
{
    s.len() > 0 && (has_day(s.drop_last(), d) || s.last().date == d)
}

/// Whether some entry was booked on project `p`.
pub open spec fn has_project(s: Seq<DatedEntry>, p: i32) -> bool
    decreases s.len(),
{
    s.len() > 0 && (has_project(s.drop_last(), p) || s.last().entry.project.id == p)
}

/// Whether some entry was booked on project `p` and spent on day `d`.
pub open spec fn has_day_project(s: Seq<DatedEntry>, d: Date, p: i32) -> bool
    decreases s.len(),
{
    s.len() > 0 && (has_day_project(s.drop_last(), d, p) || (s.last().date == d
        && s.last().entry.project.id == p))
}

/// The first name that an entry of project `p` gives for it.
pub open spec fn name_of(s: Seq<DatedEntry>, p: i32) -> Option<String>
    decreases s.len(),
{
    if s.len() == 0 {
        None
    } else {
        let before = name_of(s.drop_last(), p);
        if before is Some {
            before
        } else if s.last().entry.project.id == p {
            s.last().entry.project.name
        } else {
            None
        }
    }
}

/// No hours, no entries, where no entry matches.
pub proof fn lemma_absent(s: Seq<DatedEntry>, d: Date, p: i32)
    ensures
        !has_day(s, d) ==> hours_on(s, d) == 0 && entries_on(s, d) == Seq::<TimeEntryView>::empty(),
        !has_project(s, p) ==> project_hours(s, p) == 0 && name_of(s, p) is None,
        !has_day_project(s, d, p) ==> hours_on_for(s, d, p) == 0,
    decreases s.len(),
{
    if s.len() > 0 {
        lemma_absent(s.drop_last(), d, p);
    }
}

/// No part of the hours exceeds their total.
pub proof fn lemma_parts_bounded(s: Seq<DatedEntry>, d: Date, p: i32, lo: int, hi: int)
    ensures
        hours_on(s, d) <= total_hours(s),
        project_hours(s, p) <= total_hours(s),
        hours_on_for(s, d, p) <= total_hours(s),
        window_hours(s, lo, hi) <= total_hours(s),
        window_hours_for(s, lo, hi, p) <= total_hours(s),
    decreases s.len(),
{
    if s.len() > 0 {
        lemma_parts_bounded(s.drop_last(), d, p, lo, hi);
    }
}

/// The total of a prefix does not exceed the total of the whole.
pub proof fn lemma_prefix_total(s: Seq<DatedEntry>, i: int)
    requires
        0 <= i <= s.len(),
    ensures
        total_hours(s.take(i)) <= total_hours(s),
    decreases s.len(),
{
    if i < s.len() {
        assert(s.drop_last().take(i) =~= s.take(i));
        lemma_prefix_total(s.drop_last(), i);
    } else {
        assert(s.take(i) =~= s);
    }
}

/// Hours of one project on one day.
#[derive(Clone, Copy, Debug, PartialEq, Eq, Structural)]
pub struct DayProjectHours {
    pub day: Date,
    pub project_id: i32,
    /// Hundredths of an hour.
    pub hours: u64,
}

/// Hours of one project.
#[derive(Clone, Copy, Debug, PartialEq, Eq, Structural)]
pub struct ProjectHours {
    pub project_id: i32,
    /// Hundredths of an hour.
    pub hours: u64,
}

/// Hours of one day.
#[derive(Clone, Copy, Debug, PartialEq, Eq, Structural)]
pub struct DayHours {
    pub day: Date,
    /// Hundredths of an hour.
    pub hours: u64,
}

/// The entries of one day, in input order.
#[derive(Debug)]
pub struct DayEntries {
    pub day: Date,
    pub entries: Vec<TimeEntry>,
}

/// Sum of the hours of a list of project totals.
pub open spec fn sum_project_hours(v: Seq<ProjectHours>) -> nat
    decreases v.len(),
{
    if v.len() == 0 {
        0
    } else {
        sum_project_hours(v.drop_last()) + v.last().hours as nat
    }
}

/// Sum of the hours of a list of day totals.
pub open spec fn sum_day_hours(v: Seq<DayHours>) -> nat
    decreases v.len(),
{
    if v.len() == 0 {
        0
    } else {
        sum_day_hours(v.drop_last()) + v.last().hours as nat
    }
}

proof fn lemma_sum_project_update(v: Seq<ProjectHours>, j: int, x: ProjectHours)
    requires
        0 <= j < v.len(),
    ensures
        sum_project_hours(v.update(j, x)) + v[j].hours == sum_project_hours(v) + x.hours,
    decreases v.len(),
{
    if j < v.len() - 1 {
        assert(v.update(j, x).drop_last() =~= v.drop_last().update(j, x));
        lemma_sum_project_update(v.drop_last(), j, x);
    } else {
        assert(v.update(j, x).drop_last() =~= v.drop_last());
    }
}

proof fn lemma_sum_day_update(v: Seq<DayHours>, j: int, x: DayHours)
    requires
        0 <= j < v.len(),
    ensures
        sum_day_hours(v.update(j, x)) + v[j].hours == sum_day_hours(v) + x.hours,
    decreases v.len(),
{
    if j < v.len() - 1 {
        assert(v.update(j, x).drop_last() =~= v.drop_last().update(j, x));
        lemma_sum_day_update(v.drop_last(), j, x);
    } else {
        assert(v.update(j, x).drop_last() =~= v.drop_last());
    }
}

/// The name table holds each project of `s` once, with the first name given for it.
pub open spec fn names_agree(s: Seq<DatedEntry>, v: Seq<Named>) -> bool {
    &&& forall|j: int, k: int| 0 <= j < k < v.len() ==> v[j].id != v[k].id
    &&& forall|j: int|
        0 <= j < v.len() ==> #[trigger] v[j].name == name_of(s, v[j].id) && has_project(
            s,
            v[j].id,
        )
    &&& forall|p: i32| has_project(s, p) ==> exists|j: int| 0 <= j < v.len() && #[trigger] v[j].id == p
}

/// The cell table holds each day and project of `s` once, with its hours.
pub open spec fn cells_agree(s: Seq<DatedEntry>, v: Seq<DayProjectHours>) -> bool {
    &&& forall|j: int, k: int|
        0 <= j < k < v.len() ==> !(v[j].day == v[k].day && v[j].project_id == v[k].project_id)
    &&& forall|j: int|
        0 <= j < v.len() ==> #[trigger] v[j].hours == hours_on_for(s, v[j].day, v[j].project_id)
            && has_day_project(s, v[j].day, v[j].project_id)
    &&& forall|d: Date, p: i32|
        has_day_project(s, d, p) ==> exists|j: int|
            0 <= j < v.len() && #[trigger] v[j].day == d && v[j].project_id == p
}

/// The table of daily entries holds each day of `s` once, with its entries.
pub open spec fn days_agree(s: Seq<DatedEntry>, v: Seq<DayEntries>) -> bool {
    &&& forall|j: int, k: int| 0 <= j < k < v.len() ==> v[j].day != v[k].day
    &&& forall|j: int|
        0 <= j < v.len() ==> entry_views(#[trigger] v[j].entries@) == entries_on(s, v[j].day)
            && has_day(s, v[j].day)
    &&& forall|d: Date| has_day(s, d) ==> exists|j: int| 0 <= j < v.len() && #[trigger] v[j].day == d
}

/// The project totals hold each project of `s` once, with its hours, and add up to
/// the total of `s`.
pub open spec fn project_totals_agree(s: Seq<DatedEntry>, v: Seq<ProjectHours>) -> bool {
    &&& forall|j: int, k: int| 0 <= j < k < v.len() ==> v[j].project_id != v[k].project_id
    &&& forall|j: int|
        0 <= j < v.len() ==> #[trigger] v[j].hours == project_hours(s, v[j].project_id)
            && has_project(s, v[j].project_id)
    &&& forall|p: i32|
        has_project(s, p) ==> exists|j: int| 0 <= j < v.len() && #[trigger] v[j].project_id == p
    &&& sum_project_hours(v) == total_hours(s)
}

/// The day totals hold each day of `s` once, with its hours, and add up to the
/// total of `s`.
pub open spec fn day_totals_agree(s: Seq<DatedEntry>, v: Seq<DayHours>) -> bool {
    &&& forall|j: int, k: int| 0 <= j < k < v.len() ==> v[j].day != v[k].day
    &&& forall|j: int|
        0 <= j < v.len() ==> #[trigger] v[j].hours == hours_on(s, v[j].day) && has_day(s, v[j].day)
    &&& forall|d: Date| has_day(s, d) ==> exists|j: int| 0 <= j < v.len() && #[trigger] v[j].day == d
    &&& sum_day_hours(v) == total_hours(s)
}

/// What an update of the tables may rely on: `s1` is `s` with one more entry, whose
/// parts are `d`, `p` and `h`, and the hours of `s1` fit in 64 bits.
pub open spec fn next_entry(
    s: Seq<DatedEntry>,
    s1: Seq<DatedEntry>,
    d: Date,
    p: i32,
    h: u64,
) -> bool {
    &&& s1.len() == s.len() + 1
    &&& s1.drop_last() == s
    &&& s1.last().date == d
    &&& s1.last().entry.project.id == p
    &&& s1.last().entry.hours == h
    &&& total_hours(s1) <= u64::MAX
}

fn find_project(v: &Vec<Named>, p: i32) -> (r: Option<usize>)
    ensures
        r matches Some(j) ==> j < v@.len() && v@[j as int].id == p,
        r is None ==> forall|j: int| 0 <= j < v@.len() ==> v@[j].id != p,
{
    let mut i: usize = 0;
    while i < v.len()
        invariant
            i <= v@.len(),
            forall|j: int| 0 <= j < i ==> v@[j].id != p,
        decreases v@.len() - i,
    {
        if v[i].id == p {
            return Some(i);
        }
        i = i + 1;
    }
    None
}

fn find_cell(v: &Vec<DayProjectHours>, d: Date, p: i32) -> (r: Option<usize>)
    ensures
        r matches Some(j) ==> j < v@.len() && v@[j as int].day == d && v@[j as int].project_id
            == p,
        r is None ==> forall|j: int|
            0 <= j < v@.len() ==> !(v@[j].day == d && v@[j].project_id == p),
{
    let mut i: usize = 0;
    while i < v.len()
        invariant
            i <= v@.len(),
            forall|j: int| 0 <= j < i ==> !(v@[j].day == d && v@[j].project_id == p),
        decreases v@.len() - i,
    {
        if v[i].day == d && v[i].project_id == p {
            return Some(i);
        }
        i = i + 1;
    }
    None
}

fn find_day_entries(v: &Vec<DayEntries>, d: Date) -> (r: Option<usize>)
    ensures
        r matches Some(j) ==> j < v@.len() && v@[j as int].day == d,
        r is None ==> forall|j: int| 0 <= j < v@.len() ==> v@[j].day != d,
{
    let mut i: usize = 0;
    while i < v.len()
        invariant
            i <= v@.len(),
            forall|j: int| 0 <= j < i ==> v@[j].day != d,
        decreases v@.len() - i,
    {
        if v[i].day == d {
            return Some(i);
        }
        i = i + 1;
    }
    None
}

fn find_project_hours(v: &Vec<ProjectHours>, p: i32) -> (r: Option<usize>)
    ensures
        r matches Some(j) ==> j < v@.len() && v@[j as int].project_id == p,
        r is None ==> forall|j: int| 0 <= j < v@.len() ==> v@[j].project_id != p,
{
    let mut i: usize = 0;
    while i < v.len()
        invariant
            i <= v@.len(),
            forall|j: int| 0 <= j < i ==> v@[j].project_id != p,
        decreases v@.len() - i,
    {
        if v[i].project_id == p {
            return Some(i);
        }
        i = i + 1;
    }
    None
}

fn find_day_hours(v: &Vec<DayHours>, d: Date) -> (r: Option<usize>)
    ensures
        r matches Some(j) ==> j < v@.len() && v@[j as int].day == d,
        r is None ==> forall|j: int| 0 <= j < v@.len() ==> v@[j].day != d,
{
    let mut i: usize = 0;
    while i < v.len()
        invariant
            i <= v@.len(),
            forall|j: int| 0 <= j < i ==> v@[j].day != d,
        decreases v@.len() - i,
    {
        if v[i].day == d {
            return Some(i);
        }
        i = i + 1;
    }
    None
}

/// Books `h` hours of project `p` on day `d` into the cell table.
fn add_to_cells(
    v: &mut Vec<DayProjectHours>,
    d: Date,
    p: i32,
    h: u64,
    Ghost(s): Ghost<Seq<DatedEntry>>,
    Ghost(s1): Ghost<Seq<DatedEntry>>,
)
    requires
        cells_agree(s, old(v)@),
        next_entry(s, s1, d, p, h),
    ensures
        cells_agree(s1, final(v)@),
{
    proof {
        lemma_parts_bounded(s1, d, p, 0, 0);
        lemma_absent(s, d, p);
    }
    let ghost v0 = v@;
    match find_cell(v, d, p) {
        Some(j) => {
            let cell = v[j];
            v.set(j, DayProjectHours { day: d, project_id: p, hours: cell.hours + h });
            proof {
                let w = v@;
                assert forall|dq: Date, pq: i32| has_day_project(s1, dq, pq) implies exists|k: int|
                    0 <= k < w.len() && #[trigger] w[k].day == dq && w[k].project_id == pq by {
                    if dq == d && pq == p {
                        assert(w[j as int].day == dq);
                    } else {
                        assert(has_day_project(s, dq, pq));
                        let k = choose|k: int|
                            0 <= k < v0.len() && #[trigger] v0[k].day == dq && v0[k].project_id == pq;
                        assert(w[k].day == dq);
                    }
                }
            }
        },
        None => {
            v.push(DayProjectHours { day: d, project_id: p, hours: h });
            proof {
                let w = v@;
                assert forall|dq: Date, pq: i32| has_day_project(s1, dq, pq) implies exists|k: int|
                    0 <= k < w.len() && #[trigger] w[k].day == dq && w[k].project_id == pq by {
                    if dq == d && pq == p {
                        assert(w[v0.len() as int].day == dq);
                    } else {
                        assert(has_day_project(s, dq, pq));
                        let k = choose|k: int|
                            0 <= k < v0.len() && #[trigger] v0[k].day == dq && v0[k].project_id == pq;
                        assert(w[k].day == dq);
                    }
                }
            }
        },
    }
}

/// Records the project of one more entry in the name table.
fn add_to_names(
    v: &mut Vec<Named>,
    project: &Named,
    Ghost(s): Ghost<Seq<DatedEntry>>,
    Ghost(s1): Ghost<Seq<DatedEntry>>,
)
    requires
        names_agree(s, old(v)@),
        s1.len() == s.len() + 1,
        s1.drop_last() == s,
        s1.last().entry.project == *project,
    ensures
        names_agree(s1, final(v)@),
{
    let p = project.id;
    let ghost v0 = v@;
    proof {
        lemma_absent(s, s1.last().date, p);
    }
    match find_project(v, p) {
        Some(j) => {
            if v[j].name.is_none() {
                v.set(j, Named { id: p, name: copy_text(&project.name) });
            }
            proof {
                let w = v@;
                assert forall|pq: i32| has_project(s1, pq) implies exists|k: int|
                    0 <= k < w.len() && #[trigger] w[k].id == pq by {
                    if pq == p {
                        assert(w[j as int].id == pq);
                    } else {
                        assert(has_project(s, pq));
                        let k = choose|k: int| 0 <= k < v0.len() && #[trigger] v0[k].id == pq;
                        assert(w[k].id == pq);
                    }
                }
            }
        },
        None => {
            v.push(Named { id: p, name: copy_text(&project.name) });
            proof {
                let w = v@;
                assert forall|pq: i32| has_project(s1, pq) implies exists|k: int|
                    0 <= k < w.len() && #[trigger] w[k].id == pq by {
                    if pq == p {
                        assert(w[v0.len() as int].id == pq);
                    } else {
                        assert(has_project(s, pq));
                        let k = choose|k: int| 0 <= k < v0.len() && #[trigger] v0[k].id == pq;
                        assert(w[k].id == pq);
                    }
                }
            }
        },
    }
}

/// Appends one more entry to the list of its day.
fn add_to_days(
    v: &mut Vec<DayEntries>,
    d: Date,
    e: &TimeEntry,
    Ghost(s): Ghost<Seq<DatedEntry>>,
    Ghost(s1): Ghost<Seq<DatedEntry>>,
)
    requires
        days_agree(s, old(v)@),
        s1.len() == s.len() + 1,
        s1.drop_last() == s,
        s1.last().date == d,
        s1.last().entry == e@,
    ensures
        days_agree(s1, final(v)@),
{
    let ghost v0 = v@;
    proof {
        lemma_absent(s, d, e.project.id);
    }
    match find_day_entries(v, d) {
        Some(j) => {
            let ghost before = v0[j as int].entries@;
            v[j].entries.push(e.duplicate());
            proof {
                let w = v@;
                assert(entry_views(w[j as int].entries@) =~= entry_views(before).push(e@));
                assert forall|k: int| 0 <= k < w.len() && k != j implies #[trigger] w[k] == v0[k] by {}
                assert forall|dq: Date| has_day(s1, dq) implies exists|k: int|
                    0 <= k < w.len() && #[trigger] w[k].day == dq by {
                    if dq == d {
                        assert(w[j as int].day == dq);
                    } else {
                        assert(has_day(s, dq));
                        let k = choose|k: int| 0 <= k < v0.len() && #[trigger] v0[k].day == dq;
                        assert(w[k].day == dq);
                    }
                }
            }
        },
        None => {
            let mut list: Vec<TimeEntry> = Vec::new();
            list.push(e.duplicate());
            proof {
                assert(entry_views(list@) =~= Seq::<TimeEntryView>::empty().push(e@));
            }
            v.push(DayEntries { day: d, entries: list });
            proof {
                let w = v@;
                assert forall|dq: Date| has_day(s1, dq) implies exists|k: int|
                    0 <= k < w.len() && #[trigger] w[k].day == dq by {
                    if dq == d {
                        assert(w[v0.len() as int].day == dq);
                    } else {
                        assert(has_day(s, dq));
                        let k = choose|k: int| 0 <= k < v0.len() && #[trigger] v0[k].day == dq;
                        assert(w[k].day == dq);
                    }
                }
            }
        },
    }
}

/// Books `h` hours of project `p` into the project totals.
fn add_to_project_totals(
    v: &mut Vec<ProjectHours>,
    d: Date,
    p: i32,
    h: u64,
    Ghost(s): Ghost<Seq<DatedEntry>>,
    Ghost(s1): Ghost<Seq<DatedEntry>>,
)
    requires
        project_totals_agree(s, old(v)@),
        next_entry(s, s1, d, p, h),
    ensures
        project_totals_agree(s1, final(v)@),
{
    proof {
        lemma_parts_bounded(s1, d, p, 0, 0);
        lemma_absent(s, d, p);
    }
    let ghost v0 = v@;
    match find_project_hours(v, p) {
        Some(j) => {
            let item = v[j];
            let next = ProjectHours { project_id: p, hours: item.hours + h };
            v.set(j, next);
            proof {
                lemma_sum_project_update(v0, j as int, next);
                let w = v@;
                assert forall|pq: i32| has_project(s1, pq) implies exists|k: int|
                    0 <= k < w.len() && #[trigger] w[k].project_id == pq by {
                    if pq == p {
                        assert(w[j as int].project_id == pq);
                    } else {
                        assert(has_project(s, pq));
                        let k = choose|k: int| 0 <= k < v0.len() && #[trigger] v0[k].project_id == pq;
                        assert(w[k].project_id == pq);
                    }
                }
            }
        },
        None => {
            v.push(ProjectHours { project_id: p, hours: h });
            proof {
                let w = v@;
                assert(w.drop_last() =~= v0);
                assert forall|pq: i32| has_project(s1, pq) implies exists|k: int|
                    0 <= k < w.len() && #[trigger] w[k].project_id == pq by {
                    if pq == p {
                        assert(w[v0.len() as int].project_id == pq);
                    } else {
                        assert(has_project(s, pq));
                        let k = choose|k: int| 0 <= k < v0.len() && #[trigger] v0[k].project_id == pq;
                        assert(w[k].project_id == pq);
                    }
                }
            }
        },
    }
}

/// Books `h` hours of day `d` into the day totals.
fn add_to_day_totals(
    v: &mut Vec<DayHours>,
    d: Date,
    p: i32,
    h: u64,
    Ghost(s): Ghost<Seq<DatedEntry>>,
    Ghost(s1): Ghost<Seq<DatedEntry>>,
)
    requires
        day_totals_agree(s, old(v)@),
        next_entry(s, s1, d, p, h),
    ensures
        day_totals_agree(s1, final(v)@),
{
    proof {
        lemma_parts_bounded(s1, d, p, 0, 0);
        lemma_absent(s, d, p);
    }
    let ghost v0 = v@;
    match find_day_hours(v, d) {
        Some(j) => {
            let item = v[j];
            let next = DayHours { day: d, hours: item.hours + h };
            v.set(j, next);
            proof {
                lemma_sum_day_update(v0, j as int, next);
                let w = v@;
                assert forall|dq: Date| has_day(s1, dq) implies exists|k: int|
                    0 <= k < w.len() && #[trigger] w[k].day == dq by {
                    if dq == d {
                        assert(w[j as int].day == dq);
                    } else {
                        assert(has_day(s, dq));
                        let k = choose|k: int| 0 <= k < v0.len() && #[trigger] v0[k].day == dq;
                        assert(w[k].day == dq);
                    }
                }
            }
        },
        None => {
            v.push(DayHours { day: d, hours: h });
            proof {
                let w = v@;
                assert(w.drop_last() =~= v0);
                assert forall|dq: Date| has_day(s1, dq) implies exists|k: int|
                    0 <= k < w.len() && #[trigger] w[k].day == dq by {
                    if dq == d {
                        assert(w[v0.len() as int].day == dq);
                    } else {
                        assert(has_day(s, dq));
                        let k = choose|k: int| 0 <= k < v0.len() && #[trigger] v0[k].day == dq;
                        assert(w[k].day == dq);
                    }
                }
            }
        },
    }
}

/// Hours of a list of entries.
pub open spec fn sum_of_hours(es: Seq<TimeEntryView>) -> nat
    decreases es.len(),
{
    if es.len() == 0 {
        0
    } else {
        sum_of_hours(es.drop_last()) + es.last().hours as nat
    }
}

/// The days on which the entries were spent, as chrono reads their dates.
pub open spec fn parsed_days(es: Seq<TimeEntryView>) -> Seq<Date> {
    Seq::new(es.len(), |i: int| Date { day: (day_of_text(es[i].spent_on@, DATE_FORMAT@)->0) as i64 })
}

/// Whether chrono reads the date of every entry.
pub open spec fn all_dates_read(es: Seq<TimeEntryView>) -> bool {
    forall|i: int| 0 <= i < es.len() ==> (#[trigger] day_of_text(es[i].spent_on@, DATE_FORMAT@)) is Some
}

/// The total of the dated entries does not depend on their days.
pub proof fn lemma_total_of_dated(es: Seq<TimeEntryView>, ds: Seq<Date>)
    requires
        es.len() == ds.len(),
    ensures
        total_hours(dated(es, ds)) == sum_of_hours(es),
    decreases es.len(),
{
    if es.len() > 0 {
        assert(dated(es, ds).drop_last() =~= dated(es.drop_last(), ds.drop_last()));
        lemma_total_of_dated(es.drop_last(), ds.drop_last());
    }
}

/// The one way in which aggregation fails: the date of the entry at `index` is not
/// written `YYYY-MM-DD`.
#[derive(Debug, Clone, Copy, PartialEq, Eq, Structural)]
pub struct MalformedDate {
    pub index: usize,
}

/// Time entries summed up by day, by project, and by day and project.
pub struct Report {
    projects: Vec<Named>,
    cumulative_hours: Vec<DayProjectHours>,
    entries_per_day: Vec<DayEntries>,
    hours_per_project: Vec<ProjectHours>,
    hours_at: Vec<DayHours>,
    source: Ghost<Seq<DatedEntry>>,
}

impl Report {
    /// The entries the report was built from, each with its day.
    pub closed spec fn source(self) -> Seq<DatedEntry> {
        self.source@
    }

    /// The hours of each project.
    pub closed spec fn project_totals(self) -> Seq<ProjectHours> {
        self.hours_per_project@
    }

    /// The hours of each day.
    pub closed spec fn day_totals(self) -> Seq<DayHours> {
        self.hours_at@
    }

    /// Every table agrees with the entries, whose hours fit in 64 bits.
    pub closed spec fn wf(self) -> bool {
        &&& names_agree(self.source@, self.projects@)
        &&& cells_agree(self.source@, self.cumulative_hours@)
        &&& days_agree(self.source@, self.entries_per_day@)
        &&& project_totals_agree(self.source@, self.hours_per_project@)
        &&& day_totals_agree(self.source@, self.hours_at@)
        &&& total_hours(self.source@) <= u64::MAX
    }

    /// Builds the report of `entries`, the entry at each index spent on the day at the
    /// same index of `days`.
    pub fn from_dated_entries(entries: &Vec<TimeEntry>, days: &Vec<Date>) -> (r: Report)
        requires
            entries@.len() == days@.len(),
            sum_of_hours(entry_views(entries@)) <= u64::MAX,
        ensures
            r.wf(),
            r.source() == dated(entry_views(entries@), days@),
    {
        let ghost s = dated(entry_views(entries@), days@);
        proof {
            lemma_total_of_dated(entry_views(entries@), days@);
            assert(s.take(0) =~= Seq::<DatedEntry>::empty());
        }
        let mut report = Report {
            projects: Vec::new(),
            cumulative_hours: Vec::new(),
            entries_per_day: Vec::new(),
            hours_per_project: Vec::new(),
            hours_at: Vec::new(),
            source: Ghost(s.take(0)),
        };
        let mut i: usize = 0;
        while i < entries.len()
            invariant
                i <= entries@.len(),
                entries@.len() == days@.len(),
                s == dated(entry_views(entries@), days@),
                total_hours(s) <= u64::MAX,
                report.source@ == s.take(i as int),
                names_agree(report.source@, report.projects@),
                cells_agree(report.source@, report.cumulative_hours@),
                days_agree(report.source@, report.entries_per_day@),
                project_totals_agree(report.source@, report.hours_per_project@),
                day_totals_agree(report.source@, report.hours_at@),
            decreases entries@.len() - i,
        {
            let e = &entries[i];
            let d = days[i];
            let ghost s0 = s.take(i as int);
            let ghost s1 = s.take(i + 1);
            proof {
                assert(s1.drop_last() =~= s0);
                lemma_prefix_total(s, i + 1);
            }
            add_to_names(&mut report.projects, &e.project, Ghost(s0), Ghost(s1));
            add_to_cells(&mut report.cumulative_hours, d, e.project.id, e.hours, Ghost(s0), Ghost(s1));
            add_to_days(&mut report.entries_per_day, d, e, Ghost(s0), Ghost(s1));
            add_to_project_totals(
                &mut report.hours_per_project,
                d,
                e.project.id,
                e.hours,
                Ghost(s0),
                Ghost(s1),
            );
            add_to_day_totals(&mut report.hours_at, d, e.project.id, e.hours, Ghost(s0), Ghost(s1));
            report.source = Ghost(s1);
            i = i + 1;
        }
        proof {
            assert(s.take(i as int) =~= s);
        }
        report
    }

    /// Builds the report of `entries`, reading the day of each from its `spent_on`.
    /// Fails on the first entry whose date chrono cannot read as `YYYY-MM-DD`.
    pub fn from_entries(entries: &Vec<TimeEntry>) -> (r: Result<Report, MalformedDate>)
        requires
            sum_of_hours(entry_views(entries@)) <= u64::MAX,
        ensures
            r is Ok <==> all_dates_read(entry_views(entries@)),
            r matches Ok(rep) ==> rep.wf() && rep.source() == dated(
                entry_views(entries@),
                parsed_days(entry_views(entries@)),
            ),
            r matches Err(e) ==> e.index < entries@.len() && day_of_text(
                entries@[e.index as int].spent_on@,
                DATE_FORMAT@,
            ) is None && forall|k: int|
                0 <= k < e.index ==> (#[trigger] day_of_text(entries@[k].spent_on@, DATE_FORMAT@)) is Some,
    {
        let ghost es = entry_views(entries@);
        let mut days: Vec<Date> = Vec::new();
        let mut i: usize = 0;
        while i < entries.len()
            invariant
                i <= entries@.len(),
                es == entry_views(entries@),
                days@ == parsed_days(es).take(i as int),
                forall|k: int| 0 <= k < i ==> (#[trigger] day_of_text(entries@[k].spent_on@, DATE_FORMAT@)) is Some,
            decreases entries@.len() - i,
        {
            match Date::parse(entries[i].spent_on.as_str()) {
                Some(d) => {
                    days.push(d);
                },
                None => {
                    proof {
                        assert(es[i as int].spent_on == entries@[i as int].spent_on);
                    }
                    return Err(MalformedDate { index: i });
                },
            }
            i = i + 1;
            proof {
                assert(days@ =~= parsed_days(es).take(i as int));
            }
        }
        proof {
            assert(days@ =~= parsed_days(es));
            assert forall|k: int| 0 <= k < es.len() implies (#[trigger] day_of_text(
                es[k].spent_on@,
                DATE_FORMAT@,
            )) is Some by {
                assert(es[k].spent_on == entries@[k].spent_on);
            }
        }
        Ok(Report::from_dated_entries(entries, &days))
    }
}

/// The entries of one day, in input order, and their hours.
#[derive(Debug, PartialEq)]
pub struct DailyReport {
    entries: Vec<TimeEntry>,
    total_hours: u64,
}

impl DailyReport {
    /// The views of the entries of the day.
    pub closed spec fn entry_list(self) -> Seq<TimeEntryView> {
        entry_views(self.entries@)
    }

    /// The hours of the day, in hundredths.
    pub closed spec fn total(self) -> nat {
        self.total_hours as nat
    }

    /// The entries of the day, in input order.
    pub fn entries(&self) -> (r: &Vec<TimeEntry>)
        ensures
            entry_views(r@) == self.entry_list(),
    {
        &self.entries
    }

    /// The hours of the day, in hundredths of an hour.
    pub fn total_hours(&self) -> (r: u64)
        ensures
            r == self.total(),
    {
        self.total_hours
    }
}

/// Copies a list of entries; the copy has the same views.
fn copy_entries(v: &Vec<TimeEntry>) -> (r: Vec<TimeEntry>)
    ensures
        entry_views(r@) == entry_views(v@),
{
    let mut out: Vec<TimeEntry> = Vec::new();
    let mut i: usize = 0;
    while i < v.len()
        invariant
            i <= v@.len(),
            entry_views(out@) == entry_views(v@).take(i as int),
        decreases v@.len() - i,
    {
        let ghost before = out@;
        let e = v[i].duplicate();
        out.push(e);
        proof {
            assert(entry_views(out@) =~= entry_views(before).push(e@));
            assert(entry_views(v@).take(i + 1) =~= entry_views(v@).take(i as int).push(v@[i as int]@));
        }
        i = i + 1;
    }
    proof {
        assert(entry_views(v@).take(i as int) =~= entry_views(v@));
    }
    out
}

impl Report {
    /// The report of day `needle`: its entries in input order and their hours; empty,
    /// with no hours, when nothing was spent on that day.
    pub fn get_report_for_date(&self, needle: &Date) -> (r: DailyReport)
        requires
            self.wf(),
        ensures
            r.entry_list() == entries_on(self.source(), *needle),
            r.total() == hours_on(self.source(), *needle),
    {
        proof {
            lemma_absent(self.source@, *needle, 0);
        }
        let total_hours = match find_day_hours(&self.hours_at, *needle) {
            Some(j) => self.hours_at[j].hours,
            None => 0,
        };
        let entries = match find_day_entries(&self.entries_per_day, *needle) {
            Some(j) => copy_entries(&self.entries_per_day[j].entries),
            None => {
                let v: Vec<TimeEntry> = Vec::new();
                proof {
                    assert(entry_views(v@) =~= Seq::<TimeEntryView>::empty());
                }
                v
            },
        };
        DailyReport { entries, total_hours }
    }

    /// The hours of project `project_id` on `day`; zero when none were booked.
    pub fn get_or_zero(&self, day: &Date, project_id: i32) -> (r: u64)
        requires
            self.wf(),
        ensures
            r == hours_on_for(self.source(), *day, project_id),
    {
        proof {
            lemma_absent(self.source@, *day, project_id);
        }
        match find_cell(&self.cumulative_hours, *day, project_id) {
            Some(j) => self.cumulative_hours[j].hours,
            None => 0,
        }
    }

    /// The first name given for project `project_id`; `None` when no entry named it.
    pub fn project_name(&self, project_id: i32) -> (r: Option<String>)
        requires
            self.wf(),
        ensures
            r == name_of(self.source(), project_id),
    {
        proof {
            lemma_absent(self.source@, Date { day: 0 }, project_id);
        }
        match find_project(&self.projects, project_id) {
            Some(j) => copy_text(&self.projects[j].name),
            None => None,
        }
    }

    /// The hours of each project, each project once.
    pub fn hours_per_project(&self) -> (r: &Vec<ProjectHours>)
        requires
            self.wf(),
        ensures
            r@ == self.project_totals(),
            project_totals_agree(self.source(), r@),
    {
        &self.hours_per_project
    }

    /// The hours of each day, each day once.
    pub fn hours_at(&self) -> (r: &Vec<DayHours>)
        requires
            self.wf(),
        ensures
            r@ == self.day_totals(),
            day_totals_agree(self.source(), r@),
    {
        &self.hours_at
    }
}

/// Summed by project or summed by day, the hours of a report add up to the hours of
/// all the entries it was built from.
pub proof fn lemma_sums_agree(r: &Report, entries: Seq<TimeEntryView>, days: Seq<Date>)
    requires
        r.wf(),
        entries.len() == days.len(),
        r.source() == dated(entries, days),
    ensures
        sum_project_hours(r.project_totals()) == sum_of_hours(entries),
        sum_day_hours(r.day_totals()) == sum_of_hours(entries),
{
    lemma_total_of_dated(entries, days);
}

/// The hours of a day are the hours of its entries.
pub proof fn lemma_day_hours_are_entry_hours(s: Seq<DatedEntry>, d: Date)
    ensures
        hours_on(s, d) == sum_of_hours(entries_on(s, d)),
    decreases s.len(),
{
    if s.len() > 0 {
        lemma_day_hours_are_entry_hours(s.drop_last(), d);
        if s.last().date == d {
            assert(entries_on(s, d).drop_last() =~= entries_on(s.drop_last(), d));
        }
    }
}

/// Whether the rows of a roster rank in order, each before all that follow it.
pub open spec fn roster_sorted(r: Seq<(i32, String)>) -> bool {
    forall|a: int, b: int|
        0 <= a < b < r.len() ==> ranked_before(#[trigger] r[a].1@, r[a].0, #[trigger] r[b].1@, r[b].0)
}

/// The ids of a roster.
pub open spec fn roster_ids(r: Seq<(i32, String)>) -> Seq<i32> {
    Seq::new(r.len(), |a: int| r[a].0)
}

/// Whether `r` lists the projects of `s`, each once, with the name it is shown with.
pub open spec fn roster_of(s: Seq<DatedEntry>, r: Seq<(i32, String)>) -> bool {
    &&& distinct_ids(roster_ids(r))
    &&& forall|a: int|
        0 <= a < r.len() ==> has_project(s, #[trigger] r[a].0) && r[a].1@ == display_name(
            name_of(s, r[a].0),
        )
    &&& forall|p: i32| has_project(s, p) ==> exists|a: int| 0 <= a < r.len() && #[trigger] r[a].0 == p
}

/// Whether one of the first `t` entries of the name table has id `id`.
pub open spec fn named_among(names: Seq<Named>, t: int, id: i32) -> bool {
    exists|u: int| 0 <= u < t && #[trigger] names[u].id == id
}

/// The name a project is shown with.
fn shown_name(n: &Option<String>) -> (r: String)
    ensures
        r@ == display_name(*n),
{
    match n {
        Some(t) => t.clone(),
        None => String::new(),
    }
}

impl Report {
    /// The projects of the report, ranked by the name they are shown with, then by id.
    fn roster(&self) -> (r: Vec<(i32, String)>)
        requires
            self.wf(),
        ensures
            roster_sorted(r@),
            roster_of(self.source(), r@),
    {
        let ghost s = self.source@;
        let ghost names = self.projects@;
        let mut r: Vec<(i32, String)> = Vec::new();
        let mut t: usize = 0;
        while t < self.projects.len()
            invariant
                t <= names.len(),
                names == self.projects@,
                s == self.source@,
                names_agree(s, names),
                roster_sorted(r@),
                distinct_ids(roster_ids(r@)),
                forall|a: int|
                    0 <= a < r@.len() ==> has_project(s, #[trigger] r@[a].0) && r@[a].1@
                        == display_name(name_of(s, r@[a].0)),
                forall|a: int| 0 <= a < r@.len() ==> named_among(names, t as int, #[trigger] r@[a].0),
                forall|u: int|
                    0 <= u < t ==> exists|a: int| 0 <= a < r@.len() && r@[a].0 == #[trigger] names[u].id,
            decreases names.len() - t,
        {
            let id = self.projects[t].id;
            let name = shown_name(&self.projects[t].name);
            let ghost o = r@;
            proof {
                assert forall|a: int| 0 <= a < o.len() implies o[a].0 != id by {
                    assert(named_among(names, t as int, o[a].0));
                    let u = choose|u: int| 0 <= u < t && #[trigger] names[u].id == o[a].0;
                }
            }
            let mut pos: usize = 0;
            let mut go = true;
            while go && pos < r.len()
                invariant
                    pos <= r@.len(),
                    r@ == o,
                    forall|a: int| 0 <= a < pos ==> ranked_before(#[trigger] r@[a].1@, r@[a].0, name@, id),
                    !go ==> pos < r@.len() && !ranked_before(r@[pos as int].1@, r@[pos as int].0, name@, id),
                decreases r@.len() - pos + if go { 1int } else { 0int },
            {
                if ranked_precedes(&r[pos].1, r[pos].0, &name, id) {
                    pos = pos + 1;
                } else {
                    go = false;
                }
            }
            proof {
                assert forall|a: int| pos <= a < o.len() implies ranked_before(name@, id, #[trigger] o[a].1@, o[a].0) by {
                    lemma_ranked_total(o[pos as int].1@, o[pos as int].0, name@, id);
                    if a > pos {
                        lemma_ranked_transitive(name@, id, o[pos as int].1@, o[pos as int].0, o[a].1@, o[a].0);
                    }
                }
            }
            r.insert(pos, (id, name));
            proof {
                let n = r@;
                assert(n == o.insert(pos as int, (id, name)));
                assert forall|a: int, b: int| 0 <= a < b < n.len() implies ranked_before(
                    #[trigger] n[a].1@,
                    n[a].0,
                    #[trigger] n[b].1@,
                    n[b].0,
                ) by {
                    if b < pos {
                    } else if b == pos {
                    } else if a < pos {
                        lemma_ranked_transitive(o[a].1@, o[a].0, name@, id, o[b - 1].1@, o[b - 1].0);
                    } else if a == pos {
                    } else {
                        assert(n[a] == o[a - 1] && n[b] == o[b - 1]);
                    }
                }
                assert forall|a: int, b: int| 0 <= a < b < n.len() implies roster_ids(n)[a] != roster_ids(n)[b] by {
                    if b < pos {
                        assert(roster_ids(o)[a] != roster_ids(o)[b]);
                    } else if b == pos {
                    } else if a < pos {
                        assert(roster_ids(o)[a] != roster_ids(o)[b - 1]);
                    } else if a == pos {
                    } else {
                        assert(roster_ids(o)[a - 1] != roster_ids(o)[b - 1]);
                    }
                }
                assert forall|a: int| 0 <= a < n.len() implies named_among(names, t + 1, #[trigger] n[a].0) by {
                    if a < pos {
                        assert(named_among(names, t as int, o[a].0));
                        let u = choose|u: int| 0 <= u < t && #[trigger] names[u].id == o[a].0;
                        assert(names[u].id == n[a].0);
                    } else if a == pos {
                        assert(names[t as int].id == n[a].0);
                    } else {
                        assert(named_among(names, t as int, o[a - 1].0));
                        let u = choose|u: int| 0 <= u < t && #[trigger] names[u].id == o[a - 1].0;
                        assert(names[u].id == n[a].0);
                    }
                }
                assert forall|u: int| 0 <= u < t + 1 implies exists|a: int| 0 <= a < n.len() && n[a].0 == #[trigger] names[u].id by {
                    if u == t {
                        assert(n[pos as int].0 == names[u].id);
                    } else {
                        let a = choose|a: int| 0 <= a < o.len() && o[a].0 == #[trigger] names[u].id;
                        if a < pos {
                            assert(n[a].0 == names[u].id);
                        } else {
                            assert(n[a + 1].0 == names[u].id);
                        }
                    }
                }
            }
            t = t + 1;
        }
        proof {
            assert forall|p: i32| has_project(s, p) implies exists|a: int| 0 <= a < r@.len() && #[trigger] r@[a].0 == p by {
                let u = choose|u: int| 0 <= u < names.len() && #[trigger] names[u].id == p;
                let a = choose|a: int| 0 <= a < r@.len() && r@[a].0 == #[trigger] names[u].id;
            }
        }
        r
    }
}

/// Whether the rows rank in order, each before all that follow it.
pub open spec fn rows_sorted(rows: Seq<GridRow>) -> bool {
    forall|a: int, b: int|
        0 <= a < b < rows.len() ==> ranked_before(
            (#[trigger] rows[a]).name@,
            rows[a].project_id,
            (#[trigger] rows[b]).name@,
            rows[b].project_id,
        )
}

/// The project ids of the rows.
pub open spec fn row_ids(rows: Seq<GridRow>) -> Seq<i32> {
    Seq::new(rows.len(), |a: int| rows[a].project_id)
}

/// Whether `row` is the row of project `p` over the week starting on day number `m`
/// of the entries `s`, on the days `days`.
pub open spec fn row_of(s: Seq<DatedEntry>, days: Seq<Date>, m: int, p: i32, row: GridRow) -> bool {
    &&& row.project_id == p
    &&& row.cells@.len() == 7
    &&& forall|k: int| 0 <= k < 7 ==> shows(#[trigger] row.cells@[k], hours_on_for(s, days[k], p))
    &&& shows(row.total, cells_sum(row.cells@))
    &&& cells_sum(row.cells@) == window_hours_for(s, m, m + 7, p)
}

/// Whether `g` is the grid of the week of `needle` over the entries `s`: the seven
/// days from its Monday; a row for each project that has an entry, ranked by the name
/// it is shown with and then by id, holding the project's hours on each day and their
/// sum; the hours of each day with their severity; and the hours of the week, which
/// the row totals and the day totals both add up to.
pub open spec fn grid_of(s: Seq<DatedEntry>, needle: Date, g: WeeklyGrid) -> bool {
    let m = week_start(needle.num());
    &&& g.days@.len() == 7
    &&& forall|k: int| 0 <= k < 7 ==> (#[trigger] g.days@[k]).num() == m + k
    &&& rows_sorted(g.rows@)
    &&& distinct_ids(row_ids(g.rows@))
    &&& forall|a: int|
        0 <= a < g.rows@.len() ==> has_project(s, (#[trigger] g.rows@[a]).project_id)
            && g.rows@[a].name@ == display_name(name_of(s, g.rows@[a].project_id)) && row_of(
            s,
            g.days@,
            m,
            g.rows@[a].project_id,
            g.rows@[a],
        )
    &&& forall|p: i32|
        has_project(s, p) ==> exists|a: int| 0 <= a < g.rows@.len() && (#[trigger] g.rows@[a]).project_id == p
    &&& g.day_totals@.len() == 7
    &&& forall|k: int|
        0 <= k < 7 ==> (#[trigger] g.day_totals@[k]).day == g.days@[k] && shows(
            g.day_totals@[k].total,
            hours_on(s, g.days@[k]),
        ) && g.day_totals@[k].severity == severity_of(hours_on(s, g.days@[k]))
    &&& g.grand_total == row_totals_sum(g.rows@)
    &&& g.grand_total == day_totals_sum(g.day_totals@)
    &&& g.grand_total == window_hours(s, m, m + 7)
}

impl Report {
    /// The hours spent on `day`; zero when none were.
    pub fn hours_on_day(&self, day: &Date) -> (r: u64)
        requires
            self.wf(),
        ensures
            r == hours_on(self.source(), *day),
    {
        proof {
            lemma_absent(self.source@, *day, 0);
        }
        match find_day_hours(&self.hours_at, *day) {
            Some(j) => self.hours_at[j].hours,
            None => 0,
        }
    }

    /// The row of project `id`, shown as `name`, over the week of `days`.
    fn grid_row(&self, id: i32, name: String, days: &Vec<Date>, Ghost(m): Ghost<int>) -> (r: GridRow)
        requires
            self.wf(),
            days@.len() == 7,
            forall|k: int| 0 <= k < 7 ==> (#[trigger] days@[k]).num() == m + k,
        ensures
            row_of(self.source(), days@, m, id, r),
            r.name == name,
    {
        let ghost s = self.source@;
        let mut cells: Vec<GridCell> = Vec::new();
        let mut sum: u64 = 0;
        let mut k: usize = 0;
        proof {
            assert(days@[0].num() == m);
            lemma_window_step(s, m, m, id);
        }
        while k < 7
            invariant
                k <= 7,
                s == self.source@,
                self.wf(),
                days@.len() == 7,
                forall|j: int| 0 <= j < 7 ==> (#[trigger] days@[j]).num() == m + j,
                cells@.len() == k,
                forall|j: int| 0 <= j < k ==> shows(#[trigger] cells@[j], hours_on_for(s, days@[j], id)),
                sum == cells_sum(cells@),
                sum == window_hours_for(s, m, m + k, id),
            decreases 7 - k,
        {
            let h = self.get_or_zero(&days[k], id);
            proof {
                let d = days@[k as int];
                assert(d == Date { day: (m + k) as i64 });
                lemma_window_step(s, m, m + k, id);
                lemma_parts_bounded(s, d, id, m, m + k + 1);
            }
            let ghost before = cells@;
            cells.push(cell_of(h));
            proof {
                assert(cells@.drop_last() =~= before);
            }
            sum = sum + h;
            k = k + 1;
        }
        GridRow { project_id: id, name, cells, total: cell_of(sum) }
    }

    /// The grid of the week that holds `needle`, Monday to Sunday.
    pub fn weekly_grid(&self, needle: &Date) -> (g: WeeklyGrid)
        requires
            self.wf(),
            needle.has_week(),
        ensures
            grid_of(self.source(), *needle, g),
    {
        let ghost s = self.source@;
        proof {
            lemma_week_bounds(needle.num());
        }
        let monday = needle.monday_of_week();
        let ghost m = monday.num();
        let mut days: Vec<Date> = Vec::new();
        let mut k: i64 = 0;
        while k < 7
            invariant
                0 <= k <= 7,
                m == monday.num(),
                m + 6 <= i64::MAX,
                days@.len() == k,
                forall|j: int| 0 <= j < k ==> (#[trigger] days@[j]).num() == m + j,
            decreases 7 - k,
        {
            days.push(Date { day: monday.day + k });
            k = k + 1;
        }
        let roster = self.roster();
        let ghost ids = roster_ids(roster@);
        let mut rows: Vec<GridRow> = Vec::new();
        let mut grand: u64 = 0;
        let mut a: usize = 0;
        proof {
            assert(ids.take(0) =~= Seq::<i32>::empty());
        }
        while a < roster.len()
            invariant
                a <= roster@.len(),
                s == self.source@,
                self.wf(),
                ids == roster_ids(roster@),
                roster_sorted(roster@),
                roster_of(s, roster@),
                days@.len() == 7,
                forall|j: int| 0 <= j < 7 ==> (#[trigger] days@[j]).num() == m + j,
                rows@.len() == a,
                forall|b: int|
                    0 <= b < a ==> (#[trigger] rows@[b]).project_id == roster@[b].0 && rows@[b].name
                        == roster@[b].1 && row_of(s, days@, m, roster@[b].0, rows@[b]),
                grand == row_totals_sum(rows@),
                grand == projects_window_hours(s, m, m + 7, ids.take(a as int)),
            decreases roster@.len() - a,
        {
            let id = roster[a].0;
            let row = self.grid_row(id, roster[a].1.clone(), &days, Ghost(m));
            proof {
                let t = ids.take(a + 1);
                assert(t.drop_last() =~= ids.take(a as int));
                assert(distinct_ids(t));
                lemma_projects_partition(s, m, m + 7, t);
                lemma_parts_bounded(s, Date { day: 0 }, id, m, m + 7);
            }
            let ghost before = rows@;
            grand = grand + row.total.hours;
            rows.push(row);
            proof {
                assert(rows@.drop_last() =~= before);
            }
            a = a + 1;
        }
        proof {
            assert(ids.take(a as int) =~= ids);
            assert forall|p: i32| has_project(s, p) implies ids.contains(p) by {
                let b = choose|b: int| 0 <= b < roster@.len() && #[trigger] roster@[b].0 == p;
                assert(ids[b] == p);
            }
            lemma_projects_partition(s, m, m + 7, ids);
            lemma_window_step(s, m, m, 0);
        }
        let mut day_totals: Vec<DayTotal> = Vec::new();
        let mut week: u64 = 0;
        let mut k: usize = 0;
        while k < 7
            invariant
                k <= 7,
                s == self.source@,
                self.wf(),
                days@.len() == 7,
                forall|j: int| 0 <= j < 7 ==> (#[trigger] days@[j]).num() == m + j,
                day_totals@.len() == k,
                forall|j: int|
                    0 <= j < k ==> (#[trigger] day_totals@[j]).day == days@[j] && shows(
                        day_totals@[j].total,
                        hours_on(s, days@[j]),
                    ) && day_totals@[j].severity == severity_of(hours_on(s, days@[j])),
                week == day_totals_sum(day_totals@),
                week == window_hours(s, m, m + k),
            decreases 7 - k,
        {
            let d = days[k];
            let h = self.hours_on_day(&d);
            proof {
                assert(d == Date { day: (m + k) as i64 });
                lemma_window_step(s, m, m + k, 0);
                lemma_parts_bounded(s, d, 0, m, m + k + 1);
            }
            let ghost before = day_totals@;
            day_totals.push(DayTotal { day: d, total: cell_of(h), severity: classify(h) });
            proof {
                assert(day_totals@.drop_last() =~= before);
            }
            week = week + h;
            k = k + 1;
        }
        let g = WeeklyGrid { days, rows, day_totals, grand_total: grand };
        proof {
            let rs = g.rows@;
            assert forall|x: int, y: int| 0 <= x < y < rs.len() implies ranked_before(
                (#[trigger] rs[x]).name@,
                rs[x].project_id,
                (#[trigger] rs[y]).name@,
                rs[y].project_id,
            ) by {
                assert(ranked_before(roster@[x].1@, roster@[x].0, roster@[y].1@, roster@[y].0));
            }
            assert(row_ids(rs) =~= ids);
            assert forall|p: i32| has_project(s, p) implies exists|x: int|
                0 <= x < rs.len() && (#[trigger] rs[x]).project_id == p by {
                let b = choose|b: int| 0 <= b < roster@.len() && #[trigger] roster@[b].0 == p;
                assert(rs[b].project_id == p);
            }
        }
        g
    }
}

/// An entry of no hours is still counted: it joins the entries of its day and gives
/// its project a row, while every total stays as it was.
pub proof fn lemma_zero_entry(s: Seq<DatedEntry>, x: DatedEntry, d: Date, p: i32, lo: int, hi: int)
    requires
        x.entry.hours == 0,
    ensures
        entries_on(s.push(x), x.date) == entries_on(s, x.date).push(x.entry),
        has_project(s.push(x), x.entry.project.id),
        total_hours(s.push(x)) == total_hours(s),
        hours_on(s.push(x), d) == hours_on(s, d),
        project_hours(s.push(x), p) == project_hours(s, p),
        hours_on_for(s.push(x), d, p) == hours_on_for(s, d, p),
        window_hours(s.push(x), lo, hi) == window_hours(s, lo, hi),
        window_hours_for(s.push(x), lo, hi, p) == window_hours_for(s, lo, hi, p),
{
    assert(s.push(x).drop_last() =~= s);
}

/// Whether the ids `x` rank in order by the name each is shown with over `s`, then by id.
pub open spec fn ids_ranked(s: Seq<DatedEntry>, x: Seq<i32>) -> bool {
    forall|a: int, b: int|
        0 <= a < b < x.len() ==> ranked_before(
            display_name(name_of(s, #[trigger] x[a])),
            x[a],
            display_name(name_of(s, #[trigger] x[b])),
            x[b],
        )
}

/// Two ranked lists of the same ids are the same list.
proof fn lemma_ranked_unique(s: Seq<DatedEntry>, x: Seq<i32>, y: Seq<i32>)
    requires
        ids_ranked(s, x),
        ids_ranked(s, y),
        forall|p: i32| x.contains(p) <==> y.contains(p),
    ensures
        x == y,
    decreases x.len() + y.len(),
{
    let nm = |p: i32| display_name(name_of(s, p));
    if x.len() == 0 {
        if y.len() > 0 {
            assert(y.contains(y[0]));
        }
        assert(x =~= y);
    } else if y.len() == 0 {
        assert(x.contains(x[0]));
    } else {
        assert(y.contains(x[0]));
        assert(x.contains(y[0]));
        let j = choose|j: int| 0 <= j < y.len() && y[j] == x[0];
        let i = choose|i: int| 0 <= i < x.len() && x[i] == y[0];
        if i > 0 && j > 0 {
            assert(ranked_before(nm(x[0]), x[0], nm(x[i]), x[i]));
            assert(ranked_before(nm(y[0]), y[0], nm(y[j]), y[j]));
            lemma_ranked_total(nm(x[0]), x[0], nm(y[0]), y[0]);
        }
        assert(x[0] == y[0]);
        let x1 = x.skip(1);
        let y1 = y.skip(1);
        assert forall|p: i32| x1.contains(p) <==> y1.contains(p) by {
            if x1.contains(p) {
                let a = choose|a: int| 0 <= a < x1.len() && x1[a] == p;
                assert(x[a + 1] == p);
                assert(x.contains(p));
                if p == x[0] {
                    assert(ranked_before(nm(x[0]), x[0], nm(x[a + 1]), x[a + 1]));
                    lemma_ranked_total(nm(p), p, nm(p), p);
                }
                let b = choose|b: int| 0 <= b < y.len() && y[b] == p;
                assert(b != 0);
                assert(y1[b - 1] == p);
            }
            if y1.contains(p) {
                let a = choose|a: int| 0 <= a < y1.len() && y1[a] == p;
                assert(y[a + 1] == p);
                assert(y.contains(p));
                if p == y[0] {
                    assert(ranked_before(nm(y[0]), y[0], nm(y[a + 1]), y[a + 1]));
                    lemma_ranked_total(nm(p), p, nm(p), p);
                }
                let b = choose|b: int| 0 <= b < x.len() && x[b] == p;
                assert(b != 0);
                assert(x1[b - 1] == p);
            }
        }
        assert forall|a: int, b: int| 0 <= a < b < x1.len() implies ranked_before(
            display_name(name_of(s, #[trigger] x1[a])),
            x1[a],
            display_name(name_of(s, #[trigger] x1[b])),
            x1[b],
        ) by {
            assert(x1[a] == x[a + 1] && x1[b] == x[b + 1]);
        }
        assert forall|a: int, b: int| 0 <= a < b < y1.len() implies ranked_before(
            display_name(name_of(s, #[trigger] y1[a])),
            y1[a],
            display_name(name_of(s, #[trigger] y1[b])),
            y1[b],
        ) by {
            assert(y1[a] == y[a + 1] && y1[b] == y[b + 1]);
        }
        lemma_ranked_unique(s, x1, y1);
        assert(x =~= seq![x[0]] + x1);
        assert(y =~= seq![y[0]] + y1);
    }
}

/// The grid of a week depends on the entries alone: two grids of the same week over the
/// same entries hold the same days, the same rows in the same order with the same
/// names and hours, the same day totals and the same grand total. So querying the
/// reports of one input twice, or one report twice, gives the same grid.
pub proof fn lemma_grid_determined(s: Seq<DatedEntry>, needle: Date, g1: WeeklyGrid, g2: WeeklyGrid)
    requires
        grid_of(s, needle, g1),
        grid_of(s, needle, g2),
    ensures
        g1.days@ == g2.days@,
        g1.rows@.len() == g2.rows@.len(),
        forall|a: int|
            0 <= a < g1.rows@.len() ==> (#[trigger] g1.rows@[a]).project_id == g2.rows@[a].project_id
                && g1.rows@[a].name@ == g2.rows@[a].name@ && g1.rows@[a].cells@ == g2.rows@[a].cells@
                && g1.rows@[a].total == g2.rows@[a].total,
        g1.day_totals@ == g2.day_totals@,
        g1.grand_total == g2.grand_total,
{
    let m = week_start(needle.num());
    let r1 = g1.rows@;
    let r2 = g2.rows@;
    let x = row_ids(r1);
    let y = row_ids(r2);
    assert(g1.days@ =~= g2.days@) by {
        assert forall|k: int| 0 <= k < 7 implies g1.days@[k] == g2.days@[k] by {
            assert(g1.days@[k].num() == m + k);
            assert(g2.days@[k].num() == m + k);
        }
    }
    assert forall|a: int, b: int| 0 <= a < b < x.len() implies ranked_before(
        display_name(name_of(s, #[trigger] x[a])),
        x[a],
        display_name(name_of(s, #[trigger] x[b])),
        x[b],
    ) by {
        assert(r1[a].name@ == display_name(name_of(s, r1[a].project_id)));
        assert(r1[b].name@ == display_name(name_of(s, r1[b].project_id)));
        assert(ranked_before(r1[a].name@, r1[a].project_id, r1[b].name@, r1[b].project_id));
    }
    assert forall|a: int, b: int| 0 <= a < b < y.len() implies ranked_before(
        display_name(name_of(s, #[trigger] y[a])),
        y[a],
        display_name(name_of(s, #[trigger] y[b])),
        y[b],
    ) by {
        assert(r2[a].name@ == display_name(name_of(s, r2[a].project_id)));
        assert(r2[b].name@ == display_name(name_of(s, r2[b].project_id)));
        assert(ranked_before(r2[a].name@, r2[a].project_id, r2[b].name@, r2[b].project_id));
    }
    assert forall|p: i32| x.contains(p) <==> y.contains(p) by {
        if x.contains(p) {
            let a = choose|a: int| 0 <= a < x.len() && x[a] == p;
            assert(has_project(s, r1[a].project_id));
            let b = choose|b: int| 0 <= b < r2.len() && (#[trigger] r2[b]).project_id == p;
            assert(y[b] == p);
        }
        if y.contains(p) {
            let a = choose|a: int| 0 <= a < y.len() && y[a] == p;
            assert(has_project(s, r2[a].project_id));
            let b = choose|b: int| 0 <= b < r1.len() && (#[trigger] r1[b]).project_id == p;
            assert(x[b] == p);
        }
    }
    lemma_ranked_unique(s, x, y);
    assert forall|a: int| 0 <= a < r1.len() implies (#[trigger] r1[a]).project_id == r2[a].project_id
        && r1[a].name@ == r2[a].name@ && r1[a].cells@ == r2[a].cells@ && r1[a].total == r2[a].total by {
        assert(x[a] == y[a]);
        let p = r1[a].project_id;
        assert(row_of(s, g1.days@, m, p, r1[a]));
        assert(row_of(s, g2.days@, m, p, r2[a]));
        assert(r1[a].cells@ =~= r2[a].cells@) by {
            assert forall|k: int| 0 <= k < 7 implies r1[a].cells@[k] == r2[a].cells@[k] by {
                assert(shows(r1[a].cells@[k], hours_on_for(s, g1.days@[k], p)));
                assert(shows(r2[a].cells@[k], hours_on_for(s, g2.days@[k], p)));
            }
        }
    }
    assert(g1.day_totals@ =~= g2.day_totals@) by {
        assert forall|k: int| 0 <= k < 7 implies g1.day_totals@[k] == g2.day_totals@[k] by {
            assert(g1.day_totals@[k].day == g1.days@[k]);
            assert(g2.day_totals@[k].day == g2.days@[k]);
        }
    }
}

} // verus!
