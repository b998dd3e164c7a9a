//! The decisions behind listing and booking time: which days to fetch, which
//! entries to leave out, which issues to look up, which activity to offer first.

use vstd::prelude::*;
use vstd::string::StringExecFns;

use crate::date::{week_end, week_start, Date, HIGHEST_DAY, LOWEST_DAY};
use crate::redmine::{Activity, CustomValue, TimeEntry, TimeEntryView};
use crate::report::entry_views;

verus! {

/// What `str::to_lowercase` returns for `s`.
pub uninterp spec fn lower_of(s: Seq<char>) -> Seq<char>;

/// Relies on `str::to_lowercase`: the lowercase form of a text, which depends on its
/// characters alone.
#[verifier::external_body]
fn lowercase(s: &str) -> (r: String)
    ensures
        r@ == lower_of(s@),
{
    s.to_lowercase()
}

/// The first and, for a week, the last day to fetch entries for: `today`, the day
/// before (`previous`), or the week that holds `today` or the day a week before it
/// (`previous` and `week`).
pub fn list_range(today: &Date, previous: bool, week: bool) -> (r: (Date, Option<Date>))
    requires
        LOWEST_DAY + 7 <= today.num() <= HIGHEST_DAY,
    ensures
        ({
            let day = today.num() - if previous {
                if week {
                    7int
                } else {
                    1int
                }
            } else {
                0int
            };
            if week {
                r.0.num() == week_start(day) && (r.1 matches Some(e) && e.num() == week_end(day))
            } else {
                r.0.num() == day && r.1 is None
            }
        }),
{
    let back: i64 = if previous {
        if week {
            7
        } else {
            1
        }
    } else {
        0
    };
    let day = Date { day: today.day - back };
    if week {
        (day.monday_of_week(), Some(day.sunday_of_week()))
    } else {
        (day, None)
    }
}

/// Whether a custom value counts as set: it reads `1`, or `true` once lowercased.
pub open spec fn flag_set(value: Seq<char>, lowered: Seq<char>) -> bool {
    value == "1"@ || lowered == "true"@
}

/// Whether a custom value counts as set, given the value and its lowercase form.
pub fn flag_is_set(value: &String, lowered: &String) -> (r: bool)
    ensures
        r == flag_set(value@, lowered@),
{
    let one = String::from_str("1");
    let yes = String::from_str("true");
    *value == one || *lowered == yes
}

/// Whether custom value `c` is field `field` and set.
pub open spec fn value_marks(c: CustomValue, field: Seq<char>) -> bool {
    c.name@ == field && (c.value matches Some(v) && flag_set(v@, lower_of(v@)))
}

/// Whether an entry carries field `field` set, and is to be left out.
pub open spec fn marked(e: TimeEntryView, field: Seq<char>) -> bool {
    exists|k: int| 0 <= k < e.custom_fields.len() && value_marks(#[trigger] e.custom_fields[k], field)
}

/// Whether `entry` carries the custom field named `field` set, and is to be left out.
pub fn is_ignored(entry: &TimeEntry, field: &str) -> (r: bool)
    ensures
        r == marked(entry@, field@),
{
    let mut k: usize = 0;
    while k < entry.custom_fields.len()
        invariant
            k <= entry.custom_fields@.len(),
            forall|j: int| 0 <= j < k ==> !value_marks(#[trigger] entry@.custom_fields[j], field@),
        decreases entry.custom_fields@.len() - k,
    {
        let c = &entry.custom_fields[k];
        let name_matches = c.name.as_str().unicode_len() == field.unicode_len() && text_equal(
            c.name.as_str(),
            field,
        );
        if name_matches {
            match &c.value {
                Some(v) => {
                    let lowered = lowercase(v.as_str());
                    if flag_is_set(v, &lowered) {
                        proof {
                            assert(value_marks(entry@.custom_fields[k as int], field@));
                        }
                        return true;
                    }
                },
                None => {},
            }
        }
        k = k + 1;
    }
    false
}

/// Whether two texts are equal.
fn text_equal(a: &str, b: &str) -> (r: bool)
    ensures
        r == (a@ == b@),
{
    let la = a.unicode_len();
    let lb = b.unicode_len();
    if la != lb {
        return false;
    }
    let mut i: usize = 0;
    while i < la
        invariant
            la == a@.len(),
            lb == b@.len(),
            la == lb,
            i <= la,
            a@.take(i as int) == b@.take(i as int),
        decreases la - i,
    {
        if a.get_char(i) != b.get_char(i) {
            return false;
        }
        proof {
            assert(a@.take(i + 1) =~= a@.take(i as int).push(a@[i as int]));
            assert(b@.take(i + 1) =~= b@.take(i as int).push(b@[i as int]));
        }
        i = i + 1;
    }
    proof {
        assert(a@.take(i as int) =~= a@);
        assert(b@.take(i as int) =~= b@);
    }
    true
}

/// The entries that do not carry field `field` set, in input order.
pub open spec fn kept(es: Seq<TimeEntryView>, field: Seq<char>) -> Seq<TimeEntryView>
    decreases es.len(),
{
    if es.len() == 0 {
        Seq::empty()
    } else if marked(es.last(), field) {
        kept(es.drop_last(), field)
    } else {
        kept(es.drop_last(), field).push(es.last())
    }
}

/// The entries to list: all of them, or, given a field name, those that do not carry
/// that field set.
pub fn filter_entries(entries: &Vec<TimeEntry>, field: &Option<String>) -> (r: Vec<TimeEntry>)
    ensures
        field matches Some(f) ==> entry_views(r@) == kept(entry_views(entries@), f@),
        field is None ==> entry_views(r@) == entry_views(entries@),
{
    let ghost es = entry_views(entries@);
    let mut out: Vec<TimeEntry> = Vec::new();
    let mut i: usize = 0;
    while i < entries.len()
        invariant
            i <= entries@.len(),
            es == entry_views(entries@),
            field matches Some(f) ==> entry_views(out@) == kept(es.take(i as int), f@),
            field is None ==> entry_views(out@) == es.take(i as int),
        decreases entries@.len() - i,
    {
        let e = &entries[i];
        let ghost before = out@;
        proof {
            assert(es.take(i + 1).drop_last() =~= es.take(i as int));
            assert(es[i as int] == e@);
        }
        let keep = match field {
            Some(f) => !is_ignored(e, f.as_str()),
            None => true,
        };
        if keep {
            let c = e.duplicate();
            out.push(c);
            proof {
                assert(entry_views(out@) =~= entry_views(before).push(c@));
            }
        }
        proof {
            if field is None {
                assert(es.take(i + 1) =~= es.take(i as int).push(e@));
            }
        }
        i = i + 1;
    }
    proof {
        assert(es.take(i as int) =~= es);
    }
    out
}

/// The ids of the issues that entries were booked on, in input order.
pub open spec fn issue_ids_of(es: Seq<TimeEntryView>) -> Seq<i32>
    decreases es.len(),
{
    if es.len() == 0 {
        Seq::empty()
    } else {
        match es.last().issue {
            Some(n) => issue_ids_of(es.drop_last()).push(n.id),
            None => issue_ids_of(es.drop_last()),
        }
    }
}

/// The ids of the issues that entries were booked on, in input order.
pub fn issue_ids(entries: &Vec<TimeEntry>) -> (r: Vec<i32>)
    ensures
        r@ == issue_ids_of(entry_views(entries@)),
{
    let ghost es = entry_views(entries@);
    let mut out: Vec<i32> = Vec::new();
    let mut i: usize = 0;
    while i < entries.len()
        invariant
            i <= entries@.len(),
            es == entry_views(entries@),
            out@ == issue_ids_of(es.take(i as int)),
        decreases entries@.len() - i,
    {
        proof {
            assert(es.take(i + 1).drop_last() =~= es.take(i as int));
            assert(es[i as int] == entries@[i as int]@);
        }
        match &entries[i].issue {
            Some(n) => out.push(n.id),
            None => {},
        }
        i = i + 1;
    }
    proof {
        assert(es.take(i as int) =~= es);
    }
    out
}

/// The activity to offer first: the first marked as default, else the first.
pub fn default_activity(activities: &Vec<Activity>) -> (r: usize)
    ensures
        (exists|k: int| 0 <= k < activities@.len() && #[trigger] activities@[k].is_default == Some(
            true,
        )) ==> r < activities@.len() && activities@[r as int].is_default == Some(true) && forall|
            k: int,
        | 0 <= k < r ==> (#[trigger] activities@[k]).is_default != Some(true),
        !(exists|k: int| 0 <= k < activities@.len() && #[trigger] activities@[k].is_default == Some(
            true,
        )) ==> r == 0,
{
    let mut k: usize = 0;
    while k < activities.len()
        invariant
            k <= activities@.len(),
            forall|j: int| 0 <= j < k ==> (#[trigger] activities@[j]).is_default != Some(true),
        decreases activities@.len() - k,
    {
        if activities[k].is_default == Some(true) {
            return k;
        }
        k = k + 1;
    }
    0
}

} // verus!
