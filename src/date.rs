//! Calendar dates as day numbers, and the week that holds a date.

use vstd::arithmetic::div_mod::{lemma_fundamental_div_mod, lemma_fundamental_div_mod_converse};
use vstd::prelude::*;

verus! {

/// The form in which entries give their dates: `YYYY-MM-DD`.
pub const DATE_FORMAT: &'static str = "%Y-%m-%d";

/// What chrono's `NaiveDate::parse_from_str(s, fmt)` yields, as the day number of the
/// parsed date (`None` where chrono refuses the text).
pub uninterp spec fn day_of_text(s: Seq<char>, fmt: Seq<char>) -> Option<i32>;

/// What chrono's `NaiveDate::from_ymd_opt(year, month, day)` yields, as a day number.
pub uninterp spec fn day_of_ymd(year: i32, month: u32, day: u32) -> Option<i32>;

/// Relies on chrono's `NaiveDate::parse_from_str`, and on `num_days_from_ce` to number
/// the date it returns.
#[verifier::external_body]
fn parse_day_number(s: &str, fmt: &str) -> (r: Option<i32>)
    ensures
        r == day_of_text(s@, fmt@),
{
    match chrono::NaiveDate::parse_from_str(s, fmt) {
        Ok(d) => Some(chrono::Datelike::num_days_from_ce(&d)),
        Err(_) => None,
    }
}

/// Relies on chrono's `NaiveDate::from_ymd_opt`, and on `num_days_from_ce` to number
/// the date it returns.
#[verifier::external_body]
fn ymd_day_number(year: i32, month: u32, day: u32) -> (r: Option<i32>)
    ensures
        r == day_of_ymd(year, month, day),
{
    match chrono::NaiveDate::from_ymd_opt(year, month, day) {
        Some(d) => Some(chrono::Datelike::num_days_from_ce(&d)),
        None => None,
    }
}

/// A calendar date of the proleptic Gregorian calendar, held as its day number:
/// 0001-01-01 (a Monday) is day 1, the day before it day 0, and so on.
#[derive(Clone, Copy, Debug, PartialEq, Eq, Structural, PartialOrd, Ord, Hash)]
pub struct Date {
    pub day: i64,
}

/// The lowest day number that a week can be resolved around.
pub const LOWEST_DAY: i64 = -9223372036854775802;

/// The highest day number that a week can be resolved around.
pub const HIGHEST_DAY: i64 = 9223372036854775801;

/// Index of a day number in its week, Monday being 0 and Sunday 6.
pub open spec fn weekday_of(day: int) -> int {
    (day - 1) % 7
}

/// Day number of the Monday that starts the week of `day`.
pub open spec fn week_start(day: int) -> int {
    day - weekday_of(day)
}

/// Day number of the Sunday that ends the week of `day`.
pub open spec fn week_end(day: int) -> int {
    day + 6 - weekday_of(day)
}

/// The Monday of a date's week falls on a Monday and its Sunday on a Sunday; the
/// Sunday lies six days after the Monday, and the date lies between them.
pub proof fn lemma_week_bounds(day: int)
    ensures
        weekday_of(week_start(day)) == 0,
        weekday_of(week_end(day)) == 6,
        week_end(day) - week_start(day) == 6,
        week_start(day) <= day <= week_end(day),
{
    let x = day - 1;
    lemma_fundamental_div_mod(x, 7);
    lemma_fundamental_div_mod_converse(x - x % 7, 7, x / 7, 0);
    lemma_fundamental_div_mod_converse(x - x % 7 + 6, 7, x / 7, 6);
}

impl Date {
    pub open spec fn num(self) -> int {
        self.day as int
    }

    /// Whether the week around this date lies within the day numbers a `Date` holds.
    pub open spec fn has_week(self) -> bool {
        LOWEST_DAY <= self.day <= HIGHEST_DAY
    }

    /// The index of this date in its week: 0 for Monday up to 6 for Sunday.
    pub open spec fn weekday(self) -> int {
        weekday_of(self.num())
    }

    /// Parses a date written `YYYY-MM-DD`; `None` when the text is no such date.
    pub fn parse(s: &str) -> (r: Option<Date>)
        ensures
            r matches Some(d) <==> day_of_text(s@, DATE_FORMAT@) is Some,
            r matches Some(d) ==> d.num() == day_of_text(s@, DATE_FORMAT@)->0,
    {
        match parse_day_number(s, DATE_FORMAT) {
            Some(n) => Some(Date { day: n as i64 }),
            None => None,
        }
    }

    /// The date with the given year, month and day of month; `None` when there is none.
    pub fn from_ymd(year: i32, month: u32, day: u32) -> (r: Option<Date>)
        ensures
            r matches Some(d) <==> day_of_ymd(year, month, day) is Some,
            r matches Some(d) ==> d.num() == day_of_ymd(year, month, day)->0,
    {
        match ymd_day_number(year, month, day) {
            Some(n) => Some(Date { day: n as i64 }),
            None => None,
        }
    }

    /// The index of this date in its week: 0 for Monday up to 6 for Sunday.
    pub fn weekday_from_monday(&self) -> (r: i64)
        ensures
            r == self.weekday(),
            0 <= r < 7,
    {
        let r: i64 = if self.day >= 1 {
            (self.day - 1) % 7
        } else {
            let back: i128 = (1 - self.day as i128) % 7;
            proof {
                let x: int = 1 - self.day;
                let q: int = x / 7;
                lemma_fundamental_div_mod(x, 7);
                if back == 0 {
                    lemma_fundamental_div_mod_converse(self.day - 1, 7, -q, 0);
                } else {
                    lemma_fundamental_div_mod_converse(self.day - 1, 7, -q - 1, 7 - back);
                }
            }
            if back == 0 { 0 } else { 7 - back as i64 }
        };
        r
    }

    /// The Monday of this date's week.
    pub fn monday_of_week(&self) -> (r: Date)
        requires
            self.has_week(),
        ensures
            r.num() == week_start(self.num()),
    {
        let back = self.weekday_from_monday();
        Date { day: self.day - back }
    }

    /// The Sunday of this date's week: the date itself when it is a Sunday.
    pub fn sunday_of_week(&self) -> (r: Date)
        requires
            self.has_week(),
        ensures
            r.num() == week_end(self.num()),
    {
        let back = self.weekday_from_monday();
        Date { day: self.day + (6 - back) }
    }

    /// The date `days` days after this one (before it, for a negative count);
    /// `None` when that day number does not fit.
    pub fn checked_add_days(&self, days: i64) -> (r: Option<Date>)
        ensures
            r matches Some(d) <==> i64::MIN <= self.num() + days <= i64::MAX,
            r matches Some(d) ==> d.num() == self.num() + days,
    {
        match self.day.checked_add(days) {
            Some(n) => Some(Date { day: n }),
            None => None,
        }
    }
}

} // verus!
