//! Reading a span of clock times, such as `9:00 - 10:30`, out of a comment.

use vstd::prelude::*;

verus! {

/// A span of two clock times, `H:MM - H:MM`, with blanks allowed around its parts.
pub const TIME_RANGE: &'static str = r"\s*\d\d?:\d{2}\s*-\s*\d\d?:\d{2}";

/// The form of one clock time: `HH:MM`.
pub const CLOCK_FORMAT: &'static str = "%H:%M";

/// The text of the first match of regular expression `pattern` in `text`, as regex
/// finds it; `None` when there is none or the pattern is not valid.
pub uninterp spec fn first_match(pattern: Seq<char>, text: Seq<char>) -> Option<Seq<char>>;

/// Whether `char::is_whitespace` holds of `c`.
pub uninterp spec fn white_space(c: char) -> bool;

/// The hour and minute that chrono's `NaiveTime::parse_from_str(s, fmt)` reads from
/// `s`; `None` where chrono refuses the text.
pub uninterp spec fn clock_of(s: Seq<char>, fmt: Seq<char>) -> Option<(u32, u32)>;

/// Relies on regex's `Regex::new` and `Regex::find`: the text of the leftmost match.
#[verifier::external_body]
fn find_first(pattern: &str, text: &str) -> (r: Option<String>)
    ensures
        r is Some <==> first_match(pattern@, text@) is Some,
        r matches Some(m) ==> first_match(pattern@, text@) == Some(m@),
{
    match regex::Regex::new(pattern) {
        Ok(re) => match re.find(text) {
            Some(m) => Some(m.as_str().to_string()),
            None => None,
        },
        Err(_) => None,
    }
}

/// Relies on `char::is_whitespace`.
#[verifier::external_body]
fn is_white(c: char) -> (r: bool)
    ensures
        r == white_space(c),
{
    c.is_whitespace()
}

/// Relies on chrono's `NaiveTime::parse_from_str`, and on `Timelike::hour` and
/// `Timelike::minute` to read the time it returns.
#[verifier::external_body]
fn parse_clock(s: &Vec<char>, fmt: &str) -> (r: Option<(u32, u32)>)
    ensures
        r == clock_of(s@, fmt@),
{
    let text: String = s.iter().collect();
    match chrono::NaiveTime::parse_from_str(&text, fmt) {
        Ok(t) => Some((chrono::Timelike::hour(&t), chrono::Timelike::minute(&t))),
        Err(_) => None,
    }
}

/// A time of day.
#[derive(Clone, Copy, Debug, PartialEq, Eq, Structural)]
pub struct ClockTime {
    pub hour: u32,
    pub minute: u32,
}

/// The characters of `s` that are not blank.
pub open spec fn without_white(s: Seq<char>) -> Seq<char>
    decreases s.len(),
{
    if s.len() == 0 {
        Seq::empty()
    } else if white_space(s.last()) {
        without_white(s.drop_last())
    } else {
        without_white(s.drop_last()).push(s.last())
    }
}

/// What comes before the first `-` of `s`; all of `s` when it has none.
pub open spec fn before_dash(s: Seq<char>) -> Seq<char>
    decreases s.len(),
{
    if s.len() == 0 || s[0] == '-' {
        Seq::empty()
    } else {
        seq![s[0]] + before_dash(s.skip(1))
    }
}

/// What comes after the first `-` of `s`; `None` when it has none.
pub open spec fn after_dash(s: Seq<char>) -> Option<Seq<char>>
    decreases s.len(),
{
    if s.len() == 0 {
        None
    } else if s[0] == '-' {
        Some(s.skip(1))
    } else {
        after_dash(s.skip(1))
    }
}

/// The two clock times of a span, given its text without blanks: what comes before
/// its first `-`, and what comes between that and the next.
pub open spec fn span_parts(c: Seq<char>) -> Option<(Seq<char>, Seq<char>)> {
    match after_dash(c) {
        Some(rest) => Some((before_dash(c), before_dash(rest))),
        None => None,
    }
}

/// The span of clock times that a comment holds, read as the first match of
/// `TIME_RANGE`, without blanks, split at its dashes.
pub open spec fn span_in(input: Seq<char>) -> Option<(ClockTime, ClockTime)> {
    match first_match(TIME_RANGE@, input) {
        Some(m) => match span_parts(without_white(m)) {
            Some(parts) => match (clock_of(parts.0, CLOCK_FORMAT@), clock_of(parts.1, CLOCK_FORMAT@)) {
                (Some(l), Some(r)) => Some(
                    (ClockTime { hour: l.0, minute: l.1 }, ClockTime { hour: r.0, minute: r.1 }),
                ),
                _ => None,
            },
            None => None,
        },
        None => None,
    }
}

/// The first dash of `s` lies at `i`, or `s` has none when `i` is its length.
proof fn lemma_dash_at(s: Seq<char>, i: int)
    requires
        0 <= i <= s.len(),
        forall|j: int| 0 <= j < i ==> s[j] != '-',
        i < s.len() ==> s[i] == '-',
    ensures
        before_dash(s) == s.take(i),
        i < s.len() ==> after_dash(s) == Some(s.skip(i + 1)),
        i == s.len() ==> after_dash(s) is None,
    decreases i,
{
    if i > 0 {
        let t = s.skip(1);
        assert forall|j: int| 0 <= j < i - 1 implies t[j] != '-' by {
            assert(t[j] == s[j + 1]);
        }
        lemma_dash_at(t, i - 1);
        assert(s.take(i) =~= seq![s[0]] + t.take(i - 1));
        if i < s.len() {
            assert(t.skip(i) =~= s.skip(i + 1));
        }
    } else {
        assert(s.take(0) =~= Seq::<char>::empty());
    }
}

/// Index of the first `-` of `s`, or its length when it has none.
fn first_dash(s: &Vec<char>) -> (r: usize)
    ensures
        r <= s@.len(),
        before_dash(s@) == s@.take(r as int),
        r < s@.len() ==> after_dash(s@) == Some(s@.skip(r + 1)),
        r == s@.len() ==> after_dash(s@) is None,
{
    let mut i: usize = 0;
    while i < s.len()
        invariant
            i <= s@.len(),
            forall|j: int| 0 <= j < i ==> s@[j] != '-',
        decreases s@.len() - i,
    {
        if s[i] == '-' {
            proof {
                lemma_dash_at(s@, i as int);
            }
            return i;
        }
        i = i + 1;
    }
    proof {
        lemma_dash_at(s@, i as int);
    }
    i
}

/// Splits the text of a span, without blanks, into its two clock times.
pub fn split_span(c: Vec<char>) -> (r: Option<(Vec<char>, Vec<char>)>)
    ensures
        r is Some <==> span_parts(c@) is Some,
        r matches Some(p) ==> span_parts(c@) == Some((p.0@, p.1@)),
{
    let ghost c0 = c@;
    let d = first_dash(&c);
    if d == c.len() {
        return None;
    }
    let mut left = c;
    let mut rest = left.split_off(d);
    rest.remove(0);
    proof {
        assert(left@ =~= c0.take(d as int));
        assert(rest@ =~= c0.skip(d + 1));
    }
    let e = first_dash(&rest);
    rest.truncate(e);
    proof {
        assert(rest@ =~= c0.skip(d + 1).take(e as int));
    }
    Some((left, rest))
}

/// The characters of `s` that are not blank.
fn strip_white(s: &str) -> (r: Vec<char>)
    ensures
        r@ == without_white(s@),
{
    let n = s.unicode_len();
    let mut out: Vec<char> = Vec::new();
    let mut i: usize = 0;
    while i < n
        invariant
            n == s@.len(),
            i <= n,
            out@ == without_white(s@.take(i as int)),
        decreases n - i,
    {
        let c = s.get_char(i);
        proof {
            assert(s@.take(i + 1).drop_last() =~= s@.take(i as int));
        }
        if !is_white(c) {
            out.push(c);
        }
        i = i + 1;
    }
    proof {
        assert(s@.take(i as int) =~= s@);
    }
    out
}

/// The span of clock times that a comment holds, such as the `9:00 - 10:30` of
/// `worked 9:00 - 10:30 on reviews`; `None` when it holds none.
pub fn analyze_comments(input: &str) -> (r: Option<(ClockTime, ClockTime)>)
    ensures
        r == span_in(input@),
{
    let m = match find_first(TIME_RANGE, input) {
        Some(m) => m,
        None => return None,
    };
    let compact = strip_white(m.as_str());
    let parts = match split_span(compact) {
        Some(p) => p,
        None => return None,
    };
    let left = parse_clock(&parts.0, CLOCK_FORMAT);
    let right = parse_clock(&parts.1, CLOCK_FORMAT);
    match (left, right) {
        (Some(l), Some(r)) => Some(
            (ClockTime { hour: l.0, minute: l.1 }, ClockTime { hour: r.0, minute: r.1 }),
        ),
        _ => None,
    }
}

} // verus!
