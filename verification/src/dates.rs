//! Calendar days, as the usage filters compare them.
use vstd::prelude::*;
use chrono::Datelike;

verus! {

/// A calendar day (proleptic Gregorian), as `chrono::NaiveDate` holds one.
#[derive(Debug, Clone, Copy, PartialEq, Eq)]
pub struct Day {
    pub year: i32,
    pub month: u32,
    pub day: u32,
}

/// `a` is not later than `b` (the order of `NaiveDate`: by year, month, day).
pub open spec fn day_le(a: Day, b: Day) -> bool {
    a.year < b.year || (a.year == b.year && (a.month < b.month || (a.month == b.month && a.day
        <= b.day)))
}

pub fn day_not_after(a: Day, b: Day) -> (r: bool)
    ensures
        r == day_le(a, b),
{
    a.year < b.year || (a.year == b.year && (a.month < b.month || (a.month == b.month && a.day
        <= b.day)))
}

/// `d` lies within the optional bounds (both inclusive).
pub open spec fn within(d: Day, start: Option<Day>, end: Option<Day>) -> bool {
    (match start {
        Some(s) => day_le(s, d),
        None => true,
    }) && (match end {
        Some(e) => day_le(d, e),
        None => true,
    })
}

pub fn day_within(d: Day, start: Option<Day>, end: Option<Day>) -> (r: bool)
    ensures
        r == within(d, start, end),
{
    let after_start = match start {
        Some(s) => day_not_after(s, d),
        None => true,
    };
    let before_end = match end {
        Some(e) => day_not_after(d, e),
        None => true,
    };
    after_start && before_end
}

/// What `chrono::DateTime::parse_from_rfc3339` gives for a text, taken to the
/// date of its local time (`naive_local().date()`), or the error's message.
pub uninterp spec fn rfc3339_day(text: Seq<char>) -> Result<Day, Seq<char>>;

/// What `chrono::NaiveDate::parse_from_str` gives for a text and a format,
/// or the error's message.
pub uninterp spec fn formatted_day(text: Seq<char>, format: Seq<char>) -> Result<Day, Seq<char>>;

/// The local date of an RFC 3339 timestamp.
///
/// Trusted: calls `DateTime::parse_from_rfc3339`, then `naive_local().date()`
/// (which cannot overflow: RFC 3339 years have four digits). The outcome is
/// named, and depends on the text alone.
#[verifier::external_body]
pub(crate) fn parse_rfc3339_day(text: &str) -> (r: Result<Day, String>)
    ensures
        match r {
            Ok(d) => rfc3339_day(text@) == Ok::<Day, Seq<char>>(d),
            Err(m) => rfc3339_day(text@) == Err::<Day, Seq<char>>(m@),
        },
{
    match chrono::DateTime::parse_from_rfc3339(text) {
        Ok(dt) => {
            let d = dt.naive_local().date();
            Ok(Day { year: d.year(), month: d.month(), day: d.day() })
        },
        Err(e) => Err(e.to_string()),
    }
}

/// A date written in the given `strftime` format.
///
/// Trusted: calls `NaiveDate::parse_from_str`. The outcome is named, and
/// depends on the text and the format alone.
#[verifier::external_body]
pub(crate) fn parse_formatted_day(text: &str, format: &str) -> (r: Result<Day, String>)
    ensures
        match r {
            Ok(d) => formatted_day(text@, format@) == Ok::<Day, Seq<char>>(d),
            Err(m) => formatted_day(text@, format@) == Err::<Day, Seq<char>>(m@),
        },
{
    match chrono::NaiveDate::parse_from_str(text, format) {
        Ok(d) => Ok(Day { year: d.year(), month: d.month(), day: d.day() }),
        Err(e) => Err(e.to_string()),
    }
}

/// The day `n` days before `d`, as `NaiveDate::checked_sub_signed` gives it
/// (`None` when `d` is no valid date or the result is out of range).
pub uninterp spec fn days_earlier(d: Day, n: int) -> Option<Day>;

/// The day `n` days before `d`.
///
/// Trusted: builds the `NaiveDate` with `NaiveDate::from_ymd_opt` and calls
/// `checked_sub_signed` with `TimeDelta::days(n)` (which cannot panic for a
/// `u32` count). The outcome is named, and depends on `d` and `n` alone.
#[verifier::external_body]
pub(crate) fn day_minus_days(d: Day, n: u32) -> (r: Option<Day>)
    ensures
        r == days_earlier(d, n as int),
{
    match chrono::NaiveDate::from_ymd_opt(d.year, d.month, d.day) {
        Some(x) => match x.checked_sub_signed(chrono::TimeDelta::days(n as i64)) {
            Some(y) => Some(Day { year: y.year(), month: y.month(), day: y.day() }),
            None => None,
        },
        None => None,
    }
}

/// The date range of the statistics of the last `days` days: from `days`
/// days before `today` to `today`; no bounds when `days` is not given; `None`
/// when the start would be out of the calendar's range.
pub open spec fn window_of(today: Day, days: Option<u32>) -> Option<(Option<Day>, Option<Day>)> {
    match days {
        None => Some((None, None)),
        Some(n) => match days_earlier(today, n as int) {
            Some(s) => Some((Some(s), Some(today))),
            None => None,
        },
    }
}

/// The date range of the last `days` days (see `window_of`).
pub fn stats_window(today: Day, days: Option<u32>) -> (r: Option<(Option<Day>, Option<Day>)>)
    ensures
        r == window_of(today, days),
{
    match days {
        None => Some((None, None)),
        Some(n) => match day_minus_days(today, n) {
            Some(s) => Some((Some(s), Some(today))),
            None => None,
        },
    }
}

/// A bound of a requested date range: a `%Y-%m-%d` date, else the local date
/// of an RFC 3339 timestamp; else the error `Invalid {which} date: {error}`.
pub open spec fn range_bound(text: Seq<char>, which: Seq<char>) -> Result<Day, Seq<char>> {
    match formatted_day(text, "%Y-%m-%d"@) {
        Ok(d) => Ok(d),
        Err(_) => match rfc3339_day(text) {
            Ok(d) => Ok(d),
            Err(m) => Err("Invalid "@ + which + " date: "@ + m),
        },
    }
}

fn parse_range_bound(text: &str, which: &str) -> (r: Result<Day, String>)
    ensures
        match r {
            Ok(d) => range_bound(text@, which@) == Ok::<Day, Seq<char>>(d),
            Err(m) => range_bound(text@, which@) == Err::<Day, Seq<char>>(m@),
        },
{
    match parse_formatted_day(text, "%Y-%m-%d") {
        Ok(d) => Ok(d),
        Err(_) => match parse_rfc3339_day(text) {
            Ok(d) => Ok(d),
            Err(e) => {
                let mut m = crate::text::owned("Invalid ");
                crate::text::push_str(&mut m, which);
                crate::text::push_str(&mut m, " date: ");
                crate::text::push_str(&mut m, e.as_str());
                Err(m)
            },
        },
    }
}

/// A requested date range: the start bound, then the end bound (see
/// `range_bound`); the first error met.
pub open spec fn requested_range(start: Seq<char>, end: Seq<char>) -> Result<(Day, Day), Seq<char>> {
    match range_bound(start, "start"@) {
        Err(m) => Err(m),
        Ok(a) => match range_bound(end, "end"@) {
            Err(m) => Err(m),
            Ok(b) => Ok((a, b)),
        },
    }
}

/// A requested date range (see `requested_range`).
pub fn usage_range(start: &str, end: &str) -> (r: Result<(Day, Day), String>)
    ensures
        match requested_range(start@, end@) {
            Ok(p) => r == Ok::<(Day, Day), String>(p),
            Err(m) => r matches Err(e) && e@ == m,
        },
{
    let a = match parse_range_bound(start, "start") {
        Ok(d) => d,
        Err(e) => return Err(e),
    };
    let b = match parse_range_bound(end, "end") {
        Ok(d) => d,
        Err(e) => return Err(e),
    };
    Ok((a, b))
}

/// A session-statistics bound: a `%Y%m%d` date, or none when it is not one.
pub open spec fn compact_day(text: Option<Seq<char>>) -> Option<Day> {
    match text {
        None => None,
        Some(t) => match formatted_day(t, "%Y%m%d"@) {
            Ok(d) => Some(d),
            Err(_) => None,
        },
    }
}

/// A session-statistics bound (see `compact_day`).
pub fn parse_compact_day(text: &Option<String>) -> (r: Option<Day>)
    ensures
        r == compact_day(crate::collect::opt_view(*text)),
{
    match text {
        None => None,
        Some(t) => match parse_formatted_day(t.as_str(), "%Y%m%d") {
            Ok(d) => Some(d),
            Err(_) => None,
        },
    }
}

} // verus!
