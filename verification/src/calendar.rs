//! Proleptic Gregorian calendar dates as plain values, with the day
//! arithmetic delegated to `chrono::NaiveDate`.
use vstd::prelude::*;
use chrono::{Datelike, NaiveDate, TimeDelta};

verus! {

/// Earliest year that `chrono::NaiveDate` represents.
pub const MIN_YEAR: i32 = -262143;
/// Latest year that `chrono::NaiveDate` represents.
pub const MAX_YEAR: i32 = 262142;

/// A calendar date (year, month 1..=12, day 1..=31).
#[derive(Clone, Copy, Debug, PartialEq, Eq, Structural)]
pub struct CivilDate {
    pub year: i32,
    pub month: u32,
    pub day: u32,
}

pub open spec fn is_leap_year(y: int) -> bool {
    (y % 4 == 0 && y % 100 != 0) || y % 400 == 0
}

pub open spec fn days_in_month(y: int, m: int) -> int {
    if m == 2 {
        if is_leap_year(y) { 29 } else { 28 }
    } else if m == 4 || m == 6 || m == 9 || m == 11 {
        30
    } else {
        31
    }
}

/// `(y, m, d)` names a date that `chrono::NaiveDate` can hold.
pub open spec fn is_valid_ymd(y: int, m: int, d: int) -> bool {
    &&& MIN_YEAR <= y <= MAX_YEAR
    &&& 1 <= m <= 12
    &&& 1 <= d <= days_in_month(y, m)
}

impl CivilDate {
    pub open spec fn valid(self) -> bool {
        is_valid_ymd(self.year as int, self.month as int, self.day as int)
    }
}

/// The calendar day after `d` (`None` past the last representable date).
pub open spec fn next_day(d: CivilDate) -> Option<CivilDate> {
    if (d.day as int) < days_in_month(d.year as int, d.month as int) {
        Some(CivilDate { year: d.year, month: d.month, day: (d.day + 1) as u32 })
    } else if d.month < 12 {
        Some(CivilDate { year: d.year, month: (d.month + 1) as u32, day: 1 })
    } else if d.year < MAX_YEAR {
        Some(CivilDate { year: (d.year + 1) as i32, month: 1, day: 1 })
    } else {
        None
    }
}

/// The calendar day before `d` (`None` before the first representable date).
pub open spec fn prev_day(d: CivilDate) -> Option<CivilDate> {
    if d.day > 1 {
        Some(CivilDate { year: d.year, month: d.month, day: (d.day - 1) as u32 })
    } else if d.month > 1 {
        Some(CivilDate {
            year: d.year,
            month: (d.month - 1) as u32,
            day: days_in_month(d.year as int, d.month - 1) as u32,
        })
    } else if d.year > MIN_YEAR {
        Some(CivilDate { year: (d.year - 1) as i32, month: 12, day: 31 })
    } else {
        None
    }
}

/// The date `n` days after `d` (before it for negative `n`), stepping one
/// calendar day at a time; `None` once a step leaves the representable range.
pub open spec fn shift_days(d: CivilDate, n: int) -> Option<CivilDate>
    decreases (if n >= 0 { n } else { -n }),
{
    if n == 0 {
        Some(d)
    } else if n > 0 {
        match next_day(d) {
            Some(e) => shift_days(e, n - 1),
            None => None,
        }
    } else {
        match prev_day(d) {
            Some(e) => shift_days(e, n + 1),
            None => None,
        }
    }
}

/// Days since 1970-01-01 (proleptic Gregorian count).
pub open spec fn days_from_civil(y: int, m: int, d: int) -> int {
    let yy = if m <= 2 { y - 1 } else { y };
    let era = yy / 400;
    let yoe = yy - era * 400;
    let mp = if m > 2 { m - 3 } else { m + 9 };
    let doy = (153 * mp + 2) / 5 + d - 1;
    let doe = yoe * 365 + yoe / 4 - yoe / 100 + doy;
    era * 146097 + doe - 719468
}

/// Day of the week, Monday = 0 … Sunday = 6.
pub open spec fn weekday_index(d: CivilDate) -> int {
    (days_from_civil(d.year as int, d.month as int, d.day as int) + 3) % 7
}

/// `chrono::NaiveDate::from_ymd_opt`: the date `(y, m, d)` when it exists in the
/// proleptic Gregorian calendar within chrono's year range, else `None`.
#[verifier::external_body]
pub(crate) fn ymd_opt(y: i32, m: u32, d: u32) -> (r: Option<CivilDate>)
    ensures
        r == (if is_valid_ymd(y as int, m as int, d as int) {
            Some(CivilDate { year: y, month: m, day: d })
        } else {
            None
        }),
{
    match NaiveDate::from_ymd_opt(y, m, d) {
        Some(nd) => Some(CivilDate { year: nd.year(), month: nd.month(), day: nd.day() }),
        None => None,
    }
}

/// `chrono::NaiveDate::pred_opt`: the previous calendar date, `None` at
/// chrono's first date.
#[verifier::external_body]
pub(crate) fn pred_opt(d: CivilDate) -> (r: Option<CivilDate>)
    requires
        d.valid(),
    ensures
        r == prev_day(d),
{
    let nd = NaiveDate::from_ymd_opt(d.year, d.month, d.day).unwrap();
    match nd.pred_opt() {
        Some(p) => Some(CivilDate { year: p.year(), month: p.month(), day: p.day() }),
        None => None,
    }
}

/// `chrono::NaiveDate::checked_add_signed` with `TimeDelta::try_days(n)`: the
/// date `n` days away, `None` when it falls outside chrono's range (or `n` is
/// outside `TimeDelta`'s range, which lies far beyond every representable date).
#[verifier::external_body]
pub(crate) fn add_days(d: CivilDate, n: i64) -> (r: Option<CivilDate>)
    requires
        d.valid(),
    ensures
        r == shift_days(d, n as int),
{
    let nd = NaiveDate::from_ymd_opt(d.year, d.month, d.day).unwrap();
    match TimeDelta::try_days(n) {
        Some(delta) => match nd.checked_add_signed(delta) {
            Some(x) => Some(CivilDate { year: x.year(), month: x.month(), day: x.day() }),
            None => None,
        },
        None => None,
    }
}

/// `chrono::Datelike::weekday` as `num_days_from_monday` (Monday = 0).
#[verifier::external_body]
pub(crate) fn weekday(d: CivilDate) -> (r: u32)
    requires
        d.valid(),
    ensures
        r as int == weekday_index(d),
{
    let nd = NaiveDate::from_ymd_opt(d.year, d.month, d.day).unwrap();
    nd.weekday().num_days_from_monday()
}

/// `NaiveDate - NaiveDate` (`signed_duration_since(...).num_days()`): the signed
/// number of days from `b` to `a`.
#[verifier::external_body]
pub(crate) fn days_between(a: CivilDate, b: CivilDate) -> (r: i64)
    requires
        a.valid(),
        b.valid(),
    ensures
        shift_days(b, r as int) == Some(a),
{
    let na = NaiveDate::from_ymd_opt(a.year, a.month, a.day).unwrap();
    let nb = NaiveDate::from_ymd_opt(b.year, b.month, b.day).unwrap();
    na.signed_duration_since(nb).num_days()
}


/// `Some(date)` for a valid `(y, m, d)`, else `None`.
pub open spec fn spec_ymd(y: int, m: int, d: int) -> Option<CivilDate> {
    if is_valid_ymd(y, m, d) {
        Some(CivilDate { year: y as i32, month: m as u32, day: d as u32 })
    } else {
        None
    }
}

pub proof fn lemma_next_day_valid(d: CivilDate)
    requires
        d.valid(),
    ensures
        next_day(d) matches Some(n) ==> n.valid(),
{
}

pub proof fn lemma_prev_day_valid(d: CivilDate)
    requires
        d.valid(),
    ensures
        prev_day(d) matches Some(p) ==> p.valid(),
{
}

/// Shifting a valid date keeps it valid.
pub proof fn lemma_shift_valid(d: CivilDate, n: int)
    requires
        d.valid(),
    ensures
        shift_days(d, n) matches Some(e) ==> e.valid(),
    decreases (if n >= 0 { n } else { -n }),
{
    if n > 0 {
        lemma_next_day_valid(d);
        if let Some(e) = next_day(d) {
            lemma_shift_valid(e, n - 1);
        }
    } else if n < 0 {
        lemma_prev_day_valid(d);
        if let Some(e) = prev_day(d) {
            lemma_shift_valid(e, n + 1);
        }
    }
}

/// A one-day shift is the calendar successor / predecessor.
pub proof fn lemma_shift_one(d: CivilDate)
    ensures
        shift_days(d, 1) == next_day(d),
        shift_days(d, -1) == prev_day(d),
{
    reveal_with_fuel(shift_days, 2);
}

} // verus!
