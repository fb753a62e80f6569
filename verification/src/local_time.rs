//! The machine's local time zone (`chrono::Local`): turning instants into
//! local dates and back. What these return depends on the zone the process
//! runs in, so their contracts say only what holds in every zone.
use vstd::prelude::*;
use chrono::{Datelike, Local, LocalResult, NaiveDate, NaiveTime, TimeDelta, TimeZone, Timelike};
use crate::calendar::{days_from_civil, CivilDate};

verus! {

/// The first instant (ms since the epoch) whose local date and time chrono
/// gives in every zone: the start of chrono's range
/// (-262143-01-01T00:00:00Z) plus one day, the most a zone's offset can take
/// off (`NaiveDateTime::MIN`, `FixedOffset` stays under a day).
pub const EARLIEST_MS: i64 = -8_334_601_142_400_000;

/// The last such instant: the end of chrono's range
/// (262142-12-31T23:59:59.999Z) less one day.
pub const LATEST_MS: i64 = 8_210_266_790_399_999;

/// `ms` lies where every zone has a local date and time for it.
pub open spec fn in_local_range(ms: int) -> bool {
    EARLIEST_MS <= ms <= LATEST_MS
}

/// Whether `ms` lies where every zone has a local date and time for it.
pub fn local_range_holds(ms: i64) -> (r: bool)
    ensures
        r == in_local_range(ms as int),
{
    EARLIEST_MS <= ms && ms <= LATEST_MS
}

/// Start of the date `d` counted as if it were UTC, in ms since the epoch.
pub open spec fn midnight_ms(d: CivilDate) -> int {
    days_from_civil(d.year as int, d.month as int, d.day as int) * 86_400_000
}

/// A local time of day: whole seconds since midnight and the nanoseconds
/// past them.
#[derive(Clone, Copy, Debug, PartialEq, Eq, Structural)]
pub struct TimeOfDay {
    pub secs: u32,
    pub nanos: u32,
}

/// A time of day without a leap second.
pub open spec fn valid_tod(t: TimeOfDay) -> bool {
    t.secs < 86_400 && t.nanos < 1_000_000_000
}

/// Milliseconds since midnight of a time of day.
pub open spec fn tod_ms(t: TimeOfDay) -> int {
    t.secs * 1000 + t.nanos / 1_000_000
}

/// `x` is the instant of the wall-clock time `wall_ms` after the start of
/// date `d`, in a zone whose offset from UTC is under a day (chrono's
/// `FixedOffset` bound).
pub open spec fn near_wall_clock(x: int, d: CivilDate, wall_ms: int) -> bool {
    midnight_ms(d) + wall_ms - 86_400_000 < x && x < midnight_ms(d) + wall_ms + 86_400_000
}

/// `x` is an instant on the local date `d` at some time of day.
pub open spec fn on_local_date(x: int, d: CivilDate) -> bool {
    midnight_ms(d) - 86_400_000 < x && x < midnight_ms(d) + 2 * 86_400_000
}

/// `t` is the local time of day of the instant `ms` on some local date.
#[verifier::opaque]
pub open spec fn is_local_time_of(ms: int, t: TimeOfDay) -> bool {
    valid_tod(t) && exists|d: CivilDate| d.valid() && #[trigger] near_wall_clock(ms, d, tod_ms(t))
}

/// The instant of the wall-clock time `time` on `date` read as UTC.
pub fn wall_clock_as_utc(date: CivilDate, time: TimeOfDay) -> (r: i64)
    requires
        date.valid(),
        valid_tod(time),
    ensures
        r == midnight_ms(date) + tod_ms(time),
{
    let y: i64 = date.year as i64;
    let m: i64 = date.month as i64;
    let d: i64 = date.day as i64;
    let yy: i64 = if m <= 2 { y - 1 } else { y };
    let era: i64 = yy.checked_div_euclid(400).unwrap();
    assert(-700 <= era <= 700) by (nonlinear_arith)
        requires
            era == yy / 400,
            -262144 <= yy <= 262142,
    ;
    let yoe: i64 = yy - era * 400;
    assert(0 <= yoe < 400) by (nonlinear_arith)
        requires
            era == yy / 400,
            yoe == yy - era * 400,
    ;
    let mp: i64 = if m > 2 { m - 3 } else { m + 9 };
    let doy: i64 = (153 * mp + 2) / 5 + d - 1;
    let doe: i64 = yoe * 365 + yoe / 4 - yoe / 100 + doy;
    let days: i64 = era * 146097 + doe - 719468;
    assert(days == days_from_civil(date.year as int, date.month as int, date.day as int));
    assert(-200_000_000 <= days <= 200_000_000);
    let tod: i64 = time.secs as i64 * 1000 + (time.nanos / 1_000_000) as i64;
    days * 86_400_000 + tod
}

/// Outcome of mapping a local wall-clock time to an instant.
#[derive(Clone, Copy, Debug, PartialEq, Eq, Structural)]
pub enum LocalLookup {
    /// exactly one instant (milliseconds since the Unix epoch)
    Single(i64),
    /// the wall-clock time occurs twice; the earlier instant
    Ambiguous(i64),
    /// the wall-clock time does not exist (skipped by a clock change)
    Gap,
}

/// `Local.timestamp_millis_opt(ms).single()`, split into the local date and
/// the local time of day (`num_seconds_from_midnight`, `nanosecond`). Taken
/// only for instants in `EARLIEST_MS..=LATEST_MS`: there chrono always gives
/// a result, and adding the local offset cannot carry the date out of its
/// range (`naive_local` panics at the ends of the range). Which date and
/// time come back depends on the process's time zone; the contract states
/// what holds in every zone: the date is valid, the time has no leap second
/// (it comes from a timestamp), and `ms` is that wall-clock time shifted by
/// the zone's offset, which is under a day.
#[verifier::external_body]
pub(crate) fn local_parts(ms: i64) -> (r: Option<(CivilDate, TimeOfDay)>)
    requires
        in_local_range(ms as int),
    ensures
        r is Some,
        r matches Some(p) ==> p.0.valid() && valid_tod(p.1) && near_wall_clock(ms as int, p.0, tod_ms(p.1)),
{
    match Local.timestamp_millis_opt(ms).single() {
        Some(dt) => {
            let nd = dt.date_naive();
            let t = dt.time();
            Some((
                CivilDate { year: nd.year(), month: nd.month(), day: nd.day() },
                TimeOfDay { secs: t.num_seconds_from_midnight(), nanos: t.nanosecond() },
            ))
        },
        None => None,
    }
}

/// `Local.from_local_datetime` applied to `date` at `time`
/// (`NaiveTime::from_num_seconds_from_midnight_opt`), moved forward by
/// `minutes` minutes (`NaiveDateTime::checked_add_signed`; `Gap` if that
/// leaves chrono's range). Whether the wall-clock time exists depends on
/// the process's time zone and is not stated; an instant that comes back is
/// that wall-clock time shifted by the zone's offset, which is under a day.
#[verifier::external_body]
pub(crate) fn local_lookup(date: CivilDate, time: TimeOfDay, minutes: i64) -> (r: LocalLookup)
    requires
        date.valid(),
        valid_tod(time),
        0 <= minutes <= 180,
    ensures
        r matches LocalLookup::Single(x) ==> near_wall_clock(x as int, date, tod_ms(time) + minutes * 60000),
        r matches LocalLookup::Ambiguous(x) ==> near_wall_clock(x as int, date, tod_ms(time) + minutes * 60000),
{
    let nd = NaiveDate::from_ymd_opt(date.year, date.month, date.day).unwrap();
    let t = NaiveTime::from_num_seconds_from_midnight_opt(time.secs, time.nanos).unwrap();
    match nd.and_time(t).checked_add_signed(TimeDelta::minutes(minutes)) {
        Some(naive) => match Local.from_local_datetime(&naive) {
            LocalResult::Single(dt) => LocalLookup::Single(dt.timestamp_millis()),
            LocalResult::Ambiguous(earliest, _) => LocalLookup::Ambiguous(earliest.timestamp_millis()),
            LocalResult::None => LocalLookup::Gap,
        },
        None => LocalLookup::Gap,
    }
}

} // verus!
