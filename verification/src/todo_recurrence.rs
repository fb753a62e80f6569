//! Recurring-todo rule engine: rolling a recurring todo to its next instance,
//! rolling it back, and listing the virtual instances inside a range.
//!
//! Instants are milliseconds since the Unix epoch, read in the machine's
//! local time zone; each instance keeps the time of day of the first one and
//! only the date moves. The date arithmetic itself is zone independent and is
//! specified exactly here (`spec_step_forward` / `spec_step_backward`).
use vstd::prelude::*;
use crate::calendar::{
    add_days, days_between, days_in_month, lemma_prev_day_valid, lemma_shift_one, lemma_shift_valid, next_day, prev_day,
    pred_opt, shift_days, spec_ymd, weekday, weekday_index, ymd_opt, CivilDate, MAX_YEAR, MIN_YEAR,
};
use crate::local_time::{
    is_local_time_of, local_lookup, local_parts, near_wall_clock, on_local_date, tod_ms, valid_tod, LocalLookup,
    TimeOfDay, in_local_range, local_range_holds, wall_clock_as_utc,
};
use crate::recurrence_laws::lemma_shift_last;
use crate::models::{
    end_mode_of, mode_of, parse_end_mode, parse_mode, parse_unit, unit_of, EndMode, RepeatMode,
    RepeatRule, RepeatUnit,
};
use crate::text::owned;

verus! {

/// Iteration budget of one roll / expansion.
pub const MAX_ITER: usize = 100_000;

/// Largest span (in days) that one expansion may cover.
pub const MAX_RANGE_DAYS: i64 = 366;

/// Milliseconds in a day.
pub const DAY_MS: i64 = 86_400_000;

pub const ERR_ITER_LIMIT: &'static str = "RECURRENCE_ITER_LIMIT: 周期规则在迭代预算内没有推进到目标时刻（规则或截止时刻异常）";
pub const ERR_RANGE_LIMIT: &'static str = "RECURRENCE_RANGE_TOO_LARGE: 展开区间过大，请分段查询（上限 366 天）";
pub const ERR_INVALID_TIME: &'static str = "RECURRENCE_INVALID_TIME: due_at 不是合法时间戳";

// ---------------------------------------------------------------------------
// Range check

/// The span `to - from`, saturated at `i64::MAX`.
pub open spec fn saturated_span(from_ms: i64, to_ms: i64) -> int {
    if to_ms - from_ms > i64::MAX { i64::MAX as int } else { to_ms - from_ms }
}

/// A non-empty range longer than `MAX_RANGE_DAYS` whole days.
pub open spec fn range_too_large(from_ms: i64, to_ms: i64) -> bool {
    to_ms > from_ms && saturated_span(from_ms, to_ms) / (DAY_MS as int) > MAX_RANGE_DAYS as int
}

/// Refuses expansion ranges spanning more than `MAX_RANGE_DAYS` days. An
/// empty or reversed range passes (it expands to nothing).
pub fn validate_range(from_ms: i64, to_ms: i64) -> (r: Result<(), String>)
    ensures
        r is Err <==> range_too_large(from_ms, to_ms),
        r matches Err(e) ==> e@ == ERR_RANGE_LIMIT@,
{
    if to_ms <= from_ms {
        return Ok(());
    }
    let span: i128 = to_ms as i128 - from_ms as i128;
    let sat: i64 = if span > i64::MAX as i128 { i64::MAX } else { span as i64 };
    if sat / DAY_MS > MAX_RANGE_DAYS {
        return Err(owned(ERR_RANGE_LIMIT));
    }
    Ok(())
}

// ---------------------------------------------------------------------------
// Weekday masks

/// Bit `wd` of the weekday mask (bit 0 = Monday … bit 6 = Sunday).
pub open spec fn spec_mask_has(mask: i64, wd: u32) -> bool {
    (mask & (1i64 << wd)) != 0
}

pub fn mask_has(mask: i64, wd: u32) -> (r: bool)
    requires
        wd < 7,
    ensures
        r == spec_mask_has(mask, wd),
{
    (mask & (1i64 << wd)) != 0
}

/// The weekday indices `i..7` whose bit is set, in increasing order.
pub open spec fn offsets_from(mask: i64, i: int) -> Seq<u32>
    decreases 7 - i,
{
    if i < 0 || i >= 7 {
        Seq::empty()
    } else if spec_mask_has(mask, i as u32) {
        seq![i as u32] + offsets_from(mask, i + 1)
    } else {
        offsets_from(mask, i + 1)
    }
}

proof fn lemma_offsets_bounded(mask: i64, i: int)
    requires
        0 <= i <= 7,
    ensures
        forall|k: int| 0 <= k < offsets_from(mask, i).len() ==> offsets_from(mask, i)[k] < 7,
    decreases 7 - i,
{
    if i < 7 {
        lemma_offsets_bounded(mask, i + 1);
        let rest = offsets_from(mask, i + 1);
        if spec_mask_has(mask, i as u32) {
            let all = offsets_from(mask, i);
            assert(all == seq![i as u32] + rest);
            assert forall|k: int| 0 <= k < all.len() implies all[k] < 7 by {
                if k > 0 {
                    assert(all[k] == rest[k - 1]);
                }
            }
        }
    }
}

/// Weekday indices (Monday = 0) selected by the mask, in increasing order.
pub fn weekday_offsets(mask: i64) -> (v: Vec<u32>)
    ensures
        v@ == offsets_from(mask, 0),
        forall|k: int| 0 <= k < v@.len() ==> v@[k] < 7,
{
    let mut v: Vec<u32> = Vec::new();
    let mut i: u32 = 0;
    while i < 7
        invariant
            i <= 7,
            v@ + offsets_from(mask, i as int) == offsets_from(mask, 0),
        decreases 7 - i,
    {
        if mask_has(mask, i) {
            assert(v@.push(i) + offsets_from(mask, i + 1) =~= v@ + offsets_from(mask, i as int));
            v.push(i);
        } else {
            assert(v@ + offsets_from(mask, i + 1) =~= v@ + offsets_from(mask, i as int));
        }
        i = i + 1;
    }
    assert(v@ + offsets_from(mask, 7) =~= v@);
    proof {
        lemma_offsets_bounded(mask, 0);
    }
    v
}

pub open spec fn spec_weekday_from_index(i: u32) -> u32 {
    if i <= 5 { i } else { 6 }
}

/// Weekday for an index, indices past Saturday counting as Sunday.
pub fn weekday_from_index(i: u32) -> (r: u32)
    ensures
        r == spec_weekday_from_index(i),
{
    if i <= 5 { i } else { 6 }
}

// ---------------------------------------------------------------------------
// Month arithmetic

/// The last day of month `m` of year `y` as chrono finds it (the day before
/// the first of the next month), 28 when that lies outside chrono's range.
pub open spec fn spec_last_day(y: int, m: int) -> int {
    if m == 12 {
        if MIN_YEAR < y + 1 <= MAX_YEAR { 31 } else { 28 }
    } else if MIN_YEAR <= y <= MAX_YEAR {
        days_in_month(y, m)
    } else {
        28
    }
}

pub fn last_day_of_month(year: i32, month: u32) -> (r: u32)
    requires
        1 <= month <= 12,
        year < i32::MAX,
    ensures
        r as int == spec_last_day(year as int, month as int),
{
    let (ny, nm): (i32, u32) = if month == 12 { (year + 1, 1) } else { (year, month + 1) };
    match ymd_opt(ny, nm, 1) {
        Some(first) => match pred_opt(first) {
            Some(p) => p.day,
            None => 28,
        },
        None => 28,
    }
}

/// `(a - b) mod 7` for weekday indices.
pub open spec fn weekday_gap(a: int, b: int) -> int {
    (a - b) % 7
}

fn weekday_gap_exec(a: u32, b: u32) -> (r: i64)
    requires
        a < 7,
        b < 7,
    ensures
        r as int == weekday_gap(a as int, b as int),
        0 <= r < 7,
{
    if a >= b { (a - b) as i64 } else { (a + 7 - b) as i64 }
}

/// The `nth` (1-based; -1 = last) weekday `wd` of month `m` of year `y`.
pub open spec fn spec_nth_weekday(y: i32, m: u32, wd: u32, nth: i64) -> Option<CivilDate> {
    if nth == -1 {
        match spec_ymd(y as int, m as int, spec_last_day(y as int, m as int)) {
            Some(d) => shift_days(d, -weekday_gap(weekday_index(d), wd as int)),
            None => None,
        }
    } else if nth < 1 {
        None
    } else {
        match spec_ymd(y as int, m as int, 1) {
            Some(first) => {
                let r = weekday_gap(wd as int, weekday_index(first));
                let m7 = (nth - 1) * 7;
                if m7 > i64::MAX || r + m7 > i64::MAX {
                    None
                } else {
                    let t = (r + m7) as u32;
                    if t == u32::MAX {
                        None
                    } else if t + 1 > spec_last_day(y as int, m as int) {
                        None
                    } else {
                        spec_ymd(y as int, m as int, t + 1)
                    }
                }
            },
            None => None,
        }
    }
}

pub fn nth_weekday_of_month(year: i32, month: u32, wd: u32, nth: i64) -> (r: Option<CivilDate>)
    requires
        1 <= month <= 12,
        year < i32::MAX,
        wd < 7,
    ensures
        r == spec_nth_weekday(year, month, wd, nth),
        r matches Some(d) ==> d.valid(),
{
    if nth == -1 {
        let last = last_day_of_month(year, month);
        let d = match ymd_opt(year, month, last) {
            Some(d) => d,
            None => return None,
        };
        let w = weekday(d);
        let back = weekday_gap_exec(w, wd);
        proof {
            lemma_shift_valid(d, -back as int);
        }
        return add_days(d, -back);
    }
    if nth < 1 {
        return None;
    }
    let first = match ymd_opt(year, month, 1) {
        Some(f) => f,
        None => return None,
    };
    let w = weekday(first);
    let r = weekday_gap_exec(wd, w);
    let m7 = match (nth - 1).checked_mul(7) {
        Some(x) => x,
        None => return None,
    };
    let fwd = match r.checked_add(m7) {
        Some(x) => x,
        None => return None,
    };
    let t: u32 = fwd as u32;
    if t == u32::MAX {
        return None;
    }
    let day = t + 1;
    if day > last_day_of_month(year, month) {
        return None;
    }
    ymd_opt(year, month, day)
}

/// The anchor date of a monthly rule in month `m` of year `y`: the n-th
/// weekday (first weekday of the mask) or the fixed day of month, clamped to
/// the month's last day (`-1` = last day).
pub open spec fn spec_month_anchor(y: i32, m: u32, rule: RepeatRule) -> Option<CivilDate> {
    match rule.month_nth {
        Some(nth) => {
            let offsets = offsets_from(rule.weekdays.unwrap_or(0), 0);
            if offsets.len() == 0 {
                None
            } else {
                spec_nth_weekday(y, m, spec_weekday_from_index(offsets[0]), nth)
            }
        },
        None => match rule.month_day {
            Some(day) => {
                let last = spec_last_day(y as int, m as int);
                let d: int = if day == -1 {
                    last
                } else {
                    let t = (if day >= 1 { day } else { 1 }) as u32;
                    if (t as int) < last { t as int } else { last }
                };
                spec_ymd(y as int, m as int, d)
            },
            None => None,
        },
    }
}

pub fn month_anchor(year: i32, month: u32, rule: &RepeatRule) -> (r: Option<CivilDate>)
    requires
        1 <= month <= 12,
        year < i32::MAX,
    ensures
        r == spec_month_anchor(year, month, *rule),
        r matches Some(d) ==> d.valid(),
{
    match rule.month_nth {
        Some(nth) => {
            let mask = match rule.weekdays {
                Some(m) => m,
                None => 0,
            };
            let offsets = weekday_offsets(mask);
            if offsets.len() == 0 {
                return None;
            }
            let wd = weekday_from_index(offsets[0]);
            nth_weekday_of_month(year, month, wd, nth)
        },
        None => match rule.month_day {
            Some(day) => {
                let last = last_day_of_month(year, month);
                let d: u32 = if day == -1 {
                    last
                } else {
                    let c: i64 = if day >= 1 { day } else { 1 };
                    let t: u32 = c as u32;
                    if t < last { t } else { last }
                };
                ymd_opt(year, month, d)
            },
            None => None,
        },
    }
}


// ---------------------------------------------------------------------------
// Day-by-day weekday search

/// Which weekdays a search accepts.
#[derive(Clone, Copy, Debug, PartialEq, Eq, Structural)]
pub enum DaySel {
    /// Monday to Friday
    Workday,
    /// the weekdays whose bit is set in the mask
    Mask(i64),
}

pub open spec fn day_selected(sel: DaySel, wd: int) -> bool {
    match sel {
        DaySel::Workday => wd != 5 && wd != 6,
        DaySel::Mask(m) => spec_mask_has(m, wd as u32),
    }
}

fn day_selected_exec(sel: DaySel, wd: u32) -> (r: bool)
    requires
        wd < 7,
    ensures
        r == day_selected(sel, wd as int),
{
    match sel {
        DaySel::Workday => wd != 5 && wd != 6,
        DaySel::Mask(m) => mask_has(m, wd),
    }
}

/// The first of `budget` consecutive days from `cur` onwards that the
/// selector accepts.
pub open spec fn search_forward(cur: CivilDate, sel: DaySel, budget: nat) -> Option<CivilDate>
    decreases budget,
{
    if budget == 0 {
        None
    } else if day_selected(sel, weekday_index(cur)) {
        Some(cur)
    } else {
        match next_day(cur) {
            Some(n) => search_forward(n, sel, (budget - 1) as nat),
            None => None,
        }
    }
}

/// The first of `budget` consecutive days from `cur` backwards that the
/// selector accepts.
pub open spec fn search_backward(cur: CivilDate, sel: DaySel, budget: nat) -> Option<CivilDate>
    decreases budget,
{
    if budget == 0 {
        None
    } else if day_selected(sel, weekday_index(cur)) {
        Some(cur)
    } else {
        match prev_day(cur) {
            Some(n) => search_backward(n, sel, (budget - 1) as nat),
            None => None,
        }
    }
}

/// The first of `budget` consecutive days from `cur` onwards that is a
/// masked weekday in a week a whole multiple of `every` weeks after the
/// starting week; `weeks` is the number of Mondays from the day after the
/// starting date up to `cur`.
pub open spec fn week_search_forward(cur: CivilDate, weeks: int, mask: i64, every: int, budget: nat) -> Option<
    CivilDate,
>
    decreases budget,
{
    if budget == 0 {
        None
    } else if spec_mask_has(mask, weekday_index(cur) as u32) && weeks % every == 0 {
        Some(cur)
    } else {
        match next_day(cur) {
            Some(n) => week_search_forward(
                n,
                if weekday_index(n) == 0 { weeks + 1 } else { weeks },
                mask,
                every,
                (budget - 1) as nat,
            ),
            None => None,
        }
    }
}

/// The first of `budget` consecutive days from `cur` backwards that is a
/// masked weekday in a week a whole multiple of `every` weeks before the
/// starting week; `weeks` is the number of Mondays from `cur` (exclusive) up
/// to the starting date.
pub open spec fn week_search_backward(cur: CivilDate, weeks: int, mask: i64, every: int, budget: nat) -> Option<
    CivilDate,
>
    decreases budget,
{
    if budget == 0 {
        None
    } else if spec_mask_has(mask, weekday_index(cur) as u32) && weeks % every == 0 {
        Some(cur)
    } else {
        match prev_day(cur) {
            Some(p) => week_search_backward(
                p,
                if weekday_index(cur) == 0 { weeks + 1 } else { weeks },
                mask,
                every,
                (budget - 1) as nat,
            ),
            None => None,
        }
    }
}

/// The first accepted day within the week starting at `start` and going
/// forward (`forward`) or backward.
fn search_week(start: CivilDate, sel: DaySel, forward: bool) -> (r: Option<CivilDate>)
    requires
        start.valid(),
    ensures
        forward ==> r == search_forward(start, sel, 7),
        !forward ==> r == search_backward(start, sel, 7),
        r matches Some(d) ==> d.valid(),
{
    if forward {
        search_week_forward(start, sel)
    } else {
        search_week_backward(start, sel)
    }
}

fn search_week_forward(start: CivilDate, sel: DaySel) -> (r: Option<CivilDate>)
    requires
        start.valid(),
    ensures
        r == search_forward(start, sel, 7),
        r matches Some(d) ==> d.valid(),
{
    let mut cur = start;
    let mut i: u32 = 0;
    while i < 7
        invariant
            cur.valid(),
            i < 7,
            search_forward(start, sel, 7) == search_forward(cur, sel, (7 - i) as nat),
        decreases 7 - i,
    {
        if day_selected_exec(sel, weekday(cur)) {
            return Some(cur);
        }
        proof {
            lemma_shift_one(cur);
            lemma_shift_valid(cur, 1);
            reveal_with_fuel(search_forward, 2);
        }
        if i == 6 {
            return None;
        }
        match add_days(cur, 1) {
            Some(n) => {
                cur = n;
            },
            None => {
                return None;
            },
        }
        i = i + 1;
    }
    None
}

fn search_week_backward(start: CivilDate, sel: DaySel) -> (r: Option<CivilDate>)
    requires
        start.valid(),
    ensures
        r == search_backward(start, sel, 7),
        r matches Some(d) ==> d.valid(),
{
    let mut cur = start;
    let mut i: u32 = 0;
    while i < 7
        invariant
            cur.valid(),
            i < 7,
            search_backward(start, sel, 7) == search_backward(cur, sel, (7 - i) as nat),
        decreases 7 - i,
    {
        if day_selected_exec(sel, weekday(cur)) {
            return Some(cur);
        }
        proof {
            lemma_shift_one(cur);
            lemma_shift_valid(cur, -1);
            reveal_with_fuel(search_backward, 2);
        }
        if i == 6 {
            return None;
        }
        match add_days(cur, -1) {
            Some(n) => {
                cur = n;
            },
            None => {
                return None;
            },
        }
        i = i + 1;
    }
    None
}

// ---------------------------------------------------------------------------
// Stepping a date by a rule

/// The custom interval, at least 1.
pub open spec fn spec_every(rule: RepeatRule) -> i64 {
    match rule.every {
        Some(e) => if e >= 1 { e } else { 1 },
        None => 1,
    }
}

/// The weekday mask of a rule (0 when absent).
pub open spec fn spec_mask(rule: RepeatRule) -> i64 {
    match rule.weekdays {
        Some(m) => m,
        None => 0,
    }
}

/// A custom "every N weeks on the masked weekdays" rule.
pub open spec fn is_custom_week_mask(rule: RepeatRule) -> bool {
    &&& mode_of(rule.mode@) == RepeatMode::Custom
    &&& unit_of(rule.unit) == RepeatUnit::Week
    &&& spec_mask(rule) != 0
}

/// `(y, m, min(day, last day of the month))` for `y` inside chrono's range.
pub open spec fn clamped_ymd(y: int, m: u32, day: u32) -> Option<CivilDate> {
    if MIN_YEAR <= y <= MAX_YEAR {
        let last = spec_last_day(y, m as int);
        spec_ymd(y, m as int, if (day as int) < last { day as int } else { last })
    } else {
        None
    }
}

/// Same day of month `k` months away (`k` may be negative), clamped.
pub open spec fn months_away(d: CivilDate, k: int) -> Option<CivilDate> {
    let total = d.year * 12 + (d.month - 1) + k;
    clamped_ymd(total / 12, (total % 12 + 1) as u32, d.day)
}

/// The date of the next instance after the instance on `date`. A masked
/// custom weekly rule takes the first masked weekday, within `every` weeks,
/// whose week is a whole multiple of `every` weeks after the week of `date`.
pub open spec fn spec_step_forward(rule: RepeatRule, date: CivilDate) -> Option<CivilDate> {
    match mode_of(rule.mode@) {
        RepeatMode::Daily => shift_days(date, 1),
        RepeatMode::Weekdays => match next_day(date) {
            Some(f) => search_forward(f, DaySel::Workday, 7),
            None => None,
        },
        RepeatMode::Weekly => if spec_mask(rule) == 0 {
            shift_days(date, 7)
        } else {
            match next_day(date) {
                Some(f) => search_forward(f, DaySel::Mask(spec_mask(rule)), 7),
                None => None,
            }
        },
        RepeatMode::Monthly => if date.month == 12 {
            spec_month_anchor((date.year + 1) as i32, 1, rule)
        } else {
            spec_month_anchor(date.year, (date.month + 1) as u32, rule)
        },
        RepeatMode::Yearly => clamped_ymd(date.year + 1, date.month, date.day),
        RepeatMode::Custom => {
            let e = spec_every(rule);
            match unit_of(rule.unit) {
                RepeatUnit::Week => if spec_mask(rule) != 0 {
                    match next_day(date) {
                        Some(f) => week_search_forward(
                            f,
                            if weekday_index(f) == 0 { 1 } else { 0 },
                            spec_mask(rule),
                            e as int,
                            (e * 7) as nat,
                        ),
                        None => None,
                    }
                } else if e * 7 > i64::MAX {
                    None
                } else {
                    shift_days(date, e * 7)
                },
                RepeatUnit::Month => months_away(date, (e as i32) as int),
                RepeatUnit::Year => clamped_ymd(date.year + (e as i32) as int, date.month, date.day),
                RepeatUnit::Day => shift_days(date, e as int),
            }
        },
        _ => None,
    }
}

/// The date of the previous instance before the instance on `date`.
pub open spec fn spec_step_backward(rule: RepeatRule, date: CivilDate) -> Option<CivilDate> {
    match mode_of(rule.mode@) {
        RepeatMode::Daily => shift_days(date, -1),
        RepeatMode::Weekdays => match prev_day(date) {
            Some(f) => search_backward(f, DaySel::Workday, 7),
            None => None,
        },
        RepeatMode::Weekly => if spec_mask(rule) == 0 {
            shift_days(date, -7)
        } else {
            match prev_day(date) {
                Some(f) => search_backward(f, DaySel::Mask(spec_mask(rule)), 7),
                None => None,
            }
        },
        RepeatMode::Monthly => if date.month == 1 {
            spec_month_anchor((date.year - 1) as i32, 12, rule)
        } else {
            spec_month_anchor(date.year, (date.month - 1) as u32, rule)
        },
        RepeatMode::Yearly => clamped_ymd(date.year - 1, date.month, date.day),
        RepeatMode::Custom => {
            let e = spec_every(rule);
            match unit_of(rule.unit) {
                RepeatUnit::Week => if spec_mask(rule) != 0 {
                    match prev_day(date) {
                        Some(p) => week_search_backward(
                            p,
                            if weekday_index(date) == 0 { 1 } else { 0 },
                            spec_mask(rule),
                            e as int,
                            (e * 7) as nat,
                        ),
                        None => None,
                    }
                } else if e * 7 > i64::MAX {
                    None
                } else {
                    shift_days(date, -(e * 7))
                },
                RepeatUnit::Month => months_away(date, -((e as i32) as int)),
                RepeatUnit::Year => clamped_ymd(date.year - (e as i32) as int, date.month, date.day),
                RepeatUnit::Day => shift_days(date, -(e as int)),
            }
        },
        _ => None,
    }
}

fn every_of(rule: &RepeatRule) -> (e: i64)
    ensures
        e == spec_every(*rule),
        e >= 1,
{
    match rule.every {
        Some(e) => if e >= 1 { e } else { 1 },
        None => 1,
    }
}

fn mask_of(rule: &RepeatRule) -> (m: i64)
    ensures
        m == spec_mask(*rule),
{
    match rule.weekdays {
        Some(m) => m,
        None => 0,
    }
}

fn clamped_ymd_exec(y: i64, m: u32, day: u32) -> (r: Option<CivilDate>)
    requires
        1 <= m <= 12,
    ensures
        r == clamped_ymd(y as int, m, day),
        r matches Some(d) ==> d.valid(),
{
    if y < MIN_YEAR as i64 || y > MAX_YEAR as i64 {
        return None;
    }
    let yy: i32 = y as i32;
    let last = last_day_of_month(yy, m);
    let d: u32 = if day < last { day } else { last };
    ymd_opt(yy, m, d)
}

fn months_away_exec(d: CivilDate, k: i64) -> (r: Option<CivilDate>)
    requires
        d.valid(),
        -0x1_0000_0000 <= k <= 0x1_0000_0000,
    ensures
        r == months_away(d, k as int),
        r matches Some(e) ==> e.valid(),
{
    let total: i64 = d.year as i64 * 12 + (d.month as i64 - 1) + k;
    let q: i64 = total.checked_div_euclid(12).unwrap();
    let rm: i64 = total.checked_rem_euclid(12).unwrap();
    clamped_ymd_exec(q, (rm + 1) as u32, d.day)
}

/// The next date of a masked custom weekly rule after `date`.
fn week_step_forward(rule: &RepeatRule, date: CivilDate) -> (r: Option<CivilDate>)
    requires
        date.valid(),
        is_custom_week_mask(*rule),
    ensures
        r == spec_step_forward(*rule, date),
        r matches Some(d) ==> d.valid(),
{
    let every = every_of(rule);
    let mask = mask_of(rule);
    let budget: i128 = every as i128 * 7;
    proof {
        lemma_shift_one(date);
        lemma_shift_valid(date, 1);
    }
    let first = match add_days(date, 1) {
        Some(n) => n,
        None => return None,
    };
    let mut cur = first;
    let mut weeks: i128 = if weekday(cur) == 0 { 1 } else { 0 };
    let mut i: i128 = 0;
    while i < budget
        invariant
            cur.valid(),
            0 <= i <= budget,
            budget == every * 7,
            every >= 1,
            every == spec_every(*rule),
            mask == spec_mask(*rule),
            0 <= weeks <= i + 1,
            spec_step_forward(*rule, date) == week_search_forward(cur, weeks as int, mask, every as int, (budget
                - i) as nat),
        decreases budget - i,
    {
        if mask_has(mask, weekday(cur)) && weeks % (every as i128) == 0 {
            return Some(cur);
        }
        proof {
            lemma_shift_one(cur);
            lemma_shift_valid(cur, 1);
        }
        match add_days(cur, 1) {
            Some(n) => {
                cur = n;
                if weekday(n) == 0 {
                    weeks = weeks + 1;
                }
            },
            None => {
                return None;
            },
        }
        i = i + 1;
    }
    None
}

/// The previous date of a masked custom weekly rule before `date`.
fn week_step_backward(rule: &RepeatRule, date: CivilDate) -> (r: Option<CivilDate>)
    requires
        date.valid(),
        is_custom_week_mask(*rule),
    ensures
        r == spec_step_backward(*rule, date),
        r matches Some(d) ==> d.valid(),
{
    let every = every_of(rule);
    let mask = mask_of(rule);
    let budget: i128 = every as i128 * 7;
    proof {
        lemma_shift_one(date);
        lemma_shift_valid(date, -1);
    }
    let first = match add_days(date, -1) {
        Some(n) => n,
        None => return None,
    };
    let mut cur = first;
    let mut weeks: i128 = if weekday(date) == 0 { 1 } else { 0 };
    let mut i: i128 = 0;
    while i < budget
        invariant
            cur.valid(),
            0 <= i <= budget,
            budget == every * 7,
            every >= 1,
            every == spec_every(*rule),
            mask == spec_mask(*rule),
            0 <= weeks <= i + 1,
            spec_step_backward(*rule, date) == week_search_backward(cur, weeks as int, mask, every as int, (budget
                - i) as nat),
        decreases budget - i,
    {
        let wd = weekday(cur);
        if mask_has(mask, wd) && weeks % (every as i128) == 0 {
            return Some(cur);
        }
        proof {
            lemma_shift_one(cur);
            lemma_shift_valid(cur, -1);
        }
        match add_days(cur, -1) {
            Some(p) => {
                if wd == 0 {
                    weeks = weeks + 1;
                }
                cur = p;
            },
            None => {
                return None;
            },
        }
        i = i + 1;
    }
    None
}

/// Steps `date` one instance forward (`forward`) or backward under `rule`.
pub fn step_date(rule: &RepeatRule, date: CivilDate, forward: bool) -> (r: Option<CivilDate>)
    requires
        date.valid(),
    ensures
        forward ==> r == spec_step_forward(*rule, date),
        !forward ==> r == spec_step_backward(*rule, date),
        r matches Some(d) ==> d.valid(),
{
    let one: i64 = if forward { 1 } else { -1 };
    proof {
        lemma_shift_one(date);
        lemma_shift_valid(date, 1);
        lemma_shift_valid(date, -1);
        lemma_shift_valid(date, 7);
        lemma_shift_valid(date, -7);
    }
    match parse_mode(rule.mode.as_str()) {
        RepeatMode::Daily => add_days(date, one),
        RepeatMode::Weekdays => match add_days(date, one) {
            Some(f) => search_week(f, DaySel::Workday, forward),
            None => None,
        },
        RepeatMode::Weekly => {
            let mask = mask_of(rule);
            if mask == 0 {
                add_days(date, 7 * one)
            } else {
                match add_days(date, one) {
                    Some(f) => search_week(f, DaySel::Mask(mask), forward),
                    None => None,
                }
            }
        },
        RepeatMode::Monthly => {
            if forward {
                if date.month == 12 {
                    month_anchor(date.year + 1, 1, rule)
                } else {
                    month_anchor(date.year, date.month + 1, rule)
                }
            } else {
                if date.month == 1 {
                    month_anchor(date.year - 1, 12, rule)
                } else {
                    month_anchor(date.year, date.month - 1, rule)
                }
            }
        },
        RepeatMode::Yearly => clamped_ymd_exec(date.year as i64 + one, date.month, date.day),
        RepeatMode::Custom => {
            let e = every_of(rule);
            let e32: i64 = (e as i32) as i64;
            match parse_unit(&rule.unit) {
                RepeatUnit::Week => if mask_of(rule) != 0 {
                    if forward {
                        week_step_forward(rule, date)
                    } else {
                        week_step_backward(rule, date)
                    }
                } else {
                    match e.checked_mul(7) {
                        Some(w) => {
                            proof {
                                lemma_shift_valid(date, w as int);
                                lemma_shift_valid(date, -w as int);
                            }
                            add_days(date, if forward { w } else { -w })
                        },
                        None => None,
                    }
                },
                RepeatUnit::Month => months_away_exec(date, if forward { e32 } else { -e32 }),
                RepeatUnit::Year => clamped_ymd_exec(
                    date.year as i64 + if forward { e32 } else { -e32 },
                    date.month,
                    date.day,
                ),
                RepeatUnit::Day => {
                    proof {
                        lemma_shift_valid(date, e as int);
                        lemma_shift_valid(date, -e as int);
                    }
                    add_days(date, if forward { e } else { -e })
                },
            }
        },
        _ => None,
    }
}


// ---------------------------------------------------------------------------
// End conditions

/// An `until` rule ends after its `end_at` instant; other rules never end by date.
pub open spec fn spec_within_end(rule: RepeatRule, at_ms: i64) -> bool {
    end_mode_of(rule.end_mode) == EndMode::Until ==> (rule.end_at matches Some(end) ==> at_ms <= end)
}

/// Whether the instance at `at_ms` is still inside the rule's `until` bound.
pub fn within_end(rule: &RepeatRule, at_ms: i64) -> (r: bool)
    ensures
        r == spec_within_end(*rule, at_ms),
{
    match parse_end_mode(&rule.end_mode) {
        EndMode::Until => match rule.end_at {
            Some(end) => at_ms <= end,
            None => true,
        },
        _ => true,
    }
}

/// Rolling to `next` would end the rule: `next` is past `until`, or this was
/// the last of `count` instances (`done_count` done before this one).
pub open spec fn spec_reached_end(rule: RepeatRule, next: i64, done_count: i64) -> bool {
    ||| !spec_within_end(rule, next)
    ||| {
        &&& end_mode_of(rule.end_mode) == EndMode::Count
        &&& rule.count matches Some(total)
        &&& done_count + 1 >= total
    }
}

/// Whether completing the current instance exhausts the rule.
pub fn reached_end(rule: &RepeatRule, next: i64, done_count: i64) -> (r: bool)
    ensures
        r == spec_reached_end(*rule, next, done_count),
{
    if !within_end(rule, next) {
        return true;
    }
    match parse_end_mode(&rule.end_mode) {
        EndMode::Count => match rule.count {
            Some(total) => done_count as i128 + 1 >= total as i128,
            None => false,
        },
        _ => false,
    }
}

/// How many future instances a listing may still show: with a `count` end,
/// the stored row is instance `done_count + 1`, so `count - done_count - 1`
/// remain (never negative); otherwise `i64::MAX`.
pub open spec fn spec_remaining(rule: RepeatRule, done_count: i64) -> int {
    if end_mode_of(rule.end_mode) == EndMode::Count {
        match rule.count {
            Some(total) => if total - done_count - 1 > 0 { total - done_count - 1 } else { 0 },
            None => i64::MAX as int,
        }
    } else {
        i64::MAX as int
    }
}

fn initial_remaining(rule: &RepeatRule, done_count: i64) -> (r: i128)
    ensures
        r as int == spec_remaining(*rule, done_count),
{
    match parse_end_mode(&rule.end_mode) {
        EndMode::Count => match rule.count {
            Some(total) => {
                let left: i128 = total as i128 - done_count as i128 - 1;
                if left > 0 { left } else { 0 }
            },
            None => i64::MAX as i128,
        },
        _ => i64::MAX as i128,
    }
}

// ---------------------------------------------------------------------------
// Instants

/// `x` is the instant of the wall-clock time `t` on `d`, `k` minutes late.
pub open spec fn late_wall_clock(x: int, d: CivilDate, t: TimeOfDay, k: int) -> bool {
    near_wall_clock(x, d, tod_ms(t) + k * 60000)
}

/// `x` is the instant of the wall-clock time `t` on the local date `d`, or
/// of one up to three hours later (a time skipped by a clock change moves
/// forward).
pub open spec fn instant_on(x: int, d: CivilDate, t: TimeOfDay) -> bool {
    exists|k: int| 0 <= k <= 180 && #[trigger] late_wall_clock(x, d, t, k)
}

/// `x` is one instance of `rule` forward (`forward`) or backward from the
/// instant `cur`: the rule's date step from the local date of `cur`, at the
/// wall-clock time `t` of the stepped date.
#[verifier::opaque]
pub open spec fn stepped_from(rule: RepeatRule, cur: int, t: TimeOfDay, x: int, forward: bool) -> bool {
    exists|d0: CivilDate|
        d0.valid() && #[trigger] on_local_date(cur, d0) && match (if forward {
            spec_step_forward(rule, d0)
        } else {
            spec_step_backward(rule, d0)
        }) {
            Some(e) => instant_on(x, e, t),
            None => false,
        }
}

/// Stepping `rule` forward (`forward`) or backward from the instant `cur`
/// has no instance: `cur` lies outside the instants every zone can place, or
/// the rule has no date step from a local date of `cur`.
pub open spec fn no_step_from(rule: RepeatRule, cur: int, forward: bool) -> bool {
    ||| !in_local_range(cur)
    ||| exists|d0: CivilDate|
        d0.valid() && #[trigger] on_local_date(cur, d0) && (if forward {
            spec_step_forward(rule, d0)
        } else {
            spec_step_backward(rule, d0)
        }) is None
}

/// `p` is the instance one rule step back from `cur`, at the local time of
/// day of `cur`.
pub open spec fn stepped_back(rule: RepeatRule, cur: int, p: int) -> bool {
    exists|t: TimeOfDay| is_local_time_of(cur, t) && #[trigger] stepped_from(rule, cur, t, p, false)
}

/// A local time of day lies within the day.
proof fn lemma_tod_bounds(t: TimeOfDay)
    requires
        valid_tod(t),
    ensures
        0 <= tod_ms(t) < 86_400_000,
{
    assert(t.nanos / 1_000_000 < 1000);
}

/// The instant of `time` on `date` in the local zone: the earlier one when
/// the wall-clock time repeats, and when it was skipped by a clock change the
/// first existing minute up to three hours later. It never gives "no
/// instance", which callers would read as an exhausted rule: when none of
/// those minutes can be resolved, the wall-clock time read as UTC.
fn at_time(date: CivilDate, time: TimeOfDay) -> (r: Option<i64>)
    requires
        date.valid(),
        valid_tod(time),
    ensures
        r is Some,
        r matches Some(x) ==> instant_on(x as int, date, time),
{
    match local_lookup(date, time, 0) {
        LocalLookup::Single(ms) => {
            assert(late_wall_clock(ms as int, date, time, 0));
            Some(ms)
        },
        LocalLookup::Ambiguous(ms) => {
            assert(late_wall_clock(ms as int, date, time, 0));
            Some(ms)
        },
        LocalLookup::Gap => {
            let mut min: i64 = 1;
            while min <= 180
                invariant
                    1 <= min <= 181,
                    date.valid(),
                    valid_tod(time),
                decreases 181 - min,
            {
                match local_lookup(date, time, min) {
                    LocalLookup::Single(ms) => {
                        assert(late_wall_clock(ms as int, date, time, min as int));
                        return Some(ms);
                    },
                    LocalLookup::Ambiguous(ms) => {
                        assert(late_wall_clock(ms as int, date, time, min as int));
                        return Some(ms);
                    },
                    LocalLookup::Gap => {},
                }
                min = min + 1;
            }
            let ms = wall_clock_as_utc(date, time);
            assert(late_wall_clock(ms as int, date, time, 0));
            Some(ms)
        },
    }
}

/// The instance one step forward (`forward`) or backward from the instant
/// `cur_ms`, at the rule's time of day.
fn step_instant(rule: &RepeatRule, cur_ms: i64, time: TimeOfDay, forward: bool) -> (r: Option<i64>)
    requires
        valid_tod(time),
    ensures
        r matches Some(x) ==> stepped_from(*rule, cur_ms as int, time, x as int, forward),
        r is None ==> no_step_from(*rule, cur_ms as int, forward),
{
    if !local_range_holds(cur_ms) {
        return None;
    }
    let (date, own_time) = match local_parts(cur_ms) {
        Some(p) => p,
        None => return None,
    };
    let r = match step_date(rule, date, forward) {
        Some(d) => at_time(d, time),
        None => None,
    };
    proof {
        lemma_tod_bounds(own_time);
        assert(date.valid() && on_local_date(cur_ms as int, date));
        if r is Some {
            reveal(stepped_from);
        }
    }
    r
}

// ---------------------------------------------------------------------------
// Rolling

/// What a candidate instance means while rolling forward.
#[derive(Clone, Copy, Debug, PartialEq, Eq, Structural)]
pub enum RollStep {
    /// the rule has no further instance
    Exhausted,
    /// the first instance after the target instant
    Found(i64),
    /// an instance not after the target instant yet: keep rolling from it
    Continue(i64),
}

pub open spec fn spec_classify(rule: RepeatRule, candidate: Option<i64>, from_ms: i64) -> RollStep {
    match candidate {
        None => RollStep::Exhausted,
        Some(n) => if !spec_within_end(rule, n) {
            RollStep::Exhausted
        } else if n > from_ms {
            RollStep::Found(n)
        } else {
            RollStep::Continue(n)
        },
    }
}

/// Classifies the next candidate instance of a roll toward `from_ms`.
pub fn classify_candidate(rule: &RepeatRule, candidate: Option<i64>, from_ms: i64) -> (r: RollStep)
    ensures
        r == spec_classify(*rule, candidate, from_ms),
{
    match candidate {
        None => RollStep::Exhausted,
        Some(n) => if !within_end(rule, n) {
            RollStep::Exhausted
        } else if n > from_ms {
            RollStep::Found(n)
        } else {
            RollStep::Continue(n)
        },
    }
}

/// The instant a chain of candidates rolls from at position `k`: `start`
/// for the first, else the candidate before.
pub open spec fn chain_prev(start: i64, c: Seq<Option<i64>>, k: int) -> int {
    if k == 0 {
        start as int
    } else {
        c[k - 1].unwrap() as int
    }
}

/// A chain of candidate instances rolled forward from `start` at the time
/// of day `t`: every candidate but the last is present, each present
/// candidate is one rule step forward from the instant before it, and a
/// missing one is missing because the rule has no step from that instant.
pub open spec fn rolled_chain(rule: RepeatRule, start: i64, t: TimeOfDay, c: Seq<Option<i64>>) -> bool {
    forall|k: int|
        0 <= k < c.len() ==> (k < c.len() - 1 ==> #[trigger] c[k] is Some) && (c[k] is Some ==> stepped_from(
            rule,
            chain_prev(start, c, k),
            t,
            c[k].unwrap() as int,
            true,
        )) && (c[k] is None ==> no_step_from(rule, chain_prev(start, c, k), true))
}

/// The first `n` candidates of `c` are all instances at or before `from_ms`
/// inside the rule's end: the roll goes on past them.
pub open spec fn rolls_on(rule: RepeatRule, c: Seq<Option<i64>>, from_ms: i64, n: int) -> bool {
    forall|k: int| 0 <= k < n ==> #[trigger] spec_classify(rule, c[k], from_ms) is Continue
}

/// What `next_occurrence` gives: `Ok(Some(n))` when the chain of steps from
/// `due_at`, at the local time of day of `due_at`, reaches `n`, the first
/// candidate after `from_ms` (missed ones skipped); `Ok(None)` when the
/// chain ends first (no further step, or past `until`); an iteration-limit
/// error when `MAX_ITER` steps stay at or before `from_ms`; the invalid-time
/// error for a `due_at` outside `EARLIEST_MS..=LATEST_MS`.
#[verifier::opaque]
pub open spec fn next_outcome(rule: RepeatRule, due_at: i64, from_ms: i64, r: Result<Option<i64>, String>) -> bool {
    &&& rule.spec_is_once() ==> r == Ok::<Option<i64>, String>(None)
    &&& !rule.spec_is_once() && !(in_local_range(due_at as int)) ==> (r matches Err(e) && e@ == ERR_INVALID_TIME@)
    &&& r matches Ok(Some(n)) ==> n > from_ms && spec_within_end(rule, n)
    &&& r matches Ok(Some(n)) ==> exists|t: TimeOfDay, c: Seq<Option<i64>>|
        is_local_time_of(due_at as int, t) && 1 <= c.len() <= MAX_ITER && #[trigger] rolled_chain(rule, due_at, t, c)
            && rolls_on(rule, c, from_ms, c.len() - 1) && spec_classify(rule, c.last(), from_ms) == RollStep::Found(n)
    &&& (r matches Ok(None) && !rule.spec_is_once()) ==> exists|t: TimeOfDay, c: Seq<Option<i64>>|
        is_local_time_of(due_at as int, t) && 1 <= c.len() <= MAX_ITER && #[trigger] rolled_chain(rule, due_at, t, c)
            && rolls_on(rule, c, from_ms, c.len() - 1) && spec_classify(rule, c.last(), from_ms) == RollStep::Exhausted
    &&& r matches Err(e) ==> (e@ == ERR_INVALID_TIME@ && !(in_local_range(due_at as int))) || (e@
        == ERR_ITER_LIMIT@ && exists|t: TimeOfDay, c: Seq<Option<i64>>|
        is_local_time_of(due_at as int, t) && c.len() == MAX_ITER && #[trigger] rolled_chain(rule, due_at, t, c)
            && rolls_on(rule, c, from_ms, MAX_ITER as int))
}

/// The first instance of the rule strictly after `from_ms`, rolling from
/// `due_at` without replaying missed instances. `Ok(None)`: the rule has no
/// further instance (one-off, past `until`, or no valid anchor); `Err`: the
/// iteration budget ran out, or `due_at` is not a representable instant.
pub fn next_occurrence(rule: &RepeatRule, due_at: i64, from_ms: i64) -> (r: Result<Option<i64>, String>)
    ensures
        next_outcome(*rule, due_at, from_ms, r),
{
    if rule.is_once() {
        proof {
            reveal(next_outcome);
        }
        return Ok(None);
    }
    if !local_range_holds(due_at) {
        proof {
            reveal(next_outcome);
        }
        return Err(owned(ERR_INVALID_TIME));
    }
    let (due_date, base_time) = match local_parts(due_at) {
        Some(p) => p,
        None => return Err(owned(ERR_INVALID_TIME)),
    };
    assert(is_local_time_of(due_at as int, base_time)) by {
        reveal(is_local_time_of);
        assert(near_wall_clock(due_at as int, due_date, tod_ms(base_time)));
    }
    let mut prev = due_at;
    let mut i: usize = 0;
    let ghost mut c: Seq<Option<i64>> = Seq::empty();
    while i < MAX_ITER
        invariant
            i <= MAX_ITER,
            !rule.spec_is_once(),
            in_local_range(due_at as int),
            c.len() == i,
            valid_tod(base_time),
            is_local_time_of(due_at as int, base_time),
            rolled_chain(*rule, due_at, base_time, c),
            rolls_on(*rule, c, from_ms, i as int),
            prev as int == chain_prev(due_at, c, i as int),
        decreases MAX_ITER - i,
    {
        let candidate = step_instant(rule, prev, base_time, true);
        let ghost c2 = c.push(candidate);
        proof {
            assert forall|k: int| 0 <= k < c2.len() implies (k < c2.len() - 1 ==> #[trigger] c2[k] is Some) && (
            c2[k] is Some ==> stepped_from(*rule, chain_prev(due_at, c2, k), base_time, c2[k].unwrap() as int, true)) && (
            c2[k] is None ==> no_step_from(*rule, chain_prev(due_at, c2, k), true)) by {
                if k < c.len() {
                    assert(c2[k] == c[k]);
                    assert(spec_classify(*rule, c[k], from_ms) is Continue);
                    if k > 0 {
                        assert(c2[k - 1] == c[k - 1]);
                    }
                }
            }
            assert forall|k: int| 0 <= k < i implies #[trigger] spec_classify(*rule, c2[k], from_ms) is Continue by {
                assert(c2[k] == c[k]);
            }
        }
        match classify_candidate(rule, candidate, from_ms) {
            RollStep::Exhausted => {
                proof {
                    assert(c2.last() == candidate);
                    assert(rolled_chain(*rule, due_at, base_time, c2));
                    reveal(next_outcome);
                }
                return Ok(None);
            },
            RollStep::Found(n) => {
                proof {
                    assert(c2.last() == candidate);
                    assert(rolled_chain(*rule, due_at, base_time, c2));
                    reveal(next_outcome);
                }
                return Ok(Some(n));
            },
            RollStep::Continue(n) => {
                proof {
                    c = c2;
                    assert(spec_classify(*rule, c[i as int], from_ms) is Continue);
                }
                prev = n;
            },
        }
        i = i + 1;
    }
    proof {
        reveal(next_outcome);
    }
    Err(owned(ERR_ITER_LIMIT))
}

/// The instance right before `cur` (used to undo a completion).
pub fn previous_occurrence(rule: &RepeatRule, cur: i64) -> (r: Option<i64>)
    ensures
        rule.spec_is_once() ==> r is None,
        !(in_local_range(cur as int)) ==> r is None,
        r matches Some(p) ==> stepped_back(*rule, cur as int, p as int),
        r is None ==> rule.spec_is_once() || no_step_from(*rule, cur as int, false),
{
    if rule.is_once() {
        return None;
    }
    if !local_range_holds(cur) {
        return None;
    }
    let (cur_date, base_time) = match local_parts(cur) {
        Some(p) => p,
        None => return None,
    };
    let r = step_instant(rule, cur, base_time, false);
    proof {
        reveal(is_local_time_of);
        assert(near_wall_clock(cur as int, cur_date, tod_ms(base_time)));
    }
    r
}

/// What one candidate of an expansion does.
#[derive(Clone, Copy, Debug, PartialEq, Eq, Structural)]
pub enum ExpandAction {
    /// the listing ends (no candidate, past `until` or the range, or no
    /// instance left of a `count` end)
    Stop,
    /// a future instance before the range: counted, not listed
    Skip,
    /// an instance inside the range: counted and listed
    Push(i64),
}

pub open spec fn spec_expand_step(
    rule: RepeatRule,
    candidate: Option<i64>,
    from_ms: i64,
    to_ms: i64,
    remaining: int,
) -> ExpandAction {
    match candidate {
        None => ExpandAction::Stop,
        Some(n) => if !spec_within_end(rule, n) || n > to_ms || remaining <= 0 {
            ExpandAction::Stop
        } else if n < from_ms {
            ExpandAction::Skip
        } else {
            ExpandAction::Push(n)
        },
    }
}

/// Decides one candidate of an expansion, `remaining` future instances
/// being left.
pub fn expand_step(rule: &RepeatRule, candidate: Option<i64>, from_ms: i64, to_ms: i64, remaining: i128) -> (r:
    ExpandAction)
    ensures
        r == spec_expand_step(*rule, candidate, from_ms, to_ms, remaining as int),
{
    match candidate {
        None => ExpandAction::Stop,
        Some(n) => if !within_end(rule, n) || n > to_ms || remaining <= 0 {
            ExpandAction::Stop
        } else if n < from_ms {
            ExpandAction::Skip
        } else {
            ExpandAction::Push(n)
        },
    }
}

/// The instances an expansion lists from the candidates `c`, the `k`-th of
/// which meets `remaining - k` remaining instances.
pub open spec fn pushed(rule: RepeatRule, c: Seq<Option<i64>>, from_ms: i64, to_ms: i64, remaining: int) -> Seq<i64>
    decreases c.len(),
{
    if c.len() == 0 {
        Seq::empty()
    } else {
        pushed(rule, c.drop_last(), from_ms, to_ms, remaining) + match spec_expand_step(
            rule,
            c.last(),
            from_ms,
            to_ms,
            remaining - (c.len() - 1),
        ) {
            ExpandAction::Push(n) => seq![n],
            _ => Seq::empty(),
        }
    }
}

/// The first `n` candidates of `c` do not end the expansion.
pub open spec fn expands_on(rule: RepeatRule, c: Seq<Option<i64>>, from_ms: i64, to_ms: i64, remaining: int, n: int) -> bool {
    forall|k: int| 0 <= k < n ==> !(#[trigger] spec_expand_step(rule, c[k], from_ms, to_ms, remaining - k) is Stop)
}

proof fn lemma_pushed_bounds(rule: RepeatRule, c: Seq<Option<i64>>, from_ms: i64, to_ms: i64, remaining: int)
    ensures
        forall|k: int| 0 <= k < pushed(rule, c, from_ms, to_ms, remaining).len() ==> from_ms <= #[trigger] pushed(
            rule,
            c,
            from_ms,
            to_ms,
            remaining,
        )[k] <= to_ms && spec_within_end(rule, pushed(rule, c, from_ms, to_ms, remaining)[k]),
    decreases c.len(),
{
    if c.len() > 0 {
        let dl = pushed(rule, c.drop_last(), from_ms, to_ms, remaining);
        lemma_pushed_bounds(rule, c.drop_last(), from_ms, to_ms, remaining);
        let p = pushed(rule, c, from_ms, to_ms, remaining);
        assert forall|k: int| 0 <= k < p.len() implies from_ms <= #[trigger] p[k] <= to_ms && spec_within_end(rule, p[k]) by {
            if k < dl.len() {
                assert(p[k] == dl[k]);
            }
        }
    }
}

/// `v` is what an expansion lists: the chain of steps from `due_at` (at its
/// local time of day), rolled until a candidate stops it, keeping the
/// candidates inside the range.
pub open spec fn expansion_of(rule: RepeatRule, due_at: i64, done_count: i64, from_ms: i64, to_ms: i64, v: Seq<i64>) -> bool {
    exists|t: TimeOfDay, c: Seq<Option<i64>>|
        is_local_time_of(due_at as int, t) && 1 <= c.len() <= MAX_ITER && #[trigger] rolled_chain(rule, due_at, t, c)
            && expands_on(rule, c, from_ms, to_ms, spec_remaining(rule, done_count), c.len() - 1)
            && spec_expand_step(rule, c.last(), from_ms, to_ms, spec_remaining(rule, done_count) - (c.len() - 1))
            is Stop && v == pushed(rule, c.drop_last(), from_ms, to_ms, spec_remaining(rule, done_count))
}

/// The virtual instances inside `[from_ms, to_ms]` after the stored one at
/// `due_at` (which is instance `done_count + 1`). A `count` end leaves
/// `count - done_count - 1` future instances, counted from the first one
/// after `due_at` whether it falls inside the range or before it.
pub fn expand_occurrences(
    rule: &RepeatRule,
    due_at: i64,
    done_count: i64,
    from_ms: i64,
    to_ms: i64,
) -> (r: Result<Vec<i64>, String>)
    ensures
        range_too_large(from_ms, to_ms) ==> (r matches Err(e) && e@ == ERR_RANGE_LIMIT@),
        !range_too_large(from_ms, to_ms) && (rule.spec_is_once() || to_ms < from_ms) ==> (r matches Ok(v)
            && v@.len() == 0),
        !range_too_large(from_ms, to_ms) && !rule.spec_is_once() && from_ms <= to_ms && !(in_local_range(due_at as int)) ==> (r matches Err(e) && e@ == ERR_INVALID_TIME@),
        r matches Err(e) ==> e@ == ERR_RANGE_LIMIT@ || e@ == ERR_ITER_LIMIT@ || e@ == ERR_INVALID_TIME@,
        r matches Err(e) && e@ == ERR_RANGE_LIMIT@ ==> range_too_large(from_ms, to_ms),
        r matches Err(e) && e@ == ERR_INVALID_TIME@ ==> !(in_local_range(due_at as int)),
        r matches Err(e) && e@ == ERR_ITER_LIMIT@ ==> exists|t: TimeOfDay, c: Seq<Option<i64>>|
            is_local_time_of(due_at as int, t) && c.len() == MAX_ITER && #[trigger] rolled_chain(*rule, due_at, t, c)
                && expands_on(
                *rule,
                c,
                from_ms,
                to_ms,
                spec_remaining(*rule, done_count),
                MAX_ITER as int,
            ),
        r is Ok && !rule.spec_is_once() && from_ms <= to_ms ==> expansion_of(
            *rule,
            due_at,
            done_count,
            from_ms,
            to_ms,
            r.unwrap()@,
        ),
        r matches Ok(v) ==> v@.len() <= spec_remaining(*rule, done_count),
        r matches Ok(v) ==> forall|k: int|
            0 <= k < v@.len() ==> from_ms <= #[trigger] v@[k] <= to_ms && spec_within_end(*rule, v@[k]),
{
    proof {
        assert(ERR_RANGE_LIMIT@ != ERR_ITER_LIMIT@ && ERR_RANGE_LIMIT@ != ERR_INVALID_TIME@
            && ERR_ITER_LIMIT@ != ERR_INVALID_TIME@) by {
            reveal_strlit("RECURRENCE_RANGE_TOO_LARGE: 展开区间过大，请分段查询（上限 366 天）");
            reveal_strlit("RECURRENCE_ITER_LIMIT: 周期规则在迭代预算内没有推进到目标时刻（规则或截止时刻异常）");
            reveal_strlit("RECURRENCE_INVALID_TIME: due_at 不是合法时间戳");
            assert(ERR_RANGE_LIMIT@[11] != ERR_ITER_LIMIT@[11]);
            assert(ERR_RANGE_LIMIT@[11] != ERR_INVALID_TIME@[11]);
            assert(ERR_ITER_LIMIT@[12] != ERR_INVALID_TIME@[12]);
        }
    }
    match validate_range(from_ms, to_ms) {
        Ok(()) => {},
        Err(e) => {
            return Err(e);
        },
    }
    let mut out: Vec<i64> = Vec::new();
    if rule.is_once() || to_ms < from_ms {
        return Ok(out);
    }
    if !local_range_holds(due_at) {
        return Err(owned(ERR_INVALID_TIME));
    }
    let (due_date, base_time) = match local_parts(due_at) {
        Some(p) => p,
        None => return Err(owned(ERR_INVALID_TIME)),
    };
    assert(is_local_time_of(due_at as int, base_time)) by {
        reveal(is_local_time_of);
        assert(near_wall_clock(due_at as int, due_date, tod_ms(base_time)));
    }
    let mut remaining: i128 = initial_remaining(rule, done_count);
    let ghost initial = spec_remaining(*rule, done_count);
    let mut prev = due_at;
    let mut i: usize = 0;
    let ghost mut c: Seq<Option<i64>> = Seq::empty();
    while i < MAX_ITER
        invariant
            i <= MAX_ITER,
            !rule.spec_is_once(),
            !range_too_large(from_ms, to_ms),
            from_ms <= to_ms,
            in_local_range(due_at as int),
            initial == spec_remaining(*rule, done_count),
            0 <= initial,
            remaining == initial - i,
            c.len() == i,
            valid_tod(base_time),
            is_local_time_of(due_at as int, base_time),
            rolled_chain(*rule, due_at, base_time, c),
            expands_on(*rule, c, from_ms, to_ms, initial, i as int),
            prev as int == chain_prev(due_at, c, i as int),
            out@ == pushed(*rule, c, from_ms, to_ms, initial),
            out@.len() <= i,
            out@.len() <= initial,
        decreases MAX_ITER - i,
    {
        let candidate = step_instant(rule, prev, base_time, true);
        let ghost c2 = c.push(candidate);
        let action = expand_step(rule, candidate, from_ms, to_ms, remaining);
        proof {
            assert(c2.drop_last() =~= c);
            assert(c2.last() == candidate);
            assert forall|k: int| 0 <= k < c2.len() implies (k < c2.len() - 1 ==> #[trigger] c2[k] is Some) && (
            c2[k] is Some ==> stepped_from(*rule, chain_prev(due_at, c2, k), base_time, c2[k].unwrap() as int, true)) && (
            c2[k] is None ==> no_step_from(*rule, chain_prev(due_at, c2, k), true)) by {
                if k < c.len() {
                    assert(c2[k] == c[k]);
                    assert(!(spec_expand_step(*rule, c[k], from_ms, to_ms, initial - k) is Stop));
                    if k > 0 {
                        assert(c2[k - 1] == c[k - 1]);
                    }
                }
            }
            assert forall|k: int| 0 <= k < i implies !(#[trigger] spec_expand_step(*rule, c2[k], from_ms, to_ms, initial - k) is Stop) by {
                assert(c2[k] == c[k]);
            }
            lemma_pushed_bounds(*rule, c2, from_ms, to_ms, initial);
        }
        match action {
            ExpandAction::Stop => {
                proof {
                    lemma_pushed_bounds(*rule, c, from_ms, to_ms, initial);
                    assert(rolled_chain(*rule, due_at, base_time, c2));
                }
                return Ok(out);
            },
            ExpandAction::Skip => {},
            ExpandAction::Push(n) => {
                out.push(n);
            },
        }
        proof {
            c = c2;
        }
        remaining = remaining - 1;
        match candidate {
            Some(n) => {
                prev = n;
            },
            None => {},
        }
        i = i + 1;
    }
    Err(owned(ERR_ITER_LIMIT))
}

} // verus!
