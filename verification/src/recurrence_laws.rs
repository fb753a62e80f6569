//! Laws of the date stepping behind the recurrence engine.
use vstd::prelude::*;
use crate::calendar::{
    days_from_civil, days_in_month, lemma_next_day_valid, lemma_prev_day_valid, lemma_shift_one, lemma_shift_valid,
    next_day, prev_day, shift_days, spec_ymd, weekday_index, CivilDate, MAX_YEAR, MIN_YEAR,
};
use crate::models::{mode_of, unit_of, RepeatMode, RepeatRule, RepeatUnit};
use crate::todo_recurrence::{
    clamped_ymd, day_selected, months_away, search_backward, search_forward,
    spec_every, spec_last_day, spec_mask, spec_mask_has, spec_month_anchor, spec_step_backward, spec_step_forward,
    week_search_backward, week_search_forward, DaySel, no_step_from, next_outcome, expansion_of, rolled_chain,
    chain_prev, rolls_on, spec_classify, spec_within_end, spec_remaining, spec_expand_step, pushed, expands_on,
    stepped_from, RollStep, MAX_ITER,
};
use crate::local_time::{
    in_local_range, is_local_time_of, midnight_ms, on_local_date, TimeOfDay, EARLIEST_MS, LATEST_MS,
};
use vstd::arithmetic::div_mod::{lemma_fundamental_div_mod, lemma_mod_multiples_vanish, lemma_small_mod};

verus! {

/// The day after a valid date, stepped back, is that date.
pub proof fn lemma_prev_of_next(d: CivilDate)
    requires
        d.valid(),
        next_day(d) is Some,
    ensures
        prev_day(next_day(d).unwrap()) == Some(d),
{
}

/// The day before a valid date, stepped forward, is that date.
pub proof fn lemma_next_of_prev(d: CivilDate)
    requires
        d.valid(),
        prev_day(d) is Some,
    ensures
        next_day(prev_day(d).unwrap()) == Some(d),
{
}

/// A shift by `n + 1` days is a shift by `n` days and one more step (and
/// likewise backwards).
pub proof fn lemma_shift_last(d: CivilDate, n: int)
    ensures
        n >= 0 ==> shift_days(d, n + 1) == (match shift_days(d, n) {
            Some(x) => next_day(x),
            None => None,
        }),
        n <= 0 ==> shift_days(d, n - 1) == (match shift_days(d, n) {
            Some(x) => prev_day(x),
            None => None,
        }),
    decreases (if n >= 0 { n } else { -n }),
{
    lemma_shift_one(d);
    if n > 0 {
        if let Some(e) = next_day(d) {
            lemma_shift_last(e, n - 1);
        }
    } else if n < 0 {
        if let Some(e) = prev_day(d) {
            lemma_shift_last(e, n + 1);
        }
    } else {
        lemma_shift_one(d);
    }
}

/// Shifting by `n` and then by `-n` days returns to the start.
pub proof fn lemma_shift_inverse(d: CivilDate, n: int)
    requires
        d.valid(),
        shift_days(d, n) is Some,
    ensures
        shift_days(shift_days(d, n).unwrap(), -n) == Some(d),
    decreases (if n >= 0 { n } else { -n }),
{
    if n > 0 {
        let d1 = next_day(d).unwrap();
        lemma_next_day_valid(d);
        lemma_shift_inverse(d1, n - 1);
        let e = shift_days(d, n).unwrap();
        lemma_shift_last(e, -(n - 1));
        lemma_prev_of_next(d);
    } else if n < 0 {
        let d1 = prev_day(d).unwrap();
        lemma_prev_day_valid(d);
        lemma_shift_inverse(d1, n + 1);
        let e = shift_days(d, n).unwrap();
        lemma_shift_last(e, -(n + 1));
        lemma_next_of_prev(d);
    }
}

/// A forward search that succeeds stops `k` days in, after `k` rejected days.
proof fn lemma_search_forward_shape(f: CivilDate, sel: DaySel, budget: nat) -> (k: int)
    requires
        search_forward(f, sel, budget) is Some,
    ensures
        0 <= k < budget,
        shift_days(f, k) == search_forward(f, sel, budget),
        forall|j: int| 0 <= j < k ==> (shift_days(f, j) is Some && !day_selected(
            sel,
            weekday_index(#[trigger] shift_days(f, j).unwrap()),
        )),
    decreases budget,
{
    reveal_with_fuel(shift_days, 1);
    if day_selected(sel, weekday_index(f)) {
        0
    } else {
        let n = next_day(f).unwrap();
        let k1 = lemma_search_forward_shape(n, sel, (budget - 1) as nat);
        assert forall|j: int| 0 <= j < k1 + 1 implies (shift_days(f, j) is Some && !day_selected(
            sel,
            weekday_index(#[trigger] shift_days(f, j).unwrap()),
        )) by {
            if j > 0 {
                assert(shift_days(f, j) == shift_days(n, j - 1));
            }
        }
        assert(shift_days(f, k1 + 1) == shift_days(n, k1));
        k1 + 1
    }
}

/// Searching backward from `i` days after a selected date, across rejected
/// days only, finds that date.
proof fn lemma_search_backward_reaches(d: CivilDate, sel: DaySel, i: int, m: nat)
    requires
        d.valid(),
        day_selected(sel, weekday_index(d)),
        0 <= i < m,
        forall|j: int| 1 <= j <= i ==> (shift_days(d, j) is Some && !day_selected(
            sel,
            weekday_index(#[trigger] shift_days(d, j).unwrap()),
        )),
    ensures
        shift_days(d, i) is Some,
        search_backward(shift_days(d, i).unwrap(), sel, m) == Some(d),
    decreases i,
{
    if i == 0 {
        reveal_with_fuel(shift_days, 1);
    } else {
        lemma_search_backward_reaches(d, sel, i - 1, (m - 1) as nat);
        let x = shift_days(d, i - 1).unwrap();
        lemma_shift_last(d, i - 1);
        lemma_shift_valid(d, i - 1);
        lemma_prev_of_next(x);
        assert(shift_days(d, i) is Some);
    }
}

/// A weekday search forward from the day after `d`, then backward from the
/// day before the result, returns to `d` when `d` itself is selected.
proof fn lemma_search_round_trip(d: CivilDate, sel: DaySel)
    requires
        d.valid(),
        day_selected(sel, weekday_index(d)),
        next_day(d) is Some,
        search_forward(next_day(d).unwrap(), sel, 7) is Some,
    ensures
        ({
            let e = search_forward(next_day(d).unwrap(), sel, 7).unwrap();
            prev_day(e) is Some && search_backward(prev_day(e).unwrap(), sel, 7) == Some(d)
        }),
{
    let f = next_day(d).unwrap();
    let k = lemma_search_forward_shape(f, sel, 7);
    assert forall|j: int| 1 <= j <= k implies (shift_days(d, j) is Some && !day_selected(
        sel,
        weekday_index(#[trigger] shift_days(d, j).unwrap()),
    )) by {
        assert(shift_days(d, j) == shift_days(f, j - 1));
    }
    lemma_search_backward_reaches(d, sel, k, 7);
    let x = shift_days(d, k).unwrap();
    lemma_shift_valid(d, k);
    assert(shift_days(d, k + 1) == shift_days(f, k));
    lemma_shift_last(d, k);
    lemma_prev_of_next(x);
}

/// The number of Mondays among the `j` days after `d`.
pub open spec fn mondays_after(d: CivilDate, j: nat) -> int
    decreases j,
{
    if j == 0 {
        0
    } else {
        mondays_after(d, (j - 1) as nat) + match shift_days(d, j as int) {
            Some(x) => if weekday_index(x) == 0 { 1int } else { 0int },
            None => 0int,
        }
    }
}

/// Day `j` after `d` is a masked weekday in a week a whole multiple of
/// `every` weeks after the week of `d`.
pub open spec fn week_rule_day(d: CivilDate, mask: i64, every: int, j: nat) -> bool {
    shift_days(d, j as int) is Some && spec_mask_has(mask, weekday_index(shift_days(d, j as int).unwrap()) as u32)
        && mondays_after(d, j) % every == 0
}

/// Taking away a multiple of `m` keeps divisibility by `m`.
proof fn lemma_mod_sub_multiple(w: int, a: int, m: int)
    requires
        m > 0,
        w % m == 0,
    ensures
        ((w - a) % m == 0) == (a % m == 0),
{
    lemma_fundamental_div_mod(w, m);
    lemma_fundamental_div_mod(a, m);
    let q = w / m;
    let qa = a / m;
    let r = a % m;
    assert(w - a == m * (q - qa - 1) + (m - r) || r == 0) by (nonlinear_arith)
        requires
            w == m * q,
            a == m * qa + r,
            0 <= r < m,
    ;
    if r == 0 {
        assert(w - a == m * (q - qa)) by (nonlinear_arith)
            requires
                w == m * q,
                a == m * qa,
        ;
        lemma_mod_multiples_vanish(q - qa, 0, m);
        assert((w - a) % m == 0);
    } else {
        assert(w - a == m * (q - qa - 1) + (m - r)) by (nonlinear_arith)
            requires
                w == m * q,
                a == m * qa + r,
        ;
        lemma_mod_multiples_vanish(q - qa - 1, m - r, m);
        lemma_small_mod((m - r) as nat, m as nat);
    }
}

/// A masked weekly search forward that succeeds stops `k` days after `d`,
/// on a rule day, after rule-less days only.
proof fn lemma_week_forward_shape(d: CivilDate, mask: i64, every: int, i: nat, budget: nat) -> (k: nat)
    requires
        d.valid(),
        every > 0,
        i >= 1,
        shift_days(d, i as int) is Some,
        week_search_forward(shift_days(d, i as int).unwrap(), mondays_after(d, i), mask, every, budget) is Some,
    ensures
        i <= k < i + budget,
        shift_days(d, k as int) == week_search_forward(
            shift_days(d, i as int).unwrap(),
            mondays_after(d, i),
            mask,
            every,
            budget,
        ),
        week_rule_day(d, mask, every, k),
        forall|j: nat| i <= j < k ==> !#[trigger] week_rule_day(d, mask, every, j),
    decreases budget,
{
    let cur = shift_days(d, i as int).unwrap();
    if spec_mask_has(mask, weekday_index(cur) as u32) && mondays_after(d, i) % every == 0 {
        i
    } else {
        lemma_shift_last(d, i as int);
        let n = next_day(cur).unwrap();
        assert(shift_days(d, (i + 1) as int) == Some(n));
        assert(mondays_after(d, (i + 1) as nat) == mondays_after(d, i) + if weekday_index(n) == 0 { 1int } else { 0int });
        let k = lemma_week_forward_shape(d, mask, every, (i + 1) as nat, (budget - 1) as nat);
        assert forall|j: nat| i <= j < k implies !#[trigger] week_rule_day(d, mask, every, j) by {
            if j == i {
            } else {
                assert(i + 1 <= j < k);
            }
        }
        k
    }
}

/// Searching backward from `i` days after `d`, with the weeks counted back
/// from the `k`-th day, across rule-less days only, finds `d`.
proof fn lemma_week_backward_reaches(d: CivilDate, mask: i64, every: int, k: nat, i: nat, m: nat)
    requires
        d.valid(),
        every > 0,
        spec_mask_has(mask, weekday_index(d) as u32),
        mondays_after(d, k) % every == 0,
        i < m,
        i <= k,
        shift_days(d, i as int) is Some,
        forall|j: nat| 1 <= j <= i ==> !#[trigger] week_rule_day(d, mask, every, j),
    ensures
        week_search_backward(shift_days(d, i as int).unwrap(), mondays_after(d, k) - mondays_after(d, i), mask, every, m)
            == Some(d),
    decreases i,
{
    reveal_with_fuel(shift_days, 1);
    let w = mondays_after(d, k);
    if i == 0 {
        assert(shift_days(d, 0) == Some(d));
        assert((w - 0) % every == 0);
    } else {
        let cur = shift_days(d, i as int).unwrap();
        lemma_shift_last(d, (i - 1) as int);
        lemma_shift_valid(d, (i - 1) as int);
        let p = shift_days(d, (i - 1) as int).unwrap();
        lemma_prev_of_next(p);
        assert(prev_day(cur) == Some(p));
        assert(!week_rule_day(d, mask, every, i));
        lemma_mod_sub_multiple(w, mondays_after(d, i), every);
        assert(mondays_after(d, i) == mondays_after(d, (i - 1) as nat) + if weekday_index(cur) == 0 { 1int } else { 0int });
        lemma_week_backward_reaches(d, mask, every, k, (i - 1) as nat, (m - 1) as nat);
    }
}

/// A masked custom weekly step forward from a rule day, then back, returns
/// to that day.
proof fn lemma_week_round_trip(d: CivilDate, mask: i64, every: int)
    requires
        d.valid(),
        every > 0,
        spec_mask_has(mask, weekday_index(d) as u32),
        next_day(d) is Some,
        week_search_forward(
            next_day(d).unwrap(),
            if weekday_index(next_day(d).unwrap()) == 0 { 1int } else { 0int },
            mask,
            every,
            (every * 7) as nat,
        ) is Some,
    ensures
        ({
            let e = week_search_forward(
                next_day(d).unwrap(),
                if weekday_index(next_day(d).unwrap()) == 0 { 1int } else { 0int },
                mask,
                every,
                (every * 7) as nat,
            ).unwrap();
            prev_day(e) is Some && week_search_backward(
                prev_day(e).unwrap(),
                if weekday_index(e) == 0 { 1int } else { 0int },
                mask,
                every,
                (every * 7) as nat,
            ) == Some(d)
        }),
{
    lemma_shift_one(d);
    reveal_with_fuel(mondays_after, 2);
    assert(mondays_after(d, 1) == if weekday_index(next_day(d).unwrap()) == 0 { 1int } else { 0int });
    let k = lemma_week_forward_shape(d, mask, every, 1, (every * 7) as nat);
    let e = shift_days(d, k as int).unwrap();
    lemma_shift_last(d, (k - 1) as int);
    lemma_shift_valid(d, (k - 1) as int);
    let p = shift_days(d, (k - 1) as int).unwrap();
    lemma_prev_of_next(p);
    assert(prev_day(e) == Some(p));
    assert(mondays_after(d, k) == mondays_after(d, (k - 1) as nat) + if weekday_index(e) == 0 { 1int } else { 0int });
    assert forall|j: nat| 1 <= j <= (k - 1) as nat implies !#[trigger] week_rule_day(d, mask, every, j) by {}
    lemma_week_backward_reaches(d, mask, every, k, (k - 1) as nat, (every * 7) as nat);
}

/// `d` is itself an instance of a rule whose instances are fixed by the date
/// alone, in the cases where stepping forward and back is lossless: a
/// month-day rule on its own day (days 1..=28, or the last day), a yearly or
/// month-based custom rule on a day every month has, a weekday rule on a
/// selected weekday, a weekly or every-N-weeks rule on one of its weekdays.
pub open spec fn is_regular_instance(rule: RepeatRule, d: CivilDate) -> bool {
    match mode_of(rule.mode@) {
        RepeatMode::Daily => true,
        RepeatMode::Weekdays => day_selected(DaySel::Workday, weekday_index(d)),
        RepeatMode::Weekly => spec_mask(rule) == 0 || day_selected(
            DaySel::Mask(spec_mask(rule)),
            weekday_index(d),
        ),
        RepeatMode::Monthly => rule.month_nth is None && (rule.month_day matches Some(md) && ((1 <= md
            <= 28 && d.day == md) || (md == -1 && d.day == spec_last_day(d.year as int, d.month as int)))),
        RepeatMode::Yearly => d.day <= 28,
        RepeatMode::Custom => match unit_of(rule.unit) {
            RepeatUnit::Month => d.day <= 28 && spec_every(rule) <= i32::MAX,
            RepeatUnit::Year => d.day <= 28 && spec_every(rule) <= i32::MAX,
            RepeatUnit::Week => spec_mask(rule) == 0 || day_selected(DaySel::Mask(spec_mask(rule)), weekday_index(d)),
            _ => true,
        },
        _ => false,
    }
}

/// Undo of a completion: stepping an instance date forward and then back
/// gives the instance date again.
pub proof fn law_step_backward_undoes_step_forward(rule: RepeatRule, d: CivilDate)
    requires
        d.valid(),
        is_regular_instance(rule, d),
        spec_step_forward(rule, d) is Some,
    ensures
        spec_step_backward(rule, spec_step_forward(rule, d).unwrap()) == Some(d),
{
    let e = spec_step_forward(rule, d).unwrap();
    match mode_of(rule.mode@) {
        RepeatMode::Daily => {
            lemma_shift_inverse(d, 1);
        },
        RepeatMode::Weekdays => {
            lemma_search_round_trip(d, DaySel::Workday);
        },
        RepeatMode::Weekly => {
            if spec_mask(rule) == 0 {
                lemma_shift_inverse(d, 7);
            } else {
                lemma_search_round_trip(d, DaySel::Mask(spec_mask(rule)));
            }
        },
        RepeatMode::Monthly => {
            lemma_monthly_round_trip(rule, d);
        },
        RepeatMode::Yearly => {},
        RepeatMode::Custom => {
            let k = spec_every(rule);
            match unit_of(rule.unit) {
                RepeatUnit::Week => {
                    if spec_mask(rule) != 0 {
                        lemma_week_round_trip(d, spec_mask(rule), k as int);
                    } else {
                        lemma_shift_inverse(d, k * 7);
                    }
                },
                RepeatUnit::Month => {
                    lemma_months_round_trip(d, (k as i32) as int);
                },
                RepeatUnit::Year => {
                    assert((k as i32) as int == k);
                },
                RepeatUnit::Day => {
                    lemma_shift_inverse(d, k as int);
                },
            }
        },
        _ => {},
    }
}

proof fn lemma_last_day_at_least_28(y: int, m: int)
    ensures
        spec_last_day(y, m) >= 28,
{
}

proof fn lemma_months_round_trip(d: CivilDate, k: int)
    requires
        d.valid(),
        d.day <= 28,
        1 <= k <= i32::MAX,
        months_away(d, k) is Some,
    ensures
        months_away(months_away(d, k).unwrap(), -k) == Some(d),
{
    let total = d.year * 12 + (d.month - 1) + k;
    let e = months_away(d, k).unwrap();
    lemma_last_day_at_least_28(total / 12, total % 12 + 1);
    assert(e.year == total / 12 && e.month == total % 12 + 1 && e.day == d.day);
    let back = e.year * 12 + (e.month - 1) - k;
    assert(back == d.year * 12 + (d.month - 1));
    assert(back / 12 == d.year && back % 12 + 1 == d.month);
    lemma_last_day_at_least_28(d.year as int, d.month as int);
}

proof fn lemma_monthly_round_trip(rule: RepeatRule, d: CivilDate)
    requires
        d.valid(),
        mode_of(rule.mode@) == RepeatMode::Monthly,
        is_regular_instance(rule, d),
        spec_step_forward(rule, d) is Some,
    ensures
        spec_step_backward(rule, spec_step_forward(rule, d).unwrap()) == Some(d),
{
    let (ny, nm) = if d.month == 12 { ((d.year + 1) as i32, 1u32) } else { (d.year, (d.month + 1) as u32) };
    lemma_last_day_at_least_28(ny as int, nm as int);
    lemma_last_day_at_least_28(d.year as int, d.month as int);
}


/// A monthly rule on a fixed day `d` of the month (1..=31) steps to day `d`
/// of the next (previous) month, or to that month's last day when the month
/// is shorter; only the last month of the calendar has no such step.
pub proof fn law_monthly_day_is_kept_or_clamped(rule: RepeatRule, date: CivilDate)
    requires
        date.valid(),
        mode_of(rule.mode@) == RepeatMode::Monthly,
        rule.month_nth is None,
        rule.month_day matches Some(md) && 1 <= md <= 31,
    ensures
        ({
            let md = rule.month_day.unwrap() as int;
            let ny = if date.month == 12 { date.year + 1 } else { date.year as int };
            let nm = if date.month == 12 { 1int } else { date.month + 1 };
            let nd = if md < days_in_month(ny, nm) { md } else { days_in_month(ny, nm) };
            ny <= MAX_YEAR && !(ny == MAX_YEAR && nm == 12) ==> spec_step_forward(rule, date) == Some(
                CivilDate { year: ny as i32, month: nm as u32, day: nd as u32 },
            )
        }),
        ({
            let md = rule.month_day.unwrap() as int;
            let py = if date.month == 1 { date.year - 1 } else { date.year as int };
            let pm = if date.month == 1 { 12int } else { date.month - 1 };
            let pd = if md < days_in_month(py, pm) { md } else { days_in_month(py, pm) };
            MIN_YEAR <= py && !(py == MAX_YEAR && pm == 12) ==> spec_step_backward(rule, date) == Some(
                CivilDate { year: py as i32, month: pm as u32, day: pd as u32 },
            )
        }),
{
}


/// A daily rule has a next instance from every instant of the local range
/// but its last day, and a previous one from every instant but its first
/// day.
pub proof fn law_daily_rule_always_steps(rule: RepeatRule, cur: int)
    requires
        mode_of(rule.mode@) == RepeatMode::Daily,
    ensures
        EARLIEST_MS <= cur <= LATEST_MS - 86_400_000 ==> !no_step_from(rule, cur, true),
        EARLIEST_MS + 86_400_000 <= cur <= LATEST_MS ==> !no_step_from(rule, cur, false),
{
    let last = CivilDate { year: MAX_YEAR, month: 12, day: 31 };
    let first = CivilDate { year: MIN_YEAR, month: 1, day: 1 };
    assert(days_from_civil(262142, 12, 31) == 95_026_236);
    assert(midnight_ms(last) == 8_210_266_790_400_000);
    assert(days_from_civil(-262143, 1, 1) == -96_465_292);
    assert(midnight_ms(first) == -8_334_601_228_800_000);
    assert forall|d0: CivilDate| d0.valid() && #[trigger] on_local_date(cur, d0) && EARLIEST_MS <= cur <= LATEST_MS
        - 86_400_000 implies spec_step_forward(rule, d0) is Some by {
        lemma_shift_one(d0);
        if next_day(d0) is None {
            assert(d0 == last);
        }
    }
    assert forall|d0: CivilDate| d0.valid() && #[trigger] on_local_date(cur, d0) && EARLIEST_MS + 86_400_000 <= cur
        <= LATEST_MS implies spec_step_backward(rule, d0) is Some by {
        lemma_shift_one(d0);
        if prev_day(d0) is None {
            assert(d0 == first);
        }
    }
}

/// A roll reports "no further instance" only when the rule really ends: some
/// instance it passes through (`due_at`, or one not after `from_ms`) either
/// has no rule step at all, or steps to an instance past `until`.
pub proof fn law_roll_ends_only_when_the_rule_does(
    rule: RepeatRule,
    due_at: i64,
    from_ms: i64,
    r: Result<Option<i64>, String>,
)
    requires
        next_outcome(rule, due_at, from_ms, r),
        !rule.spec_is_once(),
        r == Ok::<Option<i64>, String>(None),
    ensures
        exists|p: int|
            #![trigger no_step_from(rule, p, true)]
            (p == due_at || p <= from_ms) && (no_step_from(rule, p, true) || exists|t: TimeOfDay, x: i64|
                #[trigger] stepped_from(rule, p, t, x as int, true) && !spec_within_end(rule, x)),
{
    let (t, c) = lemma_exhausted_chain(rule, due_at, from_ms, r);
    let k = c.len() - 1;
    let p = chain_prev(due_at, c, k);
    assert(c[k] == c.last());
    if k > 0 {
        assert(spec_classify(rule, c[k - 1], from_ms) is Continue);
        assert(p <= from_ms);
    }
    if c[k] is Some {
        let x = c[k].unwrap();
        assert(stepped_from(rule, p, t, x as int, true) && !spec_within_end(rule, x));
    } else {
        assert(no_step_from(rule, p, true));
    }
    assert((p == due_at || p <= from_ms) && (no_step_from(rule, p, true) || exists|t2: TimeOfDay, x2: i64|
        #[trigger] stepped_from(rule, p, t2, x2 as int, true) && !spec_within_end(rule, x2)));
}

/// The chain behind a roll that found no further instance.
proof fn lemma_exhausted_chain(rule: RepeatRule, due_at: i64, from_ms: i64, r: Result<Option<i64>, String>) -> (tc: (
    TimeOfDay,
    Seq<Option<i64>>,
))
    requires
        next_outcome(rule, due_at, from_ms, r),
        !rule.spec_is_once(),
        r == Ok::<Option<i64>, String>(None),
    ensures
        1 <= tc.1.len() && rolled_chain(rule, due_at, tc.0, tc.1) && rolls_on(rule, tc.1, from_ms, tc.1.len() - 1)
            && spec_classify(rule, tc.1.last(), from_ms) == RollStep::Exhausted,
{
    reveal(next_outcome);
    choose|t: TimeOfDay, c: Seq<Option<i64>>|
        is_local_time_of(due_at as int, t) && 1 <= c.len() <= MAX_ITER && #[trigger] rolled_chain(rule, due_at, t, c)
            && rolls_on(rule, c, from_ms, c.len() - 1) && spec_classify(rule, c.last(), from_ms) == RollStep::Exhausted
}

/// A listing ends only for a reason: the candidate that stops it is after
/// `to_ms`, past `until`, beyond the instances a `count` end leaves, or
/// missing because the rule has no step from the instance before it; and
/// the candidates before it are all there, each one rule step from the one
/// before.
pub proof fn law_listing_stops_only_for_a_reason(
    rule: RepeatRule,
    due_at: i64,
    done_count: i64,
    from_ms: i64,
    to_ms: i64,
    v: Seq<i64>,
)
    requires
        expansion_of(rule, due_at, done_count, from_ms, to_ms, v),
    ensures
        exists|t: TimeOfDay, c: Seq<Option<i64>>|
            #![trigger rolled_chain(rule, due_at, t, c)]
            is_local_time_of(due_at as int, t) && 1 <= c.len() && rolled_chain(rule, due_at, t, c)
                && v == pushed(rule, c.drop_last(), from_ms, to_ms, spec_remaining(rule, done_count))
                && (forall|k: int| 0 <= k < c.len() - 1 ==> #[trigger] c[k] is Some)
                && match c.last() {
                None => no_step_from(rule, chain_prev(due_at, c, c.len() - 1), true),
                Some(n) => n > to_ms || !spec_within_end(rule, n) || spec_remaining(rule, done_count) <= c.len() - 1,
            },
{
    let (t, c) = choose|t: TimeOfDay, c: Seq<Option<i64>>|
        is_local_time_of(due_at as int, t) && 1 <= c.len() <= MAX_ITER && #[trigger] rolled_chain(rule, due_at, t, c)
            && expands_on(rule, c, from_ms, to_ms, spec_remaining(rule, done_count), c.len() - 1)
            && spec_expand_step(rule, c.last(), from_ms, to_ms, spec_remaining(rule, done_count) - (c.len() - 1))
            is Stop && v == pushed(rule, c.drop_last(), from_ms, to_ms, spec_remaining(rule, done_count));
    let k = c.len() - 1;
    assert(c[k] == c.last());
    assert forall|j: int| 0 <= j < c.len() - 1 implies #[trigger] c[j] is Some by {}
}

} // verus!
