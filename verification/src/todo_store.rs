//! Decisions of the todo store around its SQL statements: the error a guarded
//! write reports, how completing a recurring todo rolls it, how undoing rolls
//! it back, and the positions of a manual reorder.
use vstd::prelude::*;
use crate::models::{RepeatRule, Todo};
use crate::text::{decimal, owned, str_eq, with_number};
use crate::todo_recurrence::{
    next_occurrence, next_outcome, previous_occurrence, reached_end, spec_classify, spec_reached_end,
    chain_prev, no_step_from, rolled_chain, spec_within_end, rolls_on, stepped_back, stepped_from, RollStep, ERR_INVALID_TIME, ERR_ITER_LIMIT, MAX_ITER,
};
use crate::local_time::{in_local_range, is_local_time_of, TimeOfDay, EARLIEST_MS, LATEST_MS};
use crate::models::{mode_of, RepeatMode};
use crate::recurrence_laws::{law_daily_rule_always_steps, law_roll_ends_only_when_the_rule_does};

verus! {

/// Message of a guarded write that touched no row: `NOT_FOUND` when the row is
/// gone (a sync client must not retry it), `CONFLICT` when its version moved.
pub open spec fn spec_not_found_or_conflict(exists: bool, id: i64, label: Seq<char>) -> Seq<char> {
    if exists {
        "CONFLICT: "@ + label + " "@ + decimal(id as int) + " 已被他人修改，请刷新后重试"@
    } else {
        "NOT_FOUND: 待办 "@ + decimal(id as int) + " 不存在"@
    }
}

/// The error of a version-guarded write that affected no row, given whether
/// the row still exists.
pub fn not_found_or_conflict(exists: bool, id: i64, label: &str) -> (r: String)
    ensures
        r@ == spec_not_found_or_conflict(exists, id, label@),
{
    if exists {
        let mut head = owned("CONFLICT: ");
        head.append(label);
        head.append(" ");
        let tail = with_number(head.as_str(), id, " 已被他人修改，请刷新后重试");
        tail
    } else {
        with_number("NOT_FOUND: 待办 ", id, " 不存在")
    }
}

/// Message of a sticky save refused by its version guard.
pub fn sticky_conflict(slot: i64) -> (r: String)
    ensures
        r@ == "CONFLICT: 便签 slot "@ + decimal(slot as int) + " 已被他人修改，请刷新后重试"@,
{
    with_number("CONFLICT: 便签 slot ", slot, " 已被他人修改，请刷新后重试")
}

/// Manual order: `ids[i]` gets sort position `i + 1`.
pub fn reorder_positions(ids: &Vec<i64>) -> (r: Vec<(i64, i64)>)
    requires
        ids@.len() < i64::MAX,
    ensures
        r@.len() == ids@.len(),
        forall|i: int| 0 <= i < ids@.len() ==> #[trigger] r@[i] == (ids@[i], (i + 1) as i64),
{
    let mut r: Vec<(i64, i64)> = Vec::new();
    let mut i: usize = 0;
    while i < ids.len()
        invariant
            i <= ids@.len(),
            ids@.len() < i64::MAX,
            r@.len() == i,
            forall|j: int| 0 <= j < i ==> #[trigger] r@[j] == (ids@[j], (j + 1) as i64),
        decreases ids@.len() - i,
    {
        r.push((ids[i], (i + 1) as i64));
        i = i + 1;
    }
    r
}

// ---------------------------------------------------------------------------
// Completing a recurring todo

/// How completing the current instance changes a recurring todo.
#[derive(Clone, Copy, Debug, PartialEq, Eq, Structural)]
pub enum CompletePlan {
    /// The rule is exhausted: the todo becomes a one-off (`repeat_mode = once`),
    /// keeps its row and its `due_at`, and counts this completion.
    End { done_count: i64 },
    /// Roll to the next instance: new `due_at`, reminder moved by the same
    /// offset and re-armed, completion counted, children reset, and the manual
    /// sort position dropped unless the todo is pinned.
    Roll { due_at: i64, remind_at: Option<i64>, done_count: i64, keep_sort_order: bool },
}

/// `remind` moved by `to - from`.
pub open spec fn shifted(remind: Option<i64>, from: i64, to: i64) -> Option<int> {
    match remind {
        Some(r) => Some(r + (to - from)),
        None => None,
    }
}

/// The shifted reminder fits in an `i64`.
pub open spec fn shift_fits(remind: Option<i64>, from: i64, to: i64) -> bool {
    match remind {
        Some(r) => i64::MIN <= r + (to - from) <= i64::MAX,
        None => true,
    }
}

pub open spec fn shifted_i64(remind: Option<i64>, from: i64, to: i64) -> Option<i64> {
    match remind {
        Some(r) => Some((r + (to - from)) as i64),
        None => None,
    }
}

/// The plan for completing the instance at `due`, given the next instance the
/// rule yields after now (`None`: no further instance).
pub open spec fn spec_complete_plan(t: Todo, due: i64, next: Option<i64>) -> CompletePlan {
    let rule = RepeatRule::spec_from_todo(t);
    match next {
        Some(n) => if spec_reached_end(rule, n, t.repeat_done_count) {
            CompletePlan::End { done_count: (t.repeat_done_count + 1) as i64 }
        } else {
            CompletePlan::Roll {
                due_at: n,
                remind_at: shifted_i64(t.remind_at, due, n),
                done_count: (t.repeat_done_count + 1) as i64,
                keep_sort_order: t.pinned,
            }
        },
        None => CompletePlan::End { done_count: (t.repeat_done_count + 1) as i64 },
    }
}

fn shift_remind(remind: Option<i64>, from: i64, to: i64) -> (r: Option<i64>)
    requires
        shift_fits(remind, from, to),
    ensures
        r == shifted_i64(remind, from, to),
{
    match remind {
        Some(x) => Some((x as i128 + (to as i128 - from as i128)) as i64),
        None => None,
    }
}

fn shift_fits_exec(remind: Option<i64>, from: i64, to: i64) -> (r: bool)
    ensures
        r == shift_fits(remind, from, to),
{
    match remind {
        Some(x) => {
            let v: i128 = x as i128 + (to as i128 - from as i128);
            i64::MIN as i128 <= v && v <= i64::MAX as i128
        },
        None => true,
    }
}

/// The plan for completing the current instance of `t` (due at `due`), given
/// the rule's next instance.
pub fn complete_plan_from(t: &Todo, due: i64, next: Option<i64>) -> (p: CompletePlan)
    requires
        t.repeat_done_count < i64::MAX,
        next matches Some(n) ==> shift_fits(t.remind_at, due, n),
    ensures
        p == spec_complete_plan(*t, due, next),
{
    let rule = RepeatRule::from_todo(t);
    let count = t.repeat_done_count + 1;
    match next {
        Some(n) => if reached_end(&rule, n, t.repeat_done_count) {
            CompletePlan::End { done_count: count }
        } else {
            CompletePlan::Roll {
                due_at: n,
                remind_at: shift_remind(t.remind_at, due, n),
                done_count: count,
                keep_sort_order: t.pinned,
            }
        },
        None => CompletePlan::End { done_count: count },
    }
}

pub open spec fn msg_not_recurring(id: i64) -> Seq<char> {
    "NOT_RECURRING: 待办 "@ + decimal(id as int) + " 不是周期待办"@
}

pub open spec fn msg_no_due_roll(id: i64) -> Seq<char> {
    "INVALID_STATE: 周期待办 "@ + decimal(id as int) + " 缺少截止时刻，无法滚动"@
}

pub open spec fn msg_count_overflow(id: i64) -> Seq<char> {
    "INVALID_STATE: 周期待办 "@ + decimal(id as int) + " 的完成次数或提醒时刻超出范围"@
}

/// A `Result` with its error taken by view.
pub open spec fn str_result<T>(r: Result<T, String>) -> Result<T, Seq<char>> {
    match r {
        Ok(v) => Ok(v),
        Err(e) => Err(e@),
    }
}

/// Completing the instance at `due` given what rolling the rule gave: its
/// error is passed on, a reminder that would leave the `i64` range is an
/// error, otherwise the plan for the next instance (or the end).
pub open spec fn spec_complete_decision(t: Todo, due: i64, roll: Result<Option<i64>, Seq<char>>) -> Result<
    CompletePlan,
    Seq<char>,
> {
    match roll {
        Err(e) => Err(e),
        Ok(next) => match next {
            Some(n) => if !shift_fits(t.remind_at, due, n) {
                Err(msg_count_overflow(t.id))
            } else {
                Ok(spec_complete_plan(t, due, Some(n)))
            },
            None => Ok(spec_complete_plan(t, due, None)),
        },
    }
}

/// Decides a completion from the roll's outcome.
pub fn complete_decision(t: &Todo, due: i64, roll: Result<Option<i64>, String>) -> (r: Result<CompletePlan, String>)
    requires
        t.repeat_done_count < i64::MAX,
    ensures
        str_result(r) == spec_complete_decision(*t, due, str_result(roll)),
{
    match roll {
        Err(e) => Err(e),
        Ok(next) => {
            if let Some(n) = next {
                if !shift_fits_exec(t.remind_at, due, n) {
                    return Err(with_number("INVALID_STATE: 周期待办 ", t.id, " 的完成次数或提醒时刻超出范围"));
                }
            }
            Ok(complete_plan_from(t, due, next))
        },
    }
}

/// A decision rolls to `n` only when the roll gave `n`.
proof fn lemma_decision_roll(t: Todo, due: i64, roll: Result<Option<i64>, String>)
    ensures
        spec_complete_decision(t, due, str_result(roll)) matches Ok(CompletePlan::Roll { due_at: n, .. }) ==> roll
            == Ok::<Option<i64>, String>(Some(n)),
        spec_complete_decision(t, due, str_result(roll)) matches Err(e) ==> (roll matches Err(e2) && e2@ == e)
            || e == msg_count_overflow(t.id),
{
}

/// A roll fails only with the invalid-time or the iteration-limit error.
proof fn lemma_roll_errors(rule: RepeatRule, due: i64, now_ms: i64, roll: Result<Option<i64>, String>)
    requires
        next_outcome(rule, due, now_ms, roll),
    ensures
        roll matches Err(e) ==> e@ == ERR_INVALID_TIME@ || e@ == ERR_ITER_LIMIT@,
{
    reveal(next_outcome);
}

/// The instance a successful roll reaches is after `now_ms`, one rule step
/// from `due` or from an instance not after `now_ms`, at the local time of
/// day of `due`.
proof fn lemma_roll_reaches(rule: RepeatRule, due: i64, now_ms: i64, roll: Result<Option<i64>, String>)
    requires
        next_outcome(rule, due, now_ms, roll),
        roll is Ok,
        roll.unwrap() is Some,
    ensures
        roll.unwrap().unwrap() > now_ms,
        exists|prev: int, t: TimeOfDay|
            (prev == due || prev <= now_ms) && is_local_time_of(due as int, t) && #[trigger] stepped_from(
                rule,
                prev,
                t,
                roll.unwrap().unwrap() as int,
                true,
            ),
{
    reveal(next_outcome);
    let n = roll.unwrap().unwrap();
    let (t, c) = choose|t: TimeOfDay, c: Seq<Option<i64>>|
        is_local_time_of(due as int, t) && 1 <= c.len() <= MAX_ITER && #[trigger] rolled_chain(rule, due, t, c)
            && rolls_on(rule, c, now_ms, c.len() - 1) && spec_classify(rule, c.last(), now_ms) == RollStep::Found(n);
    let k = c.len() - 1;
    assert(c[k] is Some);
    if k > 0 {
        assert(spec_classify(rule, c[k - 1], now_ms) is Continue);
    }
    assert(stepped_from(rule, chain_prev(due, c, k), t, n as int, true));
}

/// Completing the current instance of a recurring todo at `now_ms`: the
/// plan rolls `due_at` to the first instance after `now_ms` (missed instances
/// are skipped, not replayed), or ends the rule; a roll that fails is an
/// error, never the end of the rule.
pub fn complete_recurring_plan(t: &Todo, now_ms: i64) -> (r: Result<CompletePlan, String>)
    ensures
        t.repeat_mode@ == "once"@ ==> (r matches Err(e) && e@ == msg_not_recurring(t.id)),
        t.repeat_mode@ != "once"@ && t.due_at is None ==> (r matches Err(e) && e@ == msg_no_due_roll(t.id)),
        t.repeat_mode@ != "once"@ && t.due_at is Some && t.repeat_done_count == i64::MAX ==> (r matches Err(
            e,
        ) && e@ == msg_count_overflow(t.id)),
        t.repeat_mode@ != "once"@ && t.due_at is Some && t.repeat_done_count < i64::MAX ==> exists|
            roll: Result<Option<i64>, String>,
        |
            #[trigger] next_outcome(RepeatRule::spec_from_todo(*t), t.due_at.unwrap(), now_ms, roll) && str_result(r)
                == spec_complete_decision(*t, t.due_at.unwrap(), str_result(roll)),
        r matches Ok(CompletePlan::Roll { due_at: n, .. }) ==> n > now_ms && exists|prev: int, tod: TimeOfDay|
            (prev == t.due_at.unwrap() || prev <= now_ms) && is_local_time_of(t.due_at.unwrap() as int, tod)
                && #[trigger] stepped_from(RepeatRule::spec_from_todo(*t), prev, tod, n as int, true),
        r matches Err(e) ==> e@ == msg_not_recurring(t.id) || e@ == msg_no_due_roll(t.id) || e@
            == msg_count_overflow(t.id) || e@ == ERR_ITER_LIMIT@ || e@ == ERR_INVALID_TIME@,
{
    if str_eq(t.repeat_mode.as_str(), "once") {
        return Err(with_number("NOT_RECURRING: 待办 ", t.id, " 不是周期待办"));
    }
    let due = match t.due_at {
        Some(d) => d,
        None => return Err(with_number("INVALID_STATE: 周期待办 ", t.id, " 缺少截止时刻，无法滚动")),
    };
    if t.repeat_done_count == i64::MAX {
        return Err(with_number("INVALID_STATE: 周期待办 ", t.id, " 的完成次数或提醒时刻超出范围"));
    }
    let rule = RepeatRule::from_todo(t);
    let roll = next_occurrence(&rule, due, now_ms);
    proof {
        lemma_roll_errors(rule, due, now_ms, roll);
        lemma_decision_roll(*t, due, roll);
        if roll is Ok && roll.unwrap() is Some {
            lemma_roll_reaches(rule, due, now_ms, roll);
        }
    }
    let r = complete_decision(t, due, roll);
    proof {
        assert(next_outcome(RepeatRule::spec_from_todo(*t), due, now_ms, roll));
    }
    r
}

// ---------------------------------------------------------------------------
// Undoing a completion

/// How undoing the last completion changes a recurring todo: `due_at` back to
/// the previous instance, reminder moved by the same offset and re-armed, one
/// completion fewer (never below zero).
#[derive(Clone, Copy, Debug, PartialEq, Eq, Structural)]
pub struct UndoPlan {
    pub due_at: i64,
    pub remind_at: Option<i64>,
    pub done_count: i64,
}

pub open spec fn spec_undo_plan(t: Todo, due: i64, prev: i64) -> UndoPlan {
    UndoPlan {
        due_at: prev,
        remind_at: shifted_i64(t.remind_at, due, prev),
        done_count: if t.repeat_done_count - 1 > 0 { (t.repeat_done_count - 1) as i64 } else { 0 },
    }
}

/// The undo plan of `t` (due at `due`) given the previous instance `prev`.
pub fn undo_plan_from(t: &Todo, due: i64, prev: i64) -> (p: UndoPlan)
    requires
        shift_fits(t.remind_at, due, prev),
    ensures
        p == spec_undo_plan(*t, due, prev),
{
    let c = t.repeat_done_count;
    UndoPlan {
        due_at: prev,
        remind_at: shift_remind(t.remind_at, due, prev),
        done_count: if c > 1 { c - 1 } else { 0 },
    }
}

pub open spec fn msg_not_recurring_undo(id: i64) -> Seq<char> {
    "NOT_RECURRING: 待办 "@ + decimal(id as int) + " 已结束周期，无法撤销本轮"@
}

pub open spec fn msg_no_due_undo(id: i64) -> Seq<char> {
    "INVALID_STATE: 周期待办 "@ + decimal(id as int) + " 缺少截止时刻，无法回滚"@
}

pub open spec fn msg_no_prev(id: i64) -> Seq<char> {
    "INVALID_STATE: 待办 "@ + decimal(id as int) + " 没有上一轮可回滚"@
}

/// Undoing given the rule's previous instance: none is an error, a
/// reminder that would leave the `i64` range is an error, otherwise the
/// plan back to that instance.
pub open spec fn spec_undo_decision(t: Todo, due: i64, prev: Option<i64>) -> Result<UndoPlan, Seq<char>> {
    match prev {
        None => Err(msg_no_prev(t.id)),
        Some(p) => if !shift_fits(t.remind_at, due, p) {
            Err(msg_count_overflow(t.id))
        } else {
            Ok(spec_undo_plan(t, due, p))
        },
    }
}

/// Decides an undo from the rule's previous instance.
pub fn undo_decision(t: &Todo, due: i64, prev: Option<i64>) -> (r: Result<UndoPlan, String>)
    ensures
        str_result(r) == spec_undo_decision(*t, due, prev),
{
    let p = match prev {
        Some(p) => p,
        None => return Err(with_number("INVALID_STATE: 待办 ", t.id, " 没有上一轮可回滚")),
    };
    if !shift_fits_exec(t.remind_at, due, p) {
        return Err(with_number("INVALID_STATE: 周期待办 ", t.id, " 的完成次数或提醒时刻超出范围"));
    }
    Ok(undo_plan_from(t, due, p))
}

/// Undoing the last completion of a recurring todo: `due_at` goes back one
/// rule step.
pub fn undo_recurring_plan(t: &Todo) -> (r: Result<UndoPlan, String>)
    ensures
        t.repeat_mode@ == "once"@ ==> (r matches Err(e) && e@ == msg_not_recurring_undo(t.id)),
        t.repeat_mode@ != "once"@ && t.due_at is None ==> (r matches Err(e) && e@ == msg_no_due_undo(t.id)),
        t.repeat_mode@ != "once"@ && t.due_at is Some ==> exists|prev: Option<i64>|
            (prev is Some ==> stepped_back(
                RepeatRule::spec_from_todo(*t),
                t.due_at.unwrap() as int,
                prev.unwrap() as int,
            )) && (prev is None ==> no_step_from(RepeatRule::spec_from_todo(*t), t.due_at.unwrap() as int, false)) && (
                !(in_local_range(t.due_at.unwrap() as int)) ==> prev is None) && #[trigger] str_result(r)
                == spec_undo_decision(*t, t.due_at.unwrap(), prev),
        r matches Ok(p) ==> t.repeat_mode@ != "once"@ && t.due_at is Some && p == spec_undo_plan(
            *t,
            t.due_at.unwrap(),
            p.due_at,
        ) && stepped_back(RepeatRule::spec_from_todo(*t), t.due_at.unwrap() as int, p.due_at as int),
        r matches Err(e) ==> e@ == msg_not_recurring_undo(t.id) || e@ == msg_no_due_undo(t.id) || e@
            == msg_no_prev(t.id) || e@ == msg_count_overflow(t.id),
{
    if str_eq(t.repeat_mode.as_str(), "once") {
        return Err(with_number("NOT_RECURRING: 待办 ", t.id, " 已结束周期，无法撤销本轮"));
    }
    let due = match t.due_at {
        Some(d) => d,
        None => return Err(with_number("INVALID_STATE: 周期待办 ", t.id, " 缺少截止时刻，无法回滚")),
    };
    let rule = RepeatRule::from_todo(t);
    let prev = previous_occurrence(&rule, due);
    undo_decision(t, due, prev)
}

/// The todo after a roll (`due_at`, `remind_at`, `repeat_done_count` replaced).
pub open spec fn after_roll(t: Todo, due_at: i64, remind_at: Option<i64>, done_count: i64) -> Todo {
    Todo { due_at: Some(due_at), remind_at, repeat_done_count: done_count, ..t }
}

/// Undoing a completion that rolled the todo to its next instance restores
/// the due instant, the reminder and the completion count, provided the rule
/// steps back from the new instance to the old one.
pub proof fn law_undo_reverts_complete(t: Todo, due: i64, next: i64)
    requires
        t.repeat_done_count >= 0,
        t.repeat_done_count < i64::MAX,
        shift_fits(t.remind_at, due, next),
        spec_complete_plan(t, due, Some(next)) is Roll,
    ensures
        ({
            let p = spec_complete_plan(t, due, Some(next));
            let rolled = after_roll(t, p->Roll_due_at, p->Roll_remind_at, p->Roll_done_count);
            let u = spec_undo_plan(rolled, next, due);
            &&& shift_fits(rolled.remind_at, next, due)
            &&& u.due_at == due
            &&& u.remind_at == t.remind_at
            &&& u.done_count == t.repeat_done_count
        }),
{
}


/// Completing never turns a recurring todo into a one-off while its rule
/// goes on: the plan ends the rule only when the next instance (one rule
/// step from the due instant or from one not after `now_ms`) is past the
/// rule's `until` or `count` end, or when the roll found no further instance
/// because some instance it passed through has no rule step or steps past
/// `until`.
pub proof fn law_completion_ends_only_when_the_rule_does(t: Todo, now_ms: i64, r: Result<CompletePlan, String>)
    requires
        t.repeat_mode@ != "once"@,
        t.due_at is Some,
        t.repeat_done_count < i64::MAX,
        exists|roll: Result<Option<i64>, String>|
            #[trigger] next_outcome(RepeatRule::spec_from_todo(t), t.due_at.unwrap(), now_ms, roll) && str_result(r)
                == spec_complete_decision(t, t.due_at.unwrap(), str_result(roll)),
    ensures
        r matches Ok(CompletePlan::End { .. }) ==> ({
            let rule = RepeatRule::spec_from_todo(t);
            let due = t.due_at.unwrap();
            ||| exists|n: i64, prev: int, tod: TimeOfDay|
                n > now_ms && (prev == due || prev <= now_ms) && #[trigger] stepped_from(rule, prev, tod, n as int, true)
                    && spec_reached_end(rule, n, t.repeat_done_count)
            ||| exists|p: int|
                #![trigger no_step_from(rule, p, true)]
                (p == due || p <= now_ms) && (no_step_from(rule, p, true) || exists|tod: TimeOfDay, x: i64|
                    #[trigger] stepped_from(rule, p, tod, x as int, true) && !spec_within_end(rule, x))
        }),
{
    let rule = RepeatRule::spec_from_todo(t);
    let due = t.due_at.unwrap();
    let roll = choose|roll: Result<Option<i64>, String>|
        #[trigger] next_outcome(rule, due, now_ms, roll) && str_result(r) == spec_complete_decision(t, due, str_result(roll));
    if r matches Ok(CompletePlan::End { .. }) {
        lemma_roll_errors(rule, due, now_ms, roll);
        if roll == Ok::<Option<i64>, String>(None) {
            law_roll_ends_only_when_the_rule_does(rule, due, now_ms, roll);
        } else {
            assert(roll is Ok && roll.unwrap() is Some);
            lemma_roll_reaches(rule, due, now_ms, roll);
            let n = roll.unwrap().unwrap();
            assert(spec_reached_end(rule, n, t.repeat_done_count));
        }
    }
}

/// Undo refuses for want of a previous instance only when the rule has no
/// step back from the due instant; so a daily todo (away from the ends of
/// the calendar) can always be undone back one day.
pub proof fn law_undo_refuses_only_without_previous_instance(t: Todo, r: Result<UndoPlan, String>)
    requires
        t.repeat_mode@ != "once"@,
        t.due_at is Some,
        exists|prev: Option<i64>|
            (prev is Some ==> stepped_back(RepeatRule::spec_from_todo(t), t.due_at.unwrap() as int, prev.unwrap() as int))
                && (prev is None ==> no_step_from(RepeatRule::spec_from_todo(t), t.due_at.unwrap() as int, false))
                && #[trigger] str_result(r) == spec_undo_decision(t, t.due_at.unwrap(), prev),
    ensures
        r matches Err(e) && e@ == msg_no_prev(t.id) ==> no_step_from(
            RepeatRule::spec_from_todo(t),
            t.due_at.unwrap() as int,
            false,
        ),
        mode_of(t.repeat_mode@) == RepeatMode::Daily && EARLIEST_MS + 86_400_000 <= t.due_at.unwrap() <= LATEST_MS
            ==> !(r matches Err(e) && e@ == msg_no_prev(t.id)),
{
    let rule = RepeatRule::spec_from_todo(t);
    let due = t.due_at.unwrap();
    let prev = choose|prev: Option<i64>|
        (prev is Some ==> stepped_back(rule, due as int, prev.unwrap() as int)) && (prev is None ==> no_step_from(
            rule,
            due as int,
            false,
        )) && #[trigger] str_result(r) == spec_undo_decision(t, due, prev);
    assert(msg_no_prev(t.id)[15] != msg_count_overflow(t.id)[15]) by {
        reveal_strlit("INVALID_STATE: 待办 ");
        reveal_strlit("INVALID_STATE: 周期待办 ");
    }
    if mode_of(rule.mode@) == RepeatMode::Daily {
        law_daily_rule_always_steps(rule, due as int);
    }
}

} // verus!
