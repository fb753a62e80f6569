//! Plain data records of the todo store and the recurrence rule.
use vstd::prelude::*;
use crate::text::{owned, str_eq};

verus! {

/// Largest accepted `every` of a custom rule (larger intervals overflow the
/// day arithmetic long before they mean anything to a user).
pub const MAX_REPEAT_EVERY: i64 = 999;

/// Weekday bit mask covering Monday (bit 0) … Sunday (bit 6).
pub const ALL_WEEKDAYS_MASK: i64 = 127;

/// Recurrence rule of a todo, one field per `repeat_*` column.
#[derive(Clone, Debug)]
pub struct RepeatRule {
    /// once / daily / weekdays / weekly / monthly / yearly / custom
    pub mode: String,
    /// custom: every N units
    pub every: Option<i64>,
    /// custom: day / week / month / year
    pub unit: Option<String>,
    /// weekday bit mask, bit 0 = Monday … bit 6 = Sunday
    pub weekdays: Option<i64>,
    /// monthly: day of month 1..=31, -1 = last day
    pub month_day: Option<i64>,
    /// monthly: n-th weekday 1..=5, -1 = last one (weekday from `weekdays`)
    pub month_nth: Option<i64>,
    /// never / until / count
    pub end_mode: Option<String>,
    /// until: last allowed instant (ms)
    pub end_at: Option<i64>,
    /// count: total number of instances
    pub count: Option<i64>,
}

/// A todo row.
#[derive(Clone, Debug)]
pub struct Todo {
    pub id: i64,
    pub title: String,
    pub done: bool,
    pub priority: i64,
    pub created_at: String,
    pub updated_at: String,
    pub completed_at: Option<String>,
    pub due_at: Option<i64>,
    pub remind_at: Option<i64>,
    pub remind_fired: bool,
    pub parent_id: Option<i64>,
    pub sort_order: Option<i64>,
    pub version: i64,
    pub description: String,
    pub pinned: bool,
    pub repeat_mode: String,
    pub repeat_every: Option<i64>,
    pub repeat_unit: Option<String>,
    pub repeat_weekdays: Option<i64>,
    pub repeat_month_day: Option<i64>,
    pub repeat_month_nth: Option<i64>,
    pub repeat_end_mode: Option<String>,
    pub repeat_end_at: Option<i64>,
    pub repeat_count: Option<i64>,
    pub repeat_done_count: i64,
    pub repeat_last_done_at: Option<String>,
}

/// A sticky note in one of the fixed slots.
#[derive(Clone, Debug)]
pub struct Sticky {
    pub id: i64,
    pub slot: i64,
    pub content: String,
    pub version: i64,
    pub created_at: String,
    pub updated_at: String,
}

/// A todo tag definition.
#[derive(Clone, Debug)]
pub struct TodoTag {
    pub id: i64,
    pub name: String,
    pub color: String,
    pub sort_order: Option<i64>,
    pub created_at: String,
}

/// The recurrence modes a rule can name.
#[derive(Clone, Copy, Debug, PartialEq, Eq, Structural)]
pub enum RepeatMode {
    Once,
    Daily,
    Weekdays,
    Weekly,
    Monthly,
    Yearly,
    Custom,
    Unknown,
}

/// Unit of a custom rule (absent or unrecognised units count in days).
#[derive(Clone, Copy, Debug, PartialEq, Eq, Structural)]
pub enum RepeatUnit {
    Day,
    Week,
    Month,
    Year,
}

/// End condition of a rule.
#[derive(Clone, Copy, Debug, PartialEq, Eq, Structural)]
pub enum EndMode {
    Until,
    Count,
    Never,
}

pub open spec fn mode_of(s: Seq<char>) -> RepeatMode {
    if s == "once"@ {
        RepeatMode::Once
    } else if s == "daily"@ {
        RepeatMode::Daily
    } else if s == "weekdays"@ {
        RepeatMode::Weekdays
    } else if s == "weekly"@ {
        RepeatMode::Weekly
    } else if s == "monthly"@ {
        RepeatMode::Monthly
    } else if s == "yearly"@ {
        RepeatMode::Yearly
    } else if s == "custom"@ {
        RepeatMode::Custom
    } else {
        RepeatMode::Unknown
    }
}

pub open spec fn unit_of(u: Option<String>) -> RepeatUnit {
    match u {
        Some(s) => if s@ == "week"@ {
            RepeatUnit::Week
        } else if s@ == "month"@ {
            RepeatUnit::Month
        } else if s@ == "year"@ {
            RepeatUnit::Year
        } else {
            RepeatUnit::Day
        },
        None => RepeatUnit::Day,
    }
}

pub open spec fn end_mode_of(e: Option<String>) -> EndMode {
    match e {
        Some(s) => if s@ == "until"@ {
            EndMode::Until
        } else if s@ == "count"@ {
            EndMode::Count
        } else {
            EndMode::Never
        },
        None => EndMode::Never,
    }
}

pub fn parse_mode(s: &str) -> (m: RepeatMode)
    ensures
        m == mode_of(s@),
{
    if str_eq(s, "once") {
        RepeatMode::Once
    } else if str_eq(s, "daily") {
        RepeatMode::Daily
    } else if str_eq(s, "weekdays") {
        RepeatMode::Weekdays
    } else if str_eq(s, "weekly") {
        RepeatMode::Weekly
    } else if str_eq(s, "monthly") {
        RepeatMode::Monthly
    } else if str_eq(s, "yearly") {
        RepeatMode::Yearly
    } else if str_eq(s, "custom") {
        RepeatMode::Custom
    } else {
        RepeatMode::Unknown
    }
}

pub fn parse_unit(u: &Option<String>) -> (r: RepeatUnit)
    ensures
        r == unit_of(*u),
{
    match u {
        Some(s) => if str_eq(s.as_str(), "week") {
            RepeatUnit::Week
        } else if str_eq(s.as_str(), "month") {
            RepeatUnit::Month
        } else if str_eq(s.as_str(), "year") {
            RepeatUnit::Year
        } else {
            RepeatUnit::Day
        },
        None => RepeatUnit::Day,
    }
}

pub fn parse_end_mode(e: &Option<String>) -> (r: EndMode)
    ensures
        r == end_mode_of(*e),
{
    match e {
        Some(s) => if str_eq(s.as_str(), "until") {
            EndMode::Until
        } else if str_eq(s.as_str(), "count") {
            EndMode::Count
        } else {
            EndMode::Never
        },
        None => EndMode::Never,
    }
}

pub open spec fn is_known_unit(s: Seq<char>) -> bool {
    s == "day"@ || s == "week"@ || s == "month"@ || s == "year"@
}

pub open spec fn is_known_end_mode(s: Seq<char>) -> bool {
    s == "never"@ || s == "until"@ || s == "count"@
}

pub const ERR_RULE_MODE: &'static str = "INVALID_ARGUMENT: repeat mode 不是 once/daily/weekdays/weekly/monthly/yearly/custom";
pub const ERR_RULE_WEEKDAYS: &'static str = "INVALID_ARGUMENT: repeat weekdays 掩码越界（0..=127）";
pub const ERR_RULE_MONTH_DAY: &'static str = "INVALID_ARGUMENT: repeat monthDay 须为 1..=31 或 -1";
pub const ERR_RULE_MONTH_NTH: &'static str = "INVALID_ARGUMENT: repeat monthNth 须为 1..=5 或 -1";
pub const ERR_RULE_NTH_WEEKDAY: &'static str = "INVALID_ARGUMENT: repeat monthNth 需要同时给出非空 weekdays";
pub const ERR_RULE_EVERY: &'static str = "INVALID_ARGUMENT: repeat every 须为 1..=999";
pub const ERR_RULE_UNIT: &'static str = "INVALID_ARGUMENT: repeat unit 不是 day/week/month/year";
pub const ERR_RULE_END_MODE: &'static str = "INVALID_ARGUMENT: repeat endMode 不是 never/until/count";

impl RepeatRule {
    pub open spec fn spec_mode(&self) -> RepeatMode {
        mode_of(self.mode@)
    }

    pub open spec fn spec_is_once(&self) -> bool {
        self.mode@ == "once"@
    }

    /// The message of the first column that is out of range, if any.
    pub open spec fn first_problem(&self) -> Option<Seq<char>> {
        if mode_of(self.mode@) == RepeatMode::Unknown {
            Some(ERR_RULE_MODE@)
        } else if self.weekdays matches Some(m) && !(0 <= m <= ALL_WEEKDAYS_MASK) {
            Some(ERR_RULE_WEEKDAYS@)
        } else if self.month_day matches Some(d) && !((1 <= d <= 31) || d == -1) {
            Some(ERR_RULE_MONTH_DAY@)
        } else if self.month_nth matches Some(n) && !((1 <= n <= 5) || n == -1) {
            Some(ERR_RULE_MONTH_NTH@)
        } else if self.month_nth is Some && !(self.weekdays matches Some(m) && m != 0) {
            Some(ERR_RULE_NTH_WEEKDAY@)
        } else if self.every matches Some(e) && !(1 <= e <= MAX_REPEAT_EVERY) {
            Some(ERR_RULE_EVERY@)
        } else if self.unit matches Some(u) && !is_known_unit(u@) {
            Some(ERR_RULE_UNIT@)
        } else if self.end_mode matches Some(e) && !is_known_end_mode(e@) {
            Some(ERR_RULE_END_MODE@)
        } else {
            None
        }
    }

    /// A one-off todo (no recurrence).
    pub fn is_once(&self) -> (r: bool)
        ensures
            r == self.spec_is_once(),
    {
        str_eq(self.mode.as_str(), "once")
    }

    /// Range check of the rule columns: values that would silently change
    /// the meaning of the rule (or overflow the date arithmetic) are refused.
    pub fn validate(&self) -> (r: Result<(), String>)
        ensures
            r is Ok <==> self.first_problem() is None,
            r matches Err(e) ==> self.first_problem() == Some(e@),
    {
        if parse_mode(self.mode.as_str()) == RepeatMode::Unknown {
            return Err(owned(ERR_RULE_MODE));
        }
        if let Some(m) = self.weekdays {
            if !(0 <= m && m <= ALL_WEEKDAYS_MASK) {
                return Err(owned(ERR_RULE_WEEKDAYS));
            }
        }
        if let Some(d) = self.month_day {
            if !((1 <= d && d <= 31) || d == -1) {
                return Err(owned(ERR_RULE_MONTH_DAY));
            }
        }
        if let Some(n) = self.month_nth {
            if !((1 <= n && n <= 5) || n == -1) {
                return Err(owned(ERR_RULE_MONTH_NTH));
            }
            let has_weekday = match self.weekdays {
                Some(m) => m != 0,
                None => false,
            };
            if !has_weekday {
                return Err(owned(ERR_RULE_NTH_WEEKDAY));
            }
        }
        if let Some(e) = self.every {
            if !(1 <= e && e <= MAX_REPEAT_EVERY) {
                return Err(owned(ERR_RULE_EVERY));
            }
        }
        if let Some(u) = &self.unit {
            let s = u.as_str();
            if !(str_eq(s, "day") || str_eq(s, "week") || str_eq(s, "month") || str_eq(s, "year")) {
                return Err(owned(ERR_RULE_UNIT));
            }
        }
        if let Some(e) = &self.end_mode {
            let s = e.as_str();
            if !(str_eq(s, "never") || str_eq(s, "until") || str_eq(s, "count")) {
                return Err(owned(ERR_RULE_END_MODE));
            }
        }
        Ok(())
    }

    pub open spec fn spec_from_todo(t: Todo) -> RepeatRule {
        RepeatRule {
            mode: t.repeat_mode,
            every: t.repeat_every,
            unit: t.repeat_unit,
            weekdays: t.repeat_weekdays,
            month_day: t.repeat_month_day,
            month_nth: t.repeat_month_nth,
            end_mode: t.repeat_end_mode,
            end_at: t.repeat_end_at,
            count: t.repeat_count,
        }
    }

    /// The rule stored in a todo's `repeat_*` columns.
    pub fn from_todo(t: &Todo) -> (r: RepeatRule)
        ensures
            r == Self::spec_from_todo(*t),
    {
        RepeatRule {
            mode: t.repeat_mode.clone(),
            every: t.repeat_every,
            unit: clone_opt_string(&t.repeat_unit),
            weekdays: t.repeat_weekdays,
            month_day: t.repeat_month_day,
            month_nth: t.repeat_month_nth,
            end_mode: clone_opt_string(&t.repeat_end_mode),
            end_at: t.repeat_end_at,
            count: t.repeat_count,
        }
    }
}

pub fn clone_opt_string(s: &Option<String>) -> (r: Option<String>)
    ensures
        r == *s,
{
    match s {
        Some(x) => Some(x.clone()),
        None => None,
    }
}


/// A rule is accepted exactly when each of its columns is in range: a known
/// mode, a weekday mask within the seven days, a day of month 1..=31 or -1,
/// an n-th weekday 1..=5 or -1 together with a weekday, an interval 1..=999,
/// a unit the engine steps (day, week, month or year) and a known end. So
/// no unit that the date step handles, "year" among them, is refused.
pub proof fn law_rule_accepted_exactly_when_columns_in_range(rule: RepeatRule)
    ensures
        rule.first_problem() is None <==> {
            &&& mode_of(rule.mode@) != RepeatMode::Unknown
            &&& rule.weekdays matches Some(m) ==> 0 <= m <= 127
            &&& rule.month_day matches Some(d) ==> (1 <= d <= 31 || d == -1)
            &&& rule.month_nth matches Some(n) ==> (1 <= n <= 5 || n == -1) && (rule.weekdays matches Some(m)
                && m != 0)
            &&& rule.every matches Some(e) ==> 1 <= e <= 999
            &&& rule.unit matches Some(u) ==> (u@ == "day"@ || u@ == "week"@ || u@ == "month"@ || u@ == "year"@)
            &&& rule.end_mode matches Some(e) ==> (e@ == "never"@ || e@ == "until"@ || e@ == "count"@)
        },
        rule.unit matches Some(u) && (unit_of(rule.unit) != RepeatUnit::Day || u@ == "day"@) ==> rule.first_problem()
            != Some(ERR_RULE_UNIT@),
{
    reveal_strlit("INVALID_ARGUMENT: repeat mode 不是 once/daily/weekdays/weekly/monthly/yearly/custom");
    reveal_strlit("INVALID_ARGUMENT: repeat weekdays 掩码越界（0..=127）");
    reveal_strlit("INVALID_ARGUMENT: repeat monthDay 须为 1..=31 或 -1");
    reveal_strlit("INVALID_ARGUMENT: repeat monthNth 须为 1..=5 或 -1");
    reveal_strlit("INVALID_ARGUMENT: repeat monthNth 需要同时给出非空 weekdays");
    reveal_strlit("INVALID_ARGUMENT: repeat every 须为 1..=999");
    reveal_strlit("INVALID_ARGUMENT: repeat unit 不是 day/week/month/year");
    reveal_strlit("INVALID_ARGUMENT: repeat endMode 不是 never/until/count");
    assert(ERR_RULE_UNIT@[25] == 'u');
    assert(ERR_RULE_MODE@[25] != 'u');
    assert(ERR_RULE_WEEKDAYS@[25] != 'u');
    assert(ERR_RULE_MONTH_DAY@[25] != 'u');
    assert(ERR_RULE_MONTH_NTH@[25] != 'u');
    assert(ERR_RULE_NTH_WEEKDAY@[25] != 'u');
    assert(ERR_RULE_EVERY@[25] != 'u');
    assert(ERR_RULE_END_MODE@[25] != 'u');
}

} // verus!
