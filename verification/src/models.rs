//! Records of the store, patches that modify them, and the store's errors.
use vstd::prelude::*;
use crate::text::{
    ascii_lower, ascii_lower_char, concat, is_ascii_text, is_ws, lead_ws, lowercase, to_lowercase,
    trail_ws, trim, trim_spec,
};
use crate::dates::{
    add_months_ymd, date_add_months, day_of, days_in_range, ymd_of, Date, NANOS_PER_DAY,
};

verus! {

/// A project. Timestamps are nanoseconds since the Unix epoch, UTC.
#[derive(Debug)]
pub struct Project {
    pub id: i64,
    pub name: String,
    pub description: String,
    pub created_at: i128,
}

#[derive(Debug)]
pub struct Tag {
    pub id: i64,
    pub name: String,
}

/// How often a task comes back once it is completed.
#[derive(Clone, Copy, PartialEq, Eq, Structural, Debug)]
pub enum Recurrence {
    Daily,
    Weekly,
    Biweekly,
    Triweekly,
    Monthly,
    Bimonthly,
    Yearly,
}

#[derive(Debug)]
pub struct Task {
    pub id: i64,
    pub project_id: i64,
    pub name: String,
    pub description: String,
    pub priority: i64,
    pub due_date: Option<i128>,
    pub recurrence: Option<String>,
    pub done: bool,
    pub created_at: i128,
}

#[derive(Debug)]
pub struct Subtask {
    pub id: i64,
    pub task_id: i64,
    pub name: String,
    pub due_date: Option<i128>,
    pub done: bool,
    pub created_at: i128,
}

/// Changes to a subtask: each `Some` field replaces the stored one.
#[derive(Debug)]
pub struct SubtaskPatch {
    pub name: Option<String>,
    pub due_date: Option<Option<i128>>,
    pub done: Option<bool>,
}

/// Changes to a project: each `Some` field replaces the stored one.
#[derive(Debug)]
pub struct ProjectPatch {
    pub name: Option<String>,
    pub description: Option<String>,
}

/// Changes to a task: each `Some` field replaces the stored one.
#[derive(Debug)]
pub struct TaskPatch {
    pub name: Option<String>,
    pub description: Option<String>,
    pub priority: Option<i64>,
    pub due_date: Option<Option<i128>>,
    pub recurrence: Option<Option<String>>,
    pub done: Option<bool>,
}

/// A task (or a subtask, shown as a task) together with its project's name.
#[derive(Debug)]
pub struct NextTask {
    pub task: Task,
    pub project_name: String,
}

/// Task counts.
#[derive(Debug, Clone, Copy, PartialEq, Eq, Structural)]
pub struct Stats {
    pub total: i64,
    pub done: i64,
    pub pending: i64,
    pub overdue: i64,
    pub p1: i64,
    pub p2: i64,
    pub p3: i64,
    pub p4: i64,
}

impl Stats {
    /// All counts zero.
    pub fn zero() -> (s: Stats)
        ensures
            s == (Stats { total: 0, done: 0, pending: 0, overdue: 0, p1: 0, p2: 0, p3: 0, p4: 0 }),
    {
        Stats { total: 0, done: 0, pending: 0, overdue: 0, p1: 0, p2: 0, p3: 0, p4: 0 }
    }
}

#[derive(Debug)]
pub enum StoreError {
    NameTaken(String),
    TaskNameTaken(String),
    SubtaskNameTaken(String),
    PendingSubtasks(String),
    NotFound(String),
    InvalidDueDate(String),
    InvalidRecurrence(String),
    Db(String),
}

/// The message of each error, as the store shows it to a user.
pub open spec fn error_message(e: StoreError) -> Seq<char> {
    match e {
        StoreError::NameTaken(n) => "a project named '"@ + n@ + "' already exists"@,
        StoreError::TaskNameTaken(n) => "a task named '"@ + n@ + "' already exists in this project"@,
        StoreError::SubtaskNameTaken(n) => "a subtask named '"@ + n@
            + "' already exists for this "@ + "task"@,
        StoreError::PendingSubtasks(n) => "cannot complete task '"@ + n@
            + "' because it has pending subtasks"@,
        StoreError::NotFound(n) => "no project, task or subtask named '"@ + n@
            + "' was found"@,
        StoreError::InvalidDueDate(m) => "invalid due date: "@ + m@,
        StoreError::InvalidRecurrence(m) => "invalid recurrence: "@ + m@,
        StoreError::Db(m) => "database error: "@ + m@,
    }
}

fn wrap_message(before: &str, x: &String, after: &str) -> (s: String)
    ensures
        s@ == before@ + x@ + after@,
{
    let a = concat(before, x.as_str());
    concat(a.as_str(), after)
}

impl StoreError {
    /// The text of the error (what `Display` writes).
    pub fn message(&self) -> (s: String)
        ensures
            s@ == error_message(*self),
            s@ == crate::engine::model::error_text(self@),
    {
        match self {
            StoreError::NameTaken(n) => wrap_message("a project named '", n, "' already exists"),
            StoreError::TaskNameTaken(n) => wrap_message(
                "a task named '",
                n,
                "' already exists in this project",
            ),
            StoreError::SubtaskNameTaken(n) => {
                let m = wrap_message("a subtask named '", n, "' already exists for this ");
                concat(m.as_str(), "task")
            },
            StoreError::PendingSubtasks(n) => wrap_message(
                "cannot complete task '",
                n,
                "' because it has pending subtasks",
            ),
            StoreError::NotFound(n) => wrap_message(
                "no project, task or subtask named '",
                n,
                "' was found",
            ),
            StoreError::InvalidDueDate(m) => concat("invalid due date: ", m.as_str()),
            StoreError::InvalidRecurrence(m) => concat("invalid recurrence: ", m.as_str()),
            StoreError::Db(m) => concat("database error: ", m.as_str()),
        }
    }
}

pub fn copy_opt_string(s: &Option<String>) -> (r: Option<String>)
    ensures
        r == *s,
{
    match s {
        Some(x) => Some(x.clone()),
        None => None,
    }
}

impl Project {
    pub fn copy(&self) -> (r: Project)
        ensures
            r == *self,
    {
        Project {
            id: self.id,
            name: self.name.clone(),
            description: self.description.clone(),
            created_at: self.created_at,
        }
    }
}

impl Tag {
    pub fn copy(&self) -> (r: Tag)
        ensures
            r == *self,
    {
        Tag { id: self.id, name: self.name.clone() }
    }
}

impl Task {
    pub fn copy(&self) -> (r: Task)
        ensures
            r == *self,
    {
        Task {
            id: self.id,
            project_id: self.project_id,
            name: self.name.clone(),
            description: self.description.clone(),
            priority: self.priority,
            due_date: self.due_date,
            recurrence: copy_opt_string(&self.recurrence),
            done: self.done,
            created_at: self.created_at,
        }
    }
}

impl Subtask {
    pub fn copy(&self) -> (r: Subtask)
        ensures
            r == *self,
    {
        Subtask {
            id: self.id,
            task_id: self.task_id,
            name: self.name.clone(),
            due_date: self.due_date,
            done: self.done,
            created_at: self.created_at,
        }
    }
}

impl NextTask {
    pub fn copy(&self) -> (r: NextTask)
        ensures
            r == *self,
    {
        NextTask { task: self.task.copy(), project_name: self.project_name.clone() }
    }
}

/// The recurrence a normalized (lower-case, trimmed) keyword names.
pub open spec fn recurrence_of_keyword(k: Seq<char>) -> Option<Recurrence> {
    if k == "daily"@ || k == "d"@ {
        Some(Recurrence::Daily)
    } else if k == "weekly"@ || k == "w"@ {
        Some(Recurrence::Weekly)
    } else if k == "biweekly"@ {
        Some(Recurrence::Biweekly)
    } else if k == "triweekly"@ {
        Some(Recurrence::Triweekly)
    } else if k == "monthly"@ || k == "m"@ {
        Some(Recurrence::Monthly)
    } else if k == "bimonthly"@ {
        Some(Recurrence::Bimonthly)
    } else if k == "yearly"@ || k == "y"@ {
        Some(Recurrence::Yearly)
    } else {
        None
    }
}

/// What `Recurrence::parse` gives for a text: its lower-cased, trimmed form looked up as a keyword.
pub open spec fn parse_recurrence_spec(s: Seq<char>) -> Option<Recurrence> {
    recurrence_of_keyword(trim_spec(lowercase(s)))
}

pub open spec fn recurrence_name(r: Recurrence) -> Seq<char> {
    match r {
        Recurrence::Daily => "daily"@,
        Recurrence::Weekly => "weekly"@,
        Recurrence::Biweekly => "biweekly"@,
        Recurrence::Triweekly => "triweekly"@,
        Recurrence::Monthly => "monthly"@,
        Recurrence::Bimonthly => "bimonthly"@,
        Recurrence::Yearly => "yearly"@,
    }
}

/// A text of lower-case letters is ASCII, kept by lower-casing, and kept by trimming.
proof fn lemma_plain_word(w: Seq<char>)
    requires
        w.len() > 0,
        forall|i: int| 0 <= i < w.len() ==> 'a' <= #[trigger] w[i] <= 'z',
    ensures
        is_ascii_text(w),
        ascii_lower(w) == w,
        trim_spec(w) == w,
{
    assert(ascii_lower(w) =~= w) by {
        assert forall|i: int| 0 <= i < w.len() implies #[trigger] ascii_lower(w)[i] == w[i] by {
            assert('a' <= w[i] <= 'z');
            assert(ascii_lower_char(w[i]) == w[i]);
        }
    }
    assert('a' <= w[0] <= 'z');
    assert(!is_ws(w[0]));
    assert(lead_ws(w) == 0);
    assert(w.skip(0) =~= w);
    assert('a' <= w.last() <= 'z');
    assert(!is_ws(w.last()));
    assert(trail_ws(w) == 0);
    assert(w.take(w.len() as int) =~= w);
}

/// The name of every recurrence reads back as that recurrence: `Recurrence::parse(r.to_str())`
/// is `Some(r)`, and so is `parse` of any ASCII text that lower-cases to that name (such as
/// its upper-cased form).
pub proof fn law_recurrence_name_round_trip(r: Recurrence, s: Seq<char>)
    requires
        is_ascii_text(s),
        ascii_lower(s) == recurrence_name(r),
    ensures
        is_ascii_text(recurrence_name(r)),
        ascii_lower(recurrence_name(r)) == recurrence_name(r),
        recurrence_of_keyword(trim_spec(ascii_lower(recurrence_name(r)))) == Some(r),
        recurrence_of_keyword(trim_spec(ascii_lower(s))) == Some(r),
{
    reveal_strlit("daily");
    reveal_strlit("weekly");
    reveal_strlit("biweekly");
    reveal_strlit("triweekly");
    reveal_strlit("monthly");
    reveal_strlit("bimonthly");
    reveal_strlit("yearly");
    reveal_strlit("d");
    reveal_strlit("w");
    reveal_strlit("m");
    reveal_strlit("y");
    let w = recurrence_name(r);
    lemma_plain_word(w);
}

/// Smallest and largest timestamps (nanoseconds) that chrono's `DateTime<Utc>` holds.
pub open spec fn ts_in_range(t: int) -> bool {
    -96465292 * NANOS_PER_DAY <= t < (95026236 + 1) * NANOS_PER_DAY
}

/// Whether a timestamp is one chrono represents.
pub fn ts_is_in_range(t: i128) -> (r: bool)
    ensures
        r == ts_in_range(t as int),
{
    -96465292 * 86_400_000_000_000 <= t && t < (95026236 + 1) * 86_400_000_000_000
}

/// `from` moved by `n` days; where that leaves chrono's range, `from` itself.
pub open spec fn shift_days(from: int, n: int) -> int {
    let r = from + n * NANOS_PER_DAY;
    if ts_in_range(r) {
        r
    } else {
        from
    }
}

/// `from` moved by `n` months, at the same time of day and on the same day of the
/// month (or the month's last day where it is shorter); `from` where chrono
/// has no such date.
pub open spec fn shift_months(from: int, n: int) -> int {
    let day = from / (NANOS_PER_DAY as int);
    let tod = from % (NANOS_PER_DAY as int);
    if days_in_range(day) {
        let t = ymd_of(day);
        match add_months_ymd(t.0, t.1, t.2, n) {
            Some(x) => x * NANOS_PER_DAY + tod,
            None => from,
        }
    } else {
        from
    }
}

/// The next occurrence after `from`.
pub open spec fn next_date_spec(r: Recurrence, from: int) -> int {
    match r {
        Recurrence::Daily => shift_days(from, 1),
        Recurrence::Weekly => shift_days(from, 7),
        Recurrence::Biweekly => shift_days(from, 14),
        Recurrence::Triweekly => shift_days(from, 21),
        Recurrence::Monthly => shift_months(from, 1),
        Recurrence::Bimonthly => shift_months(from, 2),
        Recurrence::Yearly => shift_months(from, 12),
    }
}

/// A daily, weekly, biweekly or triweekly task comes back exactly 1, 7, 14 or 21 days
/// later, wherever that time is one chrono represents; the others keep the time of day.
pub proof fn law_next_date_day_steps(from: int)
    ensures
        ts_in_range(from + 86_400_000_000_000) ==> next_date_spec(Recurrence::Daily, from) == from + 86_400_000_000_000,
        ts_in_range(from + 7 * 86_400_000_000_000) ==> next_date_spec(Recurrence::Weekly, from) == from + 7 * 86_400_000_000_000,
        ts_in_range(from + 14 * 86_400_000_000_000) ==> next_date_spec(Recurrence::Biweekly, from) == from + 14 * 86_400_000_000_000,
        ts_in_range(from + 21 * 86_400_000_000_000) ==> next_date_spec(Recurrence::Triweekly, from) == from + 21 * 86_400_000_000_000,
        next_date_spec(Recurrence::Monthly, from) % 86_400_000_000_000 == from % 86_400_000_000_000,
        next_date_spec(Recurrence::Bimonthly, from) % 86_400_000_000_000 == from % 86_400_000_000_000,
        next_date_spec(Recurrence::Yearly, from) % 86_400_000_000_000 == from % 86_400_000_000_000,
{
    let n: int = 86_400_000_000_000;
    assert forall|k: int| #[trigger] shift_months(from, k) % n == from % n by {
        let day = from / n;
        let tod = from % n;
        if days_in_range(day) {
            let t = ymd_of(day);
            match add_months_ymd(t.0, t.1, t.2, k) {
                Some(x) => {
                    assert(0 <= tod < n);
                    assert((x * n + tod) % n == tod) by (nonlinear_arith)
                        requires
                            0 <= tod < n,
                            n == 86_400_000_000_000,
                    ;
                },
                None => {},
            }
        }
    }
    assert(shift_months(from, 1) % n == from % n);
    assert(shift_months(from, 2) % n == from % n);
    assert(shift_months(from, 12) % n == from % n);
}

fn add_days_ts(from: i128, n: i128) -> (r: i128)
    requires
        0 <= n <= 21,
    ensures
        r == shift_days(from as int, n as int),
{
    let lo: i128 = -96465292 * NANOS_PER_DAY;
    let hi: i128 = (95026236 + 1) * NANOS_PER_DAY;
    let delta = n * NANOS_PER_DAY;
    if from >= lo && from < hi {
        let r = from + delta;
        if r < hi {
            r
        } else {
            from
        }
    } else {
        if from < lo && from >= lo - delta {
            from + delta
        } else {
            from
        }
    }
}

fn add_months_ts(from: i128, n: u32) -> (r: i128)
    requires
        n <= 12,
    ensures
        r == shift_months(from as int, n as int),
{
    let day = day_of(from);
    if day < -96465292 || day > 95026236 {
        return from;
    }
    let tod = from - day * NANOS_PER_DAY;
    proof {
        vstd::arithmetic::div_mod::lemma_fundamental_div_mod(from as int, NANOS_PER_DAY as int);
    }
    let d = Date { days: day as i32 };
    match date_add_months(d, n) {
        Some(x) => x.days as i128 * NANOS_PER_DAY + tod,
        None => from,
    }
}

impl Recurrence {
    /// Looks up a normalized keyword (`daily`/`d`, `weekly`/`w`, `biweekly`,
    /// `triweekly`, `monthly`/`m`, `bimonthly`, `yearly`/`y`).
    pub fn from_keyword(k: &str) -> (r: Option<Recurrence>)
        ensures
            r == recurrence_of_keyword(k@),
    {
        if crate::text::text_eq(k, "daily") || crate::text::text_eq(k, "d") {
            Some(Recurrence::Daily)
        } else if crate::text::text_eq(k, "weekly") || crate::text::text_eq(k, "w") {
            Some(Recurrence::Weekly)
        } else if crate::text::text_eq(k, "biweekly") {
            Some(Recurrence::Biweekly)
        } else if crate::text::text_eq(k, "triweekly") {
            Some(Recurrence::Triweekly)
        } else if crate::text::text_eq(k, "monthly") || crate::text::text_eq(k, "m") {
            Some(Recurrence::Monthly)
        } else if crate::text::text_eq(k, "bimonthly") {
            Some(Recurrence::Bimonthly)
        } else if crate::text::text_eq(k, "yearly") || crate::text::text_eq(k, "y") {
            Some(Recurrence::Yearly)
        } else {
            None
        }
    }

    /// Reads a recurrence, ignoring case and surrounding whitespace.
    pub fn parse(s: &str) -> (r: Option<Recurrence>)
        ensures
            r == parse_recurrence_spec(s@),
            is_ascii_text(s@) ==> r == recurrence_of_keyword(trim_spec(ascii_lower(s@))),
    {
        let lower = to_lowercase(s);
        let t = trim(lower.as_str());
        Recurrence::from_keyword(t.as_str())
    }

    pub fn to_str(self) -> (s: &'static str)
        ensures
            s@ == recurrence_name(self),
    {
        match self {
            Recurrence::Daily => "daily",
            Recurrence::Weekly => "weekly",
            Recurrence::Biweekly => "biweekly",
            Recurrence::Triweekly => "triweekly",
            Recurrence::Monthly => "monthly",
            Recurrence::Bimonthly => "bimonthly",
            Recurrence::Yearly => "yearly",
        }
    }

    /// The next occurrence after `from` (a timestamp in nanoseconds).
    pub fn next_date(self, from: i128) -> (r: i128)
        ensures
            r == next_date_spec(self, from as int),
    {
        match self {
            Recurrence::Daily => add_days_ts(from, 1),
            Recurrence::Weekly => add_days_ts(from, 7),
            Recurrence::Biweekly => add_days_ts(from, 14),
            Recurrence::Triweekly => add_days_ts(from, 21),
            Recurrence::Monthly => add_months_ts(from, 1),
            Recurrence::Bimonthly => add_months_ts(from, 2),
            Recurrence::Yearly => add_months_ts(from, 12),
        }
    }
}

} // verus!
