//! What is due: today's agenda, a day of the calendar, and task counts.
use vstd::prelude::*;
use crate::dates::{date_from_ymd, sql_day, sql_day_of, valid_ymd, civil_days, Date};
use crate::models::{NextTask, Stats, StoreError, Task};
use crate::text::{compare_text, push_char, text_less, to_owned_string};
use super::Engine;
use super::tables::retain_tasks_of_project;
use super::model::total_preorder;
use super::tasks::opt_int_of;
use super::model::{
    insertion_sort, lemma_filter_all, lemma_filter_step, lemma_first_index,
    lemma_insert_sorted_at, lemma_insertion_sort_start, lemma_insertion_sort_step,
    lemma_map_insert, lemma_map_push, task_project_is, task_with_id, EngineV, SubtaskV, TaskV,
};

verus! {

/// A row of an agenda: a task, or a subtask shown as one, with its project's name.
pub struct NextTaskV {
    pub task: TaskV,
    pub project_name: Seq<char>,
}

impl View for NextTask {
    type V = NextTaskV;

    open spec fn view(&self) -> NextTaskV {
        NextTaskV { task: self.task@, project_name: self.project_name@ }
    }
}

/// What joins a task's name and a subtask's name in an agenda row.
pub open spec fn arrow() -> Seq<char> {
    seq![' ', '\u{21aa}', ' ']
}

/// Which due rows a listing keeps.
pub enum DueFilter {
    /// Due on this day or before.
    By(i128),
    /// Due on this day.
    On(i128),
}

pub open spec fn due_kept(f: DueFilter, done: bool, due: Option<int>) -> bool {
    !done && match due {
        None => false,
        Some(ts) => match sql_day(ts) {
            None => false,
            Some(d) => match f {
                DueFilter::By(x) => d <= x,
                DueFilter::On(x) => d == x,
            },
        },
    }
}

pub open spec fn task_kept(f: DueFilter) -> spec_fn(TaskV) -> bool {
    |t: TaskV| due_kept(f, t.done, t.due_date)
}

pub open spec fn subtask_kept(f: DueFilter) -> spec_fn(SubtaskV) -> bool {
    |s: SubtaskV| due_kept(f, s.done, s.due_date)
}

/// Agenda order: by priority, then (where `by_due`) by due date, then by name; rows that
/// tie keep their order, tasks before subtasks, each in id order.
pub open spec fn row_le(a: NextTaskV, b: NextTaskV, by_due: bool) -> bool {
    let da = match a.task.due_date {
        Some(x) => x,
        None => 0,
    };
    let db = match b.task.due_date {
        Some(x) => x,
        None => 0,
    };
    if a.task.priority != b.task.priority {
        a.task.priority < b.task.priority
    } else if by_due && da != db {
        da < db
    } else {
        !text_less(b.task.name, a.task.name)
    }
}

pub open spec fn row_order(by_due: bool) -> spec_fn(NextTaskV, NextTaskV) -> bool {
    |a: NextTaskV, b: NextTaskV| row_le(a, b, by_due)
}

/// Task counts of a list of tasks, as of day `today`.
pub open spec fn stat_done() -> spec_fn(TaskV) -> bool {
    |t: TaskV| t.done
}

/// Not done, and not due before today (a due date that `DATE()` cannot read counts as neither
/// pending nor overdue).
pub open spec fn stat_pending(today: int) -> spec_fn(TaskV) -> bool {
    |t: TaskV| !t.done && match t.due_date {
        None => true,
        Some(ts) => sql_day(ts) matches Some(d) && d >= today,
    }
}

pub open spec fn stat_overdue(today: int) -> spec_fn(TaskV) -> bool {
    |t: TaskV| !t.done && (t.due_date matches Some(ts) && sql_day(ts) matches Some(d) && d < today)
}

pub open spec fn stat_priority(p: int) -> spec_fn(TaskV) -> bool {
    |t: TaskV| t.priority == p
}

pub open spec fn stats_of(st: Stats, ts: Seq<TaskV>, today: int) -> bool {
    &&& st.total == ts.len()
    &&& st.done == ts.filter(stat_done()).len()
    &&& st.pending == ts.filter(stat_pending(today)).len()
    &&& st.overdue == ts.filter(stat_overdue(today)).len()
    &&& st.p1 == ts.filter(stat_priority(1)).len()
    &&& st.p2 == ts.filter(stat_priority(2)).len()
    &&& st.p3 == ts.filter(stat_priority(3)).len()
    &&& st.p4 == ts.filter(stat_priority(4)).len()
}

/// The day `format!("{:04}-{:02}-{:02}")` of these numbers names as `DATE()` writes it, if any.
pub open spec fn sql_date_of(y: int, m: int, d: int) -> Option<int> {
    if 0 <= y <= 9999 && valid_ymd(y, m, d) {
        Some(civil_days(y, m, d))
    } else {
        None
    }
}

impl EngineV {
    pub open spec fn project_name_of(self, pid: int) -> Seq<char> {
        let i = self.project_id_index(pid);
        if i >= 0 {
            self.projects[i].name
        } else {
            Seq::empty()
        }
    }

    pub open spec fn task_row(self, t: TaskV) -> NextTaskV {
        NextTaskV { task: t, project_name: self.project_name_of(t.project_id) }
    }

    /// A subtask shown as a task: its task's name, an arrow and its own name; its task's
    /// project and priority; its own id, due date, state and creation time.
    pub open spec fn subtask_row(self, s: SubtaskV) -> NextTaskV {
        let t = self.tasks[self.task_index(s.task_id)];
        NextTaskV {
            task: TaskV {
                id: s.id,
                project_id: t.project_id,
                name: t.name + arrow() + s.name,
                description: Seq::empty(),
                priority: t.priority,
                due_date: s.due_date,
                recurrence: None,
                done: s.done,
                created_at: s.created_at,
            },
            project_name: self.project_name_of(t.project_id),
        }
    }

    pub open spec fn task_row_fn(self) -> spec_fn(TaskV) -> NextTaskV {
        |t: TaskV| self.task_row(t)
    }

    pub open spec fn subtask_row_fn(self) -> spec_fn(SubtaskV) -> NextTaskV {
        |s: SubtaskV| self.subtask_row(s)
    }

    /// The rows a filter keeps, tasks then subtasks, each in id order.
    pub open spec fn due_rows(self, f: DueFilter) -> Seq<NextTaskV> {
        self.tasks.filter(task_kept(f)).map_values(self.task_row_fn()) + self.subtasks.filter(
            subtask_kept(f),
        ).map_values(self.subtask_row_fn())
    }

    /// Pending tasks and subtasks due on day `today` or before, by priority, due date and name.
    pub open spec fn list_today_tasks(self, today: int) -> Seq<NextTaskV> {
        insertion_sort(self.due_rows(DueFilter::By(today as i128)), row_order(true))
    }

    /// Pending tasks and subtasks due on day `today` or before, by priority and name.
    pub open spec fn list_pending_today_tasks(self, today: int) -> Seq<NextTaskV> {
        insertion_sort(self.due_rows(DueFilter::By(today as i128)), row_order(false))
    }

    /// Pending tasks and subtasks due on the day with these numbers, by priority and name.
    pub open spec fn list_tasks_due_on(self, y: int, m: int, d: int) -> Seq<NextTaskV> {
        match sql_date_of(y, m, d) {
            None => Seq::empty(),
            Some(day) => insertion_sort(self.due_rows(DueFilter::On(day as i128)), row_order(false)),
        }
    }

    pub open spec fn count_tasks_due_on(self, y: int, m: int, d: int) -> int {
        match sql_date_of(y, m, d) {
            None => 0int,
            Some(day) => self.tasks.filter(task_kept(DueFilter::On(day as i128))).len() as int
                + self.subtasks.filter(subtask_kept(DueFilter::On(day as i128))).len() as int,
        }
    }

    /// The tasks of the project with this name; none if there is no such project.
    pub open spec fn project_tasks(self, pname: Seq<char>) -> Seq<TaskV> {
        let i = self.project_index(pname);
        if i >= 0 {
            self.tasks.filter(task_project_is(self.projects[i].id))
        } else {
            Seq::empty()
        }
    }
}

/// Task ids are at least their position plus one.
pub proof fn lemma_task_ids_bound(s: EngineV, k: int)
    requires
        s.wf(),
        0 <= k < s.tasks.len(),
    ensures
        s.tasks[k].id >= k + 1,
    decreases k,
{
    if k > 0 {
        lemma_task_ids_bound(s, k - 1);
        assert(s.tasks[k - 1].id < s.tasks[k].id);
    } else {
        assert(s.tasks[0].id >= 1);
    }
}

pub proof fn lemma_subtask_ids_bound(s: EngineV, k: int)
    requires
        s.wf(),
        0 <= k < s.subtasks.len(),
    ensures
        s.subtasks[k].id >= k + 1,
    decreases k,
{
    if k > 0 {
        lemma_subtask_ids_bound(s, k - 1);
        assert(s.subtasks[k - 1].id < s.subtasks[k].id);
    } else {
        assert(s.subtasks[0].id >= 1);
    }
}

/// A well-formed store has at most `i64::MAX` tasks and as many subtasks.
pub proof fn lemma_table_sizes(s: EngineV)
    requires
        s.wf(),
    ensures
        s.tasks.len() <= i64::MAX,
        s.subtasks.len() <= i64::MAX,
{
    if s.tasks.len() > 0 {
        lemma_task_ids_bound(s, s.tasks.len() - 1);
    }
    if s.subtasks.len() > 0 {
        lemma_subtask_ids_bound(s, s.subtasks.len() - 1);
    }
}

fn due_kept_exec(f: &DueFilter, done: bool, due: Option<i128>) -> (r: bool)
    ensures
        r == due_kept(*f, done, opt_int_of(due)),
{
    if done {
        return false;
    }
    match due {
        None => false,
        Some(ts) => match sql_day_of(ts) {
            None => false,
            Some(d) => match f {
                DueFilter::By(x) => d <= *x,
                DueFilter::On(x) => d == *x,
            },
        },
    }
}

fn row_le_exec(a: &NextTask, b: &NextTask, by_due: bool) -> (r: bool)
    ensures
        r == row_le(a@, b@, by_due),
{
    let da: i128 = match a.task.due_date {
        Some(x) => x,
        None => 0,
    };
    let db: i128 = match b.task.due_date {
        Some(x) => x,
        None => 0,
    };
    if a.task.priority != b.task.priority {
        a.task.priority < b.task.priority
    } else if by_due && da != db {
        da < db
    } else {
        compare_text(b.task.name.as_str(), a.task.name.as_str()) >= 0
    }
}

fn sort_rows(v: &Vec<NextTask>, by_due: bool) -> (r: Vec<NextTask>)
    ensures
        r@.map_values(|n: NextTask| n@) == insertion_sort(v@.map_values(|n: NextTask| n@), row_order(by_due)),
{
    let ghost vv = v@.map_values(|n: NextTask| n@);
    let mut r: Vec<NextTask> = Vec::new();
    proof {
        lemma_insertion_sort_start(vv, row_order(by_due));
        assert(r@.map_values(|n: NextTask| n@) =~= Seq::<NextTaskV>::empty());
    }
    let mut i: usize = 0;
    while i < v.len()
        invariant
            i <= v@.len(),
            vv == v@.map_values(|n: NextTask| n@),
            r@.map_values(|n: NextTask| n@) == insertion_sort(vv.take(i as int), row_order(by_due)),
        decreases v@.len() - i,
    {
        let x = v[i].copy();
        let ghost rv = r@.map_values(|n: NextTask| n@);
        let mut k: usize = 0;
        while k < r.len() && row_le_exec(&r[k], &x, by_due)
            invariant
                k <= r@.len(),
                rv == r@.map_values(|n: NextTask| n@),
                x@ == vv[i as int],
                forall|j: int| 0 <= j < k ==> row_order(by_due)(#[trigger] rv[j], x@),
            decreases r@.len() - k,
        {
            k = k + 1;
        }
        proof {
            lemma_insertion_sort_step(vv, row_order(by_due), i as int);
            lemma_insert_sorted_at(x@, rv, row_order(by_due), k as int);
            lemma_map_insert(r@, k as int, x, |n: NextTask| n@);
        }
        r.insert(k, x);
        i = i + 1;
    }
    proof {
        lemma_insertion_sort_start(vv, row_order(by_due));
    }
    r
}

/// The name of an agenda row for a subtask.
fn row_name(task_name: &String, sub_name: &String) -> (r: String)
    ensures
        r@ == task_name@ + arrow() + sub_name@,
{
    let mut r = task_name.clone();
    push_char(&mut r, ' ');
    push_char(&mut r, '\u{21aa}');
    push_char(&mut r, ' ');
    let v = crate::text::chars_of(sub_name.as_str());
    let mut i: usize = 0;
    while i < v.len()
        invariant
            i <= v@.len(),
            v@ == sub_name@,
            r@ == task_name@ + arrow() + sub_name@.take(i as int),
        decreases v@.len() - i,
    {
        push_char(&mut r, v[i]);
        proof {
            assert(sub_name@.take(i + 1) =~= sub_name@.take(i as int).push(v@[i as int]));
            assert(task_name@ + arrow() + sub_name@.take(i + 1) =~= (task_name@ + arrow() + sub_name@.take(i as int)).push(v@[i as int]));
        }
        i = i + 1;
    }
    proof {
        assert(sub_name@.take(v@.len() as int) =~= sub_name@);
    }
    r
}

impl Engine {
    fn project_name_exec(&self, pid: i64) -> (r: String)
        ensures
            r@ == self@.project_name_of(pid as int),
    {
        match self.find_project_id(pid) {
            Some(i) => {
                proof {
                    assert(self@.projects[i as int] == self.projects@[i as int]@);
                }
                self.projects[i].name.clone()
            },
            None => {
                let r = String::new();
                proof {
                    assert(r@ =~= Seq::<char>::empty());
                }
                r
            },
        }
    }

    fn task_row_exec(&self, i: usize) -> (r: NextTask)
        requires
            i < self.tasks@.len(),
        ensures
            r@ == self@.task_row(self@.tasks[i as int]),
    {
        let t = self.tasks[i].copy();
        let pn = self.project_name_exec(t.project_id);
        NextTask { task: t, project_name: pn }
    }

    fn subtask_row_exec(&self, i: usize) -> (r: NextTask)
        requires
            self@.wf(),
            i < self.subtasks@.len(),
        ensures
            r@ == self@.subtask_row(self@.subtasks[i as int]),
    {
        let s = &self.subtasks[i];
        let ti = match self.find_task(s.task_id) {
            Some(ti) => ti,
            None => {
                proof {
                    assert(self@.task_exists(self@.subtasks[i as int].task_id));
                    let k = choose|k: int| 0 <= k < self@.tasks.len() && #[trigger] self@.tasks[k].id == s.task_id;
                    lemma_first_index(self@.tasks, task_with_id(s.task_id as int));
                    assert(task_with_id(s.task_id as int)(self@.tasks[k]));
                }
                return NextTask { task: self.tasks[0].copy(), project_name: String::new() };
            },
        };
        let t = &self.tasks[ti];
        let name = row_name(&t.name, &s.name);
        let pn = self.project_name_exec(t.project_id);
        let row = Task {
            id: s.id,
            project_id: t.project_id,
            name,
            description: String::new(),
            priority: t.priority,
            due_date: s.due_date,
            recurrence: None,
            done: s.done,
            created_at: s.created_at,
        };
        proof {
            assert(self@.tasks[ti as int] == t@);
            assert(row@.description =~= Seq::<char>::empty());
        }
        NextTask { task: row, project_name: pn }
    }

    /// The rows a filter keeps, tasks then subtasks, each in id order.
    fn due_rows(&self, f: DueFilter) -> (r: Vec<NextTask>)
        requires
            self@.wf(),
        ensures
            r@.map_values(|n: NextTask| n@) == self@.due_rows(f),
    {
        let ghost tv = self@.tasks;
        let ghost sv = self@.subtasks;
        let mut r: Vec<NextTask> = Vec::new();
        let mut i: usize = 0;
        proof {
            lemma_filter_all(tv, task_kept(f));
            lemma_filter_all(sv, subtask_kept(f));
            assert(r@.map_values(|n: NextTask| n@) =~= Seq::<NextTaskV>::empty());
        }
        while i < self.tasks.len()
            invariant
                i <= self.tasks@.len(),
                tv == self@.tasks,
                r@.map_values(|n: NextTask| n@) == tv.take(i as int).filter(task_kept(f)).map_values(self@.task_row_fn()),
            decreases self.tasks@.len() - i,
        {
            proof {
                lemma_filter_step(tv, task_kept(f), i as int);
                assert(tv[i as int] == self.tasks@[i as int]@);
            }
            if due_kept_exec(&f, self.tasks[i].done, self.tasks[i].due_date) {
                let row = self.task_row_exec(i);
                proof {
                    lemma_map_push(r@, row, |n: NextTask| n@);
                    lemma_map_push(tv.take(i as int).filter(task_kept(f)), tv[i as int], self@.task_row_fn());
                }
                r.push(row);
            }
            i = i + 1;
        }
        proof {
            lemma_filter_all(tv, task_kept(f));
        }
        let ghost first = r@.map_values(|n: NextTask| n@);
        let mut j: usize = 0;
        proof {
            assert(first =~= first + sv.take(0).filter(subtask_kept(f)).map_values(self@.subtask_row_fn()));
        }
        while j < self.subtasks.len()
            invariant
                j <= self.subtasks@.len(),
                sv == self@.subtasks,
                self@.wf(),
                r@.map_values(|n: NextTask| n@) == first + sv.take(j as int).filter(subtask_kept(f)).map_values(self@.subtask_row_fn()),
            decreases self.subtasks@.len() - j,
        {
            proof {
                lemma_filter_step(sv, subtask_kept(f), j as int);
                assert(sv[j as int] == self.subtasks@[j as int]@);
            }
            if due_kept_exec(&f, self.subtasks[j].done, self.subtasks[j].due_date) {
                let row = self.subtask_row_exec(j);
                proof {
                    lemma_map_push(r@, row, |n: NextTask| n@);
                    lemma_map_push(sv.take(j as int).filter(subtask_kept(f)), sv[j as int], self@.subtask_row_fn());
                    assert(first + sv.take(j + 1).filter(subtask_kept(f)).map_values(self@.subtask_row_fn()) =~= (first + sv.take(j as int).filter(subtask_kept(f)).map_values(self@.subtask_row_fn())).push(row@));
                }
                r.push(row);
            }
            j = j + 1;
        }
        proof {
            lemma_filter_all(sv, subtask_kept(f));
        }
        r
    }

    /// Pending tasks and subtasks due on day `today` or before, by priority, due date and name.
    pub fn list_today_tasks(&self, today: Date) -> (r: Result<Vec<NextTask>, StoreError>)
        requires
            self@.wf(),
        ensures
            r matches Ok(v) && v@.map_values(|n: NextTask| n@) == self@.list_today_tasks(today.days as int),
    {
        let rows = self.due_rows(DueFilter::By(today.days as i128));
        Ok(sort_rows(&rows, true))
    }

    /// Pending tasks and subtasks due on day `today` or before, by priority and name.
    pub fn list_pending_today_tasks(&self, today: Date) -> (r: Result<Vec<NextTask>, StoreError>)
        requires
            self@.wf(),
        ensures
            r matches Ok(v) && v@.map_values(|n: NextTask| n@) == self@.list_pending_today_tasks(today.days as int),
    {
        let rows = self.due_rows(DueFilter::By(today.days as i128));
        Ok(sort_rows(&rows, false))
    }

    /// The day these numbers name, if `DATE()` could write it.
    fn sql_date(year: i32, month: u32, day: u32) -> (r: Option<i128>)
        ensures
            r == match sql_date_of(year as int, month as int, day as int) {
                Some(d) => Some(d as i128),
                None => None::<i128>,
            },
    {
        if year < 0 || year > 9999 {
            return None;
        }
        match date_from_ymd(year, month, day) {
            Some(d) => Some(d.days as i128),
            None => None,
        }
    }

    /// Pending tasks and subtasks due on this day, by priority and name.
    pub fn list_tasks_due_on(&self, year: i32, month: u32, day: u32) -> (r: Result<Vec<NextTask>, StoreError>)
        requires
            self@.wf(),
        ensures
            r matches Ok(v) && v@.map_values(|n: NextTask| n@) == self@.list_tasks_due_on(year as int, month as int, day as int),
    {
        match Self::sql_date(year, month, day) {
            None => {
                let v: Vec<NextTask> = Vec::new();
                proof {
                    assert(v@.map_values(|n: NextTask| n@) =~= Seq::<NextTaskV>::empty());
                }
                Ok(v)
            },
            Some(d) => {
                let rows = self.due_rows(DueFilter::On(d));
                Ok(sort_rows(&rows, false))
            },
        }
    }

    /// How many pending tasks and subtasks are due on this day.
    pub fn count_tasks_due_on(&self, year: i32, month: u32, day: u32) -> (r: Result<i64, StoreError>)
        requires
            self@.wf(),
            self@.tasks.len() + self@.subtasks.len() <= i64::MAX,
        ensures
            r matches Ok(n) && n == self@.count_tasks_due_on(year as int, month as int, day as int),
    {
        let d = match Self::sql_date(year, month, day) {
            None => return Ok(0),
            Some(d) => d,
        };
        let f = DueFilter::On(d);
        let ghost tv = self@.tasks;
        let ghost sv = self@.subtasks;
        let mut n: i64 = 0;
        let mut i: usize = 0;
        proof {
            lemma_filter_all(tv, task_kept(f));
        }
        while i < self.tasks.len()
            invariant
                i <= self.tasks@.len(),
                tv == self@.tasks,
                self@.tasks.len() + self@.subtasks.len() <= i64::MAX,
                n == tv.take(i as int).filter(task_kept(f)).len(),
                n <= i,
            decreases self.tasks@.len() - i,
        {
            proof {
                lemma_filter_step(tv, task_kept(f), i as int);
                assert(tv[i as int] == self.tasks@[i as int]@);
            }
            if due_kept_exec(&f, self.tasks[i].done, self.tasks[i].due_date) {
                n = n + 1;
            }
            i = i + 1;
        }
        proof {
            lemma_filter_all(tv, task_kept(f));
            lemma_filter_all(sv, subtask_kept(f));
        }
        let ghost nt = n as int;
        let mut j: usize = 0;
        while j < self.subtasks.len()
            invariant
                j <= self.subtasks@.len(),
                sv == self@.subtasks,
                nt <= self@.tasks.len(),
                self@.tasks.len() + self@.subtasks.len() <= i64::MAX,
                n == nt + sv.take(j as int).filter(subtask_kept(f)).len(),
                n <= nt + j,
            decreases self.subtasks@.len() - j,
        {
            proof {
                lemma_filter_step(sv, subtask_kept(f), j as int);
                assert(sv[j as int] == self.subtasks@[j as int]@);
            }
            if due_kept_exec(&f, self.subtasks[j].done, self.subtasks[j].due_date) {
                n = n + 1;
            }
            j = j + 1;
        }
        proof {
            lemma_filter_all(sv, subtask_kept(f));
        }
        Ok(n)
    }
}

/// Counts of a list of tasks as of day `today`.
fn stats_of_tasks(v: &Vec<Task>, today: i128) -> (st: Stats)
    requires
        v@.len() <= i64::MAX,
    ensures
        stats_of(st, v@.map_values(|t: Task| t@), today as int),
{
    let ghost tv = v@.map_values(|t: Task| t@);
    let mut st = Stats::zero();
    let mut i: usize = 0;
    proof {
        lemma_filter_all(tv, stat_done());
        lemma_filter_all(tv, stat_pending(today as int));
        lemma_filter_all(tv, stat_overdue(today as int));
        lemma_filter_all(tv, stat_priority(1));
        lemma_filter_all(tv, stat_priority(2));
        lemma_filter_all(tv, stat_priority(3));
        lemma_filter_all(tv, stat_priority(4));
    }
    while i < v.len()
        invariant
            i <= v@.len(),
            v@.len() <= i64::MAX,
            tv == v@.map_values(|t: Task| t@),
            st.total == i,
            st.done == tv.take(i as int).filter(stat_done()).len() <= i,
            st.pending == tv.take(i as int).filter(stat_pending(today as int)).len() <= i,
            st.overdue == tv.take(i as int).filter(stat_overdue(today as int)).len() <= i,
            st.p1 == tv.take(i as int).filter(stat_priority(1)).len() <= i,
            st.p2 == tv.take(i as int).filter(stat_priority(2)).len() <= i,
            st.p3 == tv.take(i as int).filter(stat_priority(3)).len() <= i,
            st.p4 == tv.take(i as int).filter(stat_priority(4)).len() <= i,
        decreases v@.len() - i,
    {
        proof {
            lemma_filter_step(tv, stat_done(), i as int);
            lemma_filter_step(tv, stat_pending(today as int), i as int);
            lemma_filter_step(tv, stat_overdue(today as int), i as int);
            lemma_filter_step(tv, stat_priority(1), i as int);
            lemma_filter_step(tv, stat_priority(2), i as int);
            lemma_filter_step(tv, stat_priority(3), i as int);
            lemma_filter_step(tv, stat_priority(4), i as int);
        }
        let t = &v[i];
        let day = match t.due_date {
            Some(ts) => sql_day_of(ts),
            None => None,
        };
        st.total = st.total + 1;
        if t.done {
            st.done = st.done + 1;
        } else {
            let pending = match t.due_date {
                None => true,
                Some(_) => match day {
                    Some(d) => d >= today,
                    None => false,
                },
            };
            if pending {
                st.pending = st.pending + 1;
            }
            if let Some(d) = day {
                if d < today {
                    st.overdue = st.overdue + 1;
                }
            }
        }
        if t.priority == 1 {
            st.p1 = st.p1 + 1;
        } else if t.priority == 2 {
            st.p2 = st.p2 + 1;
        } else if t.priority == 3 {
            st.p3 = st.p3 + 1;
        } else if t.priority == 4 {
            st.p4 = st.p4 + 1;
        }
        i = i + 1;
    }
    proof {
        lemma_filter_all(tv, stat_done());
        lemma_filter_all(tv, stat_pending(today as int));
        lemma_filter_all(tv, stat_overdue(today as int));
        lemma_filter_all(tv, stat_priority(1));
        lemma_filter_all(tv, stat_priority(2));
        lemma_filter_all(tv, stat_priority(3));
        lemma_filter_all(tv, stat_priority(4));
    }
    st
}

impl Engine {
    /// Counts of the tasks of the project with this name as of day `today` (all zero if
    /// there is no such project).
    pub fn project_stats(&self, project_name: &str, today: Date) -> (r: Result<Stats, StoreError>)
        requires
            self@.wf(),
        ensures
            r matches Ok(st) && stats_of(st, self@.project_tasks(project_name@), today.days as int),
    {
        let name_s = to_owned_string(project_name);
        match self.find_project(&name_s) {
            None => {
                let st = Stats::zero();
                proof {
                    assert(self@.project_tasks(project_name@) =~= Seq::<TaskV>::empty());
                    assert(Seq::<TaskV>::empty().filter(stat_done()) =~= Seq::<TaskV>::empty()) by {
                        lemma_filter_all(Seq::<TaskV>::empty(), stat_done());
                    }
                    reveal_with_fuel(Seq::filter, 1);
                }
                Ok(st)
            },
            Some(i) => {
                let ts = retain_tasks_of_project(&self.tasks, self.projects[i].id);
                proof {
                    assert(self@.projects[i as int].id == self.projects@[i as int].id);
                    lemma_table_sizes(self@);
                    lemma_filter_len(self@.tasks, task_project_is(self.projects@[i as int].id as int));
                }
                Ok(stats_of_tasks(&ts, today.days as i128))
            },
        }
    }

    /// Counts of every task as of day `today`.
    pub fn global_stats(&self, today: Date) -> (r: Result<Stats, StoreError>)
        requires
            self@.wf(),
        ensures
            r matches Ok(st) && stats_of(st, self@.tasks, today.days as int),
    {
        proof {
            lemma_table_sizes(self@);
        }
        Ok(stats_of_tasks(&self.tasks, today.days as i128))
    }
}

pub proof fn lemma_filter_len<A>(s: Seq<A>, p: spec_fn(A) -> bool)
    ensures
        s.filter(p).len() <= s.len(),
    decreases s.len(),
{
    reveal_with_fuel(Seq::filter, 1);
    if s.len() > 0 {
        lemma_filter_len(s.drop_last(), p);
    }
}

/// The agenda order orders any two rows, and chains.
pub proof fn lemma_row_order_total(by_due: bool)
    ensures
        total_preorder(row_order(by_due)),
{
    let le = row_order(by_due);
    assert forall|a: NextTaskV, b: NextTaskV| #[trigger] le(a, b) || le(b, a) by {
        crate::text::lemma_text_less_total(a.task.name, b.task.name);
    }
    assert forall|a: NextTaskV, b: NextTaskV, c: NextTaskV| #[trigger] le(a, b) && #[trigger] le(b, c) implies le(a, c) by {
        crate::text::lemma_text_less_total(a.task.name, b.task.name);
        crate::text::lemma_text_less_total(b.task.name, c.task.name);
        crate::text::lemma_text_less_total(a.task.name, c.task.name);
        if text_less(c.task.name, a.task.name) && text_less(a.task.name, b.task.name) {
            crate::text::lemma_text_less_trans(c.task.name, a.task.name, b.task.name);
        }
        if text_less(b.task.name, c.task.name) && text_less(c.task.name, a.task.name) {
            crate::text::lemma_text_less_trans(b.task.name, c.task.name, a.task.name);
        }
    }
}

/// The agenda of day `today` comes by priority, most urgent (lowest number) first; among
/// rows of one priority, the earlier due date first.
pub proof fn law_agenda_order(s: EngineV, today: int)
    ensures
        forall|i: int, j: int| 0 <= i < j < s.list_today_tasks(today).len() ==> {
            let a = #[trigger] s.list_today_tasks(today)[i];
            let b = #[trigger] s.list_today_tasks(today)[j];
            &&& a.task.priority <= b.task.priority
            &&& (a.task.priority == b.task.priority && a.task.due_date is Some && b.task.due_date is Some)
                ==> a.task.due_date->0 <= b.task.due_date->0
        },
        forall|i: int, j: int| 0 <= i < j < s.list_pending_today_tasks(today).len() ==>
            (#[trigger] s.list_pending_today_tasks(today)[i]).task.priority <= (#[trigger] s.list_pending_today_tasks(today)[j]).task.priority,
{
    lemma_row_order_total(true);
    lemma_row_order_total(false);
    crate::engine::model::lemma_insertion_sort_sorted(s.due_rows(DueFilter::By(today as i128)), row_order(true));
    crate::engine::model::lemma_insertion_sort_sorted(s.due_rows(DueFilter::By(today as i128)), row_order(false));
    let l = s.list_today_tasks(today);
    assert forall|i: int, j: int| 0 <= i < j < l.len() implies {
        let a = #[trigger] l[i];
        let b = #[trigger] l[j];
        &&& a.task.priority <= b.task.priority
        &&& (a.task.priority == b.task.priority && a.task.due_date is Some && b.task.due_date is Some)
            ==> a.task.due_date->0 <= b.task.due_date->0
    } by {
        assert(row_order(true)(l[i], l[j]));
    }
    let p = s.list_pending_today_tasks(today);
    assert forall|i: int, j: int| 0 <= i < j < p.len() implies (#[trigger] p[i]).task.priority <= (#[trigger] p[j]).task.priority by {
        assert(row_order(false)(p[i], p[j]));
    }
}

/// A row that is not done, with a due date whose day `DATE()` reads as `d` with `ok(d)`.
pub open spec fn pending_due(ok: spec_fn(int) -> bool) -> spec_fn(NextTaskV) -> bool {
    |r: NextTaskV| !r.task.done && r.task.due_date is Some && sql_day(r.task.due_date->0) is Some
        && ok(sql_day(r.task.due_date->0)->0)
}

/// Every row a due filter keeps is pending and due on a day the filter accepts.
proof fn lemma_due_rows_pending(s: EngineV, f: DueFilter, ok: spec_fn(int) -> bool)
    requires
        forall|d: int| #[trigger] ok(d) == match f {
            DueFilter::By(x) => d <= x,
            DueFilter::On(x) => d == x,
        },
    ensures
        forall|k: int| 0 <= k < s.due_rows(f).len() ==> pending_due(ok)(#[trigger] s.due_rows(f)[k]),
{
    let ts = s.tasks.filter(task_kept(f));
    let ss = s.subtasks.filter(subtask_kept(f));
    crate::engine::model::lemma_filter_members(s.tasks, task_kept(f));
    crate::engine::model::lemma_filter_members(s.subtasks, subtask_kept(f));
    let a = ts.map_values(s.task_row_fn());
    let b = ss.map_values(s.subtask_row_fn());
    assert forall|k: int| 0 <= k < s.due_rows(f).len() implies pending_due(ok)(#[trigger] s.due_rows(f)[k]) by {
        if k < a.len() {
            assert(s.due_rows(f)[k] == a[k]);
            assert(task_kept(f)(ts[k]));
        } else {
            assert(s.due_rows(f)[k] == b[k - a.len()]);
            assert(subtask_kept(f)(ss[k - a.len()]));
        }
    }
}

/// The agenda of day `today` holds only pending rows due that day or before; the list of a
/// date holds only pending rows due on that date.
pub proof fn law_agenda_rows_are_due(s: EngineV, today: int, y: int, m: int, d: int)
    requires
        i32::MIN <= today <= i32::MAX,
    ensures
        forall|k: int| 0 <= k < s.list_today_tasks(today).len() ==> {
            let r = #[trigger] s.list_today_tasks(today)[k];
            !r.task.done && r.task.due_date is Some && sql_day(r.task.due_date->0) is Some
                && sql_day(r.task.due_date->0)->0 <= today
        },
        forall|k: int| 0 <= k < s.list_tasks_due_on(y, m, d).len() ==> {
            let r = #[trigger] s.list_tasks_due_on(y, m, d)[k];
            !r.task.done && r.task.due_date is Some && sql_day(r.task.due_date->0) == Some(civil_days(y, m, d))
        },
{
    let okb = |x: int| x <= (today as i128) as int;
    lemma_due_rows_pending(s, DueFilter::By(today as i128), okb);
    crate::engine::model::lemma_insertion_sort_keeps(s.due_rows(DueFilter::By(today as i128)), row_order(true), pending_due(okb));
    match sql_date_of(y, m, d) {
        None => {},
        Some(day) => {
            let oko = |x: int| x == (day as i128) as int;
            lemma_due_rows_pending(s, DueFilter::On(day as i128), oko);
            crate::engine::model::lemma_insertion_sort_keeps(s.due_rows(DueFilter::On(day as i128)), row_order(false), pending_due(oko));
        },
    }
}

} // verus!
