//! Tasks: creation, lookup by id or by name, and deletion.
use vstd::prelude::*;
use crate::models::{ts_in_range, Recurrence, StoreError, Task};
use crate::text::{to_owned_string, trim};
use crate::dates::{day_of, NANOS_PER_DAY};
use super::Engine;
use super::tables::{
    retain_links_without_owner, retain_subtasks_without_task, retain_tasks_without_id,
};
use super::model::{
    has_project_id, has_tag_id, has_task_id, last_id_tasks, lemma_filter_members,
    lemma_filter_pairwise, lemma_first_index, lemma_first_index_is, lemma_map_push,
    link_owner_not, next_row_id, opt_text, pick_before, project_named, recurrence_given,
    recurrence_invalid, subtask_task_not, task_id_not, task_with_id, utc_midnight, EngineV,
    SubtaskV, TaskV,
};

verus! {

/// Whether a recurrence text is present and not blank.
pub fn recurrence_text_given(r: &Option<String>) -> (b: bool)
    ensures
        b == recurrence_given(opt_text(*r)),
{
    match r {
        Some(s) => {
            let t = trim(s.as_str());
            t.as_str().unicode_len() > 0
        },
        None => false,
    }
}

/// Whether a recurrence text is present, not blank, and not a known keyword.
pub fn recurrence_text_invalid(r: &Option<String>) -> (b: bool)
    ensures
        b == recurrence_invalid(opt_text(*r)),
{
    match r {
        Some(s) => recurrence_text_given(r) && Recurrence::parse(s.as_str()).is_none(),
        None => false,
    }
}

/// `CURRENT_TIMESTAMP` at time `now`: whole seconds.
pub fn sql_now_of(now: i128) -> (r: i128)
    requires
        ts_in_range(now as int),
    ensures
        r == super::model::sql_now(now as int),
{
    let dd: u128 = 1_000_000_000;
    let ghost d: int = 1_000_000_000;
    if now >= 0 {
        let q: u128 = (now as u128) / dd;
        proof {
            vstd::arithmetic::div_mod::lemma_fundamental_div_mod(now as int, d);
            vstd::arithmetic::div_mod::lemma_div_pos_is_pos(now as int, d);
            assert(q * d <= now) by (nonlinear_arith)
                requires
                    now == q * d + (now as int) % d,
                    (now as int) % d >= 0,
            ;
        }
        (q as i128) * 1_000_000_000
    } else {
        let a: u128 = (-(now + 1)) as u128;
        let q: u128 = a / dd;
        let ghost r = a as int % d;
        proof {
            vstd::arithmetic::div_mod::lemma_fundamental_div_mod(a as int, d);
            assert(now == (-(q as int) - 1) * d + (d - r - 1)) by (nonlinear_arith)
                requires
                    a == q * d + r,
                    now == -(a + 1),
            ;
            vstd::arithmetic::div_mod::lemma_fundamental_div_mod_converse_div(now as int, d, -(q as int) - 1, d - r - 1);
            assert(q * d <= a) by (nonlinear_arith)
                requires
                    a == q * d + r,
                    r >= 0,
            ;
        }
        (-(q as i128) - 1) * 1_000_000_000
    }
}

/// Midnight UTC of the day of `now`.
pub fn utc_midnight_of(now: i128) -> (r: i128)
    requires
        ts_in_range(now as int),
    ensures
        r == utc_midnight(now as int),
{
    let d = day_of(now);
    d * NANOS_PER_DAY
}

#[verifier::spinoff_prover]
pub proof fn lemma_wf_push_task(s: EngineV, t: TaskV)
    requires
        s.wf(),
        t.id == next_row_id(last_id_tasks(s.tasks)),
        t.id <= i64::MAX,
        s.project_exists(t.project_id),
        !t.done ==> !s.pending_name_taken(t.project_id, t.name, -1),
    ensures
        s.with_tasks(s.tasks.push(t)).wf(),
{
    let s2 = s.with_tasks(s.tasks.push(t));
    assert forall|i: int, j: int| 0 <= i < j < s2.tasks.len() implies s2.tasks[i].id
        < s2.tasks[j].id by {
        if j == s.tasks.len() && i < s.tasks.len() - 1 {
            assert(s.tasks[i].id < s.tasks[s.tasks.len() - 1].id);
        }
    }
    assert forall|i: int, j: int|
        0 <= i < j < s2.tasks.len() && !s2.tasks[i].done && !s2.tasks[j].done
            && s2.tasks[i].project_id == s2.tasks[j].project_id implies s2.tasks[i].name
        != s2.tasks[j].name by {
        if j == s.tasks.len() {
            assert(s.tasks[i].id != -1);
            if s.tasks[i].name == t.name {
                assert(s.pending_name_taken(t.project_id, t.name, -1));
            }
        }
    }
    assert forall|i: int| 0 <= i < s2.tasks.len() implies s2.project_exists(
        #[trigger] s2.tasks[i].project_id,
    ) by {
        if i < s.tasks.len() {
            assert(s.project_exists(s.tasks[i].project_id));
        }
    }
    assert forall|id: int| s.task_exists(id) implies #[trigger] s2.task_exists(id) by {
        let k = choose|k: int| 0 <= k < s.tasks.len() && #[trigger] s.tasks[k].id == id;
        assert(s2.tasks[k].id == id);
    }
    assert forall|i: int| 0 <= i < s2.subtasks.len() implies s2.task_exists(
        #[trigger] s2.subtasks[i].task_id,
    ) by {
        assert(s.task_exists(s.subtasks[i].task_id));
    }
    assert forall|i: int| 0 <= i < s2.task_tags.len() implies s2.task_exists(
        #[trigger] s2.task_tags[i].0,
    ) && s2.tag_exists(s2.task_tags[i].1) by {
        assert(s.task_exists(s.task_tags[i].0));
        assert(s.tag_exists(s.task_tags[i].1));
    }
}

pub proof fn lemma_wf_update_task(s: EngineV, i: int, t: TaskV)
    requires
        s.wf(),
        0 <= i < s.tasks.len(),
        t.id == s.tasks[i].id,
        t.project_id == s.tasks[i].project_id,
        !t.done ==> !s.pending_name_taken(t.project_id, t.name, t.id),
    ensures
        s.with_tasks(s.tasks.update(i, t)).wf(),
{
    let s2 = s.with_tasks(s.tasks.update(i, t));
    assert forall|a: int, b: int|
        0 <= a < b < s2.tasks.len() && !s2.tasks[a].done && !s2.tasks[b].done
            && s2.tasks[a].project_id == s2.tasks[b].project_id implies s2.tasks[a].name
        != s2.tasks[b].name by {
        if a == i {
            assert(s.tasks[b].id != t.id);
            if s.tasks[b].name == t.name {
                assert(s.pending_name_taken(t.project_id, t.name, t.id));
            }
        } else if b == i {
            assert(s.tasks[a].id != t.id);
            if s.tasks[a].name == t.name {
                assert(s.pending_name_taken(t.project_id, t.name, t.id));
            }
        }
    }
    assert forall|a: int| 0 <= a < s2.tasks.len() implies s2.project_exists(
        #[trigger] s2.tasks[a].project_id,
    ) by {
        assert(s.project_exists(s.tasks[a].project_id));
    }
    assert forall|id: int| s.task_exists(id) implies #[trigger] s2.task_exists(id) by {
        let k = choose|k: int| 0 <= k < s.tasks.len() && #[trigger] s.tasks[k].id == id;
        assert(s2.tasks[k].id == id);
    }
    assert forall|a: int| 0 <= a < s2.subtasks.len() implies s2.task_exists(
        #[trigger] s2.subtasks[a].task_id,
    ) by {
        assert(s.task_exists(s.subtasks[a].task_id));
    }
    assert forall|a: int| 0 <= a < s2.task_tags.len() implies s2.task_exists(
        #[trigger] s2.task_tags[a].0,
    ) && s2.tag_exists(s2.task_tags[a].1) by {
        assert(s.task_exists(s.task_tags[a].0));
    }
}

pub proof fn lemma_wf_without_task(s: EngineV, id: int)
    requires
        s.wf(),
    ensures
        s.without_task(id).wf(),
{
    let ts = s.tasks.filter(task_id_not(id));
    let tts = s.task_tags.filter(link_owner_not(id));
    let ss = s.subtasks.filter(subtask_task_not(id));
    lemma_filter_members(s.tasks, task_id_not(id));
    lemma_filter_members(s.task_tags, link_owner_not(id));
    lemma_filter_members(s.subtasks, subtask_task_not(id));
    lemma_filter_pairwise(s.tasks, task_id_not(id), |a: TaskV, b: TaskV| a.id < b.id);
    lemma_filter_pairwise(
        s.tasks,
        task_id_not(id),
        |a: TaskV, b: TaskV| !a.done && !b.done && a.project_id == b.project_id ==> a.name != b.name,
    );
    lemma_filter_pairwise(s.subtasks, subtask_task_not(id), |a: SubtaskV, b: SubtaskV| a.id < b.id);
    lemma_filter_pairwise(
        s.subtasks,
        subtask_task_not(id),
        |a: SubtaskV, b: SubtaskV| a.task_id == b.task_id ==> a.name != b.name,
    );
    lemma_filter_pairwise(s.task_tags, link_owner_not(id), |a: (int, int), b: (int, int)| a != b);
    assert forall|i: int| 0 <= i < ts.len() implies 1 <= #[trigger] ts[i].id <= i64::MAX
        && has_project_id(s.projects, ts[i].project_id) by {
        let k = choose|k: int| 0 <= k < s.tasks.len() && s.tasks[k] == ts[i];
        assert(s.tasks[k].id >= 1);
        assert(s.project_exists(s.tasks[k].project_id));
    }
    assert forall|i: int| 0 <= i < ss.len() implies 1 <= #[trigger] ss[i].id <= i64::MAX
        && has_task_id(ts, ss[i].task_id) by {
        let k = choose|k: int| 0 <= k < s.subtasks.len() && s.subtasks[k] == ss[i];
        assert(s.subtasks[k].id >= 1);
        assert(subtask_task_not(id)(ss[i]));
        assert(s.task_exists(s.subtasks[k].task_id));
        let m = choose|m: int| 0 <= m < s.tasks.len() && #[trigger] s.tasks[m].id == ss[i].task_id;
        assert(task_id_not(id)(s.tasks[m]));
        assert(ts.contains(s.tasks[m]));
        let n = choose|n: int| 0 <= n < ts.len() && ts[n] == s.tasks[m];
        assert(ts[n].id == ss[i].task_id);
    }
    assert forall|i: int| 0 <= i < tts.len() implies has_task_id(ts, #[trigger] tts[i].0)
        && has_tag_id(s.tags, tts[i].1) by {
        let k = choose|k: int| 0 <= k < s.task_tags.len() && s.task_tags[k] == tts[i];
        assert(link_owner_not(id)(tts[i]));
        assert(s.task_exists(s.task_tags[k].0));
        assert(s.tag_exists(s.task_tags[k].1));
        let m = choose|m: int| 0 <= m < s.tasks.len() && #[trigger] s.tasks[m].id == tts[i].0;
        assert(task_id_not(id)(s.tasks[m]));
        assert(ts.contains(s.tasks[m]));
        let n = choose|n: int| 0 <= n < ts.len() && ts[n] == s.tasks[m];
        assert(ts[n].id == tts[i].0);
    }
}

/// `pick_before` is a strict total order on tasks with distinct ids.
pub proof fn lemma_pick_before_order(a: TaskV, b: TaskV, c: TaskV)
    ensures
        !pick_before(a, a),
        a.id != b.id ==> (pick_before(a, b) || pick_before(b, a)),
        pick_before(a, b) ==> !pick_before(b, a),
        pick_before(a, b) && pick_before(b, c) ==> pick_before(a, c),
{
}

impl Engine {
    /// Index of the task with this id.
    pub(crate) fn find_task(&self, id: i64) -> (r: Option<usize>)
        ensures
            match r {
                Some(i) => i < self.tasks@.len() && i == self@.task_index(id as int),
                None => self@.task_index(id as int) == -1,
            },
    {
        let ghost p = task_with_id(id as int);
        let mut i: usize = 0;
        while i < self.tasks.len()
            invariant
                i <= self.tasks@.len(),
                p == task_with_id(id as int),
                forall|j: int| 0 <= j < i ==> !p(#[trigger] self@.tasks[j]),
            decreases self.tasks@.len() - i,
        {
            assert(self@.tasks[i as int] == self.tasks@[i as int]@);
            if self.tasks[i].id == id {
                proof {
                    lemma_first_index_is(self@.tasks, p, i as int);
                }
                return Some(i);
            }
            i = i + 1;
        }
        proof {
            lemma_first_index_is(self@.tasks, p, -1);
        }
        None
    }

    /// Whether a pending task of project `pid` other than task `except` has this name.
    pub(crate) fn pending_name_taken(&self, pid: i64, name: &String, except: i64) -> (b: bool)
        ensures
            b == self@.pending_name_taken(pid as int, name@, except as int),
    {
        let mut i: usize = 0;
        while i < self.tasks.len()
            invariant
                i <= self.tasks@.len(),
                forall|j: int|
                    0 <= j < i ==> !(#[trigger] self@.tasks[j].project_id == pid
                        && !self@.tasks[j].done && self@.tasks[j].name == name@
                        && self@.tasks[j].id != except),
            decreases self.tasks@.len() - i,
        {
            assert(self@.tasks[i as int] == self.tasks@[i as int]@);
            if self.tasks[i].project_id == pid && !self.tasks[i].done && self.tasks[i].name == *name
                && self.tasks[i].id != except {
                assert(self@.tasks[i as int].project_id == pid);
                return true;
            }
            i = i + 1;
        }
        false
    }

    /// Whether the task has a subtask that is not done.
    pub(crate) fn has_pending_subtask(&self, tid: i64) -> (b: bool)
        ensures
            b == self@.has_pending_subtask(tid as int),
    {
        let mut i: usize = 0;
        while i < self.subtasks.len()
            invariant
                i <= self.subtasks@.len(),
                forall|j: int|
                    0 <= j < i ==> !(#[trigger] self@.subtasks[j].task_id == tid
                        && !self@.subtasks[j].done),
            decreases self.subtasks@.len() - i,
        {
            assert(self@.subtasks[i as int] == self.subtasks@[i as int]@);
            if self.subtasks[i].task_id == tid && !self.subtasks[i].done {
                assert(self@.subtasks[i as int].task_id == tid);
                return true;
            }
            i = i + 1;
        }
        false
    }

    /// Creates a pending task in the project named `project_name`. A recurring task
    /// with no due date is due at midnight UTC of the day of `now`.
    pub fn create_task(
        &mut self,
        project_name: &str,
        name: &str,
        description: &str,
        priority: i64,
        due_date: Option<i128>,
        recurrence: Option<String>,
        now: i128,
    ) -> (r: Result<Task, StoreError>)
        requires
            old(self)@.wf(),
            ts_in_range(now as int),
        ensures
            final(self)@.wf(),
            (final(self)@, match r {
                Ok(t) => Ok(t@),
                Err(e) => Err(e@),
            }) == old(self)@.create_task(
                project_name@,
                name@,
                description@,
                priority as int,
                opt_int_of(due_date),
                opt_text(recurrence),
                now as int,
            ),
    {
        let project = match self.get_project_by_name(project_name) {
            Ok(p) => p,
            Err(e) => return Err(e),
        };
        if recurrence_text_invalid(&recurrence) {
            return Err(StoreError::InvalidRecurrence(recurrence.unwrap()));
        }
        let name_s = to_owned_string(name);
        if self.pending_name_taken(project.id, &name_s, -1) {
            return Err(StoreError::TaskNameTaken(name_s));
        }
        let n = self.tasks.len();
        let id: i64 = if n == 0 {
            1
        } else {
            let last = self.tasks[n - 1].id;
            if last == i64::MAX {
                return Err(StoreError::Db(to_owned_string("database or disk is full")));
            }
            last + 1
        };
        let final_due = if due_date.is_none() && recurrence_text_given(&recurrence) {
            Some(utc_midnight_of(now))
        } else {
            due_date
        };
        let t = Task {
            id,
            project_id: project.id,
            name: name_s,
            description: to_owned_string(description),
            priority,
            due_date: final_due,
            recurrence,
            done: false,
            created_at: super::tasks::sql_now_of(now),
        };
        let ghost old_v = self@;
        let r = t.copy();
        self.tasks.push(t);
        proof {
            lemma_map_push(old(self).tasks@, r, |t: Task| t@);
            assert(old_v.tasks.len() > 0 ==> old_v.tasks.last() == old(self).tasks@[n - 1]@);
            let pi = old_v.project_index(project_name@);
            lemma_first_index(old_v.projects, project_named(project_name@));
            assert(old_v.projects[pi].id == r.project_id);
            assert(old_v.project_exists(r.project_id as int));
            lemma_wf_push_task(old_v, r@);
        }
        Ok(r)
    }

    /// The task with this id.
    pub fn get_task_by_id(&self, id: i64) -> (r: Result<Task, StoreError>)
        ensures
            match r {
                Ok(t) => Ok(t@),
                Err(e) => Err(e@),
            } == self@.get_task_by_id(id as int),
    {
        match self.find_task(id) {
            Some(i) => Ok(self.tasks[i].copy()),
            None => Err(StoreError::Db(to_owned_string("Query returned no rows"))),
        }
    }

    /// Index of the task `get_task_by_name` picks.
    pub(crate) fn find_task_by_name(&self, project_name: &str, task_name: &String) -> (r: Option<usize>)
        requires
            self@.wf(),
        ensures
            match r {
                Some(i) => i < self.tasks@.len() && i == self@.task_by_name_index(
                    project_name@,
                    task_name@,
                ),
                None => self@.task_by_name_index(project_name@, task_name@) == -1,
            },
    {
        let pname = to_owned_string(project_name);
        let pi = match self.find_project(&pname) {
            Some(pi) => pi,
            None => {
                proof {
                    assert forall|i: int| 0 <= i < self@.tasks.len() implies !self@.task_matches(
                        #[trigger] self@.tasks[i],
                        project_name@,
                        task_name@,
                    ) by {}
                }
                return None;
            },
        };
        let pid = self.projects[pi].id;
        let ghost s = self@;
        let mut best: Option<usize> = None;
        let mut i: usize = 0;
        while i < self.tasks.len()
            invariant
                s == self@,
                s.wf(),
                i <= self.tasks@.len(),
                pi == s.project_index(project_name@),
                0 <= pi < s.projects.len(),
                pid == s.projects[pi as int].id,
                match best {
                    Some(b) => b < i && s.task_matches(s.tasks[b as int], project_name@, task_name@)
                        && forall|j: int|
                        0 <= j < i && s.task_matches(#[trigger] s.tasks[j], project_name@, task_name@)
                            ==> !pick_before(s.tasks[j], s.tasks[b as int]),
                    None => forall|j: int|
                        0 <= j < i ==> !s.task_matches(#[trigger] s.tasks[j], project_name@, task_name@),
                },
            decreases self.tasks@.len() - i,
        {
            assert(s.tasks[i as int] == self.tasks@[i as int]@);
            if self.tasks[i].project_id == pid && self.tasks[i].name == *task_name {
                let better = match best {
                    None => true,
                    Some(b) => {
                        let t = &self.tasks[i];
                        let u = &self.tasks[b];
                        assert(s.tasks[b as int] == self.tasks@[b as int]@);
                        if t.done != u.done {
                            !t.done
                        } else if t.due_date != u.due_date {
                            match (t.due_date, u.due_date) {
                                (Some(x), Some(y)) => x > y,
                                (Some(_), None) => true,
                                _ => false,
                            }
                        } else {
                            t.id < u.id
                        }
                    },
                };
                proof {
                    if let Some(b) = best {
                        assert(better == pick_before(s.tasks[i as int], s.tasks[b as int]));
                        assert forall|j: int|
                            0 <= j < i + 1 && s.task_matches(#[trigger] s.tasks[j], project_name@, task_name@)
                                implies !pick_before(
                            s.tasks[j],
                            if better { s.tasks[i as int] } else { s.tasks[b as int] },
                        ) by {
                            lemma_pick_before_order(s.tasks[j], s.tasks[i as int], s.tasks[b as int]);
                            lemma_pick_before_order(s.tasks[i as int], s.tasks[b as int], s.tasks[j]);
                            lemma_pick_before_order(s.tasks[j], s.tasks[b as int], s.tasks[i as int]);
                            if j < i && better {
                                if pick_before(s.tasks[j], s.tasks[i as int]) {
                                    assert(pick_before(s.tasks[j], s.tasks[b as int]));
                                }
                            }
                            if j == i && !better {
                                if b as int != i {
                                    assert(s.tasks[b as int].id < s.tasks[i as int].id);
                                }
                            }
                        }
                    } else {
                        assert forall|j: int|
                            0 <= j < i + 1 && s.task_matches(#[trigger] s.tasks[j], project_name@, task_name@)
                                implies !pick_before(s.tasks[j], s.tasks[i as int]) by {
                            lemma_pick_before_order(s.tasks[j], s.tasks[i as int], s.tasks[j]);
                        }
                    }
                }
                if better {
                    best = Some(i);
                }
            } else {
                assert(!s.task_matches(s.tasks[i as int], project_name@, task_name@));
            }
            i = i + 1;
        }
        proof {
            match best {
                Some(b) => {
                    let k = s.task_by_name_index(project_name@, task_name@);
                    assert(exists|i: int|
                        0 <= i < s.tasks.len() && s.task_matches(#[trigger] s.tasks[i], project_name@, task_name@));
                    assert(0 <= k < s.tasks.len() && s.task_matches(s.tasks[k], project_name@, task_name@)
                        && forall|j: int|
                        0 <= j < s.tasks.len() && s.task_matches(#[trigger] s.tasks[j], project_name@, task_name@)
                            ==> !pick_before(s.tasks[j], s.tasks[k])) by {
                        assert(s.task_matches(s.tasks[b as int], project_name@, task_name@)
                            && forall|j: int|
                            0 <= j < s.tasks.len() && s.task_matches(#[trigger] s.tasks[j], project_name@, task_name@)
                                ==> !pick_before(s.tasks[j], s.tasks[b as int]));
                    }
                    if k != b as int {
                        lemma_pick_before_order(s.tasks[k], s.tasks[b as int], s.tasks[k]);
                        if k < b as int {
                            assert(s.tasks[k].id < s.tasks[b as int].id);
                        } else {
                            assert(s.tasks[b as int].id < s.tasks[k].id);
                        }
                    }
                },
                None => {},
            }
        }
        best
    }

    /// The task named `task_name` in the project named `project_name`; where several have
    /// that name, a pending one, then the one due latest, then the oldest.
    pub fn get_task_by_name(&self, project_name: &str, task_name: &str) -> (r: Result<Task, StoreError>)
        requires
            self@.wf(),
        ensures
            match r {
                Ok(t) => Ok(t@),
                Err(e) => Err(e@),
            } == self@.get_task_by_name(project_name@, task_name@),
    {
        let tname = to_owned_string(task_name);
        match self.find_task_by_name(project_name, &tname) {
            Some(i) => Ok(self.tasks[i].copy()),
            None => Err(StoreError::NotFound(tname)),
        }
    }

    /// Deletes a task with its subtasks and tag links. Whether it existed.
    pub fn delete_task_by_id(&mut self, id: i64) -> (r: Result<bool, StoreError>)
        requires
            old(self)@.wf(),
        ensures
            final(self)@.wf(),
            r matches Ok(b) && (final(self)@, b) == old(self)@.delete_task_by_id(id as int),
    {
        match self.find_task(id) {
            None => Ok(false),
            Some(_) => {
                let ghost old_v = self@;
                let tasks = retain_tasks_without_id(&self.tasks, id);
                let task_tags = retain_links_without_owner(&self.task_tags, id);
                let subtasks = retain_subtasks_without_task(&self.subtasks, id);
                self.tasks = tasks;
                self.task_tags = task_tags;
                self.subtasks = subtasks;
                proof {
                    assert(self@ == old_v.without_task(id as int));
                    lemma_wf_without_task(old_v, id as int);
                }
                Ok(true)
            },
        }
    }

    /// Deletes the task `get_task_by_name` picks.
    pub fn delete_task(&mut self, project_name: &str, task_name: &str) -> (r: Result<bool, StoreError>)
        requires
            old(self)@.wf(),
        ensures
            final(self)@.wf(),
            match old(self)@.get_task_by_name(project_name@, task_name@) {
                Ok(t) => r matches Ok(b) && (final(self)@, b) == old(self)@.delete_task_by_id(t.id),
                Err(e) => r matches Err(x) && x@ == e && final(self)@ == old(self)@,
            },
    {
        match self.get_task_by_name(project_name, task_name) {
            Ok(t) => self.delete_task_by_id(t.id),
            Err(e) => Err(e),
        }
    }
}

pub open spec fn opt_int_of(x: Option<i128>) -> Option<int> {
    match x {
        Some(v) => Some(v as int),
        None => None,
    }
}

} // verus!
