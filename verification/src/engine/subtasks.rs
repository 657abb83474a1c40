//! Subtasks, and the rule that a task with a pending subtask is pending.
use vstd::prelude::*;
use crate::models::{ts_in_range, StoreError, Subtask, SubtaskPatch};
use crate::text::to_owned_string;
use super::Engine;
use super::tables::{retain_subtasks_of_task, retain_subtasks_without_id};
use super::tasks::{lemma_wf_update_task, opt_int_of};
use super::modify::{lemma_wf_push_subtask, sort_subtask_list};
use super::model::{
    has_task_id, lemma_filter_members, lemma_filter_pairwise, lemma_first_index,
    lemma_first_index_is, lemma_map_push, lemma_map_update, opt_text, subtask_id_not,
    subtask_named, subtask_with_id, EngineV, ErrorV, SubtaskV, TaskV,
};

verus! {

pub proof fn lemma_wf_update_subtask(s: EngineV, i: int, st: SubtaskV)
    requires
        s.wf(),
        0 <= i < s.subtasks.len(),
        st.id == s.subtasks[i].id,
        st.task_id == s.subtasks[i].task_id,
        !s.subtask_name_taken(st.task_id, st.name, st.id),
    ensures
        s.with_subtasks(s.subtasks.update(i, st)).wf(),
{
    let s2 = s.with_subtasks(s.subtasks.update(i, st));
    assert forall|a: int, b: int|
        0 <= a < b < s2.subtasks.len() && s2.subtasks[a].task_id == s2.subtasks[b].task_id implies s2.subtasks[a].name
        != s2.subtasks[b].name by {
        if a == i {
            assert(s.subtasks[b].id != st.id);
            if s.subtasks[b].name == st.name {
                assert(s.subtask_name_taken(st.task_id, st.name, st.id));
            }
        } else if b == i {
            assert(s.subtasks[a].id != st.id);
            if s.subtasks[a].name == st.name {
                assert(s.subtask_name_taken(st.task_id, st.name, st.id));
            }
        }
    }
    assert forall|a: int| 0 <= a < s2.subtasks.len() implies s2.task_exists(
        #[trigger] s2.subtasks[a].task_id,
    ) by {
        assert(s.task_exists(s.subtasks[a].task_id));
    }
}

pub proof fn lemma_wf_without_subtask(s: EngineV, id: int)
    requires
        s.wf(),
    ensures
        s.with_subtasks(s.subtasks.filter(subtask_id_not(id))).wf(),
{
    let ss = s.subtasks.filter(subtask_id_not(id));
    lemma_filter_members(s.subtasks, subtask_id_not(id));
    lemma_filter_pairwise(s.subtasks, subtask_id_not(id), |a: SubtaskV, b: SubtaskV| a.id < b.id);
    lemma_filter_pairwise(
        s.subtasks,
        subtask_id_not(id),
        |a: SubtaskV, b: SubtaskV| a.task_id == b.task_id ==> a.name != b.name,
    );
    assert forall|i: int| 0 <= i < ss.len() implies 1 <= #[trigger] ss[i].id <= i64::MAX
        && has_task_id(s.tasks, ss[i].task_id) by {
        let k = choose|k: int| 0 <= k < s.subtasks.len() && s.subtasks[k] == ss[i];
        assert(s.subtasks[k].id >= 1);
        assert(s.task_exists(s.subtasks[k].task_id));
    }
}

impl Engine {
    pub(crate) fn find_subtask(&self, id: i64) -> (r: Option<usize>)
        ensures
            match r {
                Some(i) => i < self.subtasks@.len() && i == self@.subtask_index(id as int),
                None => self@.subtask_index(id as int) == -1,
            },
    {
        let ghost p = subtask_with_id(id as int);
        let mut i: usize = 0;
        while i < self.subtasks.len()
            invariant
                i <= self.subtasks@.len(),
                p == subtask_with_id(id as int),
                forall|j: int| 0 <= j < i ==> !p(#[trigger] self@.subtasks[j]),
            decreases self.subtasks@.len() - i,
        {
            assert(self@.subtasks[i as int] == self.subtasks@[i as int]@);
            if self.subtasks[i].id == id {
                proof {
                    lemma_first_index_is(self@.subtasks, p, i as int);
                }
                return Some(i);
            }
            i = i + 1;
        }
        proof {
            lemma_first_index_is(self@.subtasks, p, -1);
        }
        None
    }

    pub(crate) fn find_subtask_named(&self, tid: i64, name: &str) -> (r: Option<usize>)
        ensures
            match r {
                Some(i) => i < self.subtasks@.len() && i == self@.subtask_named_index(tid as int, name@),
                None => self@.subtask_named_index(tid as int, name@) == -1,
            },
    {
        let name_s = to_owned_string(name);
        let ghost p = subtask_named(tid as int, name@);
        let mut i: usize = 0;
        while i < self.subtasks.len()
            invariant
                i <= self.subtasks@.len(),
                name_s@ == name@,
                p == subtask_named(tid as int, name@),
                forall|j: int| 0 <= j < i ==> !p(#[trigger] self@.subtasks[j]),
            decreases self.subtasks@.len() - i,
        {
            assert(self@.subtasks[i as int] == self.subtasks@[i as int]@);
            if self.subtasks[i].task_id == tid && self.subtasks[i].name == name_s {
                proof {
                    lemma_first_index_is(self@.subtasks, p, i as int);
                }
                return Some(i);
            }
            i = i + 1;
        }
        proof {
            lemma_first_index_is(self@.subtasks, p, -1);
        }
        None
    }

    /// Marks the task at index `i` pending again (see `EngineV::reopen`).
    fn reopen(&mut self, i: usize) -> (r: Result<(), StoreError>)
        requires
            old(self)@.wf(),
            i < old(self)@.tasks.len(),
        ensures
            final(self)@.wf(),
            final(self)@.tasks.len() == old(self)@.tasks.len(),
            final(self)@.tasks[i as int].id == old(self)@.tasks[i as int].id,
            match old(self)@.reopen(i as int) {
                Ok(s) => r is Ok && final(self)@ == s,
                Err(e) => r matches Err(x) && x@ == e && final(self)@ == old(self)@,
            },
    {
        if !self.tasks[i].done {
            return Ok(());
        }
        let pid = self.tasks[i].project_id;
        let tid = self.tasks[i].id;
        let name = self.tasks[i].name.clone();
        if self.pending_name_taken(pid, &name, tid) {
            return Err(StoreError::Db(to_owned_string("UNIQUE constraint failed: tasks.name, tasks.project_id")));
        }
        let mut t = self.tasks[i].copy();
        t.done = false;
        let ghost s0 = self@;
        let ghost old_tasks = self.tasks@;
        let c = t.copy();
        self.tasks.set(i, t);
        proof {
            lemma_map_update(old_tasks, i as int, c, |t: super::super::models::Task| t@);
            lemma_wf_update_task(s0, i as int, c@);
            assert(c@ == TaskV { done: false, ..s0.tasks[i as int] });
        }
        Ok(())
    }

    /// Adds a pending subtask to the task with this id. A done task is reopened first; the
    /// subtask may not be due after its task.
    pub fn create_subtask_by_id(&mut self, task_id: i64, name: &str, due_date: Option<i128>, now: i128) -> (r: Result<
        Subtask,
        StoreError,
    >)
        requires
            old(self)@.wf(),
            ts_in_range(now as int),
        ensures
            final(self)@.wf(),
            (final(self)@, match r {
                Ok(s) => Ok(s@),
                Err(e) => Err(e@),
            }) == old(self)@.create_subtask_by_id(task_id as int, name@, opt_int_of(due_date), now as int),
    {
        let ti = match self.find_task(task_id) {
            Some(ti) => ti,
            None => return Err(StoreError::Db(to_owned_string("Query returned no rows"))),
        };
        proof {
            lemma_first_index(self@.tasks, super::model::task_with_id(task_id as int));
        }
        let task_due = self.tasks[ti].due_date;
        match self.reopen(ti) {
            Ok(_) => {},
            Err(e) => return Err(e),
        }
        if let (Some(sd), Some(td)) = (due_date, task_due) {
            if sd > td {
                return Err(StoreError::InvalidDueDate(to_owned_string("subtask due date cannot be after parent task due date")));
            }
        }
        let name_s = to_owned_string(name);
        if self.subtask_name_taken_exec(task_id, &name_s, -1) {
            return Err(StoreError::SubtaskNameTaken(name_s));
        }
        let n = self.subtasks.len();
        let id: i64 = if n == 0 {
            1
        } else {
            let last = self.subtasks[n - 1].id;
            if last == i64::MAX {
                proof {
                    assert(self@.subtasks.last() == self.subtasks@[n - 1]@);
                }
                return Err(StoreError::Db(to_owned_string("database or disk is full")));
            }
            last + 1
        };
        let st = Subtask { id, task_id, name: name_s, due_date, done: false, created_at: super::tasks::sql_now_of(now) };
        let ghost s1 = self@;
        let ghost old_subs = self.subtasks@;
        let c = st.copy();
        self.subtasks.push(st);
        proof {
            lemma_map_push(old_subs, c, |s: Subtask| s@);
            assert(s1.subtasks.len() > 0 ==> s1.subtasks.last() == old_subs[n - 1]@);
            assert(s1.task_exists(task_id as int)) by {
                assert(s1.tasks[ti as int].id == task_id);
            }
            lemma_wf_push_subtask(s1, c@);
        }
        Ok(c)
    }

    /// Adds a subtask to the task `get_task_by_name` picks.
    pub fn create_subtask(&mut self, project_name: &str, task_name: &str, name: &str, due_date: Option<i128>, now: i128) -> (r: Result<
        Subtask,
        StoreError,
    >)
        requires
            old(self)@.wf(),
            ts_in_range(now as int),
        ensures
            final(self)@.wf(),
            (final(self)@, match r {
                Ok(s) => Ok(s@),
                Err(e) => Err(e@),
            }) == old(self)@.create_subtask(project_name@, task_name@, name@, opt_int_of(due_date), now as int),
    {
        match self.get_task_by_name(project_name, task_name) {
            Ok(t) => self.create_subtask_by_id(t.id, name, due_date, now),
            Err(e) => Err(e),
        }
    }

    /// The subtask with this id.
    pub fn get_subtask_by_id(&self, id: i64) -> (r: Result<Subtask, StoreError>)
        ensures
            match r {
                Ok(s) => Ok(s@),
                Err(e) => Err(e@),
            } == self@.get_subtask_by_id(id as int),
    {
        match self.find_subtask(id) {
            Some(i) => Ok(self.subtasks[i].copy()),
            None => Err(StoreError::Db(to_owned_string("Query returned no rows"))),
        }
    }

    /// The subtasks of a task, in creation order.
    pub fn get_subtasks_for_task(&self, task_id: i64) -> (r: Result<Vec<Subtask>, StoreError>)
        ensures
            r matches Ok(v) && v@.map_values(|s: Subtask| s@) == self@.subtasks_of(task_id as int),
    {
        let subs = retain_subtasks_of_task(&self.subtasks, task_id);
        Ok(sort_subtask_list(&subs))
    }

    /// The subtasks of the task `get_task_by_name` picks, in creation order.
    pub fn list_subtasks(&self, project_name: &str, task_name: &str) -> (r: Result<Vec<Subtask>, StoreError>)
        requires
            self@.wf(),
        ensures
            match r {
                Ok(v) => Ok(v@.map_values(|s: Subtask| s@)),
                Err(e) => Err(e@),
            } == self@.list_subtasks(project_name@, task_name@),
    {
        match self.get_task_by_name(project_name, task_name) {
            Ok(t) => self.get_subtasks_for_task(t.id),
            Err(e) => Err(e),
        }
    }

    /// Deletes the subtask with this id. Whether it existed.
    pub fn delete_subtask_by_id(&mut self, id: i64) -> (r: Result<bool, StoreError>)
        requires
            old(self)@.wf(),
        ensures
            final(self)@.wf(),
            r matches Ok(b) && (final(self)@, b) == old(self)@.delete_subtask_by_id(id as int),
    {
        match self.find_subtask(id) {
            None => Ok(false),
            Some(_) => {
                let ghost s0 = self@;
                let subs = retain_subtasks_without_id(&self.subtasks, id);
                self.subtasks = subs;
                proof {
                    lemma_wf_without_subtask(s0, id as int);
                }
                Ok(true)
            },
        }
    }

    /// The index of the subtask named `subtask_name` of the task `get_task_by_name` picks.
    fn find_subtask_by_names(&self, project_name: &str, task_name: &str, subtask_name: &str) -> (r: Result<usize, StoreError>)
        requires
            self@.wf(),
        ensures
            match r {
                Ok(i) => i < self.subtasks@.len() && self@.subtask_by_names(project_name@, task_name@, subtask_name@)
                    == Ok::<int, ErrorV>(self@.subtasks[i as int].id),
                Err(e) => self@.subtask_by_names(project_name@, task_name@, subtask_name@) == Err::<int, ErrorV>(e@),
            },
    {
        let task = match self.get_task_by_name(project_name, task_name) {
            Ok(t) => t,
            Err(e) => return Err(e),
        };
        match self.find_subtask_named(task.id, subtask_name) {
            Some(i) => Ok(i),
            None => Err(StoreError::Db(to_owned_string("Query returned no rows"))),
        }
    }

    /// Deletes a subtask found by the names of its project, task and itself.
    pub fn delete_subtask(&mut self, project_name: &str, task_name: &str, subtask_name: &str) -> (r: Result<bool, StoreError>)
        requires
            old(self)@.wf(),
        ensures
            final(self)@.wf(),
            match old(self)@.subtask_by_names(project_name@, task_name@, subtask_name@) {
                Ok(id) => r matches Ok(b) && (final(self)@, b) == old(self)@.delete_subtask_by_id(id),
                Err(e) => r matches Err(x) && x@ == e && final(self)@ == old(self)@,
            },
    {
        match self.find_subtask_by_names(project_name, task_name, subtask_name) {
            Ok(i) => {
                let id = self.subtasks[i].id;
                self.delete_subtask_by_id(id)
            },
            Err(e) => Err(e),
        }
    }

    /// Flips whether a subtask is done; marking it pending reopens its done task.
    pub fn toggle_subtask_done_by_id(&mut self, id: i64) -> (r: Result<Subtask, StoreError>)
        requires
            old(self)@.wf(),
        ensures
            final(self)@.wf(),
            (final(self)@, match r {
                Ok(s) => Ok(s@),
                Err(e) => Err(e@),
            }) == old(self)@.toggle_subtask_done_by_id(id as int),
    {
        let si = match self.find_subtask(id) {
            Some(si) => si,
            None => return Err(StoreError::Db(to_owned_string("Query returned no rows"))),
        };
        let ti = match self.find_task(self.subtasks[si].task_id) {
            Some(ti) => ti,
            None => return Err(StoreError::Db(to_owned_string("Query returned no rows"))),
        };
        let mut st = self.subtasks[si].copy();
        let was_done = st.done;
        st.done = !st.done;
        let ghost s0 = self@;
        let ghost old_subs = self.subtasks@;
        let c = st.copy();
        self.subtasks.set(si, st);
        proof {
            lemma_map_update(old_subs, si as int, c, |s: Subtask| s@);
            assert(!s0.subtask_name_taken(c.task_id as int, c.name@, c.id as int)) by {
                if s0.subtask_name_taken(c.task_id as int, c.name@, c.id as int) {
                    let k = choose|k: int|
                        0 <= k < s0.subtasks.len() && #[trigger] s0.subtasks[k].task_id == c.task_id
                            && s0.subtasks[k].name == c.name@ && s0.subtasks[k].id != c.id;
                    assert(k != si);
                }
            }
            lemma_wf_update_subtask(s0, si as int, c@);
        }
        if was_done && self.tasks[ti].done {
            match self.reopen(ti) {
                Ok(_) => Ok(c),
                Err(e) => Err(e),
            }
        } else {
            Ok(c)
        }
    }

    /// Flips whether a subtask, found by names, is done.
    pub fn toggle_subtask_done(&mut self, project_name: &str, task_name: &str, subtask_name: &str) -> (r: Result<
        Subtask,
        StoreError,
    >)
        requires
            old(self)@.wf(),
        ensures
            final(self)@.wf(),
            match old(self)@.subtask_by_names(project_name@, task_name@, subtask_name@) {
                Ok(id) => (final(self)@, match r {
                    Ok(s) => Ok(s@),
                    Err(e) => Err(e@),
                }) == old(self)@.toggle_subtask_done_by_id(id),
                Err(e) => r matches Err(x) && x@ == e && final(self)@ == old(self)@,
            },
    {
        match self.find_subtask_by_names(project_name, task_name, subtask_name) {
            Ok(i) => {
                let id = self.subtasks[i].id;
                self.toggle_subtask_done_by_id(id)
            },
            Err(e) => Err(e),
        }
    }

    /// Applies a patch to a subtask. Its due date may not be after its task's; marking it
    /// pending reopens its done task.
    pub fn modify_subtask_by_id(&mut self, id: i64, patch: SubtaskPatch) -> (r: Result<
        Option<Subtask>,
        StoreError,
    >)
        requires
            old(self)@.wf(),
        ensures
            final(self)@.wf(),
            (final(self)@, match r {
                Ok(Some(s)) => Ok(Some(s@)),
                Ok(None) => Ok(None),
                Err(e) => Err(e@),
            }) == old(self)@.modify_subtask_by_id(
                id as int,
                opt_text(patch.name),
                match patch.due_date {
                    Some(d) => Some(opt_int_of(d)),
                    None => None,
                },
                patch.done,
            ),
    {
        let si = match self.find_subtask(id) {
            Some(si) => si,
            None => return Err(StoreError::Db(to_owned_string("Query returned no rows"))),
        };
        let ti = match self.find_task(self.subtasks[si].task_id) {
            Some(ti) => ti,
            None => return Err(StoreError::Db(to_owned_string("Query returned no rows"))),
        };
        let cur = self.subtasks[si].copy();
        if let Some(Some(sd)) = patch.due_date {
            if let Some(td) = self.tasks[ti].due_date {
                if sd > td {
                    return Err(StoreError::InvalidDueDate(to_owned_string("subtask due date cannot be after parent task due date")));
                }
            }
        }
        if patch.done == Some(false) && self.tasks[ti].done {
            match self.reopen(ti) {
                Ok(_) => {},
                Err(e) => return Err(e),
            }
        }
        if patch.name.is_none() && patch.due_date.is_none() && patch.done.is_none() {
            return Ok(Some(cur));
        }
        if let Some(n) = &patch.name {
            if self.subtask_name_taken_exec(cur.task_id, n, cur.id) {
                return Err(StoreError::Db(to_owned_string("UNIQUE constraint failed: subtasks.name, subtasks.task_id")));
            }
        }
        let st = Subtask {
            id: cur.id,
            task_id: cur.task_id,
            name: match patch.name {
                Some(n) => n,
                None => cur.name,
            },
            due_date: match patch.due_date {
                Some(d) => d,
                None => cur.due_date,
            },
            done: match patch.done {
                Some(d) => d,
                None => cur.done,
            },
            created_at: cur.created_at,
        };
        let ghost s1 = self@;
        let ghost old_subs = self.subtasks@;
        let c = st.copy();
        self.subtasks.set(si, st);
        proof {
            lemma_map_update(old_subs, si as int, c, |s: Subtask| s@);
            assert(!s1.subtask_name_taken(c.task_id as int, c.name@, c.id as int)) by {
                if s1.subtask_name_taken(c.task_id as int, c.name@, c.id as int) {
                    let k = choose|k: int|
                        0 <= k < s1.subtasks.len() && #[trigger] s1.subtasks[k].task_id == c.task_id
                            && s1.subtasks[k].name == c.name@ && s1.subtasks[k].id != c.id;
                    assert(k != si);
                    assert(s1.subtasks[si as int] == cur@);
                }
            }
            lemma_wf_update_subtask(s1, si as int, c@);
        }
        Ok(Some(c))
    }

    /// Applies a patch to a subtask found by names.
    pub fn modify_subtask(&mut self, project_name: &str, task_name: &str, subtask_name: &str, patch: SubtaskPatch) -> (r: Result<
        Option<Subtask>,
        StoreError,
    >)
        requires
            old(self)@.wf(),
        ensures
            final(self)@.wf(),
            match old(self)@.subtask_by_names(project_name@, task_name@, subtask_name@) {
                Ok(id) => (final(self)@, match r {
                    Ok(Some(s)) => Ok(Some(s@)),
                    Ok(None) => Ok(None),
                    Err(e) => Err(e@),
                }) == old(self)@.modify_subtask_by_id(
                    id,
                    opt_text(patch.name),
                    match patch.due_date {
                        Some(d) => Some(opt_int_of(d)),
                        None => None,
                    },
                    patch.done,
                ),
                Err(e) => r matches Err(x) && x@ == e && final(self)@ == old(self)@,
            },
    {
        match self.find_subtask_by_names(project_name, task_name, subtask_name) {
            Ok(i) => {
                let id = self.subtasks[i].id;
                self.modify_subtask_by_id(id, patch)
            },
            Err(e) => Err(e),
        }
    }
}

} // verus!
