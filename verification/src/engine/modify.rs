//! Modifying tasks, completing them, and the next occurrence of recurring tasks.
use vstd::prelude::*;
use crate::models::{ts_in_range, Recurrence, StoreError, Subtask, Task, TaskPatch};
use crate::text::to_owned_string;
use super::Engine;
use super::tables::{retain_links_of_owner, retain_subtasks_of_task};
use super::tasks::{
    lemma_wf_push_task, lemma_wf_update_task, opt_int_of, recurrence_text_given,
    recurrence_text_invalid, utc_midnight_of,
};
use super::model::{
    last_id_subtasks, lemma_filter_members, lemma_filter_pairwise, lemma_insert_sorted_at,
    lemma_insertion_sort_start, lemma_insertion_sort_step, lemma_map_insert, lemma_map_push,
    lemma_map_update, link_owner_is, moved_due, next_row_id, opt_text, sort_subtasks,
    recurrence_given, relink, subtask_le, subtask_order, EngineV, ErrorV, SubtaskV,
    insertion_sort,
};

verus! {

fn subtask_le_exec(a: &Subtask, b: &Subtask) -> (r: bool)
    ensures
        r == subtask_le(a@, b@),
{
    a.created_at < b.created_at || (a.created_at == b.created_at && a.id <= b.id)
}

/// Subtasks in creation order (ties by id).
pub(crate) fn sort_subtask_list(v: &Vec<Subtask>) -> (r: Vec<Subtask>)
    ensures
        r@.map_values(|s: Subtask| s@) == sort_subtasks(v@.map_values(|s: Subtask| s@)),
{
    let ghost vv = v@.map_values(|s: Subtask| s@);
    let mut r: Vec<Subtask> = Vec::new();
    proof {
        lemma_insertion_sort_start(vv, subtask_order());
        assert(r@.map_values(|s: Subtask| s@) =~= Seq::<SubtaskV>::empty());
    }
    let mut i: usize = 0;
    while i < v.len()
        invariant
            i <= v@.len(),
            vv == v@.map_values(|s: Subtask| s@),
            r@.map_values(|s: Subtask| s@) == insertion_sort(vv.take(i as int), subtask_order()),
        decreases v@.len() - i,
    {
        let x = v[i].copy();
        let ghost rv = r@.map_values(|s: Subtask| s@);
        let mut k: usize = 0;
        while k < r.len() && subtask_le_exec(&r[k], &x)
            invariant
                k <= r@.len(),
                rv == r@.map_values(|s: Subtask| s@),
                x@ == vv[i as int],
                forall|j: int| 0 <= j < k ==> subtask_order()(#[trigger] rv[j], x@),
            decreases r@.len() - k,
        {
            k = k + 1;
        }
        proof {
            lemma_insertion_sort_step(vv, subtask_order(), i as int);
            lemma_insert_sorted_at(x@, rv, subtask_order(), k as int);
            lemma_map_insert(r@, k as int, x, |s: Subtask| s@);
        }
        r.insert(k, x);
        i = i + 1;
    }
    proof {
        lemma_insertion_sort_start(vv, subtask_order());
    }
    r
}

fn moved_due_of(sd: i128, od: i128, next: i128) -> (r: i128)
    ensures
        r == moved_due(sd as int, od as int, next as int),
{
    let lo: i128 = -96465292 * 86_400_000_000_000;
    let hi: i128 = (95026236 + 1) * 86_400_000_000_000;
    if lo <= sd && sd < hi && lo <= od && od < hi && lo <= next && next < hi {
        let r = next + (sd - od);
        if lo <= r && r < hi {
            r
        } else {
            sd
        }
    } else {
        sd
    }
}

impl Engine {
    /// Inserts pending copies of `subs` under task `new_id` (one after the other).
    fn copy_subtasks(
        &mut self,
        subs: &Vec<Subtask>,
        new_id: i64,
        old_due: Option<i128>,
        next_due: i128,
        r: Recurrence,
        now: i128,
    ) -> (res: Result<(), StoreError>)
        requires
            old(self)@.wf(),
            old(self)@.task_exists(new_id as int),
            ts_in_range(now as int),
        ensures
            final(self)@.wf(),
            (final(self)@, match res {
                Ok(_) => Ok(()),
                Err(e) => Err(e@),
            }) == old(self)@.copy_subtasks(
                subs@.map_values(|s: Subtask| s@),
                new_id as int,
                opt_int_of(old_due),
                next_due as int,
                r,
                now as int,
            ),
    {
        let ghost sv = subs@.map_values(|s: Subtask| s@);
        let ghost s0 = self@;
        let mut i: usize = 0;
        proof {
            assert(sv.take(0) =~= Seq::<SubtaskV>::empty());
        }
        while i < subs.len()
            invariant
                i <= subs@.len(),
                sv == subs@.map_values(|s: Subtask| s@),
                s0 == old(self)@,
                self@.wf(),
                self@.task_exists(new_id as int),
                ts_in_range(now as int),
                (self@, Ok::<(), ErrorV>(())) == s0.copy_subtasks(
                    sv.take(i as int),
                    new_id as int,
                    opt_int_of(old_due),
                    next_due as int,
                    r,
                    now as int,
                ),
            decreases subs@.len() - i,
        {
            let sub = &subs[i];
            proof {
                assert(sv.take(i + 1).drop_last() =~= sv.take(i as int));
                assert(sv.take(i + 1).last() == sub@);
            }
            if self.subtask_name_taken_exec(new_id, &sub.name, -1) {
                proof {
                    lemma_copy_subtasks_stops(s0, sv, i + 1, new_id as int, opt_int_of(old_due), next_due as int, r, now as int);
                }
                return Err(StoreError::Db(to_owned_string("UNIQUE constraint failed: subtasks.name, subtasks.task_id")));
            }
            let n = self.subtasks.len();
            let id: i64 = if n == 0 {
                1
            } else {
                let last = self.subtasks[n - 1].id;
                if last == i64::MAX {
                    proof {
                        assert(self@.subtasks.last() == self.subtasks@[n - 1]@);
                        lemma_copy_subtasks_stops(s0, sv, i + 1, new_id as int, opt_int_of(old_due), next_due as int, r, now as int);
                    }
                    return Err(StoreError::Db(to_owned_string("database or disk is full")));
                }
                last + 1
            };
            let due = match sub.due_date {
                Some(sd) => Some(
                    match old_due {
                        Some(od) => moved_due_of(sd, od, next_due),
                        None => r.next_date(sd),
                    },
                ),
                None => None,
            };
            let st = Subtask {
                id,
                task_id: new_id,
                name: sub.name.clone(),
                due_date: due,
                done: false,
                created_at: super::tasks::sql_now_of(now),
            };
            let ghost before = self@;
            let ghost old_subs = self.subtasks@;
            let c = st.copy();
            self.subtasks.push(st);
            proof {
                lemma_map_push(old_subs, c, |s: Subtask| s@);
                assert(before.subtasks.len() > 0 ==> before.subtasks.last() == old_subs[n - 1]@);
                assert(self@ == before.with_subtasks(before.subtasks.push(c@)));
                lemma_wf_push_subtask(before, c@);
            }
            i = i + 1;
        }
        proof {
            assert(sv.take(subs@.len() as int) =~= sv);
        }
        Ok(())
    }

    /// Whether a subtask of task `tid` other than subtask `except` has this name.
    pub(crate) fn subtask_name_taken_exec(&self, tid: i64, name: &String, except: i64) -> (b: bool)
        ensures
            b == self@.subtask_name_taken(tid as int, name@, except as int),
    {
        let mut i: usize = 0;
        while i < self.subtasks.len()
            invariant
                i <= self.subtasks@.len(),
                forall|j: int|
                    0 <= j < i ==> !(#[trigger] self@.subtasks[j].task_id == tid
                        && self@.subtasks[j].name == name@ && self@.subtasks[j].id != except),
            decreases self.subtasks@.len() - i,
        {
            assert(self@.subtasks[i as int] == self.subtasks@[i as int]@);
            if self.subtasks[i].task_id == tid && self.subtasks[i].name == *name
                && self.subtasks[i].id != except {
                assert(self@.subtasks[i as int].task_id == tid);
                return true;
            }
            i = i + 1;
        }
        false
    }
}

/// Once copying fails, the remaining subtasks change nothing.
pub proof fn lemma_copy_subtasks_stops(
    s: EngineV,
    subs: Seq<SubtaskV>,
    k: int,
    new_id: int,
    old_due: Option<int>,
    next_due: int,
    r: Recurrence,
    now: int,
)
    requires
        0 <= k <= subs.len(),
        s.copy_subtasks(subs.take(k), new_id, old_due, next_due, r, now).1 is Err,
    ensures
        s.copy_subtasks(subs, new_id, old_due, next_due, r, now) == s.copy_subtasks(
            subs.take(k),
            new_id,
            old_due,
            next_due,
            r,
            now,
        ),
    decreases subs.len() - k,
{
    if k < subs.len() {
        assert(subs.take(k + 1).drop_last() =~= subs.take(k));
        lemma_copy_subtasks_stops(s, subs, k + 1, new_id, old_due, next_due, r, now);
    } else {
        assert(subs.take(k) =~= subs);
    }
}

pub proof fn lemma_wf_push_subtask(s: EngineV, st: SubtaskV)
    requires
        s.wf(),
        st.id == next_row_id(last_id_subtasks(s.subtasks)),
        st.id <= i64::MAX,
        s.task_exists(st.task_id),
        !s.subtask_name_taken(st.task_id, st.name, -1),
    ensures
        s.with_subtasks(s.subtasks.push(st)).wf(),
{
    let s2 = s.with_subtasks(s.subtasks.push(st));
    assert forall|i: int, j: int| 0 <= i < j < s2.subtasks.len() implies s2.subtasks[i].id
        < s2.subtasks[j].id by {
        if j == s.subtasks.len() && i < s.subtasks.len() - 1 {
            assert(s.subtasks[i].id < s.subtasks[s.subtasks.len() - 1].id);
        }
    }
    assert forall|i: int, j: int|
        0 <= i < j < s2.subtasks.len() && s2.subtasks[i].task_id == s2.subtasks[j].task_id implies s2.subtasks[i].name
        != s2.subtasks[j].name by {
        if j == s.subtasks.len() {
            assert(s.subtasks[i].id != -1);
            if s.subtasks[i].name == st.name {
                assert(s.subtask_name_taken(st.task_id, st.name, -1));
            }
        }
    }
    assert forall|i: int| 0 <= i < s2.subtasks.len() implies s2.task_exists(
        #[trigger] s2.subtasks[i].task_id,
    ) by {
        if i < s.subtasks.len() {
            assert(s.task_exists(s.subtasks[i].task_id));
        }
    }
}

} // verus!

verus! {

pub proof fn lemma_wf_copy_links(s: EngineV, src: int, nid: int)
    requires
        s.wf(),
        s.task_exists(nid),
        forall|i: int| 0 <= i < s.task_tags.len() ==> #[trigger] s.task_tags[i].0 != nid,
    ensures
        (EngineV {
            task_tags: s.task_tags + s.task_tags.filter(link_owner_is(src)).map_values(relink(nid)),
            ..s
        }).wf(),
{
    let f = s.task_tags.filter(link_owner_is(src));
    let m = f.map_values(relink(nid));
    let n = s.task_tags + m;
    let s2 = EngineV { task_tags: n, ..s };
    lemma_filter_members(s.task_tags, link_owner_is(src));
    lemma_filter_pairwise(s.task_tags, link_owner_is(src), |a: (int, int), b: (int, int)| a != b);
    assert forall|i: int| 0 <= i < n.len() implies s2.task_exists(#[trigger] n[i].0) && s2.tag_exists(
        n[i].1,
    ) by {
        if i < s.task_tags.len() {
            assert(n[i] == s.task_tags[i]);
            assert(s.task_exists(s.task_tags[i].0));
            assert(s.tag_exists(s.task_tags[i].1));
        } else {
            let k = i - s.task_tags.len();
            assert(n[i] == (nid, f[k].1));
            assert(s.task_tags.contains(f[k]));
            let q = choose|q: int| 0 <= q < s.task_tags.len() && s.task_tags[q] == f[k];
            assert(s.tag_exists(s.task_tags[q].1));
        }
    }
    assert forall|i: int, j: int| 0 <= i < j < n.len() implies n[i] != n[j] by {
        if j >= s.task_tags.len() {
            let b = j - s.task_tags.len();
            assert(n[j] == (nid, f[b].1));
            if i < s.task_tags.len() {
                assert(n[i] == s.task_tags[i]);
            } else {
                let a = i - s.task_tags.len();
                assert(n[i] == (nid, f[a].1));
                assert(link_owner_is(src)(f[a]) && link_owner_is(src)(f[b]));
                assert(f[a] != f[b]);
            }
        }
    }
}

impl Engine {
    /// Adds the next occurrence of a completed recurring task.
    fn clone_recurring(&mut self, task: &Task, now: i128) -> (res: Result<(), StoreError>)
        requires
            old(self)@.wf(),
            old(self)@.project_exists(task.project_id as int),
            recurrence_given(opt_text(task.recurrence)),
            ts_in_range(now as int),
        ensures
            final(self)@.wf(),
            (final(self)@, match res {
                Ok(_) => Ok(()),
                Err(e) => Err(e@),
            }) == old(self)@.clone_recurring(task@, now as int),
    {
        let rec_str = match &task.recurrence {
            Some(s) => s.clone(),
            None => String::new(),
        };
        let r = match Recurrence::parse(rec_str.as_str()) {
            Some(r) => r,
            None => return Err(StoreError::InvalidRecurrence(rec_str)),
        };
        let base = match task.due_date {
            Some(d) => d,
            None => now,
        };
        let next = r.next_date(base);
        if self.pending_name_taken(task.project_id, &task.name, -1) {
            return Err(StoreError::Db(to_owned_string("UNIQUE constraint failed: tasks.name, tasks.project_id")));
        }
        let n = self.tasks.len();
        let nid: i64 = if n == 0 {
            1
        } else {
            let last = self.tasks[n - 1].id;
            if last == i64::MAX {
                proof {
                    assert(self@.tasks.last() == self.tasks@[n - 1]@);
                }
                return Err(StoreError::Db(to_owned_string("database or disk is full")));
            }
            last + 1
        };
        let nt = Task {
            id: nid,
            project_id: task.project_id,
            name: task.name.clone(),
            description: task.description.clone(),
            priority: task.priority,
            due_date: Some(next),
            recurrence: Some(rec_str),
            done: false,
            created_at: super::tasks::sql_now_of(now),
        };
        let ghost s0 = self@;
        let ghost old_tasks = self.tasks@;
        let c = nt.copy();
        self.tasks.push(nt);
        proof {
            lemma_map_push(old_tasks, c, |t: Task| t@);
            assert(s0.tasks.len() > 0 ==> s0.tasks.last() == old_tasks[n - 1]@);
            lemma_wf_push_task(s0, c@);
            assert forall|i: int| 0 <= i < s0.task_tags.len() implies #[trigger] s0.task_tags[i].0 != nid by {
                assert(s0.task_exists(s0.task_tags[i].0));
                let k = choose|k: int| 0 <= k < s0.tasks.len() && #[trigger] s0.tasks[k].id == s0.task_tags[i].0;
                if k < s0.tasks.len() - 1 {
                    assert(s0.tasks[k].id < s0.tasks[s0.tasks.len() - 1].id);
                }
            }
            assert(self@.tasks[n as int].id == nid);
        }
        let ghost s1 = self@;
        let links = retain_links_of_owner(&self.task_tags, task.id);
        let ghost lv = links@.map_values(|l: (i64, i64)| (l.0 as int, l.1 as int));
        let ghost base_links = self.task_tags@;
        let mut j: usize = 0;
        proof {
            assert(lv.take(0).map_values(relink(nid as int)) =~= Seq::<(int, int)>::empty());
            assert(s1.task_tags + Seq::<(int, int)>::empty() =~= s1.task_tags);
        }
        while j < links.len()
            invariant
                j <= links@.len(),
                lv == links@.map_values(|l: (i64, i64)| (l.0 as int, l.1 as int)),
                lv == s1.task_tags.filter(link_owner_is(task.id as int)),
                self@ == (EngineV { task_tags: s1.task_tags + lv.take(j as int).map_values(relink(nid as int)), ..s1 }),
            decreases links@.len() - j,
        {
            let l = (nid, links[j].1);
            let ghost before = self.task_tags@;
            self.task_tags.push(l);
            proof {
                lemma_map_push(before, l, |l: (i64, i64)| (l.0 as int, l.1 as int));
                assert(lv.take(j + 1).map_values(relink(nid as int)) =~= lv.take(j as int).map_values(
                    relink(nid as int),
                ).push((nid as int, lv[j as int].1)));
                assert(self@.task_tags =~= s1.task_tags + lv.take(j + 1).map_values(relink(nid as int)));
            }
            j = j + 1;
        }
        proof {
            assert(lv.take(links@.len() as int) =~= lv);
            lemma_wf_copy_links(s1, task.id as int, nid as int);
            assert(self@.task_exists(nid as int)) by {
                assert(self@.tasks[n as int].id == nid);
            }
        }
        let subs = retain_subtasks_of_task(&self.subtasks, task.id);
        let sorted = sort_subtask_list(&subs);
        self.copy_subtasks(&sorted, nid, task.due_date, next, r, now)
    }

    /// Applies a patch to the task with this id. Completing a task needs all its subtasks
    /// done; completing a recurring task adds its next occurrence. A recurring task that
    /// would be left without a due date is due at midnight UTC of the day of `now`.
    pub fn modify_task_by_id(&mut self, id: i64, patch: TaskPatch, now: i128) -> (r: Result<
        Option<Task>,
        StoreError,
    >)
        requires
            old(self)@.wf(),
            ts_in_range(now as int),
        ensures
            final(self)@.wf(),
            (final(self)@, match r {
                Ok(Some(t)) => Ok(Some(t@)),
                Ok(None) => Ok(None),
                Err(e) => Err(e@),
            }) == old(self)@.modify_task_by_id(
                id as int,
                opt_text(patch.name),
                opt_text(patch.description),
                match patch.priority {
                    Some(p) => Some(p as int),
                    None => None,
                },
                match patch.due_date {
                    Some(d) => Some(opt_int_of(d)),
                    None => None,
                },
                match patch.recurrence {
                    Some(x) => Some(opt_text(x)),
                    None => None,
                },
                patch.done,
                now as int,
            ),
    {
        let i = match self.find_task(id) {
            Some(i) => i,
            None => return Err(StoreError::Db(to_owned_string("Query returned no rows"))),
        };
        let cur = self.tasks[i].copy();
        if let Some(rec) = &patch.recurrence {
            if recurrence_text_invalid(rec) {
                let bad = match rec {
                    Some(x) => x.clone(),
                    None => String::new(),
                };
                return Err(StoreError::InvalidRecurrence(bad));
            }
        }
        if patch.done == Some(true) && self.has_pending_subtask(cur.id) {
            return Err(StoreError::PendingSubtasks(cur.name));
        }
        if patch.name.is_none() && patch.description.is_none() && patch.priority.is_none()
            && patch.due_date.is_none() && patch.recurrence.is_none() && patch.done.is_none() {
            return Ok(Some(cur));
        }
        let due_default = match &patch.recurrence {
            Some(rec) => recurrence_text_given(rec) && !(match patch.due_date {
                Some(Some(_)) => true,
                Some(None) => false,
                None => cur.due_date.is_some(),
            }),
            None => false,
        };
        let new_due = if due_default {
            Some(utc_midnight_of(now))
        } else {
            match patch.due_date {
                Some(d) => d,
                None => cur.due_date,
            }
        };
        let done_patch = patch.done;
        let new = Task {
            id: cur.id,
            project_id: cur.project_id,
            name: match patch.name {
                Some(n) => n,
                None => cur.name,
            },
            description: match patch.description {
                Some(d) => d,
                None => cur.description,
            },
            priority: match patch.priority {
                Some(p) => p,
                None => cur.priority,
            },
            due_date: new_due,
            recurrence: match patch.recurrence {
                Some(r) => r,
                None => cur.recurrence,
            },
            done: match patch.done {
                Some(d) => d,
                None => cur.done,
            },
            created_at: cur.created_at,
        };
        if !new.done && self.pending_name_taken(new.project_id, &new.name, new.id) {
            return Err(StoreError::Db(to_owned_string("UNIQUE constraint failed: tasks.name, tasks.project_id")));
        }
        let ghost s0 = self@;
        let ghost old_tasks = self.tasks@;
        let c = new.copy();
        self.tasks.set(i, new);
        proof {
            lemma_map_update(old_tasks, i as int, c, |t: Task| t@);
            lemma_wf_update_task(s0, i as int, c@);
            assert(s0.project_exists(c.project_id as int)) by {
                assert(s0.project_exists(s0.tasks[i as int].project_id));
            }
        }
        if done_patch == Some(true) && recurrence_text_given(&c.recurrence) {
            match self.clone_recurring(&c, now) {
                Ok(_) => Ok(Some(c)),
                Err(e) => Err(e),
            }
        } else {
            Ok(Some(c))
        }
    }

    /// Flips whether the task with this id is done (see `modify_task_by_id`).
    pub fn toggle_done_by_id(&mut self, id: i64, now: i128) -> (r: Result<Task, StoreError>)
        requires
            old(self)@.wf(),
            ts_in_range(now as int),
        ensures
            final(self)@.wf(),
            (final(self)@, match r {
                Ok(t) => Ok(t@),
                Err(e) => Err(e@),
            }) == old(self)@.toggle_done_by_id(id as int, now as int),
    {
        let task = match self.get_task_by_id(id) {
            Ok(t) => t,
            Err(e) => return Err(e),
        };
        let patch = TaskPatch {
            done: Some(!task.done),
            name: None,
            description: None,
            priority: None,
            due_date: None,
            recurrence: None,
        };
        match self.modify_task_by_id(id, patch, now) {
            Ok(Some(t)) => Ok(t),
            Ok(None) => Ok(task),
            Err(e) => Err(e),
        }
    }

    /// Applies a patch to the task `get_task_by_name` picks.
    pub fn modify_task(&mut self, project_name: &str, task_name: &str, patch: TaskPatch, now: i128) -> (r: Result<
        Option<Task>,
        StoreError,
    >)
        requires
            old(self)@.wf(),
            ts_in_range(now as int),
        ensures
            final(self)@.wf(),
            match old(self)@.get_task_by_name(project_name@, task_name@) {
                Ok(t) => (final(self)@, match r {
                    Ok(Some(t)) => Ok(Some(t@)),
                    Ok(None) => Ok(None),
                    Err(e) => Err(e@),
                }) == old(self)@.modify_task_by_id(
                    t.id,
                    opt_text(patch.name),
                    opt_text(patch.description),
                    match patch.priority {
                        Some(p) => Some(p as int),
                        None => None,
                    },
                    match patch.due_date {
                        Some(d) => Some(opt_int_of(d)),
                        None => None,
                    },
                    match patch.recurrence {
                        Some(x) => Some(opt_text(x)),
                        None => None,
                    },
                    patch.done,
                    now as int,
                ),
                Err(e) => r matches Err(x) && x@ == e && final(self)@ == old(self)@,
            },
    {
        match self.get_task_by_name(project_name, task_name) {
            Ok(t) => self.modify_task_by_id(t.id, patch, now),
            Err(e) => Err(e),
        }
    }

    /// Flips whether the task `get_task_by_name` picks is done.
    pub fn toggle_done(&mut self, project_name: &str, task_name: &str, now: i128) -> (r: Result<
        Task,
        StoreError,
    >)
        requires
            old(self)@.wf(),
            ts_in_range(now as int),
        ensures
            final(self)@.wf(),
            match old(self)@.get_task_by_name(project_name@, task_name@) {
                Ok(t) => (final(self)@, match r {
                    Ok(t) => Ok(t@),
                    Err(e) => Err(e@),
                }) == old(self)@.toggle_done_by_id(t.id, now as int),
                Err(e) => r matches Err(x) && x@ == e && final(self)@ == old(self)@,
            },
    {
        match self.get_task_by_name(project_name, task_name) {
            Ok(t) => self.toggle_done_by_id(t.id, now),
            Err(e) => Err(e),
        }
    }
}

} // verus!
