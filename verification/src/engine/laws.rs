//! What holds of the store across its operations.
use vstd::prelude::*;
use crate::models::Stats;
use crate::dates::sql_day;
use super::agenda::{stat_done, stat_overdue, stat_pending, stat_priority, stats_of};
use super::model::{project_named, task_project_is, ProjectV};
use super::model::{
    lemma_filter_members, lemma_first_index, link_not, project_id_not, subtask_id_not,
    subtask_task_in, subtask_task_not, task_id_not, task_project_not, task_with_id, EngineV,
    ErrorV, SubtaskV, TaskV,
};

verus! {

/// Some done task has this id.
pub open spec fn done_task_id(s: EngineV, x: int) -> bool {
    exists|j: int| 0 <= j < s.tasks.len() && #[trigger] s.tasks[j].id == x && s.tasks[j].done
}

/// Going from `s` to `s2` keeps completion: a task done in `s2` had no pending subtask in
/// `s`, and a pending subtask of `s2` either stood pending for its task in `s` or belongs
/// to a task that is not done in `s2`.
pub open spec fn completion_frame(s: EngineV, s2: EngineV) -> bool {
    &&& forall|i: int| 0 <= i < s2.tasks.len() && #[trigger] s2.tasks[i].done ==> !s.has_pending_subtask(s2.tasks[i].id)
    &&& forall|k: int|
        0 <= k < s2.subtasks.len() && !#[trigger] s2.subtasks[k].done ==> s.has_pending_subtask(s2.subtasks[k].task_id)
            || !done_task_id(s2, s2.subtasks[k].task_id)
}

pub proof fn lemma_completion_frame(s: EngineV, s2: EngineV)
    requires
        completion_frame(s, s2),
    ensures
        s2.completion_consistent(),
{
    assert forall|i: int| 0 <= i < s2.tasks.len() && #[trigger] s2.tasks[i].done implies !s2.has_pending_subtask(
        s2.tasks[i].id,
    ) by {
        if s2.has_pending_subtask(s2.tasks[i].id) {
            let k = choose|k: int|
                0 <= k < s2.subtasks.len() && #[trigger] s2.subtasks[k].task_id == s2.tasks[i].id && !s2.subtasks[k].done;
            assert(!s2.subtasks[k].done);
            assert(done_task_id(s2, s2.tasks[i].id));
        }
    }
}

/// A task done in a consistent store has no pending subtask.
pub proof fn lemma_done_has_none(s: EngineV, j: int)
    requires
        s.completion_consistent(),
        0 <= j < s.tasks.len(),
        s.tasks[j].done,
    ensures
        !s.has_pending_subtask(s.tasks[j].id),
{
}

/// The frame holds when tasks and subtasks were only filtered.
pub proof fn lemma_frame_filtered(s: EngineV, s2: EngineV)
    requires
        s.completion_consistent(),
        forall|i: int| 0 <= i < s2.tasks.len() ==> s.tasks.contains(#[trigger] s2.tasks[i]),
        forall|k: int| 0 <= k < s2.subtasks.len() ==> s.subtasks.contains(#[trigger] s2.subtasks[k]),
    ensures
        completion_frame(s, s2),
{
    assert forall|i: int| 0 <= i < s2.tasks.len() && #[trigger] s2.tasks[i].done implies !s.has_pending_subtask(
        s2.tasks[i].id,
    ) by {
        assert(s.tasks.contains(s2.tasks[i]));
        let j = choose|j: int| 0 <= j < s.tasks.len() && s.tasks[j] == s2.tasks[i];
        lemma_done_has_none(s, j);
    }
    assert forall|k: int| 0 <= k < s2.subtasks.len() && !#[trigger] s2.subtasks[k].done implies s.has_pending_subtask(
        s2.subtasks[k].task_id,
    ) || !done_task_id(s2, s2.subtasks[k].task_id) by {
        assert(s.subtasks.contains(s2.subtasks[k]));
        let m = choose|m: int| 0 <= m < s.subtasks.len() && s.subtasks[m] == s2.subtasks[k];
        assert(s.subtasks[m].task_id == s2.subtasks[k].task_id && !s.subtasks[m].done);
    }
}

/// Deleting a project keeps a consistent store consistent.
pub proof fn law_delete_project_keeps_completion(s: EngineV, name: Seq<char>)
    requires
        s.wf(),
        s.completion_consistent(),
    ensures
        s.delete_project(name).0.completion_consistent(),
{
    let i = s.project_index(name);
    if i >= 0 {
        let pid = s.projects[i].id;
        let s2 = s.without_project(pid);
        let ts = s.tasks.filter(task_project_not(pid));
        lemma_filter_members(s.tasks, task_project_not(pid));
        lemma_filter_members(s.subtasks, subtask_task_in(ts));
        lemma_frame_filtered(s, s2);
        lemma_completion_frame(s, s2);
    }
}

/// Deleting a task keeps a consistent store consistent.
pub proof fn law_delete_task_keeps_completion(s: EngineV, id: int)
    requires
        s.wf(),
        s.completion_consistent(),
    ensures
        s.delete_task_by_id(id).0.completion_consistent(),
{
    if s.task_index(id) >= 0 {
        let s2 = s.without_task(id);
        lemma_filter_members(s.tasks, task_id_not(id));
        lemma_filter_members(s.subtasks, subtask_task_not(id));
        lemma_frame_filtered(s, s2);
        lemma_completion_frame(s, s2);
    }
}

/// Deleting a subtask keeps a consistent store consistent.
pub proof fn law_delete_subtask_keeps_completion(s: EngineV, id: int)
    requires
        s.wf(),
        s.completion_consistent(),
    ensures
        s.delete_subtask_by_id(id).0.completion_consistent(),
{
    if s.subtask_index(id) >= 0 {
        let s2 = s.with_subtasks(s.subtasks.filter(subtask_id_not(id)));
        lemma_filter_members(s.subtasks, subtask_id_not(id));
        assert forall|i: int| 0 <= i < s2.tasks.len() implies s.tasks.contains(#[trigger] s2.tasks[i]) by {
            assert(s.tasks[i] == s2.tasks[i]);
        }
        lemma_frame_filtered(s, s2);
        lemma_completion_frame(s, s2);
    }
}

/// Creating a task (always pending) keeps a consistent store consistent.
pub proof fn law_create_task_keeps_completion(
    s: EngineV,
    pname: Seq<char>,
    name: Seq<char>,
    description: Seq<char>,
    priority: int,
    due: Option<int>,
    recurrence: Option<Seq<char>>,
    now: int,
)
    requires
        s.wf(),
        s.completion_consistent(),
    ensures
        s.create_task(pname, name, description, priority, due, recurrence, now).0.completion_consistent(),
{
    let s2 = s.create_task(pname, name, description, priority, due, recurrence, now).0;
    if s2 != s {
        assert forall|i: int| 0 <= i < s2.tasks.len() && #[trigger] s2.tasks[i].done implies !s.has_pending_subtask(
            s2.tasks[i].id,
        ) by {
            assert(i < s.tasks.len());
            assert(s2.tasks[i] == s.tasks[i]);
            lemma_done_has_none(s, i);
        }
        assert(completion_frame(s, s2));
        lemma_completion_frame(s, s2);
    }
}

/// Task ids are unique in a well-formed store.
pub proof fn lemma_task_ids_unique(s: EngineV, a: int, b: int)
    requires
        s.wf(),
        0 <= a < s.tasks.len(),
        0 <= b < s.tasks.len(),
        s.tasks[a].id == s.tasks[b].id,
    ensures
        a == b,
{
    if a < b {
        assert(s.tasks[a].id < s.tasks[b].id);
    } else if b < a {
        assert(s.tasks[b].id < s.tasks[a].id);
    }
}

/// No done task has the id of the task at `i` when that task is pending.
pub proof fn lemma_pending_id_not_done(s: EngineV, i: int)
    requires
        s.wf(),
        0 <= i < s.tasks.len(),
        !s.tasks[i].done,
    ensures
        !done_task_id(s, s.tasks[i].id),
{
    if done_task_id(s, s.tasks[i].id) {
        let j = choose|j: int| 0 <= j < s.tasks.len() && #[trigger] s.tasks[j].id == s.tasks[i].id && s.tasks[j].done;
        lemma_task_ids_unique(s, i, j);
    }
}

/// Reopening a task only makes that task pending.
pub proof fn lemma_reopen_frame(s: EngineV, i: int)
    requires
        s.wf(),
        s.completion_consistent(),
        0 <= i < s.tasks.len(),
        s.reopen(i) is Ok,
    ensures
        completion_frame(s, s.reopen(i)->Ok_0),
        (s.reopen(i)->Ok_0).completion_consistent(),
        (s.reopen(i)->Ok_0).wf(),
        (s.reopen(i)->Ok_0).subtasks == s.subtasks,
        (s.reopen(i)->Ok_0).tasks.len() == s.tasks.len(),
        forall|j: int| 0 <= j < s.tasks.len() ==> (#[trigger] (s.reopen(i)->Ok_0).tasks[j]).id == s.tasks[j].id,
        !(s.reopen(i)->Ok_0).tasks[i].done,
{
    let s1 = s.reopen(i)->Ok_0;
    assert forall|j: int| 0 <= j < s1.tasks.len() && #[trigger] s1.tasks[j].done implies !s.has_pending_subtask(s1.tasks[j].id) by {
        assert(s.tasks[j].done && s.tasks[j].id == s1.tasks[j].id);
        lemma_done_has_none(s, j);
    }
    assert forall|k: int| 0 <= k < s1.subtasks.len() && !#[trigger] s1.subtasks[k].done implies s.has_pending_subtask(
        s1.subtasks[k].task_id,
    ) || !done_task_id(s1, s1.subtasks[k].task_id) by {
        assert(s.subtasks[k] == s1.subtasks[k]);
    }
    lemma_completion_frame(s, s1);
    if s.tasks[i].done {
        super::tasks::lemma_wf_update_task(s, i, TaskV { done: false, ..s.tasks[i] });
    }
}

/// Adding a pending subtask to a pending task keeps a consistent store consistent.
pub proof fn lemma_push_pending_subtask(s: EngineV, i: int, st: SubtaskV)
    requires
        s.wf(),
        s.completion_consistent(),
        0 <= i < s.tasks.len(),
        !s.tasks[i].done,
        st.task_id == s.tasks[i].id,
        !st.done,
    ensures
        s.with_subtasks(s.subtasks.push(st)).completion_consistent(),
{
    let s2 = s.with_subtasks(s.subtasks.push(st));
    lemma_pending_id_not_done(s, i);
    assert forall|j: int| 0 <= j < s2.tasks.len() && #[trigger] s2.tasks[j].done implies !s.has_pending_subtask(s2.tasks[j].id) by {
        lemma_done_has_none(s, j);
    }
    assert forall|k: int| 0 <= k < s2.subtasks.len() && !#[trigger] s2.subtasks[k].done implies s.has_pending_subtask(
        s2.subtasks[k].task_id,
    ) || !done_task_id(s2, s2.subtasks[k].task_id) by {
        if k < s.subtasks.len() {
            assert(s.subtasks[k] == s2.subtasks[k]);
        } else {
            assert(s2.subtasks[k] == st);
            assert(!done_task_id(s, s.tasks[i].id));
        }
    }
    lemma_completion_frame(s, s2);
}

/// Adding a subtask reopens its task, so a consistent store stays consistent.
pub proof fn law_create_subtask_keeps_completion(s: EngineV, task_id: int, name: Seq<char>, due: Option<int>, now: int)
    requires
        s.wf(),
        s.completion_consistent(),
    ensures
        s.create_subtask_by_id(task_id, name, due, now).0.completion_consistent(),
        s.create_subtask_by_id(task_id, name, due, now).1 is Ok ==> ({
            let s2 = s.create_subtask_by_id(task_id, name, due, now).0;
            exists|j: int| 0 <= j < s2.tasks.len() && #[trigger] s2.tasks[j].id == task_id && !s2.tasks[j].done
        }),
{
    let i = s.task_index(task_id);
    lemma_first_index(s.tasks, task_with_id(task_id));
    if i >= 0 {
        if s.reopen(i) is Ok {
            lemma_reopen_frame(s, i);
            let s1 = s.reopen(i)->Ok_0;
            let (s2, r) = s.create_subtask_by_id(task_id, name, due, now);
            if r is Ok {
                let st = r->Ok_0;
                assert(s1.tasks[i].id == task_id);
                lemma_push_pending_subtask(s1, i, st);
                assert(s2.tasks[i].id == task_id && !s2.tasks[i].done);
            }
        }
    }
}

/// Marking a subtask pending again reopens its done task; that reopening is refused when
/// another pending task of the project has the task's name.
pub open spec fn subtask_reopen_refused(s: EngineV, id: int) -> bool {
    let si = s.subtask_index(id);
    si >= 0 && {
        let st = s.subtasks[si];
        let ti = s.task_index(st.task_id);
        ti >= 0 && st.done && s.tasks[ti].done && s.pending_name_taken(
            s.tasks[ti].project_id,
            s.tasks[ti].name,
            s.tasks[ti].id,
        )
    }
}

/// Toggling a subtask keeps a consistent store consistent, except where marking it pending
/// would reopen its task and that reopening is refused.
pub proof fn law_toggle_subtask_keeps_completion(s: EngineV, id: int)
    requires
        s.wf(),
        s.completion_consistent(),
        !subtask_reopen_refused(s, id),
    ensures
        s.toggle_subtask_done_by_id(id).0.completion_consistent(),
{
    let si = s.subtask_index(id);
    lemma_first_index(s.subtasks, super::model::subtask_with_id(id));
    if si >= 0 {
        let st = s.subtasks[si];
        let ti = s.task_index(st.task_id);
        lemma_first_index(s.tasks, task_with_id(st.task_id));
        if ti >= 0 {
            let new_st = SubtaskV { done: !st.done, ..st };
            let s1 = s.with_subtasks(s.subtasks.update(si, new_st));
            let s2 = s.toggle_subtask_done_by_id(id).0;
            assert(s1.tasks[ti].id == st.task_id);
            if st.done && s1.tasks[ti].done {
                assert(s1.reopen(ti) is Ok);
                assert(s2 == s1.reopen_at(ti));
                assert(!s2.tasks[ti].done && s2.tasks[ti].id == st.task_id);
                assert forall|j: int| 0 <= j < s2.tasks.len() && #[trigger] s2.tasks[j].done implies !s.has_pending_subtask(
                    s2.tasks[j].id,
                ) by {
                    assert(s.tasks[j] == s2.tasks[j]);
                    lemma_done_has_none(s, j);
                }
                assert forall|k: int| 0 <= k < s2.subtasks.len() && !#[trigger] s2.subtasks[k].done implies s.has_pending_subtask(
                    s2.subtasks[k].task_id,
                ) || !done_task_id(s2, s2.subtasks[k].task_id) by {
                    if k == si {
                        if done_task_id(s2, st.task_id) {
                            let j = choose|j: int| 0 <= j < s2.tasks.len() && #[trigger] s2.tasks[j].id == st.task_id && s2.tasks[j].done;
                            assert(s.tasks[j].id == s.tasks[ti].id);
                            lemma_task_ids_unique(s, j, ti);
                        }
                    } else {
                        assert(s.subtasks[k] == s2.subtasks[k]);
                    }
                }
                lemma_completion_frame(s, s2);
            } else {
                assert(s2 == s1);
                assert forall|j: int| 0 <= j < s2.tasks.len() && #[trigger] s2.tasks[j].done implies !s.has_pending_subtask(
                    s2.tasks[j].id,
                ) by {
                    lemma_done_has_none(s, j);
                }
                assert forall|k: int| 0 <= k < s2.subtasks.len() && !#[trigger] s2.subtasks[k].done implies s.has_pending_subtask(
                    s2.subtasks[k].task_id,
                ) || !done_task_id(s2, s2.subtasks[k].task_id) by {
                    if k == si {
                        if done_task_id(s2, st.task_id) {
                            let j = choose|j: int| 0 <= j < s2.tasks.len() && #[trigger] s2.tasks[j].id == st.task_id && s2.tasks[j].done;
                            lemma_task_ids_unique(s, j, ti);
                        }
                    } else {
                        assert(s.subtasks[k] == s2.subtasks[k]);
                    }
                }
                lemma_completion_frame(s, s2);
            }
        }
    }
}

/// Modifying a subtask keeps a consistent store consistent: marking it pending reopens its task.
pub proof fn law_modify_subtask_keeps_completion(
    s: EngineV,
    id: int,
    new_name: Option<Seq<char>>,
    new_due: Option<Option<int>>,
    new_done: Option<bool>,
)
    requires
        s.wf(),
        s.completion_consistent(),
    ensures
        s.modify_subtask_by_id(id, new_name, new_due, new_done).0.completion_consistent(),
{
    let si = s.subtask_index(id);
    lemma_first_index(s.subtasks, super::model::subtask_with_id(id));
    if si >= 0 {
        let st = s.subtasks[si];
        let ti = s.task_index(st.task_id);
        lemma_first_index(s.tasks, task_with_id(st.task_id));
        if ti >= 0 {
            let task = s.tasks[ti];
            let reopened = if new_done == Some(false) && task.done {
                s.reopen(ti)
            } else {
                Ok(s)
            };
            if reopened is Ok {
                let s1 = reopened->Ok_0;
                if new_done == Some(false) && task.done {
                    lemma_reopen_frame(s, ti);
                }
                assert(s1.wf() && s1.completion_consistent());
                assert(s1.subtasks == s.subtasks && s1.tasks.len() == s.tasks.len());
                assert(s1.tasks[ti].id == st.task_id);
                assert(new_done == Some(false) ==> !s1.tasks[ti].done);
                let s2 = s.modify_subtask_by_id(id, new_name, new_due, new_done).0;
                if s2 != s1 && s2 != s {
                    let nst = s2.subtasks[si];
                    assert(s2 == s1.with_subtasks(s1.subtasks.update(si, nst)));
                    assert(nst.task_id == st.task_id);
                    assert(!nst.done ==> new_done == Some(false) || (new_done is None && !st.done));
                    assert forall|j: int| 0 <= j < s2.tasks.len() && #[trigger] s2.tasks[j].done implies !s1.has_pending_subtask(
                        s2.tasks[j].id,
                    ) by {
                        lemma_done_has_none(s1, j);
                    }
                    assert forall|k: int| 0 <= k < s2.subtasks.len() && !#[trigger] s2.subtasks[k].done implies s1.has_pending_subtask(
                        s2.subtasks[k].task_id,
                    ) || !done_task_id(s2, s2.subtasks[k].task_id) by {
                        if k == si {
                            if new_done == Some(false) {
                                if done_task_id(s2, st.task_id) {
                                    let j = choose|j: int| 0 <= j < s2.tasks.len() && #[trigger] s2.tasks[j].id == st.task_id && s2.tasks[j].done;
                                    lemma_task_ids_unique(s1, j, ti);
                                }
                            } else {
                                assert(s1.subtasks[si] == st);
                            }
                        } else {
                            assert(s1.subtasks[k] == s2.subtasks[k]);
                        }
                    }
                    lemma_completion_frame(s1, s2);
                }
            }
        }
    }
}

/// Copying subtasks under a new task only appends pending subtasks of that task.
pub proof fn lemma_copy_subtasks_shape(
    s: EngineV,
    subs: Seq<SubtaskV>,
    new_id: int,
    old_due: Option<int>,
    next_due: int,
    r: crate::models::Recurrence,
    now: int,
)
    ensures
        ({
            let s2 = s.copy_subtasks(subs, new_id, old_due, next_due, r, now).0;
            &&& s2.tasks == s.tasks
            &&& s2.subtasks.len() >= s.subtasks.len()
            &&& forall|k: int| 0 <= k < s.subtasks.len() ==> #[trigger] s2.subtasks[k] == s.subtasks[k]
            &&& forall|k: int|
                s.subtasks.len() <= k < s2.subtasks.len() ==> (#[trigger] s2.subtasks[k]).task_id == new_id
                    && !s2.subtasks[k].done
        }),
    decreases subs.len(),
{
    if subs.len() > 0 {
        lemma_copy_subtasks_shape(s, subs.drop_last(), new_id, old_due, next_due, r, now);
    }
}

/// Changing a task keeps a consistent store consistent: it is completed only without
/// pending subtasks, and the next occurrence of a recurring task is pending with pending
/// subtasks.
pub proof fn law_modify_task_keeps_completion(
    s: EngineV,
    id: int,
    name: Option<Seq<char>>,
    description: Option<Seq<char>>,
    priority: Option<int>,
    due: Option<Option<int>>,
    recurrence: Option<Option<Seq<char>>>,
    done: Option<bool>,
    now: int,
)
    requires
        s.wf(),
        s.completion_consistent(),
    ensures
        s.modify_task_by_id(id, name, description, priority, due, recurrence, done, now).0.completion_consistent(),
{
    let i = s.task_index(id);
    lemma_first_index(s.tasks, task_with_id(id));
    let s_final = s.modify_task_by_id(id, name, description, priority, due, recurrence, done, now).0;
    if i >= 0 && s_final != s {
        let cur = s.tasks[i];
        let new = EngineV::patched_task(cur, name, description, priority, due, recurrence, done, now);
        let s1 = s.with_tasks(s.tasks.update(i, new));
        assert(new.id == cur.id);
        assert forall|j: int| 0 <= j < s1.tasks.len() && #[trigger] s1.tasks[j].done implies !s.has_pending_subtask(
            s1.tasks[j].id,
        ) by {
            if j != i {
                lemma_done_has_none(s, j);
            } else if done != Some(true) {
                lemma_done_has_none(s, i);
            }
        }
        assert forall|k: int| 0 <= k < s1.subtasks.len() && !#[trigger] s1.subtasks[k].done implies s.has_pending_subtask(
            s1.subtasks[k].task_id,
        ) || !done_task_id(s1, s1.subtasks[k].task_id) by {
            assert(s.subtasks[k] == s1.subtasks[k]);
        }
        lemma_completion_frame(s, s1);
        if done == Some(true) && super::model::recurrence_given(new.recurrence) {
            let s3 = s1.clone_recurring(new, now).0;
            if s3 != s1 {
                let rec_str = new.recurrence->0;
                let rr = crate::models::parse_recurrence_spec(rec_str)->0;
                let base = match new.due_date {
                    Some(d) => d,
                    None => now,
                };
                let next = crate::models::next_date_spec(rr, base);
                let nt_id = super::model::next_row_id(super::model::last_id_tasks(s1.tasks));
                let pushed = s1.tasks.push(TaskV {
                    id: nt_id,
                    project_id: new.project_id,
                    name: new.name,
                    description: new.description,
                    priority: new.priority,
                    due_date: Some(next),
                    recurrence: Some(rec_str),
                    done: false,
                    created_at: super::model::sql_now(now),
                });
                let s2a = s1.with_tasks(pushed);
                let s2 = EngineV {
                    task_tags: s2a.task_tags + s2a.task_tags.filter(super::model::link_owner_is(new.id)).map_values(
                        super::model::relink(nt_id),
                    ),
                    ..s2a
                };
                let subs = super::model::sort_subtasks(s2.subtasks.filter(super::model::subtask_task_is(new.id)));
                assert(s3 == s2.copy_subtasks(subs, nt_id, new.due_date, next, rr, now).0);
                lemma_copy_subtasks_shape(s2, subs, nt_id, new.due_date, next, rr, now);
                assert(s3.tasks == pushed);
                assert forall|j: int| 0 <= j < s1.tasks.len() implies #[trigger] s1.tasks[j].id < nt_id by {
                    if j < s1.tasks.len() - 1 {
                        assert(s.tasks[j].id < s.tasks[s.tasks.len() - 1].id);
                    }
                }
                assert forall|j: int| 0 <= j < s3.tasks.len() && #[trigger] s3.tasks[j].done implies !s1.has_pending_subtask(
                    s3.tasks[j].id,
                ) by {
                    assert(j < s1.tasks.len());
                    assert(s3.tasks[j] == s1.tasks[j]);
                    lemma_done_has_none(s1, j);
                }
                assert forall|k: int| 0 <= k < s3.subtasks.len() && !#[trigger] s3.subtasks[k].done implies s1.has_pending_subtask(
                    s3.subtasks[k].task_id,
                ) || !done_task_id(s3, s3.subtasks[k].task_id) by {
                    if k < s1.subtasks.len() {
                        assert(s2.subtasks[k] == s1.subtasks[k]);
                        assert(s3.subtasks[k] == s1.subtasks[k]);
                    } else {
                        assert(s3.subtasks[k].task_id == nt_id);
                        if done_task_id(s3, nt_id) {
                            let j = choose|j: int| 0 <= j < s3.tasks.len() && #[trigger] s3.tasks[j].id == nt_id && s3.tasks[j].done;
                            if j < s1.tasks.len() {
                                assert(s3.tasks[j] == s1.tasks[j]);
                            }
                        }
                    }
                }
                lemma_completion_frame(s1, s3);
            }
        }
    }
}

/// Completing or reopening a task keeps a consistent store consistent.
pub proof fn law_toggle_done_keeps_completion(s: EngineV, id: int, now: int)
    requires
        s.wf(),
        s.completion_consistent(),
    ensures
        s.toggle_done_by_id(id, now).0.completion_consistent(),
{
    if let Ok(t) = s.get_task_by_id(id) {
        law_modify_task_keeps_completion(s, id, None, None, None, None, None, Some(!t.done), now);
    }
}

/// A project just created is what a lookup by its name or by its id gives.
pub proof fn law_created_project_is_found(s: EngineV, name: Seq<char>, description: Seq<char>, now: int)
    requires
        s.wf(),
        s.create_project(name, description, now).1 is Ok,
    ensures
        ({
            let (s2, r) = s.create_project(name, description, now);
            &&& s2.get_project_by_name(name) == r
            &&& s2.get_project_by_id(r->Ok_0.id) == r
        }),
{
    let (s2, r) = s.create_project(name, description, now);
    let p = r->Ok_0;
    let n = s.projects.len() as int;
    lemma_first_index(s.projects, super::model::project_named(name));
    assert forall|j: int| 0 <= j < n implies !super::model::project_named(name)(#[trigger] s2.projects[j]) by {
        assert(s2.projects[j] == s.projects[j]);
    }
    super::model::lemma_first_index_is(s2.projects, super::model::project_named(name), n);
    assert forall|j: int| 0 <= j < n implies !super::model::project_with_id(p.id)(#[trigger] s2.projects[j]) by {
        assert(s2.projects[j] == s.projects[j]);
        if j < n - 1 {
            assert(s.projects[j].id < s.projects[n - 1].id);
        }
    }
    super::model::lemma_first_index_is(s2.projects, super::model::project_with_id(p.id), n);
}

/// After a project is deleted, no project has its name.
pub proof fn law_deleted_project_is_gone(s: EngineV, name: Seq<char>)
    requires
        s.wf(),
    ensures
        s.delete_project(name).0.get_project_by_name(name) == Err::<super::model::ProjectV, ErrorV>(ErrorV::NotFound(name)),
{
    let i = s.project_index(name);
    lemma_first_index(s.projects, super::model::project_named(name));
    if i >= 0 {
        let pid = s.projects[i].id;
        let ps = s.projects.filter(project_id_not(pid));
        lemma_filter_members(s.projects, project_id_not(pid));
        assert forall|j: int| 0 <= j < ps.len() implies !super::model::project_named(name)(#[trigger] ps[j]) by {
            let k = choose|k: int| 0 <= k < s.projects.len() && s.projects[k] == ps[j];
            if s.projects[k].name == name {
                if k < i {
                    assert(!super::model::project_named(name)(s.projects[k]));
                } else if i < k {
                    assert(s.projects[i].name != s.projects[k].name);
                }
            }
        }
        super::model::lemma_first_index_is(ps, super::model::project_named(name), -1);
    }
}

/// A task just created is what a lookup by its id, or by its project's name and its own
/// name, gives.
pub proof fn law_created_task_is_found(
    s: EngineV,
    pname: Seq<char>,
    name: Seq<char>,
    description: Seq<char>,
    priority: int,
    due: Option<int>,
    recurrence: Option<Seq<char>>,
    now: int,
)
    requires
        s.wf(),
        s.create_task(pname, name, description, priority, due, recurrence, now).1 is Ok,
    ensures
        ({
            let (s2, r) = s.create_task(pname, name, description, priority, due, recurrence, now);
            &&& s2.get_task_by_id(r->Ok_0.id) == r
            &&& s2.get_task_by_name(pname, name) == r
        }),
{
    let (s2, r) = s.create_task(pname, name, description, priority, due, recurrence, now);
    let t = r->Ok_0;
    let n = s.tasks.len() as int;
    assert forall|j: int| 0 <= j < n implies !task_with_id(t.id)(#[trigger] s2.tasks[j]) by {
        assert(s2.tasks[j] == s.tasks[j]);
        if j < n - 1 {
            assert(s.tasks[j].id < s.tasks[n - 1].id);
        }
    }
    super::model::lemma_first_index_is(s2.tasks, task_with_id(t.id), n);
    assert(s2.project_index(pname) == s.project_index(pname));
    assert(s2.task_matches(s2.tasks[n], pname, name));
    assert forall|j: int|
        0 <= j < s2.tasks.len() && s2.task_matches(#[trigger] s2.tasks[j], pname, name) implies !super::model::pick_before(
        s2.tasks[j],
        s2.tasks[n],
    ) by {
        if j < n && !s2.tasks[j].done {
            assert(s.tasks[j] == s2.tasks[j]);
            assert(s.pending_name_taken(t.project_id, name, -1));
        }
    }
    let k = s2.task_by_name_index(pname, name);
    assert(0 <= k < s2.tasks.len());
    if k != n {
        assert(k < n);
        assert(s2.tasks[k] == s.tasks[k]);
        if !s2.tasks[k].done {
            assert(s.pending_name_taken(t.project_id, name, -1));
        }
        assert(super::model::pick_before(s2.tasks[n], s2.tasks[k]));
    }
}

/// Every task whose due date `DATE()` can read.
pub open spec fn due_dates_readable(ts: Seq<TaskV>) -> bool {
    forall|i: int| 0 <= i < ts.len() ==> ((#[trigger] ts[i]).due_date matches Some(d) ==> crate::dates::sql_day(d) is Some)
}

pub proof fn lemma_partition_counts(ts: Seq<TaskV>, today: int)
    requires
        due_dates_readable(ts),
    ensures
        ts.filter(crate::engine::agenda::stat_done()).len() + ts.filter(crate::engine::agenda::stat_pending(today)).len()
            + ts.filter(crate::engine::agenda::stat_overdue(today)).len() == ts.len(),
    decreases ts.len(),
{
    reveal_with_fuel(Seq::filter, 1);
    if ts.len() > 0 {
        let d = ts.drop_last();
        assert forall|i: int| 0 <= i < d.len() implies ((#[trigger] d[i]).due_date matches Some(x) ==> crate::dates::sql_day(x) is Some) by {
            assert(d[i] == ts[i]);
        }
        lemma_partition_counts(d, today);
        assert(ts.last() == ts[ts.len() - 1]);
    }
}

/// Each task counts as exactly one of done, pending (not due before today) and overdue,
/// where `DATE()` can read every due date.
pub proof fn law_stats_partition(st: crate::models::Stats, ts: Seq<TaskV>, today: int)
    requires
        crate::engine::agenda::stats_of(st, ts, today),
        due_dates_readable(ts),
    ensures
        st.total == st.done + st.pending + st.overdue,
{
    lemma_partition_counts(ts, today);
}

/// Tag operations change neither tasks nor subtasks nor projects.
pub proof fn lemma_add_project_tags_frame(s: EngineV, pid: int, names: Seq<Seq<char>>)
    ensures
        ({
            let s2 = s.add_project_tags(pid, names).0;
            &&& s2.tasks == s.tasks
            &&& s2.subtasks == s.subtasks
            &&& s2.projects == s.projects
            &&& s2.tags.len() >= s.tags.len()
            &&& forall|k: int| 0 <= k < s.tags.len() ==> #[trigger] s2.tags[k] == s.tags[k]
            &&& forall|l: (int, int)| s.project_tags.contains(l) ==> s2.project_tags.contains(l)
        }),
    decreases names.len(),
{
    if names.len() > 0 {
        lemma_add_project_tags_frame(s, pid, names.drop_last());
        let (s1, r) = s.add_project_tags(pid, names.drop_last());
        if r is Ok {
            let (s2, t) = s1.get_or_create_tag(names.last());
            if t is Ok {
                let s3 = s2.link_project_tag(pid, t->Ok_0.id);
                assert forall|l: (int, int)| s.project_tags.contains(l) implies s3.project_tags.contains(l) by {
                    assert(s1.project_tags.contains(l));
                    let k = choose|k: int| 0 <= k < s2.project_tags.len() && s2.project_tags[k] == l;
                    if !s2.project_tags.contains((pid, t->Ok_0.id)) {
                        assert(s3.project_tags[k] == l);
                    }
                }
            }
        }
    }
}

/// Each name of a successful `add_project_tags` names a tag linked to the project.
pub proof fn lemma_added_tags_linked(s: EngineV, pid: int, names: Seq<Seq<char>>)
    requires
        s.add_project_tags(pid, names).1 is Ok,
    ensures
        ({
            let s2 = s.add_project_tags(pid, names).0;
            forall|n: int| 0 <= n < names.len() ==> exists|k: int|
                0 <= k < s2.tags.len() && s2.tags[k].name == #[trigger] names[n] && s2.project_tags.contains(
                    (pid, s2.tags[k].id),
                )
        }),
    decreases names.len(),
{
    if names.len() > 0 {
        let d = names.drop_last();
        let (s1, r1) = s.add_project_tags(pid, d);
        assert(r1 is Ok);
        lemma_added_tags_linked(s, pid, d);
        let (s2, t) = s1.get_or_create_tag(names.last());
        assert(t is Ok);
        let tag = t->Ok_0;
        let s3 = s2.link_project_tag(pid, tag.id);
        assert(s3 == s.add_project_tags(pid, names).0);
        if !s2.project_tags.contains((pid, tag.id)) {
            assert(s3.project_tags[s2.project_tags.len() as int] == (pid, tag.id));
        }
        lemma_first_index(s1.tags, super::model::tag_named(names.last()));
        let kt = if s1.tag_index(names.last()) >= 0 {
            s1.tag_index(names.last())
        } else {
            s1.tags.len() as int
        };
        assert(s3.tags[kt] == tag && tag.name == names.last());
        assert(s3.project_tags.contains((pid, tag.id)));
        assert forall|n: int| 0 <= n < names.len() implies exists|k: int|
            0 <= k < s3.tags.len() && s3.tags[k].name == #[trigger] names[n] && s3.project_tags.contains(
                (pid, s3.tags[k].id),
            ) by {
            if n < d.len() {
                assert(d[n] == names[n]);
                let k = choose|k: int|
                    0 <= k < s1.tags.len() && s1.tags[k].name == d[n] && s1.project_tags.contains((pid, s1.tags[k].id));
                assert(s3.tags[k] == s1.tags[k]);
                let m = choose|m: int| 0 <= m < s1.project_tags.len() && s1.project_tags[m] == (pid, s1.tags[k].id);
                assert(s3.project_tags[m] == s1.project_tags[m]);
            } else {
                assert(names[n] == names.last());
            }
        }
    }
}

/// After tags are added to a project, each of them is among the project's tags.
pub proof fn law_added_tags_are_listed(s: EngineV, pname: Seq<char>, names: Seq<Seq<char>>)
    requires
        s.wf(),
        s.add_tags_to_project(pname, names).1 is Ok,
    ensures
        forall|n: int| 0 <= n < names.len() ==> crate::tui::view::tag_names(
            s.add_tags_to_project(pname, names).0.get_tags_for_project(pname),
        ).contains(#[trigger] names[n]),
{
    let p = s.get_project_by_name(pname)->Ok_0;
    let s2 = s.add_tags_to_project(pname, names).0;
    lemma_add_project_tags_frame(s, p.id, names);
    lemma_added_tags_linked(s, p.id, names);
    assert(s2.project_index(pname) == s.project_index(pname));
    let listed = s2.tags.filter(crate::engine::tags::tag_linked(s2.project_tags, p.id));
    lemma_filter_members(s2.tags, crate::engine::tags::tag_linked(s2.project_tags, p.id));
    assert forall|n: int| 0 <= n < names.len() implies crate::tui::view::tag_names(listed).contains(#[trigger] names[n]) by {
        let k = choose|k: int|
            0 <= k < s2.tags.len() && s2.tags[k].name == names[n] && s2.project_tags.contains((p.id, s2.tags[k].id));
        assert(crate::engine::tags::tag_linked(s2.project_tags, p.id)(s2.tags[k]));
        assert(listed.contains(s2.tags[k]));
        let m = choose|m: int| 0 <= m < listed.len() && listed[m] == s2.tags[k];
        assert(crate::tui::view::tag_names(listed)[m] == names[n]);
    }
}

/// After a tag is removed from a project, no tag of that name is among the project's tags.
pub proof fn law_removed_tag_is_unlisted(s: EngineV, pname: Seq<char>, tag: Seq<char>)
    requires
        s.wf(),
        s.remove_tag_from_project(pname, tag).1 is Ok,
    ensures
        !crate::tui::view::tag_names(s.remove_tag_from_project(pname, tag).0.get_tags_for_project(pname)).contains(tag),
{
    let p = s.get_project_by_name(pname)->Ok_0;
    let t = s.get_tag_by_name(tag)->Ok_0;
    let ti = s.tag_index(tag);
    lemma_first_index(s.tags, super::model::tag_named(tag));
    let s2 = s.remove_tag_from_project(pname, tag).0;
    let pred = crate::engine::tags::tag_linked(s2.project_tags, p.id);
    let listed = s2.tags.filter(pred);
    lemma_filter_members(s2.tags, pred);
    lemma_filter_members(s.project_tags, link_not((p.id, t.id)));
    if crate::tui::view::tag_names(listed).contains(tag) {
        let m = choose|m: int| 0 <= m < listed.len() && crate::tui::view::tag_names(listed)[m] == tag;
        assert(listed[m].name == tag);
        assert(s2.tags.contains(listed[m]));
        let k = choose|k: int| 0 <= k < s2.tags.len() && s2.tags[k] == listed[m];
        if k != ti {
            if k < ti {
                assert(!super::model::tag_named(tag)(s.tags[k]));
            } else {
                assert(s.tags[ti].name != s.tags[k].name);
            }
        }
        assert(pred(listed[m]));
        assert(s2.project_tags.contains((p.id, t.id)));
    }
}

/// Project and tag operations leave tasks and subtasks as they are, so a consistent store
/// stays consistent.
pub proof fn law_project_and_tag_ops_keep_completion(
    s: EngineV,
    pname: Seq<char>,
    other: Seq<char>,
    description: Option<Seq<char>>,
    names: Seq<Seq<char>>,
    now: int,
)
    requires
        s.wf(),
        s.completion_consistent(),
    ensures
        s.create_project(pname, other, now).0.completion_consistent(),
        s.modify_project(pname, Some(other), description).0.completion_consistent(),
        s.add_tags_to_project(pname, names).0.completion_consistent(),
        s.remove_tag_from_project(pname, other).0.completion_consistent(),
{
    if let Ok(p) = s.get_project_by_name(pname) {
        lemma_add_project_tags_frame(s, p.id, names);
    }
}

/// Filtering a sequence with one more element.
pub proof fn lemma_filter_push<A>(s: Seq<A>, x: A, p: spec_fn(A) -> bool)
    ensures
        s.push(x).filter(p) == (if p(x) {
            s.filter(p).push(x)
        } else {
            s.filter(p)
        }),
{
    reveal_with_fuel(Seq::filter, 1);
    assert(s.push(x).drop_last() =~= s);
}

/// The count of tasks due on a day is the length of the list of tasks due on that day.
pub proof fn law_count_is_list_length(s: EngineV, y: int, m: int, d: int)
    ensures
        s.count_tasks_due_on(y, m, d) == s.list_tasks_due_on(y, m, d).len(),
{
    match crate::engine::agenda::sql_date_of(y, m, d) {
        None => {},
        Some(day) => {
            let f = crate::engine::agenda::DueFilter::On(day as i128);
            crate::engine::model::lemma_insertion_sort_len(s.due_rows(f), crate::engine::agenda::row_order(false));
        },
    }
}

/// The number of tasks of priority 1 to 4 together.
pub proof fn lemma_priorities_within(ts: Seq<TaskV>)
    ensures
        ts.filter(stat_priority(1)).len() + ts.filter(stat_priority(2)).len() + ts.filter(stat_priority(3)).len()
            + ts.filter(stat_priority(4)).len() <= ts.len(),
    decreases ts.len(),
{
    if ts.len() > 0 {
        let s0 = ts.drop_last();
        let x = ts.last();
        lemma_priorities_within(s0);
        assert(s0.push(x) =~= ts);
        lemma_filter_push(s0, x, stat_priority(1));
        lemma_filter_push(s0, x, stat_priority(2));
        lemma_filter_push(s0, x, stat_priority(3));
        lemma_filter_push(s0, x, stat_priority(4));
    }
}

/// The tasks of the projects with the first `n` ids that a predicate keeps, counted project
/// by project.
pub open spec fn per_project_count(ts: Seq<TaskV>, pids: Seq<int>, n: int, p: spec_fn(TaskV) -> bool) -> int
    decreases n,
{
    if n <= 0 {
        0
    } else {
        per_project_count(ts, pids, n - 1, p) + ts.filter(task_project_is(pids[n - 1])).filter(p).len()
    }
}

/// How often `v` occurs among the first `n` ids.
pub open spec fn occurrences(pids: Seq<int>, n: int, v: int) -> int
    decreases n,
{
    if n <= 0 {
        0
    } else {
        occurrences(pids, n - 1, v) + if pids[n - 1] == v {
            1int
        } else {
            0int
        }
    }
}

proof fn lemma_per_project_push(ts: Seq<TaskV>, t: TaskV, pids: Seq<int>, n: int, p: spec_fn(TaskV) -> bool)
    requires
        0 <= n <= pids.len(),
    ensures
        per_project_count(ts.push(t), pids, n, p) == per_project_count(ts, pids, n, p) + if p(t) {
            occurrences(pids, n, t.project_id)
        } else {
            0
        },
    decreases n,
{
    if n > 0 {
        lemma_per_project_push(ts, t, pids, n - 1, p);
        let q = task_project_is(pids[n - 1]);
        lemma_filter_push(ts, t, q);
        if q(t) {
            lemma_filter_push(ts.filter(q), t, p);
        }
    }
}

proof fn lemma_occurs_once(pids: Seq<int>, n: int, v: int, k: int)
    requires
        0 <= k < n <= pids.len(),
        pids[k] == v,
        forall|i: int, j: int| 0 <= i < j < pids.len() ==> pids[i] != pids[j],
    ensures
        occurrences(pids, n, v) == 1,
    decreases n,
{
    if n - 1 > k {
        lemma_occurs_once(pids, n - 1, v, k);
    } else {
        lemma_occurs_none(pids, n - 1, v);
    }
}

proof fn lemma_occurs_none(pids: Seq<int>, n: int, v: int)
    requires
        0 <= n <= pids.len(),
        forall|i: int| 0 <= i < n ==> pids[i] != v,
    ensures
        occurrences(pids, n, v) == 0,
    decreases n,
{
    if n > 0 {
        lemma_occurs_none(pids, n - 1, v);
    }
}

/// `v` is one of the ids.
pub open spec fn id_among(pids: Seq<int>, v: int) -> bool {
    exists|j: int| 0 <= j < pids.len() && pids[j] == v
}

/// Where every task belongs to exactly one of the projects, the tasks a predicate keeps are
/// the sum of those it keeps in each project.
proof fn lemma_count_by_project(ts: Seq<TaskV>, pids: Seq<int>, p: spec_fn(TaskV) -> bool)
    requires
        forall|i: int, j: int| 0 <= i < j < pids.len() ==> pids[i] != pids[j],
        forall|k: int| 0 <= k < ts.len() ==> id_among(pids, #[trigger] ts[k].project_id),
    ensures
        ts.filter(p).len() == per_project_count(ts, pids, pids.len() as int, p),
    decreases ts.len(),
{
    if ts.len() == 0 {
        reveal_with_fuel(Seq::filter, 1);
        lemma_per_project_empty(ts, pids, pids.len() as int, p);
    } else {
        let s0 = ts.drop_last();
        let t = ts.last();
        assert forall|k: int| 0 <= k < s0.len() implies id_among(pids, #[trigger] s0[k].project_id) by {
            assert(s0[k] == ts[k]);
            assert(id_among(pids, ts[k].project_id));
        }
        lemma_count_by_project(s0, pids, p);
        assert(s0.push(t) =~= ts);
        lemma_filter_push(s0, t, p);
        lemma_per_project_push(s0, t, pids, pids.len() as int, p);
        assert(ts[ts.len() - 1] == t);
        assert(id_among(pids, ts[ts.len() - 1].project_id));
        let j = choose|j: int| 0 <= j < pids.len() && pids[j] == ts[ts.len() - 1].project_id;
        lemma_occurs_once(pids, pids.len() as int, t.project_id, j);
    }
}

proof fn lemma_per_project_empty(ts: Seq<TaskV>, pids: Seq<int>, n: int, p: spec_fn(TaskV) -> bool)
    requires
        ts.len() == 0,
    ensures
        per_project_count(ts, pids, n, p) == 0,
    decreases n,
{
    reveal_with_fuel(Seq::filter, 1);
    if n > 0 {
        lemma_per_project_empty(ts, pids, n - 1, p);
        assert(ts.filter(task_project_is(pids[n - 1])) =~= Seq::<TaskV>::empty());
    }
}

/// The sum of one count over a list of counts.
pub open spec fn sum_of(per: Seq<Stats>, f: spec_fn(Stats) -> int) -> int
    decreases per.len(),
{
    if per.len() == 0 {
        0
    } else {
        sum_of(per.drop_last(), f) + f(per.last())
    }
}

proof fn lemma_sum_matches(s: EngineV, per: Seq<Stats>, p: spec_fn(TaskV) -> bool, f: spec_fn(Stats) -> int, n: int)
    requires
        s.wf(),
        0 <= n <= per.len(),
        per.len() == s.projects.len(),
        forall|j: int| 0 <= j < per.len() ==> #[trigger] f(per[j]) == s.tasks.filter(task_project_is(s.projects[j].id)).filter(p).len(),
    ensures
        sum_of(per.take(n), f) == per_project_count(s.tasks, s.projects.map_values(|q: ProjectV| q.id), n, p),
    decreases n,
{
    if n > 0 {
        lemma_sum_matches(s, per, p, f, n - 1);
        assert(per.take(n).drop_last() =~= per.take(n - 1));
        assert(per.take(n).last() == per[n - 1]);
        assert(f(per[n - 1]) == s.tasks.filter(task_project_is(s.projects[n - 1].id)).filter(p).len());
    } else {
        assert(per.take(0) =~= Seq::<Stats>::empty());
    }
}

/// A project is found by its own name.
proof fn lemma_project_by_own_name(s: EngineV, j: int)
    requires
        s.wf(),
        0 <= j < s.projects.len(),
    ensures
        s.project_index(s.projects[j].name) == j,
{
    crate::engine::model::lemma_first_index_is(s.projects, project_named(s.projects[j].name), j);
}

/// One count of the whole store is the sum of that count over the projects.
proof fn lemma_count_is_sum(s: EngineV, per: Seq<Stats>, p: spec_fn(TaskV) -> bool, f: spec_fn(Stats) -> int)
    requires
        s.wf(),
        per.len() == s.projects.len(),
        forall|j: int| 0 <= j < per.len() ==> #[trigger] f(per[j]) == s.project_tasks(s.projects[j].name).filter(p).len(),
    ensures
        s.tasks.filter(p).len() == sum_of(per, f),
{
    let pids = s.projects.map_values(|q: ProjectV| q.id);
    assert forall|j: int| 0 <= j < per.len() implies #[trigger] f(per[j]) == s.tasks.filter(task_project_is(s.projects[j].id)).filter(p).len() by {
        lemma_project_by_own_name(s, j);
    }
    lemma_sum_matches(s, per, p, f, per.len() as int);
    assert(per.take(per.len() as int) =~= per);
    assert forall|i: int, j: int| 0 <= i < j < pids.len() implies pids[i] != pids[j] by {
        assert(s.projects[i].id < s.projects[j].id);
    }
    assert forall|k: int| 0 <= k < s.tasks.len() implies id_among(pids, #[trigger] s.tasks[k].project_id) by {
        assert(s.project_exists(s.tasks[k].project_id));
        let j = choose|j: int| 0 <= j < s.projects.len() && #[trigger] s.projects[j].id == s.tasks[k].project_id;
        assert(pids[j] == s.projects[j].id);
    }
    lemma_count_by_project(s.tasks, pids, p);
}

pub open spec fn total_of() -> spec_fn(Stats) -> int {
    |st: Stats| st.total as int
}

pub open spec fn done_of() -> spec_fn(Stats) -> int {
    |st: Stats| st.done as int
}

pub open spec fn pending_of() -> spec_fn(Stats) -> int {
    |st: Stats| st.pending as int
}

pub open spec fn overdue_of() -> spec_fn(Stats) -> int {
    |st: Stats| st.overdue as int
}

pub open spec fn priority_count_of(k: int) -> spec_fn(Stats) -> int {
    |st: Stats| if k == 1 {
        st.p1 as int
    } else if k == 2 {
        st.p2 as int
    } else if k == 3 {
        st.p3 as int
    } else {
        st.p4 as int
    }
}

/// The counts of the whole store are the sums of the counts of its projects, and the tasks
/// of priorities 1 to 4 are at most all of them.
pub proof fn law_global_stats_is_sum(s: EngineV, g: Stats, per: Seq<Stats>, today: int)
    requires
        s.wf(),
        stats_of(g, s.tasks, today),
        per.len() == s.projects.len(),
        forall|j: int| 0 <= j < per.len() ==> stats_of(#[trigger] per[j], s.project_tasks(s.projects[j].name), today),
    ensures
        g.total == sum_of(per, total_of()),
        g.done == sum_of(per, done_of()),
        g.pending == sum_of(per, pending_of()),
        g.overdue == sum_of(per, overdue_of()),
        g.p1 == sum_of(per, priority_count_of(1)),
        g.p2 == sum_of(per, priority_count_of(2)),
        g.p3 == sum_of(per, priority_count_of(3)),
        g.p4 == sum_of(per, priority_count_of(4)),
        g.p1 + g.p2 + g.p3 + g.p4 <= g.total,
{
    let all = |t: TaskV| true;
    assert forall|j: int| 0 <= j < per.len() implies #[trigger] total_of()(per[j]) == s.project_tasks(s.projects[j].name).filter(all).len() by {
        assert(stats_of(per[j], s.project_tasks(s.projects[j].name), today));
        lemma_filter_all_true(s.project_tasks(s.projects[j].name), all);
    }
    lemma_count_is_sum(s, per, all, total_of());
    lemma_filter_all_true(s.tasks, all);
    assert forall|j: int| 0 <= j < per.len() implies #[trigger] done_of()(per[j]) == s.project_tasks(s.projects[j].name).filter(stat_done()).len() by {
        assert(stats_of(per[j], s.project_tasks(s.projects[j].name), today));
    }
    lemma_count_is_sum(s, per, stat_done(), done_of());
    assert forall|j: int| 0 <= j < per.len() implies #[trigger] pending_of()(per[j]) == s.project_tasks(s.projects[j].name).filter(stat_pending(today)).len() by {
        assert(stats_of(per[j], s.project_tasks(s.projects[j].name), today));
    }
    lemma_count_is_sum(s, per, stat_pending(today), pending_of());
    assert forall|j: int| 0 <= j < per.len() implies #[trigger] overdue_of()(per[j]) == s.project_tasks(s.projects[j].name).filter(stat_overdue(today)).len() by {
        assert(stats_of(per[j], s.project_tasks(s.projects[j].name), today));
    }
    lemma_count_is_sum(s, per, stat_overdue(today), overdue_of());
    assert forall|j: int| 0 <= j < per.len() implies #[trigger] priority_count_of(1)(per[j]) == s.project_tasks(s.projects[j].name).filter(stat_priority(1)).len() by {
        assert(stats_of(per[j], s.project_tasks(s.projects[j].name), today));
    }
    lemma_count_is_sum(s, per, stat_priority(1), priority_count_of(1));
    assert forall|j: int| 0 <= j < per.len() implies #[trigger] priority_count_of(2)(per[j]) == s.project_tasks(s.projects[j].name).filter(stat_priority(2)).len() by {
        assert(stats_of(per[j], s.project_tasks(s.projects[j].name), today));
    }
    lemma_count_is_sum(s, per, stat_priority(2), priority_count_of(2));
    assert forall|j: int| 0 <= j < per.len() implies #[trigger] priority_count_of(3)(per[j]) == s.project_tasks(s.projects[j].name).filter(stat_priority(3)).len() by {
        assert(stats_of(per[j], s.project_tasks(s.projects[j].name), today));
    }
    lemma_count_is_sum(s, per, stat_priority(3), priority_count_of(3));
    assert forall|j: int| 0 <= j < per.len() implies #[trigger] priority_count_of(4)(per[j]) == s.project_tasks(s.projects[j].name).filter(stat_priority(4)).len() by {
        assert(stats_of(per[j], s.project_tasks(s.projects[j].name), today));
    }
    lemma_count_is_sum(s, per, stat_priority(4), priority_count_of(4));
    lemma_priorities_within(s.tasks);
}

/// A predicate that keeps everything keeps the whole sequence.
proof fn lemma_filter_all_true<A>(s: Seq<A>, p: spec_fn(A) -> bool)
    requires
        forall|x: A| #[trigger] p(x),
    ensures
        s.filter(p).len() == s.len(),
    decreases s.len(),
{
    reveal_with_fuel(Seq::filter, 1);
    if s.len() > 0 {
        lemma_filter_all_true(s.drop_last(), p);
    }
}

/// Not done and not late: no due date, or due today or later.
pub open spec fn not_late(today: int) -> spec_fn(TaskV) -> bool {
    |t: TaskV| !t.done && (t.due_date is None || (sql_day(t.due_date->0) is Some && sql_day(t.due_date->0)->0 >= today))
}

/// Not done and due on a day before today.
pub open spec fn late(today: int) -> spec_fn(TaskV) -> bool {
    |t: TaskV| !t.done && t.due_date is Some && sql_day(t.due_date->0) is Some && sql_day(t.due_date->0)->0 < today
}

/// The counts by due day: a task that is not done counts as pending when it has no due
/// date or is due today or later, and as overdue exactly when its due day is before today;
/// a task due today is pending, not overdue.
pub proof fn law_stats_by_due_day(st: Stats, ts: Seq<TaskV>, today: int)
    requires
        stats_of(st, ts, today),
    ensures
        st.pending == ts.filter(not_late(today)).len(),
        st.overdue == ts.filter(late(today)).len(),
{
    assert(stat_pending(today) =~= not_late(today));
    assert(stat_overdue(today) =~= late(today));
}

} // verus!
