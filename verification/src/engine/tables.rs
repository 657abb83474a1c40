//! Row filters over the store's tables.
use vstd::prelude::*;
use crate::models::{Project, Subtask, Task};
use super::model::{
    has_task_id, link_task_in, subtask_task_in, lemma_filter_all, lemma_filter_step,
    lemma_map_push, link_not, link_owner_is, link_owner_not, project_id_not, subtask_id_not,
    subtask_task_is, subtask_task_not, task_id_not, task_project_is, task_project_not,
};

verus! {

/// The projects other than the one with this id.
pub(crate) fn retain_projects_without_id(v: &Vec<Project>, id: i64) -> (r: Vec<Project>)
    ensures
        r@.map_values(|p: Project| p@) == v@.map_values(|p: Project| p@).filter(project_id_not(id as int)),
{
    let mut r: Vec<Project> = Vec::new();
    let mut i: usize = 0;
    proof {
        lemma_filter_all(v@.map_values(|p: Project| p@), project_id_not(id as int));
        assert(r@.map_values(|p: Project| p@) =~= Seq::empty());
    }
    while i < v.len()
        invariant
            i <= v@.len(),
            r@.map_values(|p: Project| p@) == v@.map_values(|p: Project| p@).take(i as int).filter(project_id_not(id as int)),
        decreases v@.len() - i,
    {
        proof {
            lemma_filter_step(v@.map_values(|p: Project| p@), project_id_not(id as int), i as int);
        }
        if v[i].id != id {
            let c = v[i].copy();
            proof {
                lemma_map_push(r@, c, |p: Project| p@);
            }
            r.push(c);
        }
        i = i + 1;
    }
    proof {
        lemma_filter_all(v@.map_values(|p: Project| p@), project_id_not(id as int));
    }
    r
}

/// The links whose first id is not `id`.
pub(crate) fn retain_links_without_owner(v: &Vec<(i64, i64)>, id: i64) -> (r: Vec<(i64, i64)>)
    ensures
        r@.map_values(|l: (i64, i64)| (l.0 as int, l.1 as int)) == v@.map_values(|l: (i64, i64)| (l.0 as int, l.1 as int)).filter(link_owner_not(id as int)),
{
    let mut r: Vec<(i64, i64)> = Vec::new();
    let mut i: usize = 0;
    proof {
        lemma_filter_all(v@.map_values(|l: (i64, i64)| (l.0 as int, l.1 as int)), link_owner_not(id as int));
        assert(r@.map_values(|l: (i64, i64)| (l.0 as int, l.1 as int)) =~= Seq::empty());
    }
    while i < v.len()
        invariant
            i <= v@.len(),
            r@.map_values(|l: (i64, i64)| (l.0 as int, l.1 as int)) == v@.map_values(|l: (i64, i64)| (l.0 as int, l.1 as int)).take(i as int).filter(link_owner_not(id as int)),
        decreases v@.len() - i,
    {
        proof {
            lemma_filter_step(v@.map_values(|l: (i64, i64)| (l.0 as int, l.1 as int)), link_owner_not(id as int), i as int);
        }
        if v[i].0 != id {
            let c = v[i];
            proof {
                lemma_map_push(r@, c, |l: (i64, i64)| (l.0 as int, l.1 as int));
            }
            r.push(c);
        }
        i = i + 1;
    }
    proof {
        lemma_filter_all(v@.map_values(|l: (i64, i64)| (l.0 as int, l.1 as int)), link_owner_not(id as int));
    }
    r
}

/// The links whose first id is `id`.
pub(crate) fn retain_links_of_owner(v: &Vec<(i64, i64)>, id: i64) -> (r: Vec<(i64, i64)>)
    ensures
        r@.map_values(|l: (i64, i64)| (l.0 as int, l.1 as int)) == v@.map_values(|l: (i64, i64)| (l.0 as int, l.1 as int)).filter(link_owner_is(id as int)),
{
    let mut r: Vec<(i64, i64)> = Vec::new();
    let mut i: usize = 0;
    proof {
        lemma_filter_all(v@.map_values(|l: (i64, i64)| (l.0 as int, l.1 as int)), link_owner_is(id as int));
        assert(r@.map_values(|l: (i64, i64)| (l.0 as int, l.1 as int)) =~= Seq::empty());
    }
    while i < v.len()
        invariant
            i <= v@.len(),
            r@.map_values(|l: (i64, i64)| (l.0 as int, l.1 as int)) == v@.map_values(|l: (i64, i64)| (l.0 as int, l.1 as int)).take(i as int).filter(link_owner_is(id as int)),
        decreases v@.len() - i,
    {
        proof {
            lemma_filter_step(v@.map_values(|l: (i64, i64)| (l.0 as int, l.1 as int)), link_owner_is(id as int), i as int);
        }
        if v[i].0 == id {
            let c = v[i];
            proof {
                lemma_map_push(r@, c, |l: (i64, i64)| (l.0 as int, l.1 as int));
            }
            r.push(c);
        }
        i = i + 1;
    }
    proof {
        lemma_filter_all(v@.map_values(|l: (i64, i64)| (l.0 as int, l.1 as int)), link_owner_is(id as int));
    }
    r
}

/// The links other than `(a, b)`.
pub(crate) fn retain_links_without(v: &Vec<(i64, i64)>, a: i64, b: i64) -> (r: Vec<(i64, i64)>)
    ensures
        r@.map_values(|l: (i64, i64)| (l.0 as int, l.1 as int)) == v@.map_values(|l: (i64, i64)| (l.0 as int, l.1 as int)).filter(link_not((a as int, b as int))),
{
    let mut r: Vec<(i64, i64)> = Vec::new();
    let mut i: usize = 0;
    proof {
        lemma_filter_all(v@.map_values(|l: (i64, i64)| (l.0 as int, l.1 as int)), link_not((a as int, b as int)));
        assert(r@.map_values(|l: (i64, i64)| (l.0 as int, l.1 as int)) =~= Seq::empty());
    }
    while i < v.len()
        invariant
            i <= v@.len(),
            r@.map_values(|l: (i64, i64)| (l.0 as int, l.1 as int)) == v@.map_values(|l: (i64, i64)| (l.0 as int, l.1 as int)).take(i as int).filter(link_not((a as int, b as int))),
        decreases v@.len() - i,
    {
        proof {
            lemma_filter_step(v@.map_values(|l: (i64, i64)| (l.0 as int, l.1 as int)), link_not((a as int, b as int)), i as int);
        }
        if !(v[i].0 == a && v[i].1 == b) {
            let c = v[i];
            proof {
                lemma_map_push(r@, c, |l: (i64, i64)| (l.0 as int, l.1 as int));
            }
            r.push(c);
        }
        i = i + 1;
    }
    proof {
        lemma_filter_all(v@.map_values(|l: (i64, i64)| (l.0 as int, l.1 as int)), link_not((a as int, b as int)));
    }
    r
}

/// The tasks of other projects.
pub(crate) fn retain_tasks_outside_project(v: &Vec<Task>, pid: i64) -> (r: Vec<Task>)
    ensures
        r@.map_values(|t: Task| t@) == v@.map_values(|t: Task| t@).filter(task_project_not(pid as int)),
{
    let mut r: Vec<Task> = Vec::new();
    let mut i: usize = 0;
    proof {
        lemma_filter_all(v@.map_values(|t: Task| t@), task_project_not(pid as int));
        assert(r@.map_values(|t: Task| t@) =~= Seq::empty());
    }
    while i < v.len()
        invariant
            i <= v@.len(),
            r@.map_values(|t: Task| t@) == v@.map_values(|t: Task| t@).take(i as int).filter(task_project_not(pid as int)),
        decreases v@.len() - i,
    {
        proof {
            lemma_filter_step(v@.map_values(|t: Task| t@), task_project_not(pid as int), i as int);
        }
        if v[i].project_id != pid {
            let c = v[i].copy();
            proof {
                lemma_map_push(r@, c, |t: Task| t@);
            }
            r.push(c);
        }
        i = i + 1;
    }
    proof {
        lemma_filter_all(v@.map_values(|t: Task| t@), task_project_not(pid as int));
    }
    r
}

/// The tasks of one project.
pub(crate) fn retain_tasks_of_project(v: &Vec<Task>, pid: i64) -> (r: Vec<Task>)
    ensures
        r@.map_values(|t: Task| t@) == v@.map_values(|t: Task| t@).filter(task_project_is(pid as int)),
{
    let mut r: Vec<Task> = Vec::new();
    let mut i: usize = 0;
    proof {
        lemma_filter_all(v@.map_values(|t: Task| t@), task_project_is(pid as int));
        assert(r@.map_values(|t: Task| t@) =~= Seq::empty());
    }
    while i < v.len()
        invariant
            i <= v@.len(),
            r@.map_values(|t: Task| t@) == v@.map_values(|t: Task| t@).take(i as int).filter(task_project_is(pid as int)),
        decreases v@.len() - i,
    {
        proof {
            lemma_filter_step(v@.map_values(|t: Task| t@), task_project_is(pid as int), i as int);
        }
        if v[i].project_id == pid {
            let c = v[i].copy();
            proof {
                lemma_map_push(r@, c, |t: Task| t@);
            }
            r.push(c);
        }
        i = i + 1;
    }
    proof {
        lemma_filter_all(v@.map_values(|t: Task| t@), task_project_is(pid as int));
    }
    r
}

/// The tasks other than the one with this id.
pub(crate) fn retain_tasks_without_id(v: &Vec<Task>, id: i64) -> (r: Vec<Task>)
    ensures
        r@.map_values(|t: Task| t@) == v@.map_values(|t: Task| t@).filter(task_id_not(id as int)),
{
    let mut r: Vec<Task> = Vec::new();
    let mut i: usize = 0;
    proof {
        lemma_filter_all(v@.map_values(|t: Task| t@), task_id_not(id as int));
        assert(r@.map_values(|t: Task| t@) =~= Seq::empty());
    }
    while i < v.len()
        invariant
            i <= v@.len(),
            r@.map_values(|t: Task| t@) == v@.map_values(|t: Task| t@).take(i as int).filter(task_id_not(id as int)),
        decreases v@.len() - i,
    {
        proof {
            lemma_filter_step(v@.map_values(|t: Task| t@), task_id_not(id as int), i as int);
        }
        if v[i].id != id {
            let c = v[i].copy();
            proof {
                lemma_map_push(r@, c, |t: Task| t@);
            }
            r.push(c);
        }
        i = i + 1;
    }
    proof {
        lemma_filter_all(v@.map_values(|t: Task| t@), task_id_not(id as int));
    }
    r
}

/// The subtasks of other tasks.
pub(crate) fn retain_subtasks_without_task(v: &Vec<Subtask>, tid: i64) -> (r: Vec<Subtask>)
    ensures
        r@.map_values(|s: Subtask| s@) == v@.map_values(|s: Subtask| s@).filter(subtask_task_not(tid as int)),
{
    let mut r: Vec<Subtask> = Vec::new();
    let mut i: usize = 0;
    proof {
        lemma_filter_all(v@.map_values(|s: Subtask| s@), subtask_task_not(tid as int));
        assert(r@.map_values(|s: Subtask| s@) =~= Seq::empty());
    }
    while i < v.len()
        invariant
            i <= v@.len(),
            r@.map_values(|s: Subtask| s@) == v@.map_values(|s: Subtask| s@).take(i as int).filter(subtask_task_not(tid as int)),
        decreases v@.len() - i,
    {
        proof {
            lemma_filter_step(v@.map_values(|s: Subtask| s@), subtask_task_not(tid as int), i as int);
        }
        if v[i].task_id != tid {
            let c = v[i].copy();
            proof {
                lemma_map_push(r@, c, |s: Subtask| s@);
            }
            r.push(c);
        }
        i = i + 1;
    }
    proof {
        lemma_filter_all(v@.map_values(|s: Subtask| s@), subtask_task_not(tid as int));
    }
    r
}

/// The subtasks of one task.
pub(crate) fn retain_subtasks_of_task(v: &Vec<Subtask>, tid: i64) -> (r: Vec<Subtask>)
    ensures
        r@.map_values(|s: Subtask| s@) == v@.map_values(|s: Subtask| s@).filter(subtask_task_is(tid as int)),
{
    let mut r: Vec<Subtask> = Vec::new();
    let mut i: usize = 0;
    proof {
        lemma_filter_all(v@.map_values(|s: Subtask| s@), subtask_task_is(tid as int));
        assert(r@.map_values(|s: Subtask| s@) =~= Seq::empty());
    }
    while i < v.len()
        invariant
            i <= v@.len(),
            r@.map_values(|s: Subtask| s@) == v@.map_values(|s: Subtask| s@).take(i as int).filter(subtask_task_is(tid as int)),
        decreases v@.len() - i,
    {
        proof {
            lemma_filter_step(v@.map_values(|s: Subtask| s@), subtask_task_is(tid as int), i as int);
        }
        if v[i].task_id == tid {
            let c = v[i].copy();
            proof {
                lemma_map_push(r@, c, |s: Subtask| s@);
            }
            r.push(c);
        }
        i = i + 1;
    }
    proof {
        lemma_filter_all(v@.map_values(|s: Subtask| s@), subtask_task_is(tid as int));
    }
    r
}

/// The subtasks other than the one with this id.
pub(crate) fn retain_subtasks_without_id(v: &Vec<Subtask>, id: i64) -> (r: Vec<Subtask>)
    ensures
        r@.map_values(|s: Subtask| s@) == v@.map_values(|s: Subtask| s@).filter(subtask_id_not(id as int)),
{
    let mut r: Vec<Subtask> = Vec::new();
    let mut i: usize = 0;
    proof {
        lemma_filter_all(v@.map_values(|s: Subtask| s@), subtask_id_not(id as int));
        assert(r@.map_values(|s: Subtask| s@) =~= Seq::empty());
    }
    while i < v.len()
        invariant
            i <= v@.len(),
            r@.map_values(|s: Subtask| s@) == v@.map_values(|s: Subtask| s@).take(i as int).filter(subtask_id_not(id as int)),
        decreases v@.len() - i,
    {
        proof {
            lemma_filter_step(v@.map_values(|s: Subtask| s@), subtask_id_not(id as int), i as int);
        }
        if v[i].id != id {
            let c = v[i].copy();
            proof {
                lemma_map_push(r@, c, |s: Subtask| s@);
            }
            r.push(c);
        }
        i = i + 1;
    }
    proof {
        lemma_filter_all(v@.map_values(|s: Subtask| s@), subtask_id_not(id as int));
    }
    r
}

/// Whether a task with this id is in the list.
pub(crate) fn has_task(tasks: &Vec<Task>, id: i64) -> (b: bool)
    ensures
        b == has_task_id(tasks@.map_values(|t: Task| t@), id as int),
{
    let ghost tv = tasks@.map_values(|t: Task| t@);
    let mut i: usize = 0;
    while i < tasks.len()
        invariant
            i <= tasks@.len(),
            tv == tasks@.map_values(|t: Task| t@),
            forall|j: int| 0 <= j < i ==> tv[j].id != id,
        decreases tasks@.len() - i,
    {
        if tasks[i].id == id {
            assert(tv[i as int].id == id);
            return true;
        }
        i = i + 1;
    }
    false
}

/// The links whose task is in the list.
pub(crate) fn retain_links_with_task_in(v: &Vec<(i64, i64)>, tasks: &Vec<Task>) -> (r: Vec<(i64, i64)>)
    ensures
        r@.map_values(|l: (i64, i64)| (l.0 as int, l.1 as int)) == v@.map_values(
            |l: (i64, i64)| (l.0 as int, l.1 as int),
        ).filter(link_task_in(tasks@.map_values(|t: Task| t@))),
{
    let ghost pred = link_task_in(tasks@.map_values(|t: Task| t@));
    let mut r: Vec<(i64, i64)> = Vec::new();
    let mut i: usize = 0;
    proof {
        lemma_filter_all(v@.map_values(|l: (i64, i64)| (l.0 as int, l.1 as int)), pred);
        assert(r@.map_values(|l: (i64, i64)| (l.0 as int, l.1 as int)) =~= Seq::empty());
    }
    while i < v.len()
        invariant
            i <= v@.len(),
            pred == link_task_in(tasks@.map_values(|t: Task| t@)),
            r@.map_values(|l: (i64, i64)| (l.0 as int, l.1 as int)) == v@.map_values(
                |l: (i64, i64)| (l.0 as int, l.1 as int),
            ).take(i as int).filter(pred),
        decreases v@.len() - i,
    {
        proof {
            lemma_filter_step(v@.map_values(|l: (i64, i64)| (l.0 as int, l.1 as int)), pred, i as int);
        }
        if has_task(tasks, v[i].0) {
            let c = v[i];
            proof {
                lemma_map_push(r@, c, |l: (i64, i64)| (l.0 as int, l.1 as int));
            }
            r.push(c);
        }
        i = i + 1;
    }
    proof {
        lemma_filter_all(v@.map_values(|l: (i64, i64)| (l.0 as int, l.1 as int)), pred);
    }
    r
}

/// The subtasks whose task is in the list.
pub(crate) fn retain_subtasks_with_task_in(v: &Vec<Subtask>, tasks: &Vec<Task>) -> (r: Vec<Subtask>)
    ensures
        r@.map_values(|s: Subtask| s@) == v@.map_values(|s: Subtask| s@).filter(
            subtask_task_in(tasks@.map_values(|t: Task| t@)),
        ),
{
    let ghost pred = subtask_task_in(tasks@.map_values(|t: Task| t@));
    let mut r: Vec<Subtask> = Vec::new();
    let mut i: usize = 0;
    proof {
        lemma_filter_all(v@.map_values(|s: Subtask| s@), pred);
        assert(r@.map_values(|s: Subtask| s@) =~= Seq::empty());
    }
    while i < v.len()
        invariant
            i <= v@.len(),
            pred == subtask_task_in(tasks@.map_values(|t: Task| t@)),
            r@.map_values(|s: Subtask| s@) == v@.map_values(|s: Subtask| s@).take(i as int).filter(
                pred,
            ),
        decreases v@.len() - i,
    {
        proof {
            lemma_filter_step(v@.map_values(|s: Subtask| s@), pred, i as int);
        }
        if has_task(tasks, v[i].task_id) {
            let c = v[i].copy();
            proof {
                lemma_map_push(r@, c, |s: Subtask| s@);
            }
            r.push(c);
        }
        i = i + 1;
    }
    proof {
        lemma_filter_all(v@.map_values(|s: Subtask| s@), pred);
    }
    r
}

} // verus!
