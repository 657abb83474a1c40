//! A store built from rows read elsewhere, accepted only where the rows keep the schema's
//! rules, and the rows of a store handed back to be written.
use vstd::prelude::*;
use crate::models::{Project, Subtask, Tag, Task};
use crate::text::text_eq;
use super::Engine;
use super::links_v;
use super::model::EngineV;

verus! {

/// The ids are increasing and positive.
pub open spec fn ids_ok(ids: Seq<i64>) -> bool {
    &&& forall|i: int, j: int| 0 <= i < j < ids.len() ==> ids[i] < ids[j]
    &&& forall|i: int| 0 <= i < ids.len() ==> 1 <= #[trigger] ids[i]
}

fn increasing_positive(ids: &Vec<i64>) -> (r: bool)
    ensures
        r == ids_ok(ids@),
{
    let mut i: usize = 0;
    while i < ids.len()
        invariant
            i <= ids@.len(),
            forall|a: int, b: int| 0 <= a < b < i ==> ids@[a] < ids@[b],
            forall|a: int| 0 <= a < i ==> 1 <= #[trigger] ids@[a],
        decreases ids@.len() - i,
    {
        if ids[i] < 1 {
            return false;
        }
        if i > 0 && ids[i - 1] >= ids[i] {
            return false;
        }
        proof {
            assert forall|a: int, b: int| 0 <= a < b < i + 1 implies ids@[a] < ids@[b] by {
                if b == i && a < i - 1 {
                    assert(ids@[a] < ids@[i - 1]);
                }
            }
        }
        i = i + 1;
    }
    true
}

/// Whether `id` occurs in `ids`.
fn has_id(ids: &Vec<i64>, id: i64) -> (r: bool)
    ensures
        r == exists|k: int| 0 <= k < ids@.len() && ids@[k] == id,
{
    let mut i: usize = 0;
    while i < ids.len()
        invariant
            i <= ids@.len(),
            forall|k: int| 0 <= k < i ==> ids@[k] != id,
        decreases ids@.len() - i,
    {
        if ids[i] == id {
            return true;
        }
        i = i + 1;
    }
    false
}

/// No text occurs twice.
fn distinct_texts(v: &Vec<String>) -> (r: bool)
    ensures
        r == forall|i: int, j: int| 0 <= i < j < v@.len() ==> v@[i]@ != v@[j]@,
{
    let mut j: usize = 0;
    while j < v.len()
        invariant
            j <= v@.len(),
            forall|a: int, b: int| 0 <= a < b < j ==> v@[a]@ != v@[b]@,
        decreases v@.len() - j,
    {
        let mut i: usize = 0;
        while i < j
            invariant
                i <= j < v@.len(),
                forall|a: int, b: int| 0 <= a < b < j ==> v@[a]@ != v@[b]@,
                forall|a: int| 0 <= a < i ==> v@[a]@ != v@[j as int]@,
            decreases j - i,
        {
            if text_eq(v[i].as_str(), v[j].as_str()) {
                return false;
            }
            i = i + 1;
        }
        j = j + 1;
    }
    true
}

/// No pair occurs twice.
fn distinct_pairs(v: &Vec<(i64, i64)>) -> (r: bool)
    ensures
        r == forall|i: int, j: int| 0 <= i < j < v@.len() ==> links_v(v@)[i] != links_v(v@)[j],
{
    let mut j: usize = 0;
    while j < v.len()
        invariant
            j <= v@.len(),
            forall|a: int, b: int| 0 <= a < b < j ==> links_v(v@)[a] != links_v(v@)[b],
        decreases v@.len() - j,
    {
        let mut i: usize = 0;
        while i < j
            invariant
                i <= j < v@.len(),
                forall|a: int, b: int| 0 <= a < b < j ==> links_v(v@)[a] != links_v(v@)[b],
                forall|a: int| 0 <= a < i ==> links_v(v@)[a] != links_v(v@)[j as int],
            decreases j - i,
        {
            if v[i].0 == v[j].0 && v[i].1 == v[j].1 {
                proof {
                    assert(links_v(v@)[i as int] == links_v(v@)[j as int]);
                }
                return false;
            }
            i = i + 1;
        }
        j = j + 1;
    }
    true
}

impl Engine {
    fn project_ids(&self) -> (r: Vec<i64>)
        ensures
            r@.len() == self@.projects.len(),
            forall|i: int| 0 <= i < r@.len() ==> r@[i] as int == #[trigger] self@.projects[i].id,
    {
        let mut r: Vec<i64> = Vec::new();
        let mut i: usize = 0;
        while i < self.projects.len()
            invariant
                i <= self.projects@.len(),
                r@.len() == i,
                forall|k: int| 0 <= k < i ==> r@[k] as int == #[trigger] self@.projects[k].id,
            decreases self.projects@.len() - i,
        {
            r.push(self.projects[i].id);
            i = i + 1;
        }
        r
    }

    fn tag_ids(&self) -> (r: Vec<i64>)
        ensures
            r@.len() == self@.tags.len(),
            forall|i: int| 0 <= i < r@.len() ==> r@[i] as int == #[trigger] self@.tags[i].id,
    {
        let mut r: Vec<i64> = Vec::new();
        let mut i: usize = 0;
        while i < self.tags.len()
            invariant
                i <= self.tags@.len(),
                r@.len() == i,
                forall|k: int| 0 <= k < i ==> r@[k] as int == #[trigger] self@.tags[k].id,
            decreases self.tags@.len() - i,
        {
            r.push(self.tags[i].id);
            i = i + 1;
        }
        r
    }

    fn task_ids(&self) -> (r: Vec<i64>)
        ensures
            r@.len() == self@.tasks.len(),
            forall|i: int| 0 <= i < r@.len() ==> r@[i] as int == #[trigger] self@.tasks[i].id,
    {
        let mut r: Vec<i64> = Vec::new();
        let mut i: usize = 0;
        while i < self.tasks.len()
            invariant
                i <= self.tasks@.len(),
                r@.len() == i,
                forall|k: int| 0 <= k < i ==> r@[k] as int == #[trigger] self@.tasks[k].id,
            decreases self.tasks@.len() - i,
        {
            r.push(self.tasks[i].id);
            i = i + 1;
        }
        r
    }

    fn subtask_ids(&self) -> (r: Vec<i64>)
        ensures
            r@.len() == self@.subtasks.len(),
            forall|i: int| 0 <= i < r@.len() ==> r@[i] as int == #[trigger] self@.subtasks[i].id,
    {
        let mut r: Vec<i64> = Vec::new();
        let mut i: usize = 0;
        while i < self.subtasks.len()
            invariant
                i <= self.subtasks@.len(),
                r@.len() == i,
                forall|k: int| 0 <= k < i ==> r@[k] as int == #[trigger] self@.subtasks[k].id,
            decreases self.subtasks@.len() - i,
        {
            r.push(self.subtasks[i].id);
            i = i + 1;
        }
        r
    }

    fn project_name_column(&self) -> (r: Vec<String>)
        ensures
            r@.len() == self@.projects.len(),
            forall|i: int| 0 <= i < r@.len() ==> r@[i]@ == #[trigger] self@.projects[i].name,
    {
        let mut r: Vec<String> = Vec::new();
        let mut i: usize = 0;
        while i < self.projects.len()
            invariant
                i <= self.projects@.len(),
                r@.len() == i,
                forall|k: int| 0 <= k < i ==> r@[k]@ == #[trigger] self@.projects[k].name,
            decreases self.projects@.len() - i,
        {
            r.push(self.projects[i].name.clone());
            i = i + 1;
        }
        r
    }

    fn tag_name_column(&self) -> (r: Vec<String>)
        ensures
            r@.len() == self@.tags.len(),
            forall|i: int| 0 <= i < r@.len() ==> r@[i]@ == #[trigger] self@.tags[i].name,
    {
        let mut r: Vec<String> = Vec::new();
        let mut i: usize = 0;
        while i < self.tags.len()
            invariant
                i <= self.tags@.len(),
                r@.len() == i,
                forall|k: int| 0 <= k < i ==> r@[k]@ == #[trigger] self@.tags[k].name,
            decreases self.tags@.len() - i,
        {
            r.push(self.tags[i].name.clone());
            i = i + 1;
        }
        r
    }

    /// No project holds two pending tasks of one name.
    fn pending_names_distinct(&self) -> (r: bool)
        ensures
            r == forall|i: int, j: int|
                0 <= i < j < self@.tasks.len() && !self@.tasks[i].done && !self@.tasks[j].done
                    && self@.tasks[i].project_id == self@.tasks[j].project_id ==> self@.tasks[i].name
                    != self@.tasks[j].name,
    {
        let ghost t = self@.tasks;
        let mut j: usize = 0;
        while j < self.tasks.len()
            invariant
                t == self@.tasks,
                j <= t.len(),
                forall|a: int, b: int|
                    0 <= a < b < j && !t[a].done && !t[b].done && t[a].project_id == t[b].project_id
                        ==> t[a].name != t[b].name,
            decreases t.len() - j,
        {
            let mut i: usize = 0;
            while i < j
                invariant
                    t == self@.tasks,
                    i <= j < t.len(),
                    forall|a: int, b: int|
                        0 <= a < b < j && !t[a].done && !t[b].done && t[a].project_id == t[b].project_id
                            ==> t[a].name != t[b].name,
                    forall|a: int|
                        0 <= a < i && !t[a].done && !t[j as int].done && t[a].project_id
                            == t[j as int].project_id ==> t[a].name != t[j as int].name,
                decreases j - i,
            {
                let x = &self.tasks[i];
                let y = &self.tasks[j];
                if !x.done && !y.done && x.project_id == y.project_id && text_eq(x.name.as_str(), y.name.as_str()) {
                    proof {
                        assert(t[i as int] == self.tasks@[i as int]@);
                        assert(t[j as int] == self.tasks@[j as int]@);
                    }
                    return false;
                }
                i = i + 1;
            }
            j = j + 1;
        }
        true
    }

    /// No task holds two subtasks of one name.
    fn subtask_names_distinct(&self) -> (r: bool)
        ensures
            r == forall|i: int, j: int|
                0 <= i < j < self@.subtasks.len() && self@.subtasks[i].task_id == self@.subtasks[j].task_id
                    ==> self@.subtasks[i].name != self@.subtasks[j].name,
    {
        let ghost t = self@.subtasks;
        let mut j: usize = 0;
        while j < self.subtasks.len()
            invariant
                t == self@.subtasks,
                j <= t.len(),
                forall|a: int, b: int| 0 <= a < b < j && t[a].task_id == t[b].task_id ==> t[a].name != t[b].name,
            decreases t.len() - j,
        {
            let mut i: usize = 0;
            while i < j
                invariant
                    t == self@.subtasks,
                    i <= j < t.len(),
                    forall|a: int, b: int| 0 <= a < b < j && t[a].task_id == t[b].task_id ==> t[a].name != t[b].name,
                    forall|a: int| 0 <= a < i && t[a].task_id == t[j as int].task_id ==> t[a].name != t[j as int].name,
                decreases j - i,
            {
                let x = &self.subtasks[i];
                let y = &self.subtasks[j];
                if x.task_id == y.task_id && text_eq(x.name.as_str(), y.name.as_str()) {
                    proof {
                        assert(t[i as int] == self.subtasks@[i as int]@);
                        assert(t[j as int] == self.subtasks@[j as int]@);
                    }
                    return false;
                }
                i = i + 1;
            }
            j = j + 1;
        }
        true
    }

    /// Every row that points at another row points at one that exists.
    fn references_exist(&self) -> (r: bool)
        ensures
            r == ((forall|i: int| 0 <= i < self@.tasks.len() ==> self@.project_exists(#[trigger] self@.tasks[i].project_id))
                && (forall|i: int| 0 <= i < self@.subtasks.len() ==> self@.task_exists(#[trigger] self@.subtasks[i].task_id))
                && (forall|i: int|
                0 <= i < self@.project_tags.len() ==> self@.project_exists(#[trigger] self@.project_tags[i].0)
                    && self@.tag_exists(self@.project_tags[i].1))
                && (forall|i: int|
                0 <= i < self@.task_tags.len() ==> self@.task_exists(#[trigger] self@.task_tags[i].0)
                    && self@.tag_exists(self@.task_tags[i].1))),
    {
        let ghost e = self@;
        let pids = self.project_ids();
        let tids = self.task_ids();
        let gids = self.tag_ids();
        let mut i: usize = 0;
        while i < self.tasks.len()
            invariant
                e == self@,
                i <= e.tasks.len(),
                pids@.len() == e.projects.len(),
                forall|k: int| 0 <= k < pids@.len() ==> pids@[k] as int == #[trigger] e.projects[k].id,
                forall|k: int| 0 <= k < i ==> e.project_exists(#[trigger] e.tasks[k].project_id),
            decreases e.tasks.len() - i,
        {
            let found = has_id(&pids, self.tasks[i].project_id);
            proof {
                assert(e.tasks[i as int] == self.tasks@[i as int]@);
                if found {
                    let k = choose|k: int| 0 <= k < pids@.len() && pids@[k] == self.tasks@[i as int].project_id;
                    assert(e.projects[k].id == e.tasks[i as int].project_id);
                } else {
                    assert forall|k: int| 0 <= k < e.projects.len() implies e.projects[k].id != e.tasks[i as int].project_id by {
                        assert(pids@[k] as int == e.projects[k].id);
                    }
                    assert(!e.project_exists(e.tasks[i as int].project_id));
                }
            }
            if !found {
                return false;
            }
            i = i + 1;
        }
        let mut i: usize = 0;
        while i < self.subtasks.len()
            invariant
                e == self@,
                i <= e.subtasks.len(),
                tids@.len() == e.tasks.len(),
                forall|k: int| 0 <= k < tids@.len() ==> tids@[k] as int == #[trigger] e.tasks[k].id,
                forall|k: int| 0 <= k < e.tasks.len() ==> e.project_exists(#[trigger] e.tasks[k].project_id),
                forall|k: int| 0 <= k < i ==> e.task_exists(#[trigger] e.subtasks[k].task_id),
            decreases e.subtasks.len() - i,
        {
            let found = has_id(&tids, self.subtasks[i].task_id);
            proof {
                assert(e.subtasks[i as int] == self.subtasks@[i as int]@);
                if found {
                    let k = choose|k: int| 0 <= k < tids@.len() && tids@[k] == self.subtasks@[i as int].task_id;
                    assert(e.tasks[k].id == e.subtasks[i as int].task_id);
                } else {
                    assert forall|k: int| 0 <= k < e.tasks.len() implies e.tasks[k].id != e.subtasks[i as int].task_id by {
                        assert(tids@[k] as int == e.tasks[k].id);
                    }
                    assert(!e.task_exists(e.subtasks[i as int].task_id));
                }
            }
            if !found {
                return false;
            }
            i = i + 1;
        }
        let mut i: usize = 0;
        while i < self.project_tags.len()
            invariant
                e == self@,
                i <= e.project_tags.len(),
                pids@.len() == e.projects.len(),
                forall|k: int| 0 <= k < pids@.len() ==> pids@[k] as int == #[trigger] e.projects[k].id,
                gids@.len() == e.tags.len(),
                forall|k: int| 0 <= k < gids@.len() ==> gids@[k] as int == #[trigger] e.tags[k].id,
                forall|k: int| 0 <= k < e.tasks.len() ==> e.project_exists(#[trigger] e.tasks[k].project_id),
                forall|k: int| 0 <= k < e.subtasks.len() ==> e.task_exists(#[trigger] e.subtasks[k].task_id),
                forall|k: int|
                    0 <= k < i ==> e.project_exists(#[trigger] e.project_tags[k].0) && e.tag_exists(e.project_tags[k].1),
            decreases e.project_tags.len() - i,
        {
            let (p, g) = self.project_tags[i];
            let fp = has_id(&pids, p);
            let fg = has_id(&gids, g);
            proof {
                assert(e.project_tags[i as int] == (p as int, g as int));
                if fp {
                    let k = choose|k: int| 0 <= k < pids@.len() && pids@[k] == p;
                    assert(e.projects[k].id == p);
                } else {
                    assert forall|k: int| 0 <= k < e.projects.len() implies e.projects[k].id != p by {
                        assert(pids@[k] as int == e.projects[k].id);
                    }
                }
                if fg {
                    let k = choose|k: int| 0 <= k < gids@.len() && gids@[k] == g;
                    assert(e.tags[k].id == g);
                } else {
                    assert forall|k: int| 0 <= k < e.tags.len() implies e.tags[k].id != g by {
                        assert(gids@[k] as int == e.tags[k].id);
                    }
                }
            }
            if !fp || !fg {
                return false;
            }
            i = i + 1;
        }
        let mut i: usize = 0;
        while i < self.task_tags.len()
            invariant
                e == self@,
                i <= e.task_tags.len(),
                tids@.len() == e.tasks.len(),
                forall|k: int| 0 <= k < tids@.len() ==> tids@[k] as int == #[trigger] e.tasks[k].id,
                gids@.len() == e.tags.len(),
                forall|k: int| 0 <= k < gids@.len() ==> gids@[k] as int == #[trigger] e.tags[k].id,
                forall|k: int| 0 <= k < e.tasks.len() ==> e.project_exists(#[trigger] e.tasks[k].project_id),
                forall|k: int| 0 <= k < e.subtasks.len() ==> e.task_exists(#[trigger] e.subtasks[k].task_id),
                forall|k: int|
                    0 <= k < e.project_tags.len() ==> e.project_exists(#[trigger] e.project_tags[k].0) && e.tag_exists(e.project_tags[k].1),
                forall|k: int|
                    0 <= k < i ==> e.task_exists(#[trigger] e.task_tags[k].0) && e.tag_exists(e.task_tags[k].1),
            decreases e.task_tags.len() - i,
        {
            let (t, g) = self.task_tags[i];
            let ft = has_id(&tids, t);
            let fg = has_id(&gids, g);
            proof {
                assert(e.task_tags[i as int] == (t as int, g as int));
                if ft {
                    let k = choose|k: int| 0 <= k < tids@.len() && tids@[k] == t;
                    assert(e.tasks[k].id == t);
                } else {
                    assert forall|k: int| 0 <= k < e.tasks.len() implies e.tasks[k].id != t by {
                        assert(tids@[k] as int == e.tasks[k].id);
                    }
                }
                if fg {
                    let k = choose|k: int| 0 <= k < gids@.len() && gids@[k] == g;
                    assert(e.tags[k].id == g);
                } else {
                    assert forall|k: int| 0 <= k < e.tags.len() implies e.tags[k].id != g by {
                        assert(gids@[k] as int == e.tags[k].id);
                    }
                }
            }
            if !ft || !fg {
                return false;
            }
            i = i + 1;
        }
        true
    }
}

/// The tables as the store's view.
pub open spec fn tables_view(
    projects: Seq<Project>,
    tags: Seq<Tag>,
    project_tags: Seq<(i64, i64)>,
    tasks: Seq<Task>,
    task_tags: Seq<(i64, i64)>,
    subtasks: Seq<Subtask>,
) -> EngineV {
    EngineV {
        projects: projects.map_values(|p: Project| p@),
        tags: tags.map_values(|t: Tag| t@),
        project_tags: links_v(project_tags),
        tasks: tasks.map_values(|t: Task| t@),
        task_tags: links_v(task_tags),
        subtasks: subtasks.map_values(|s: Subtask| s@),
    }
}

impl Engine {
    /// Whether the store keeps the schema's rules.
    fn keeps_rules(&self) -> (r: bool)
        ensures
            r == self@.wf(),
    {
        let ghost e = self@;
        let pids = self.project_ids();
        let gids = self.tag_ids();
        let tids = self.task_ids();
        let sids = self.subtask_ids();
        let a1 = increasing_positive(&pids);
        let a2 = increasing_positive(&gids);
        let a3 = increasing_positive(&tids);
        let a4 = increasing_positive(&sids);
        let pn = self.project_name_column();
        let gn = self.tag_name_column();
        let b1 = distinct_texts(&pn);
        let b2 = distinct_texts(&gn);
        let b3 = self.pending_names_distinct();
        let b4 = self.subtask_names_distinct();
        let c = self.references_exist();
        let d1 = distinct_pairs(&self.project_tags);
        let d2 = distinct_pairs(&self.task_tags);
        proof {
            assert(a1 == ((forall|i: int, j: int| 0 <= i < j < e.projects.len() ==> e.projects[i].id < e.projects[j].id)
                && (forall|i: int| 0 <= i < e.projects.len() ==> 1 <= #[trigger] e.projects[i].id <= i64::MAX))) by {
                if a1 {
                    assert forall|i: int, j: int| 0 <= i < j < e.projects.len() implies e.projects[i].id < e.projects[j].id by {
                        assert(pids@[i] as int == e.projects[i].id);
                        assert(pids@[j] as int == e.projects[j].id);
                    }
                    assert forall|i: int| 0 <= i < e.projects.len() implies 1 <= #[trigger] e.projects[i].id <= i64::MAX by {
                        assert(pids@[i] as int == e.projects[i].id);
                    }
                } else {
                    if forall|i: int, j: int| 0 <= i < j < e.projects.len() ==> e.projects[i].id < e.projects[j].id {
                        assert forall|i: int, j: int| 0 <= i < j < pids@.len() implies pids@[i] < pids@[j] by {
                            assert(pids@[i] as int == e.projects[i].id);
                            assert(pids@[j] as int == e.projects[j].id);
                        }
                        assert(!(forall|i: int| 0 <= i < pids@.len() ==> 1 <= #[trigger] pids@[i]));
                        let k = choose|k: int| 0 <= k < pids@.len() && !(1 <= #[trigger] pids@[k]);
                        assert(pids@[k] as int == e.projects[k].id);
                    }
                }
            }
            assert(a2 == ((forall|i: int, j: int| 0 <= i < j < e.tags.len() ==> e.tags[i].id < e.tags[j].id)
                && (forall|i: int| 0 <= i < e.tags.len() ==> 1 <= #[trigger] e.tags[i].id <= i64::MAX))) by {
                if a2 {
                    assert forall|i: int, j: int| 0 <= i < j < e.tags.len() implies e.tags[i].id < e.tags[j].id by {
                        assert(gids@[i] as int == e.tags[i].id);
                        assert(gids@[j] as int == e.tags[j].id);
                    }
                    assert forall|i: int| 0 <= i < e.tags.len() implies 1 <= #[trigger] e.tags[i].id <= i64::MAX by {
                        assert(gids@[i] as int == e.tags[i].id);
                    }
                } else {
                    if forall|i: int, j: int| 0 <= i < j < e.tags.len() ==> e.tags[i].id < e.tags[j].id {
                        assert forall|i: int, j: int| 0 <= i < j < gids@.len() implies gids@[i] < gids@[j] by {
                            assert(gids@[i] as int == e.tags[i].id);
                            assert(gids@[j] as int == e.tags[j].id);
                        }
                        let k = choose|k: int| 0 <= k < gids@.len() && !(1 <= #[trigger] gids@[k]);
                        assert(gids@[k] as int == e.tags[k].id);
                    }
                }
            }
            assert(a3 == ((forall|i: int, j: int| 0 <= i < j < e.tasks.len() ==> e.tasks[i].id < e.tasks[j].id)
                && (forall|i: int| 0 <= i < e.tasks.len() ==> 1 <= #[trigger] e.tasks[i].id <= i64::MAX))) by {
                if a3 {
                    assert forall|i: int, j: int| 0 <= i < j < e.tasks.len() implies e.tasks[i].id < e.tasks[j].id by {
                        assert(tids@[i] as int == e.tasks[i].id);
                        assert(tids@[j] as int == e.tasks[j].id);
                    }
                    assert forall|i: int| 0 <= i < e.tasks.len() implies 1 <= #[trigger] e.tasks[i].id <= i64::MAX by {
                        assert(tids@[i] as int == e.tasks[i].id);
                    }
                } else {
                    if forall|i: int, j: int| 0 <= i < j < e.tasks.len() ==> e.tasks[i].id < e.tasks[j].id {
                        assert forall|i: int, j: int| 0 <= i < j < tids@.len() implies tids@[i] < tids@[j] by {
                            assert(tids@[i] as int == e.tasks[i].id);
                            assert(tids@[j] as int == e.tasks[j].id);
                        }
                        let k = choose|k: int| 0 <= k < tids@.len() && !(1 <= #[trigger] tids@[k]);
                        assert(tids@[k] as int == e.tasks[k].id);
                    }
                }
            }
            assert(a4 == ((forall|i: int, j: int| 0 <= i < j < e.subtasks.len() ==> e.subtasks[i].id < e.subtasks[j].id)
                && (forall|i: int| 0 <= i < e.subtasks.len() ==> 1 <= #[trigger] e.subtasks[i].id <= i64::MAX))) by {
                if a4 {
                    assert forall|i: int, j: int| 0 <= i < j < e.subtasks.len() implies e.subtasks[i].id < e.subtasks[j].id by {
                        assert(sids@[i] as int == e.subtasks[i].id);
                        assert(sids@[j] as int == e.subtasks[j].id);
                    }
                    assert forall|i: int| 0 <= i < e.subtasks.len() implies 1 <= #[trigger] e.subtasks[i].id <= i64::MAX by {
                        assert(sids@[i] as int == e.subtasks[i].id);
                    }
                } else {
                    if forall|i: int, j: int| 0 <= i < j < e.subtasks.len() ==> e.subtasks[i].id < e.subtasks[j].id {
                        assert forall|i: int, j: int| 0 <= i < j < sids@.len() implies sids@[i] < sids@[j] by {
                            assert(sids@[i] as int == e.subtasks[i].id);
                            assert(sids@[j] as int == e.subtasks[j].id);
                        }
                        let k = choose|k: int| 0 <= k < sids@.len() && !(1 <= #[trigger] sids@[k]);
                        assert(sids@[k] as int == e.subtasks[k].id);
                    }
                }
            }
            assert(b1 == (forall|i: int, j: int| 0 <= i < j < e.projects.len() ==> e.projects[i].name != e.projects[j].name)) by {
                if !b1 {
                    let (i, j) = choose|i: int, j: int| 0 <= i < j < pn@.len() && pn@[i]@ == pn@[j]@;
                    assert(pn@[i]@ == e.projects[i].name);
                    assert(pn@[j]@ == e.projects[j].name);
                } else {
                    assert forall|i: int, j: int| 0 <= i < j < e.projects.len() implies e.projects[i].name != e.projects[j].name by {
                        assert(pn@[i]@ == e.projects[i].name);
                        assert(pn@[j]@ == e.projects[j].name);
                    }
                }
            }
            assert(b2 == (forall|i: int, j: int| 0 <= i < j < e.tags.len() ==> e.tags[i].name != e.tags[j].name)) by {
                if !b2 {
                    let (i, j) = choose|i: int, j: int| 0 <= i < j < gn@.len() && gn@[i]@ == gn@[j]@;
                    assert(gn@[i]@ == e.tags[i].name);
                    assert(gn@[j]@ == e.tags[j].name);
                } else {
                    assert forall|i: int, j: int| 0 <= i < j < e.tags.len() implies e.tags[i].name != e.tags[j].name by {
                        assert(gn@[i]@ == e.tags[i].name);
                        assert(gn@[j]@ == e.tags[j].name);
                    }
                }
            }
        }
        a1 && a2 && a3 && a4 && b1 && b2 && b3 && b4 && c && d1 && d2
    }

    /// The store holding these rows, where they keep the schema's rules (increasing positive
    /// ids, unique names, existing references, no repeated links); `None` where they do not.
    pub fn from_tables(
        projects: Vec<Project>,
        tags: Vec<Tag>,
        project_tags: Vec<(i64, i64)>,
        tasks: Vec<Task>,
        task_tags: Vec<(i64, i64)>,
        subtasks: Vec<Subtask>,
    ) -> (r: Option<Engine>)
        ensures
            match r {
                Some(e) => e@ == tables_view(projects@, tags@, project_tags@, tasks@, task_tags@, subtasks@) && e@.wf(),
                None => !tables_view(projects@, tags@, project_tags@, tasks@, task_tags@, subtasks@).wf(),
            },
    {
        let e = Engine { projects, tags, project_tags, tasks, task_tags, subtasks };
        if e.keeps_rules() {
            Some(e)
        } else {
            None
        }
    }

    /// The projects, in id order.
    pub fn project_table(&self) -> (r: &Vec<Project>)
        ensures
            r@.map_values(|p: Project| p@) == self@.projects,
    {
        &self.projects
    }

    /// The tags, in id order.
    pub fn tag_table(&self) -> (r: &Vec<Tag>)
        ensures
            r@.map_values(|t: Tag| t@) == self@.tags,
    {
        &self.tags
    }

    /// The (project id, tag id) links.
    pub fn project_tag_table(&self) -> (r: &Vec<(i64, i64)>)
        ensures
            links_v(r@) == self@.project_tags,
    {
        &self.project_tags
    }

    /// The tasks, in id order.
    pub fn task_table(&self) -> (r: &Vec<Task>)
        ensures
            r@.map_values(|t: Task| t@) == self@.tasks,
    {
        &self.tasks
    }

    /// The (task id, tag id) links.
    pub fn task_tag_table(&self) -> (r: &Vec<(i64, i64)>)
        ensures
            links_v(r@) == self@.task_tags,
    {
        &self.task_tags
    }

    /// The subtasks, in id order.
    pub fn subtask_table(&self) -> (r: &Vec<Subtask>)
        ensures
            r@.map_values(|s: Subtask| s@) == self@.subtasks,
    {
        &self.subtasks
    }
}

/// A store's tables are its whole content: rows such as its table accessors hand back,
/// given to `from_tables`, are accepted and rebuild the same store.
pub proof fn law_tables_give_back_the_store(
    e: Engine,
    projects: Seq<Project>,
    tags: Seq<Tag>,
    project_tags: Seq<(i64, i64)>,
    tasks: Seq<Task>,
    task_tags: Seq<(i64, i64)>,
    subtasks: Seq<Subtask>,
)
    requires
        e@.wf(),
        projects.map_values(|p: Project| p@) == e@.projects,
        tags.map_values(|t: Tag| t@) == e@.tags,
        links_v(project_tags) == e@.project_tags,
        tasks.map_values(|t: Task| t@) == e@.tasks,
        links_v(task_tags) == e@.task_tags,
        subtasks.map_values(|s: Subtask| s@) == e@.subtasks,
    ensures
        tables_view(projects, tags, project_tags, tasks, task_tags, subtasks) == e@,
        tables_view(projects, tags, project_tags, tasks, task_tags, subtasks).wf(),
{
}

} // verus!
