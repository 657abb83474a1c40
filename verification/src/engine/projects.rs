//! Projects: creation, lookup, renaming and cascading deletion.
use vstd::prelude::*;
use crate::models::{ts_in_range, Project, ProjectPatch, StoreError};
use crate::text::to_owned_string;
use super::Engine;
use super::tables::{
    retain_links_with_task_in, retain_links_without_owner, retain_projects_without_id,
    retain_subtasks_with_task_in, retain_tasks_outside_project,
};
use super::model::{
    has_project_id, has_tag_id, has_task_id, lemma_filter_members, lemma_filter_pairwise,
    link_owner_not, link_task_in, project_id_not, subtask_task_in, task_project_not, SubtaskV,
    TaskV, last_id_projects, lemma_first_index, lemma_first_index_is, lemma_map_push,
    lemma_map_update, next_row_id, project_named, project_with_id, EngineV, ProjectV,
};

verus! {

pub proof fn lemma_projects_grow(s: EngineV, ps: Seq<ProjectV>)
    requires
        ps.len() >= s.projects.len(),
        forall|k: int| 0 <= k < s.projects.len() ==> ps[k].id == #[trigger] s.projects[k].id,
    ensures
        forall|id: int| s.project_exists(id) ==> #[trigger] s.with_projects(ps).project_exists(id),
{
    assert forall|id: int| s.project_exists(id) implies #[trigger] s.with_projects(
        ps,
    ).project_exists(id) by {
        let k = choose|k: int| 0 <= k < s.projects.len() && #[trigger] s.projects[k].id == id;
        assert(ps[k].id == id);
        assert(s.with_projects(ps).projects[k].id == id);
    }
}

pub proof fn lemma_wf_push_project(s: EngineV, p: ProjectV)
    requires
        s.wf(),
        s.project_index(p.name) == -1,
        p.id == next_row_id(last_id_projects(s.projects)),
        p.id <= i64::MAX,
    ensures
        s.with_projects(s.projects.push(p)).wf(),
{
    let s2 = s.with_projects(s.projects.push(p));
    lemma_first_index(s.projects, project_named(p.name));
    lemma_projects_grow(s, s.projects.push(p));
    assert forall|i: int, j: int| 0 <= i < j < s2.projects.len() implies s2.projects[i].id
        < s2.projects[j].id by {
        if j == s.projects.len() {
            if i < s.projects.len() - 1 {
                assert(s.projects[i].id < s.projects[s.projects.len() - 1].id);
            }
        }
    }
    assert forall|i: int, j: int| 0 <= i < j < s2.projects.len() implies s2.projects[i].name
        != s2.projects[j].name by {
        if j == s.projects.len() {
            assert(!project_named(p.name)(s.projects[i]));
        }
    }
    assert forall|i: int| 0 <= i < s2.tasks.len() implies s2.project_exists(
        #[trigger] s2.tasks[i].project_id,
    ) by {
        assert(s.project_exists(s.tasks[i].project_id));
    }
    assert forall|i: int| 0 <= i < s2.project_tags.len() implies s2.project_exists(
        #[trigger] s2.project_tags[i].0,
    ) && s2.tag_exists(s2.project_tags[i].1) by {
        assert(s.project_exists(s.project_tags[i].0));
        assert(s.tag_exists(s.project_tags[i].1));
    }
}

pub proof fn lemma_wf_update_project(s: EngineV, i: int, p: ProjectV)
    requires
        s.wf(),
        0 <= i < s.projects.len(),
        p.id == s.projects[i].id,
        forall|j: int| 0 <= j < s.projects.len() && j != i ==> s.projects[j].name != p.name,
    ensures
        s.with_projects(s.projects.update(i, p)).wf(),
{
    let s2 = s.with_projects(s.projects.update(i, p));
    lemma_projects_grow(s, s.projects.update(i, p));
    assert forall|a: int| 0 <= a < s2.tasks.len() implies s2.project_exists(
        #[trigger] s2.tasks[a].project_id,
    ) by {
        assert(s.project_exists(s.tasks[a].project_id));
    }
    assert forall|a: int| 0 <= a < s2.project_tags.len() implies s2.project_exists(
        #[trigger] s2.project_tags[a].0,
    ) && s2.tag_exists(s2.project_tags[a].1) by {
        assert(s.project_exists(s.project_tags[a].0));
        assert(s.tag_exists(s.project_tags[a].1));
    }
}

impl Engine {
    /// Index of the project with this name.
    pub(crate) fn find_project(&self, name: &String) -> (r: Option<usize>)
        ensures
            match r {
                Some(i) => i < self.projects@.len() && i == self@.project_index(name@),
                None => self@.project_index(name@) == -1,
            },
    {
        let ghost p = project_named(name@);
        let mut i: usize = 0;
        while i < self.projects.len()
            invariant
                i <= self.projects@.len(),
                p == project_named(name@),
                forall|j: int| 0 <= j < i ==> !p(#[trigger] self@.projects[j]),
            decreases self.projects@.len() - i,
        {
            assert(self@.projects[i as int] == self.projects@[i as int]@);
            if self.projects[i].name == *name {
                proof {
                    lemma_first_index_is(self@.projects, p, i as int);
                }
                return Some(i);
            }
            i = i + 1;
        }
        proof {
            lemma_first_index_is(self@.projects, p, -1);
        }
        None
    }

    /// Index of the project with this id.
    pub(crate) fn find_project_id(&self, id: i64) -> (r: Option<usize>)
        ensures
            match r {
                Some(i) => i < self.projects@.len() && i == self@.project_id_index(id as int),
                None => self@.project_id_index(id as int) == -1,
            },
    {
        let ghost p = project_with_id(id as int);
        let mut i: usize = 0;
        while i < self.projects.len()
            invariant
                i <= self.projects@.len(),
                p == project_with_id(id as int),
                forall|j: int| 0 <= j < i ==> !p(#[trigger] self@.projects[j]),
            decreases self.projects@.len() - i,
        {
            assert(self@.projects[i as int] == self.projects@[i as int]@);
            if self.projects[i].id == id {
                proof {
                    lemma_first_index_is(self@.projects, p, i as int);
                }
                return Some(i);
            }
            i = i + 1;
        }
        proof {
            lemma_first_index_is(self@.projects, p, -1);
        }
        None
    }

    /// Creates a project named `name`; `now` is the creation time.
    pub fn create_project(&mut self, name: &str, description: &str, now: i128) -> (r: Result<
        Project,
        StoreError,
    >)
        requires
            old(self)@.wf(),
            ts_in_range(now as int),
        ensures
            final(self)@.wf(),
            (final(self)@, match r {
                Ok(p) => Ok(p@),
                Err(e) => Err(e@),
            }) == old(self)@.create_project(name@, description@, now as int),
    {
        let name_s = to_owned_string(name);
        if let Some(_) = self.find_project(&name_s) {
            return Err(StoreError::NameTaken(name_s));
        }
        let n = self.projects.len();
        let id: i64 = if n == 0 {
            1
        } else {
            let last = self.projects[n - 1].id;
            if last == i64::MAX {
                return Err(StoreError::Db(to_owned_string("database or disk is full")));
            }
            last + 1
        };
        let p = Project { id, name: name_s, description: to_owned_string(description), created_at: super::tasks::sql_now_of(now) };
        let ghost old_v = self@;
        let r = p.copy();
        self.projects.push(p);
        proof {
            lemma_map_push(old(self).projects@, r, |p: Project| p@);
            assert(old_v.projects.len() > 0 ==> old_v.projects.last() == old(self).projects@[n - 1]@);
            lemma_wf_push_project(old_v, r@);
        }
        Ok(r)
    }

    /// The project with this id.
    pub fn get_project_by_id(&self, id: i64) -> (r: Result<Project, StoreError>)
        ensures
            match r {
                Ok(p) => Ok(p@),
                Err(e) => Err(e@),
            } == self@.get_project_by_id(id as int),
    {
        match self.find_project_id(id) {
            Some(i) => Ok(self.projects[i].copy()),
            None => Err(StoreError::Db(to_owned_string("Query returned no rows"))),
        }
    }

    /// The project with this name.
    pub fn get_project_by_name(&self, name: &str) -> (r: Result<Project, StoreError>)
        ensures
            match r {
                Ok(p) => Ok(p@),
                Err(e) => Err(e@),
            } == self@.get_project_by_name(name@),
    {
        let name_s = to_owned_string(name);
        match self.find_project(&name_s) {
            Some(i) => Ok(self.projects[i].copy()),
            None => Err(StoreError::NotFound(name_s)),
        }
    }

    /// Renames a project and/or replaces its description.
    pub fn modify_project(&mut self, name: &str, patch: ProjectPatch) -> (r: Result<
        Option<Project>,
        StoreError,
    >)
        requires
            old(self)@.wf(),
        ensures
            final(self)@.wf(),
            (final(self)@, match r {
                Ok(Some(p)) => Ok(Some(p@)),
                Ok(None) => Ok(None),
                Err(e) => Err(e@),
            }) == old(self)@.modify_project(
                name@,
                match patch.name {
                    Some(n) => Some(n@),
                    None => None,
                },
                match patch.description {
                    Some(d) => Some(d@),
                    None => None,
                },
            ),
    {
        if patch.name.is_none() && patch.description.is_none() {
            return match self.get_project_by_name(name) {
                Ok(p) => Ok(Some(p)),
                Err(e) => Err(e),
            };
        }
        let name_s = to_owned_string(name);
        let i = match self.find_project(&name_s) {
            Some(i) => i,
            None => {
                return Ok(None);
            },
        };
        if let Some(n) = &patch.name {
            if *n != name_s {
                if let Some(_) = self.find_project(n) {
                    return Err(StoreError::Db(to_owned_string("UNIQUE constraint failed: projects.name")));
                }
            }
        }
        let ghost old_v = self@;
        let old_p = self.projects[i].copy();
        let new_name = match patch.name {
            Some(n) => n,
            None => old_p.name,
        };
        let new_desc = match patch.description {
            Some(d) => d,
            None => old_p.description,
        };
        let p = Project { id: old_p.id, name: new_name, description: new_desc, created_at: old_p.created_at };
        let r = p.copy();
        self.projects.set(i, p);
        proof {
            lemma_map_update(old(self).projects@, i as int, r, |p: Project| p@);
            lemma_first_index(old_v.projects, project_named(name@));
            assert forall|j: int| 0 <= j < old_v.projects.len() && j != i implies old_v.projects[j].name != r@.name by {
                if old_v.projects[j].name == r@.name {
                    if r@.name == name@ {
                        assert(old_v.projects[j].name != old_v.projects[i as int].name);
                    } else {
                        lemma_first_index(old_v.projects, project_named(r@.name));
                    }
                }
            }
            lemma_wf_update_project(old_v, i as int, r@);
        }
        Ok(Some(r))
    }
}

} // verus!

verus! {

pub proof fn lemma_wf_without_project(s: EngineV, pid: int)
    requires
        s.wf(),
    ensures
        s.without_project(pid).wf(),
{
    let s2 = s.without_project(pid);
    let ps = s.projects.filter(project_id_not(pid));
    let ts = s.tasks.filter(task_project_not(pid));
    let pts = s.project_tags.filter(link_owner_not(pid));
    let tts = s.task_tags.filter(link_task_in(ts));
    let ss = s.subtasks.filter(subtask_task_in(ts));
    lemma_filter_members(s.projects, project_id_not(pid));
    lemma_filter_members(s.tasks, task_project_not(pid));
    lemma_filter_members(s.project_tags, link_owner_not(pid));
    lemma_filter_members(s.task_tags, link_task_in(ts));
    lemma_filter_members(s.subtasks, subtask_task_in(ts));
    lemma_filter_pairwise(s.projects, project_id_not(pid), |a: ProjectV, b: ProjectV| a.id < b.id);
    lemma_filter_pairwise(s.projects, project_id_not(pid), |a: ProjectV, b: ProjectV| a.name != b.name);
    lemma_filter_pairwise(s.tasks, task_project_not(pid), |a: TaskV, b: TaskV| a.id < b.id);
    lemma_filter_pairwise(
        s.tasks,
        task_project_not(pid),
        |a: TaskV, b: TaskV| !a.done && !b.done && a.project_id == b.project_id ==> a.name != b.name,
    );
    lemma_filter_pairwise(s.subtasks, subtask_task_in(ts), |a: SubtaskV, b: SubtaskV| a.id < b.id);
    lemma_filter_pairwise(
        s.subtasks,
        subtask_task_in(ts),
        |a: SubtaskV, b: SubtaskV| a.task_id == b.task_id ==> a.name != b.name,
    );
    lemma_filter_pairwise(s.project_tags, link_owner_not(pid), |a: (int, int), b: (int, int)| a != b);
    lemma_filter_pairwise(s.task_tags, link_task_in(ts), |a: (int, int), b: (int, int)| a != b);
    assert forall|i: int| 0 <= i < ps.len() implies 1 <= #[trigger] ps[i].id <= i64::MAX by {
        let k = choose|k: int| 0 <= k < s.projects.len() && s.projects[k] == ps[i];
        assert(s.projects[k].id >= 1);
    }
    assert forall|i: int| 0 <= i < ts.len() implies 1 <= #[trigger] ts[i].id <= i64::MAX by {
        let k = choose|k: int| 0 <= k < s.tasks.len() && s.tasks[k] == ts[i];
        assert(s.tasks[k].id >= 1);
    }
    assert forall|i: int| 0 <= i < ss.len() implies 1 <= #[trigger] ss[i].id <= i64::MAX by {
        let k = choose|k: int| 0 <= k < s.subtasks.len() && s.subtasks[k] == ss[i];
        assert(s.subtasks[k].id >= 1);
    }
    assert forall|i: int| 0 <= i < ts.len() implies has_project_id(ps, #[trigger] ts[i].project_id) by {
        let k = choose|k: int| 0 <= k < s.tasks.len() && s.tasks[k] == ts[i];
        assert(task_project_not(pid)(ts[i]));
        assert(s.project_exists(s.tasks[k].project_id));
        let m = choose|m: int| 0 <= m < s.projects.len() && #[trigger] s.projects[m].id == s.tasks[k].project_id;
        assert(project_id_not(pid)(s.projects[m]));
        assert(ps.contains(s.projects[m]));
        let n = choose|n: int| 0 <= n < ps.len() && ps[n] == s.projects[m];
        assert(ps[n].id == ts[i].project_id);
    }
    assert forall|i: int| 0 <= i < ss.len() implies has_task_id(ts, #[trigger] ss[i].task_id) by {
        assert(subtask_task_in(ts)(ss[i]));
    }
    assert forall|i: int| 0 <= i < pts.len() implies has_project_id(ps, #[trigger] pts[i].0)
        && has_tag_id(s.tags, pts[i].1) by {
        let k = choose|k: int| 0 <= k < s.project_tags.len() && s.project_tags[k] == pts[i];
        assert(link_owner_not(pid)(pts[i]));
        assert(s.project_exists(s.project_tags[k].0));
        assert(s.tag_exists(s.project_tags[k].1));
        let m = choose|m: int| 0 <= m < s.projects.len() && #[trigger] s.projects[m].id == s.project_tags[k].0;
        assert(project_id_not(pid)(s.projects[m]));
        assert(ps.contains(s.projects[m]));
        let n = choose|n: int| 0 <= n < ps.len() && ps[n] == s.projects[m];
        assert(ps[n].id == pts[i].0);
    }
    assert forall|i: int| 0 <= i < tts.len() implies has_task_id(ts, #[trigger] tts[i].0)
        && has_tag_id(s.tags, tts[i].1) by {
        let k = choose|k: int| 0 <= k < s.task_tags.len() && s.task_tags[k] == tts[i];
        assert(link_task_in(ts)(tts[i]));
        assert(s.tag_exists(s.task_tags[k].1));
    }
}

impl Engine {
    /// Deletes the project with this name together with its tasks, their subtasks and
    /// all their tag links. Whether such a project existed.
    pub fn delete_project(&mut self, name: &str) -> (r: Result<bool, StoreError>)
        requires
            old(self)@.wf(),
        ensures
            final(self)@.wf(),
            r matches Ok(b) && (final(self)@, b) == old(self)@.delete_project(name@),
    {
        let name_s = to_owned_string(name);
        match self.find_project(&name_s) {
            None => Ok(false),
            Some(i) => {
                let pid = self.projects[i].id;
                let ghost old_v = self@;
                let projects = retain_projects_without_id(&self.projects, pid);
                let project_tags = retain_links_without_owner(&self.project_tags, pid);
                let tasks = retain_tasks_outside_project(&self.tasks, pid);
                let task_tags = retain_links_with_task_in(&self.task_tags, &tasks);
                let subtasks = retain_subtasks_with_task_in(&self.subtasks, &tasks);
                self.projects = projects;
                self.project_tags = project_tags;
                self.tasks = tasks;
                self.task_tags = task_tags;
                self.subtasks = subtasks;
                proof {
                    assert(self@ == old_v.without_project(pid as int));
                    lemma_wf_without_project(old_v, pid as int);
                }
                Ok(true)
            },
        }
    }
}

} // verus!
