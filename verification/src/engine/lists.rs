//! Listings of projects and tasks, in the orders their queries ask for.
use vstd::prelude::*;
use crate::models::{Project, StoreError, Task};
use crate::text::{compare_text, text_less};
use super::Engine;
use super::tables::retain_tasks_of_project;
use super::model::{
    insertion_sort, lemma_insert_sorted_at, lemma_insertion_sort_start,
    lemma_insertion_sort_step, lemma_map_insert, lemma_map_push, task_project_is, EngineV,
    ErrorV, ProjectV, TaskV,
};

verus! {

/// `ORDER BY created_at DESC`; rows created at the same time stay in id order.
pub open spec fn project_order() -> spec_fn(ProjectV, ProjectV) -> bool {
    |a: ProjectV, b: ProjectV| a.created_at >= b.created_at
}

/// `ORDER BY name ASC` (binary collation: by code points).
pub open spec fn text_order() -> spec_fn(Seq<char>, Seq<char>) -> bool {
    |a: Seq<char>, b: Seq<char>| !text_less(b, a)
}

/// `ORDER BY due_date ASC NULLS LAST`; ties stay in id order.
pub open spec fn due_le(a: Option<int>, b: Option<int>) -> bool {
    match (a, b) {
        (Some(x), Some(y)) => x <= y,
        (Some(_), None) => true,
        (None, None) => true,
        (None, Some(_)) => false,
    }
}

pub open spec fn task_due_order() -> spec_fn(TaskV, TaskV) -> bool {
    |a: TaskV, b: TaskV| due_le(a.due_date, b.due_date)
}

pub open spec fn project_name_fn() -> spec_fn(ProjectV) -> Seq<char> {
    |p: ProjectV| p.name
}

pub open spec fn task_name_fn() -> spec_fn(TaskV) -> Seq<char> {
    |t: TaskV| t.name
}

impl EngineV {
    /// Every project, newest first.
    pub open spec fn list_projects(self) -> Seq<ProjectV> {
        insertion_sort(self.projects, project_order())
    }

    /// The names of the projects, in text order.
    pub open spec fn project_names(self) -> Seq<Seq<char>> {
        insertion_sort(self.projects.map_values(project_name_fn()), text_order())
    }

    /// The tasks of the project with this name, soonest due first, those with no due date last.
    pub open spec fn list_tasks(self, pname: Seq<char>) -> Result<Seq<TaskV>, ErrorV> {
        match self.get_project_by_name(pname) {
            Err(e) => Err(e),
            Ok(p) => Ok(insertion_sort(self.tasks.filter(task_project_is(p.id)), task_due_order())),
        }
    }

    /// The names of the tasks of the project with this name, in text order.
    pub open spec fn task_names(self, pname: Seq<char>) -> Result<Seq<Seq<char>>, ErrorV> {
        match self.get_project_by_name(pname) {
            Err(e) => Err(e),
            Ok(p) => Ok(
                insertion_sort(
                    self.tasks.filter(task_project_is(p.id)).map_values(task_name_fn()),
                    text_order(),
                ),
            ),
        }
    }
}

fn text_le(a: &String, b: &String) -> (r: bool)
    ensures
        r == text_order()(a@, b@),
{
    compare_text(b.as_str(), a.as_str()) >= 0
}

fn due_le_exec(a: Option<i128>, b: Option<i128>) -> (r: bool)
    ensures
        r == due_le(super::tasks::opt_int_of(a), super::tasks::opt_int_of(b)),
{
    match (a, b) {
        (Some(x), Some(y)) => x <= y,
        (Some(_), None) => true,
        (None, None) => true,
        (None, Some(_)) => false,
    }
}

fn sort_projects(v: &Vec<Project>) -> (r: Vec<Project>)
    ensures
        r@.map_values(|p: Project| p@) == insertion_sort(v@.map_values(|p: Project| p@), project_order()),
{
    let ghost vv = v@.map_values(|p: Project| p@);
    let mut r: Vec<Project> = Vec::new();
    proof {
        lemma_insertion_sort_start(vv, project_order());
        assert(r@.map_values(|p: Project| p@) =~= Seq::<ProjectV>::empty());
    }
    let mut i: usize = 0;
    while i < v.len()
        invariant
            i <= v@.len(),
            vv == v@.map_values(|p: Project| p@),
            r@.map_values(|p: Project| p@) == insertion_sort(vv.take(i as int), project_order()),
        decreases v@.len() - i,
    {
        let x = v[i].copy();
        let ghost rv = r@.map_values(|p: Project| p@);
        let mut k: usize = 0;
        while k < r.len() && r[k].created_at >= x.created_at
            invariant
                k <= r@.len(),
                rv == r@.map_values(|p: Project| p@),
                x@ == vv[i as int],
                forall|j: int| 0 <= j < k ==> project_order()(#[trigger] rv[j], x@),
            decreases r@.len() - k,
        {
            k = k + 1;
        }
        proof {
            lemma_insertion_sort_step(vv, project_order(), i as int);
            lemma_insert_sorted_at(x@, rv, project_order(), k as int);
            lemma_map_insert(r@, k as int, x, |p: Project| p@);
        }
        r.insert(k, x);
        i = i + 1;
    }
    proof {
        lemma_insertion_sort_start(vv, project_order());
    }
    r
}

fn sort_texts(v: &Vec<String>) -> (r: Vec<String>)
    ensures
        r@.map_values(|s: String| s@) == insertion_sort(v@.map_values(|s: String| s@), text_order()),
{
    let ghost vv = v@.map_values(|s: String| s@);
    let mut r: Vec<String> = Vec::new();
    proof {
        lemma_insertion_sort_start(vv, text_order());
        assert(r@.map_values(|s: String| s@) =~= Seq::<Seq<char>>::empty());
    }
    let mut i: usize = 0;
    while i < v.len()
        invariant
            i <= v@.len(),
            vv == v@.map_values(|s: String| s@),
            r@.map_values(|s: String| s@) == insertion_sort(vv.take(i as int), text_order()),
        decreases v@.len() - i,
    {
        let x = v[i].clone();
        let ghost rv = r@.map_values(|s: String| s@);
        let mut k: usize = 0;
        while k < r.len() && text_le(&r[k], &x)
            invariant
                k <= r@.len(),
                rv == r@.map_values(|s: String| s@),
                x@ == vv[i as int],
                forall|j: int| 0 <= j < k ==> text_order()(#[trigger] rv[j], x@),
            decreases r@.len() - k,
        {
            k = k + 1;
        }
        proof {
            lemma_insertion_sort_step(vv, text_order(), i as int);
            lemma_insert_sorted_at(x@, rv, text_order(), k as int);
            lemma_map_insert(r@, k as int, x, |s: String| s@);
        }
        r.insert(k, x);
        i = i + 1;
    }
    proof {
        lemma_insertion_sort_start(vv, text_order());
    }
    r
}

fn sort_tasks_by_due(v: &Vec<Task>) -> (r: Vec<Task>)
    ensures
        r@.map_values(|t: Task| t@) == insertion_sort(v@.map_values(|t: Task| t@), task_due_order()),
{
    let ghost vv = v@.map_values(|t: Task| t@);
    let mut r: Vec<Task> = Vec::new();
    proof {
        lemma_insertion_sort_start(vv, task_due_order());
        assert(r@.map_values(|t: Task| t@) =~= Seq::<TaskV>::empty());
    }
    let mut i: usize = 0;
    while i < v.len()
        invariant
            i <= v@.len(),
            vv == v@.map_values(|t: Task| t@),
            r@.map_values(|t: Task| t@) == insertion_sort(vv.take(i as int), task_due_order()),
        decreases v@.len() - i,
    {
        let x = v[i].copy();
        let ghost rv = r@.map_values(|t: Task| t@);
        let mut k: usize = 0;
        while k < r.len() && due_le_exec(r[k].due_date, x.due_date)
            invariant
                k <= r@.len(),
                rv == r@.map_values(|t: Task| t@),
                x@ == vv[i as int],
                forall|j: int| 0 <= j < k ==> task_due_order()(#[trigger] rv[j], x@),
            decreases r@.len() - k,
        {
            k = k + 1;
        }
        proof {
            lemma_insertion_sort_step(vv, task_due_order(), i as int);
            lemma_insert_sorted_at(x@, rv, task_due_order(), k as int);
            lemma_map_insert(r@, k as int, x, |t: Task| t@);
        }
        r.insert(k, x);
        i = i + 1;
    }
    proof {
        lemma_insertion_sort_start(vv, task_due_order());
    }
    r
}

fn task_names_of(v: &Vec<Task>) -> (r: Vec<String>)
    ensures
        r@.map_values(|s: String| s@) == v@.map_values(|t: Task| t@).map_values(task_name_fn()),
{
    let mut r: Vec<String> = Vec::new();
    let mut i: usize = 0;
    while i < v.len()
        invariant
            i <= v@.len(),
            r@.map_values(|s: String| s@) == v@.map_values(|t: Task| t@).map_values(task_name_fn()).take(i as int),
        decreases v@.len() - i,
    {
        let c = v[i].name.clone();
        proof {
            lemma_map_push(r@, c, |s: String| s@);
            assert(v@.map_values(|t: Task| t@).map_values(task_name_fn()).take(i + 1) =~= v@.map_values(|t: Task| t@).map_values(task_name_fn()).take(i as int).push(c@));
        }
        r.push(c);
        i = i + 1;
    }
    proof {
        assert(v@.map_values(|t: Task| t@).map_values(task_name_fn()).take(v@.len() as int) =~= v@.map_values(|t: Task| t@).map_values(task_name_fn()));
    }
    r
}

impl Engine {
    /// Every project, newest first.
    pub fn list_projects(&self) -> (r: Result<Vec<Project>, StoreError>)
        ensures
            r matches Ok(v) && v@.map_values(|p: Project| p@) == self@.list_projects(),
    {
        Ok(sort_projects(&self.projects))
    }

    /// The project names in text order.
    pub fn project_names(&self) -> (r: Result<Vec<String>, StoreError>)
        ensures
            r matches Ok(v) && v@.map_values(|s: String| s@) == self@.project_names(),
    {
        let mut names: Vec<String> = Vec::new();
        let mut i: usize = 0;
        while i < self.projects.len()
            invariant
                i <= self.projects@.len(),
                names@.map_values(|s: String| s@) == self@.projects.map_values(project_name_fn()).take(i as int),
            decreases self.projects@.len() - i,
        {
            let c = self.projects[i].name.clone();
            proof {
                lemma_map_push(names@, c, |s: String| s@);
                assert(self@.projects.map_values(project_name_fn()).take(i + 1) =~= self@.projects.map_values(project_name_fn()).take(i as int).push(c@));
            }
            names.push(c);
            i = i + 1;
        }
        proof {
            assert(self@.projects.map_values(project_name_fn()).take(self@.projects.len() as int) =~= self@.projects.map_values(project_name_fn()));
        }
        Ok(sort_texts(&names))
    }

    /// The tasks of the project with this name, soonest due first, those with no due date last.
    pub fn list_tasks(&self, project_name: &str) -> (r: Result<Vec<Task>, StoreError>)
        ensures
            match r {
                Ok(v) => Ok(v@.map_values(|t: Task| t@)),
                Err(e) => Err(e@),
            } == self@.list_tasks(project_name@),
    {
        let p = match self.get_project_by_name(project_name) {
            Ok(p) => p,
            Err(e) => return Err(e),
        };
        let ts = retain_tasks_of_project(&self.tasks, p.id);
        Ok(sort_tasks_by_due(&ts))
    }

    /// The task names of the project with this name, in text order.
    pub fn task_names(&self, project_name: &str) -> (r: Result<Vec<String>, StoreError>)
        ensures
            match r {
                Ok(v) => Ok(v@.map_values(|s: String| s@)),
                Err(e) => Err(e@),
            } == self@.task_names(project_name@),
    {
        let p = match self.get_project_by_name(project_name) {
            Ok(p) => p,
            Err(e) => return Err(e),
        };
        let ts = retain_tasks_of_project(&self.tasks, p.id);
        let names = task_names_of(&ts);
        Ok(sort_texts(&names))
    }
}

} // verus!
