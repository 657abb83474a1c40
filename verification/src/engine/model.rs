//! The mathematical model of the store: its tables as sequences of rows, and
//! what each operation does to them.
use vstd::prelude::*;
use crate::models::{
    next_date_spec, parse_recurrence_spec, ts_in_range, Project, Recurrence, StoreError,
    Subtask, Tag, Task,
};
use crate::text::trim_spec;
use crate::dates::NANOS_PER_DAY;

verus! {

pub struct ProjectV {
    pub id: int,
    pub name: Seq<char>,
    pub description: Seq<char>,
    pub created_at: int,
}

pub struct TagV {
    pub id: int,
    pub name: Seq<char>,
}

pub struct TaskV {
    pub id: int,
    pub project_id: int,
    pub name: Seq<char>,
    pub description: Seq<char>,
    pub priority: int,
    pub due_date: Option<int>,
    pub recurrence: Option<Seq<char>>,
    pub done: bool,
    pub created_at: int,
}

pub struct SubtaskV {
    pub id: int,
    pub task_id: int,
    pub name: Seq<char>,
    pub due_date: Option<int>,
    pub done: bool,
    pub created_at: int,
}

pub enum ErrorV {
    NameTaken(Seq<char>),
    TaskNameTaken(Seq<char>),
    SubtaskNameTaken(Seq<char>),
    PendingSubtasks(Seq<char>),
    NotFound(Seq<char>),
    InvalidDueDate(Seq<char>),
    InvalidRecurrence(Seq<char>),
    Db(Seq<char>),
}

impl View for Project {
    type V = ProjectV;

    open spec fn view(&self) -> ProjectV {
        ProjectV {
            id: self.id as int,
            name: self.name@,
            description: self.description@,
            created_at: self.created_at as int,
        }
    }
}

impl View for Tag {
    type V = TagV;

    open spec fn view(&self) -> TagV {
        TagV { id: self.id as int, name: self.name@ }
    }
}

pub open spec fn opt_text(s: Option<String>) -> Option<Seq<char>> {
    match s {
        Some(x) => Some(x@),
        None => None,
    }
}

pub open spec fn opt_int(s: Option<i128>) -> Option<int> {
    match s {
        Some(x) => Some(x as int),
        None => None,
    }
}

impl View for Task {
    type V = TaskV;

    open spec fn view(&self) -> TaskV {
        TaskV {
            id: self.id as int,
            project_id: self.project_id as int,
            name: self.name@,
            description: self.description@,
            priority: self.priority as int,
            due_date: opt_int(self.due_date),
            recurrence: opt_text(self.recurrence),
            done: self.done,
            created_at: self.created_at as int,
        }
    }
}

impl View for Subtask {
    type V = SubtaskV;

    open spec fn view(&self) -> SubtaskV {
        SubtaskV {
            id: self.id as int,
            task_id: self.task_id as int,
            name: self.name@,
            due_date: opt_int(self.due_date),
            done: self.done,
            created_at: self.created_at as int,
        }
    }
}

impl View for StoreError {
    type V = ErrorV;

    open spec fn view(&self) -> ErrorV {
        match self {
            StoreError::NameTaken(s) => ErrorV::NameTaken(s@),
            StoreError::TaskNameTaken(s) => ErrorV::TaskNameTaken(s@),
            StoreError::SubtaskNameTaken(s) => ErrorV::SubtaskNameTaken(s@),
            StoreError::PendingSubtasks(s) => ErrorV::PendingSubtasks(s@),
            StoreError::NotFound(s) => ErrorV::NotFound(s@),
            StoreError::InvalidDueDate(s) => ErrorV::InvalidDueDate(s@),
            StoreError::InvalidRecurrence(s) => ErrorV::InvalidRecurrence(s@),
            StoreError::Db(s) => ErrorV::Db(s@),
        }
    }
}

/// Message of the database error for a query that found no row.
pub open spec fn no_rows_msg() -> Seq<char> {
    "Query returned no rows"@
}

/// Message of the database error when no row id is left.
pub open spec fn full_msg() -> Seq<char> {
    "database or disk is full"@
}

pub open spec fn project_name_conflict_msg() -> Seq<char> {
    "UNIQUE constraint failed: projects.name"@
}

pub open spec fn task_name_conflict_msg() -> Seq<char> {
    "UNIQUE constraint failed: tasks.name, tasks.project_id"@
}

pub open spec fn subtask_name_conflict_msg() -> Seq<char> {
    "UNIQUE constraint failed: subtasks.name, subtasks.task_id"@
}

pub open spec fn late_subtask_msg() -> Seq<char> {
    "subtask due date cannot be after parent task due date"@
}

/// The text of an error, as the store shows it to a user.
pub open spec fn error_text(e: ErrorV) -> Seq<char> {
    match e {
        ErrorV::NameTaken(n) => "a project named '"@ + n + "' already exists"@,
        ErrorV::TaskNameTaken(n) => "a task named '"@ + n + "' already exists in this project"@,
        ErrorV::SubtaskNameTaken(n) => "a subtask named '"@ + n + "' already exists for this "@ + "task"@,
        ErrorV::PendingSubtasks(n) => "cannot complete task '"@ + n + "' because it has pending subtasks"@,
        ErrorV::NotFound(n) => "no project, task or subtask named '"@ + n + "' was found"@,
        ErrorV::InvalidDueDate(m) => "invalid due date: "@ + m,
        ErrorV::InvalidRecurrence(m) => "invalid recurrence: "@ + m,
        ErrorV::Db(m) => "database error: "@ + m,
    }
}

/// Index of the first element satisfying `p`, or -1.
pub open spec fn first_index<A>(s: Seq<A>, p: spec_fn(A) -> bool) -> int
    decreases s.len(),
{
    if s.len() == 0 {
        -1
    } else if p(s[0]) {
        0
    } else {
        let r = first_index(s.drop_first(), p);
        if r < 0 {
            -1
        } else {
            r + 1
        }
    }
}

pub proof fn lemma_first_index<A>(s: Seq<A>, p: spec_fn(A) -> bool)
    ensures
        -1 <= first_index(s, p) < s.len(),
        first_index(s, p) == -1 <==> (forall|i: int| 0 <= i < s.len() ==> !p(#[trigger] s[i])),
        first_index(s, p) >= 0 ==> p(s[first_index(s, p)]),
        forall|j: int| 0 <= j < first_index(s, p) ==> !p(#[trigger] s[j]),
    decreases s.len(),
{
    if s.len() > 0 && !p(s[0]) {
        lemma_first_index(s.drop_first(), p);
        assert forall|i: int| 0 <= i < s.len() && first_index(s, p) == -1 implies !p(
            #[trigger] s[i],
        ) by {
            if i > 0 {
                assert(s[i] == s.drop_first()[i - 1]);
            }
        }
        assert forall|j: int| 0 <= j < first_index(s, p) implies !p(#[trigger] s[j]) by {
            if j > 0 {
                assert(s[j] == s.drop_first()[j - 1]);
            }
        }
        if first_index(s.drop_first(), p) == -1 {
            assert(forall|i: int|
                0 <= i < s.drop_first().len() ==> !p(#[trigger] s.drop_first()[i]));
            assert forall|i: int| 0 <= i < s.len() implies !p(#[trigger] s[i]) by {
                if i > 0 {
                    assert(s[i] == s.drop_first()[i - 1]);
                }
            }
        }
    }
}

/// The element characterization of `first_index`.
pub proof fn lemma_first_index_is<A>(s: Seq<A>, p: spec_fn(A) -> bool, k: int)
    requires
        -1 <= k < s.len(),
        k >= 0 ==> p(s[k]),
        k == -1 ==> forall|i: int| 0 <= i < s.len() ==> !p(#[trigger] s[i]),
        forall|j: int| 0 <= j < k ==> !p(#[trigger] s[j]),
    ensures
        first_index(s, p) == k,
{
    lemma_first_index(s, p);
    let f = first_index(s, p);
    if f >= 0 && k >= 0 {
        if f < k {
            assert(!p(s[f]));
        }
        if k < f {
            assert(!p(s[k]));
        }
    }
    if f == -1 && k >= 0 {
        assert(!p(s[k]));
    }
    if f >= 0 && k == -1 {
        assert(!p(s[f]));
    }
}

pub open spec fn has_project_id(s: Seq<ProjectV>, id: int) -> bool {
    exists|i: int| 0 <= i < s.len() && #[trigger] s[i].id == id
}

pub open spec fn has_task_id(s: Seq<TaskV>, id: int) -> bool {
    exists|i: int| 0 <= i < s.len() && #[trigger] s[i].id == id
}

pub open spec fn has_tag_id(s: Seq<TagV>, id: int) -> bool {
    exists|i: int| 0 <= i < s.len() && #[trigger] s[i].id == id
}

/// The tables of the store.
pub struct EngineV {
    pub projects: Seq<ProjectV>,
    pub tags: Seq<TagV>,
    pub project_tags: Seq<(int, int)>,
    pub tasks: Seq<TaskV>,
    pub task_tags: Seq<(int, int)>,
    pub subtasks: Seq<SubtaskV>,
}

/// A recurrence text that names a recurrence: it is present and not blank.
pub open spec fn recurrence_given(r: Option<Seq<char>>) -> bool {
    r matches Some(s) && trim_spec(s).len() > 0
}

/// A recurrence text that is neither blank nor a known keyword.
pub open spec fn recurrence_invalid(r: Option<Seq<char>>) -> bool {
    r matches Some(s) && trim_spec(s).len() > 0 && parse_recurrence_spec(s) is None
}

/// The row id SQLite gives a new row: one more than the largest so far.
pub open spec fn next_row_id(last: Option<int>) -> int {
    match last {
        Some(x) => x + 1,
        None => 1,
    }
}

pub open spec fn last_id_projects(s: Seq<ProjectV>) -> Option<int> {
    if s.len() == 0 {
        None
    } else {
        Some(s.last().id)
    }
}

pub open spec fn last_id_tags(s: Seq<TagV>) -> Option<int> {
    if s.len() == 0 {
        None
    } else {
        Some(s.last().id)
    }
}

pub open spec fn last_id_tasks(s: Seq<TaskV>) -> Option<int> {
    if s.len() == 0 {
        None
    } else {
        Some(s.last().id)
    }
}

pub open spec fn last_id_subtasks(s: Seq<SubtaskV>) -> Option<int> {
    if s.len() == 0 {
        None
    } else {
        Some(s.last().id)
    }
}

/// Another row id fits: the largest id so far is below `i64::MAX`.
pub open spec fn id_left(last: Option<int>) -> bool {
    match last {
        Some(x) => x < i64::MAX,
        None => true,
    }
}

pub open spec fn project_named(name: Seq<char>) -> spec_fn(ProjectV) -> bool {
    |p: ProjectV| p.name == name
}

pub open spec fn project_with_id(id: int) -> spec_fn(ProjectV) -> bool {
    |p: ProjectV| p.id == id
}

pub open spec fn tag_named(name: Seq<char>) -> spec_fn(TagV) -> bool {
    |t: TagV| t.name == name
}

pub open spec fn task_with_id(id: int) -> spec_fn(TaskV) -> bool {
    |t: TaskV| t.id == id
}

pub open spec fn subtask_with_id(id: int) -> spec_fn(SubtaskV) -> bool {
    |s: SubtaskV| s.id == id
}

pub open spec fn subtask_named(task_id: int, name: Seq<char>) -> spec_fn(SubtaskV) -> bool {
    |s: SubtaskV| s.task_id == task_id && s.name == name
}

pub open spec fn project_id_not(id: int) -> spec_fn(ProjectV) -> bool {
    |p: ProjectV| p.id != id
}

pub open spec fn link_owner_not(id: int) -> spec_fn((int, int)) -> bool {
    |l: (int, int)| l.0 != id
}

pub open spec fn link_owner_is(id: int) -> spec_fn((int, int)) -> bool {
    |l: (int, int)| l.0 == id
}

pub open spec fn link_not(pair: (int, int)) -> spec_fn((int, int)) -> bool {
    |l: (int, int)| l != pair
}

/// A link moved to owner `id`.
pub open spec fn relink(id: int) -> spec_fn((int, int)) -> (int, int) {
    |l: (int, int)| (id, l.1)
}

pub open spec fn task_project_not(pid: int) -> spec_fn(TaskV) -> bool {
    |t: TaskV| t.project_id != pid
}

pub open spec fn task_project_is(pid: int) -> spec_fn(TaskV) -> bool {
    |t: TaskV| t.project_id == pid
}

pub open spec fn task_id_not(id: int) -> spec_fn(TaskV) -> bool {
    |t: TaskV| t.id != id
}

pub open spec fn link_task_in(tasks: Seq<TaskV>) -> spec_fn((int, int)) -> bool {
    |l: (int, int)| has_task_id(tasks, l.0)
}

pub open spec fn subtask_task_in(tasks: Seq<TaskV>) -> spec_fn(SubtaskV) -> bool {
    |s: SubtaskV| has_task_id(tasks, s.task_id)
}

pub open spec fn subtask_task_not(id: int) -> spec_fn(SubtaskV) -> bool {
    |s: SubtaskV| s.task_id != id
}

pub open spec fn subtask_task_is(id: int) -> spec_fn(SubtaskV) -> bool {
    |s: SubtaskV| s.task_id == id
}

pub open spec fn subtask_id_not(id: int) -> spec_fn(SubtaskV) -> bool {
    |s: SubtaskV| s.id != id
}

impl EngineV {
    /// Index of the project with this name, or -1.
    pub open spec fn project_index(self, name: Seq<char>) -> int {
        first_index(self.projects, project_named(name))
    }

    pub open spec fn project_id_index(self, id: int) -> int {
        first_index(self.projects, project_with_id(id))
    }

    pub open spec fn tag_index(self, name: Seq<char>) -> int {
        first_index(self.tags, tag_named(name))
    }

    pub open spec fn task_index(self, id: int) -> int {
        first_index(self.tasks, task_with_id(id))
    }

    pub open spec fn subtask_index(self, id: int) -> int {
        first_index(self.subtasks, subtask_with_id(id))
    }

    /// Index of the subtask of task `task_id` named `name`, or -1.
    pub open spec fn subtask_named_index(self, task_id: int, name: Seq<char>) -> int {
        first_index(self.subtasks, subtask_named(task_id, name))
    }

    /// Some pending task of project `project_id` is named `name`, other than task `except`.
    pub open spec fn pending_name_taken(self, project_id: int, name: Seq<char>, except: int) -> bool {
        exists|i: int|
            0 <= i < self.tasks.len() && #[trigger] self.tasks[i].project_id == project_id
                && !self.tasks[i].done && self.tasks[i].name == name && self.tasks[i].id != except
    }

    /// Some subtask of task `task_id` is named `name`, other than subtask `except`.
    pub open spec fn subtask_name_taken(self, task_id: int, name: Seq<char>, except: int) -> bool {
        exists|i: int|
            0 <= i < self.subtasks.len() && #[trigger] self.subtasks[i].task_id == task_id
                && self.subtasks[i].name == name && self.subtasks[i].id != except
    }

    /// The task has a subtask that is not done.
    pub open spec fn has_pending_subtask(self, task_id: int) -> bool {
        exists|i: int|
            0 <= i < self.subtasks.len() && #[trigger] self.subtasks[i].task_id == task_id
                && !self.subtasks[i].done
    }

    pub open spec fn project_exists(self, id: int) -> bool {
        has_project_id(self.projects, id)
    }

    pub open spec fn task_exists(self, id: int) -> bool {
        has_task_id(self.tasks, id)
    }

    pub open spec fn tag_exists(self, id: int) -> bool {
        has_tag_id(self.tags, id)
    }

    /// Every table is in increasing id order with positive ids; names are unique where the
    /// schema says so; every reference points at an existing row; link pairs are unique.
    pub open spec fn wf(self) -> bool {
        &&& forall|i: int, j: int|
            0 <= i < j < self.projects.len() ==> self.projects[i].id < self.projects[j].id
        &&& forall|i: int| 0 <= i < self.projects.len() ==> 1 <= #[trigger] self.projects[i].id <= i64::MAX
        &&& forall|i: int, j: int|
            0 <= i < j < self.tags.len() ==> self.tags[i].id < self.tags[j].id
        &&& forall|i: int| 0 <= i < self.tags.len() ==> 1 <= #[trigger] self.tags[i].id <= i64::MAX
        &&& forall|i: int, j: int|
            0 <= i < j < self.tasks.len() ==> self.tasks[i].id < self.tasks[j].id
        &&& forall|i: int| 0 <= i < self.tasks.len() ==> 1 <= #[trigger] self.tasks[i].id <= i64::MAX
        &&& forall|i: int, j: int|
            0 <= i < j < self.subtasks.len() ==> self.subtasks[i].id < self.subtasks[j].id
        &&& forall|i: int|
            0 <= i < self.subtasks.len() ==> 1 <= #[trigger] self.subtasks[i].id <= i64::MAX
        &&& forall|i: int, j: int|
            0 <= i < j < self.projects.len() ==> self.projects[i].name != self.projects[j].name
        &&& forall|i: int, j: int|
            0 <= i < j < self.tags.len() ==> self.tags[i].name != self.tags[j].name
        &&& forall|i: int, j: int|
            0 <= i < j < self.tasks.len() && !self.tasks[i].done && !self.tasks[j].done
                && self.tasks[i].project_id == self.tasks[j].project_id ==> self.tasks[i].name
                != self.tasks[j].name
        &&& forall|i: int, j: int|
            0 <= i < j < self.subtasks.len() && self.subtasks[i].task_id
                == self.subtasks[j].task_id ==> self.subtasks[i].name != self.subtasks[j].name
        &&& forall|i: int|
            0 <= i < self.tasks.len() ==> self.project_exists(#[trigger] self.tasks[i].project_id)
        &&& forall|i: int|
            0 <= i < self.subtasks.len() ==> self.task_exists(#[trigger] self.subtasks[i].task_id)
        &&& forall|i: int|
            0 <= i < self.project_tags.len() ==> self.project_exists(
                #[trigger] self.project_tags[i].0,
            ) && self.tag_exists(self.project_tags[i].1)
        &&& forall|i: int|
            0 <= i < self.task_tags.len() ==> self.task_exists(#[trigger] self.task_tags[i].0)
                && self.tag_exists(self.task_tags[i].1)
        &&& forall|i: int, j: int|
            0 <= i < j < self.project_tags.len() ==> self.project_tags[i] != self.project_tags[j]
        &&& forall|i: int, j: int|
            0 <= i < j < self.task_tags.len() ==> self.task_tags[i] != self.task_tags[j]
    }

    /// A done task never has a pending subtask.
    pub open spec fn completion_consistent(self) -> bool {
        forall|i: int|
            0 <= i < self.tasks.len() && #[trigger] self.tasks[i].done ==> !self.has_pending_subtask(
                self.tasks[i].id,
            )
    }

    pub open spec fn with_projects(self, p: Seq<ProjectV>) -> EngineV {
        EngineV { projects: p, ..self }
    }

    pub open spec fn with_tasks(self, t: Seq<TaskV>) -> EngineV {
        EngineV { tasks: t, ..self }
    }

    pub open spec fn with_subtasks(self, s: Seq<SubtaskV>) -> EngineV {
        EngineV { subtasks: s, ..self }
    }

    // ----- projects -----

    pub open spec fn create_project(self, name: Seq<char>, description: Seq<char>, now: int) -> (
        EngineV,
        Result<ProjectV, ErrorV>,
    ) {
        if self.project_index(name) >= 0 {
            (self, Err(ErrorV::NameTaken(name)))
        } else if !id_left(last_id_projects(self.projects)) {
            (self, Err(ErrorV::Db(full_msg())))
        } else {
            let p = ProjectV {
                id: next_row_id(last_id_projects(self.projects)),
                name,
                description,
                created_at: sql_now(now),
            };
            (self.with_projects(self.projects.push(p)), Ok(p))
        }
    }

    pub open spec fn get_project_by_name(self, name: Seq<char>) -> Result<ProjectV, ErrorV> {
        let i = self.project_index(name);
        if i >= 0 {
            Ok(self.projects[i])
        } else {
            Err(ErrorV::NotFound(name))
        }
    }

    pub open spec fn get_project_by_id(self, id: int) -> Result<ProjectV, ErrorV> {
        let i = self.project_id_index(id);
        if i >= 0 {
            Ok(self.projects[i])
        } else {
            Err(ErrorV::Db(no_rows_msg()))
        }
    }

    /// The store without a project and every row that refers to it, directly or through
    /// one of its tasks (the schema's `ON DELETE CASCADE`).
    pub open spec fn without_project(self, pid: int) -> EngineV {
        let tasks = self.tasks.filter(task_project_not(pid));
        EngineV {
            projects: self.projects.filter(project_id_not(pid)),
            tags: self.tags,
            project_tags: self.project_tags.filter(link_owner_not(pid)),
            tasks,
            task_tags: self.task_tags.filter(link_task_in(tasks)),
            subtasks: self.subtasks.filter(subtask_task_in(tasks)),
        }
    }

    pub open spec fn delete_project(self, name: Seq<char>) -> (EngineV, bool) {
        let i = self.project_index(name);
        if i >= 0 {
            (self.without_project(self.projects[i].id), true)
        } else {
            (self, false)
        }
    }

    pub open spec fn modify_project(self, name: Seq<char>, new_name: Option<Seq<char>>, new_desc: Option<Seq<char>>) -> (
        EngineV,
        Result<Option<ProjectV>, ErrorV>,
    ) {
        let i = self.project_index(name);
        if new_name is None && new_desc is None {
            (
                self,
                match self.get_project_by_name(name) {
                    Ok(p) => Ok(Some(p)),
                    Err(e) => Err(e),
                },
            )
        } else if i < 0 {
            (self, Ok(None))
        } else if new_name matches Some(n) && n != name && self.project_index(n) >= 0 {
            (self, Err(ErrorV::Db(project_name_conflict_msg())))
        } else {
            let old = self.projects[i];
            let p = ProjectV {
                name: match new_name {
                    Some(n) => n,
                    None => old.name,
                },
                description: match new_desc {
                    Some(d) => d,
                    None => old.description,
                },
                ..old
            };
            (self.with_projects(self.projects.update(i, p)), Ok(Some(p)))
        }
    }

    // ----- tasks -----

    pub open spec fn get_task_by_id(self, id: int) -> Result<TaskV, ErrorV> {
        let i = self.task_index(id);
        if i >= 0 {
            Ok(self.tasks[i])
        } else {
            Err(ErrorV::Db(no_rows_msg()))
        }
    }

    /// The task `t` belongs to the project named `pname` and is named `tname`.
    pub open spec fn task_matches(self, t: TaskV, pname: Seq<char>, tname: Seq<char>) -> bool {
        &&& t.name == tname
        &&& self.project_index(pname) >= 0
        &&& t.project_id == self.projects[self.project_index(pname)].id
    }

    /// Index of the task `get_task_by_name` picks, or -1: among the project's tasks with that
    /// name, a pending one before a done one, then the latest due date (no due date last),
    /// then the lowest id.
    pub open spec fn task_by_name_index(self, pname: Seq<char>, tname: Seq<char>) -> int {
        if exists|i: int| 0 <= i < self.tasks.len() && self.task_matches(#[trigger] self.tasks[i], pname, tname) {
            choose|i: int|
                0 <= i < self.tasks.len() && self.task_matches(#[trigger] self.tasks[i], pname, tname)
                    && forall|j: int|
                    0 <= j < self.tasks.len() && self.task_matches(#[trigger] self.tasks[j], pname, tname)
                        ==> !pick_before(self.tasks[j], self.tasks[i])
        } else {
            -1
        }
    }

    pub open spec fn get_task_by_name(self, pname: Seq<char>, tname: Seq<char>) -> Result<TaskV, ErrorV> {
        let i = self.task_by_name_index(pname, tname);
        if i >= 0 {
            Ok(self.tasks[i])
        } else {
            Err(ErrorV::NotFound(tname))
        }
    }

    /// The store without a task, its subtasks and its tag links.
    pub open spec fn without_task(self, id: int) -> EngineV {
        EngineV {
            tasks: self.tasks.filter(task_id_not(id)),
            task_tags: self.task_tags.filter(link_owner_not(id)),
            subtasks: self.subtasks.filter(subtask_task_not(id)),
            ..self
        }
    }

    pub open spec fn delete_task_by_id(self, id: int) -> (EngineV, bool) {
        if self.task_index(id) >= 0 {
            (self.without_task(id), true)
        } else {
            (self, false)
        }
    }

    pub open spec fn create_task(
        self,
        pname: Seq<char>,
        name: Seq<char>,
        description: Seq<char>,
        priority: int,
        due: Option<int>,
        recurrence: Option<Seq<char>>,
        now: int,
    ) -> (EngineV, Result<TaskV, ErrorV>) {
        match self.get_project_by_name(pname) {
            Err(e) => (self, Err(e)),
            Ok(p) => {
                if recurrence_invalid(recurrence) {
                    (self, Err(ErrorV::InvalidRecurrence(recurrence->0)))
                } else if self.pending_name_taken(p.id, name, -1) {
                    (self, Err(ErrorV::TaskNameTaken(name)))
                } else if !id_left(last_id_tasks(self.tasks)) {
                    (self, Err(ErrorV::Db(full_msg())))
                } else {
                    let t = TaskV {
                        id: next_row_id(last_id_tasks(self.tasks)),
                        project_id: p.id,
                        name,
                        description,
                        priority,
                        due_date: if due is None && recurrence_given(recurrence) {
                            Some(utc_midnight(now))
                        } else {
                            due
                        },
                        recurrence,
                        done: false,
                        created_at: sql_now(now),
                    };
                    (self.with_tasks(self.tasks.push(t)), Ok(t))
                }
            },
        }
    }

    /// The task after applying a patch, as `modify_task_by_id` writes it.
    pub open spec fn patched_task(
        cur: TaskV,
        name: Option<Seq<char>>,
        description: Option<Seq<char>>,
        priority: Option<int>,
        due: Option<Option<int>>,
        recurrence: Option<Option<Seq<char>>>,
        done: Option<bool>,
        now: int,
    ) -> TaskV {
        let due_default = recurrence matches Some(r) && recurrence_given(r) && !(match due {
            Some(Some(_)) => true,
            Some(None) => false,
            None => cur.due_date is Some,
        });
        TaskV {
            name: match name {
                Some(n) => n,
                None => cur.name,
            },
            description: match description {
                Some(d) => d,
                None => cur.description,
            },
            priority: match priority {
                Some(p) => p,
                None => cur.priority,
            },
            due_date: if due_default {
                Some(utc_midnight(now))
            } else {
                match due {
                    Some(d) => d,
                    None => cur.due_date,
                }
            },
            recurrence: match recurrence {
                Some(r) => r,
                None => cur.recurrence,
            },
            done: match done {
                Some(d) => d,
                None => cur.done,
            },
            ..cur
        }
    }

    pub open spec fn modify_task_by_id(
        self,
        id: int,
        name: Option<Seq<char>>,
        description: Option<Seq<char>>,
        priority: Option<int>,
        due: Option<Option<int>>,
        recurrence: Option<Option<Seq<char>>>,
        done: Option<bool>,
        now: int,
    ) -> (EngineV, Result<Option<TaskV>, ErrorV>) {
        let i = self.task_index(id);
        if i < 0 {
            (self, Err(ErrorV::Db(no_rows_msg())))
        } else {
            let cur = self.tasks[i];
            if recurrence matches Some(r) && recurrence_invalid(r) {
                (self, Err(ErrorV::InvalidRecurrence(recurrence->0->0)))
            } else if done == Some(true) && self.has_pending_subtask(cur.id) {
                (self, Err(ErrorV::PendingSubtasks(cur.name)))
            } else if name is None && description is None && priority is None && due is None
                && recurrence is None && done is None {
                (self, Ok(Some(cur)))
            } else {
                let new = EngineV::patched_task(cur, name, description, priority, due, recurrence, done, now);
                if !new.done && self.pending_name_taken(cur.project_id, new.name, cur.id) {
                    (self, Err(ErrorV::Db(task_name_conflict_msg())))
                } else {
                    let s1 = self.with_tasks(self.tasks.update(i, new));
                    if done == Some(true) && recurrence_given(new.recurrence) {
                        let (s2, r) = s1.clone_recurring(new, now);
                        (s2, match r {
                            Ok(_) => Ok(Some(new)),
                            Err(e) => Err(e),
                        })
                    } else {
                        (s1, Ok(Some(new)))
                    }
                }
            }
        }
    }

    /// Adds the next occurrence of a completed recurring task: a pending copy due at the
    /// next date, with the same tags and fresh pending copies of its subtasks.
    pub open spec fn clone_recurring(self, task: TaskV, now: int) -> (EngineV, Result<(), ErrorV>) {
        let rec_str = task.recurrence->0;
        match parse_recurrence_spec(rec_str) {
            None => (self, Err(ErrorV::InvalidRecurrence(rec_str))),
            Some(r) => {
                let base = match task.due_date {
                    Some(d) => d,
                    None => now,
                };
                let next = next_date_spec(r, base);
                if self.pending_name_taken(task.project_id, task.name, -1) {
                    (self, Err(ErrorV::Db(task_name_conflict_msg())))
                } else if !id_left(last_id_tasks(self.tasks)) {
                    (self, Err(ErrorV::Db(full_msg())))
                } else {
                    let nt = TaskV {
                        id: next_row_id(last_id_tasks(self.tasks)),
                        project_id: task.project_id,
                        name: task.name,
                        description: task.description,
                        priority: task.priority,
                        due_date: Some(next),
                        recurrence: Some(rec_str),
                        done: false,
                        created_at: sql_now(now),
                    };
                    let s1 = self.with_tasks(self.tasks.push(nt));
                    let s2 = EngineV {
                        task_tags: s1.task_tags + s1.task_tags.filter(link_owner_is(task.id)).map_values(
                            relink(nt.id),
                        ),
                        ..s1
                    };
                    let subs = sort_subtasks(s2.subtasks.filter(subtask_task_is(task.id)));
                    s2.copy_subtasks(subs, nt.id, task.due_date, next, r, now)
                }
            },
        }
    }

    /// Inserts pending copies of `subs` under task `new_id`, one by one.
    pub open spec fn copy_subtasks(
        self,
        subs: Seq<SubtaskV>,
        new_id: int,
        old_due: Option<int>,
        next_due: int,
        r: Recurrence,
        now: int,
    ) -> (EngineV, Result<(), ErrorV>)
        decreases subs.len(),
    {
        if subs.len() == 0 {
            (self, Ok(()))
        } else {
            let (s1, res) = self.copy_subtasks(subs.drop_last(), new_id, old_due, next_due, r, now);
            if res is Err {
                (s1, res)
            } else if s1.subtask_name_taken(new_id, subs.last().name, -1) {
                (s1, Err(ErrorV::Db(subtask_name_conflict_msg())))
            } else if !id_left(last_id_subtasks(s1.subtasks)) {
                (s1, Err(ErrorV::Db(full_msg())))
            } else {
                let sub = subs.last();
                let st = SubtaskV {
                    id: next_row_id(last_id_subtasks(s1.subtasks)),
                    task_id: new_id,
                    name: sub.name,
                    due_date: match sub.due_date {
                        Some(sd) => Some(
                            match old_due {
                                Some(od) => moved_due(sd, od, next_due),
                                None => next_date_spec(r, sd),
                            },
                        ),
                        None => None,
                    },
                    done: false,
                    created_at: sql_now(now),
                };
                (s1.with_subtasks(s1.subtasks.push(st)), Ok(()))
            }
        }
    }

    pub open spec fn toggle_done_by_id(self, id: int, now: int) -> (EngineV, Result<TaskV, ErrorV>) {
        match self.get_task_by_id(id) {
            Err(e) => (self, Err(e)),
            Ok(t) => {
                let (s1, r) = self.modify_task_by_id(id, None, None, None, None, None, Some(!t.done), now);
                (s1, match r {
                    Ok(Some(x)) => Ok(x),
                    Ok(None) => Ok(t),
                    Err(e) => Err(e),
                })
            },
        }
    }

    // ----- subtasks -----

    pub open spec fn get_subtask_by_id(self, id: int) -> Result<SubtaskV, ErrorV> {
        let i = self.subtask_index(id);
        if i >= 0 {
            Ok(self.subtasks[i])
        } else {
            Err(ErrorV::Db(no_rows_msg()))
        }
    }

    /// The task at index `i` marked pending again.
    pub open spec fn reopen_at(self, i: int) -> EngineV {
        self.with_tasks(self.tasks.update(i, TaskV { done: false, ..self.tasks[i] }))
    }

    /// Marks a task pending again: refused when another pending task of its project has its name.
    pub open spec fn reopen(self, i: int) -> Result<EngineV, ErrorV> {
        let t = self.tasks[i];
        if !t.done {
            Ok(self)
        } else if self.pending_name_taken(t.project_id, t.name, t.id) {
            Err(ErrorV::Db(task_name_conflict_msg()))
        } else {
            Ok(self.reopen_at(i))
        }
    }

    pub open spec fn create_subtask_by_id(self, task_id: int, name: Seq<char>, due: Option<int>, now: int) -> (
        EngineV,
        Result<SubtaskV, ErrorV>,
    ) {
        let i = self.task_index(task_id);
        if i < 0 {
            (self, Err(ErrorV::Db(no_rows_msg())))
        } else {
            let task = self.tasks[i];
            match self.reopen(i) {
                Err(e) => (self, Err(e)),
                Ok(s1) => {
                    if due matches Some(sd) && task.due_date matches Some(td) && sd > td {
                        (s1, Err(ErrorV::InvalidDueDate(late_subtask_msg())))
                    } else if s1.subtask_name_taken(task_id, name, -1) {
                        (s1, Err(ErrorV::SubtaskNameTaken(name)))
                    } else if !id_left(last_id_subtasks(s1.subtasks)) {
                        (s1, Err(ErrorV::Db(full_msg())))
                    } else {
                        let st = SubtaskV {
                            id: next_row_id(last_id_subtasks(s1.subtasks)),
                            task_id,
                            name,
                            due_date: due,
                            done: false,
                            created_at: sql_now(now),
                        };
                        (s1.with_subtasks(s1.subtasks.push(st)), Ok(st))
                    }
                },
            }
        }
    }

    /// The subtasks of a task, in creation order.
    pub open spec fn subtasks_of(self, task_id: int) -> Seq<SubtaskV> {
        sort_subtasks(self.subtasks.filter(subtask_task_is(task_id)))
    }

    pub open spec fn list_subtasks(self, pname: Seq<char>, tname: Seq<char>) -> Result<Seq<SubtaskV>, ErrorV> {
        match self.get_task_by_name(pname, tname) {
            Ok(t) => Ok(self.subtasks_of(t.id)),
            Err(e) => Err(e),
        }
    }

    /// The id of the subtask named `sname` of the task `get_task_by_name` picks.
    pub open spec fn subtask_by_names(self, pname: Seq<char>, tname: Seq<char>, sname: Seq<char>) -> Result<int, ErrorV> {
        match self.get_task_by_name(pname, tname) {
            Err(e) => Err(e),
            Ok(t) => {
                let si = self.subtask_named_index(t.id, sname);
                if si >= 0 {
                    Ok(self.subtasks[si].id)
                } else {
                    Err(ErrorV::Db(no_rows_msg()))
                }
            },
        }
    }

    pub open spec fn create_subtask(self, pname: Seq<char>, tname: Seq<char>, name: Seq<char>, due: Option<int>, now: int) -> (
        EngineV,
        Result<SubtaskV, ErrorV>,
    ) {
        match self.get_task_by_name(pname, tname) {
            Err(e) => (self, Err(e)),
            Ok(t) => self.create_subtask_by_id(t.id, name, due, now),
        }
    }

    pub open spec fn delete_subtask_by_id(self, id: int) -> (EngineV, bool) {
        if self.subtask_index(id) >= 0 {
            (self.with_subtasks(self.subtasks.filter(subtask_id_not(id))), true)
        } else {
            (self, false)
        }
    }

    pub open spec fn toggle_subtask_done_by_id(self, id: int) -> (EngineV, Result<SubtaskV, ErrorV>) {
        let si = self.subtask_index(id);
        if si < 0 {
            (self, Err(ErrorV::Db(no_rows_msg())))
        } else {
            let st = self.subtasks[si];
            let ti = self.task_index(st.task_id);
            if ti < 0 {
                (self, Err(ErrorV::Db(no_rows_msg())))
            } else {
                let new_st = SubtaskV { done: !st.done, ..st };
                let s1 = self.with_subtasks(self.subtasks.update(si, new_st));
                if st.done && s1.tasks[ti].done {
                    match s1.reopen(ti) {
                        Ok(s2) => (s2, Ok(new_st)),
                        Err(e) => (s1, Err(e)),
                    }
                } else {
                    (s1, Ok(new_st))
                }
            }
        }
    }

    pub open spec fn modify_subtask_by_id(
        self,
        id: int,
        new_name: Option<Seq<char>>,
        new_due: Option<Option<int>>,
        new_done: Option<bool>,
    ) -> (EngineV, Result<Option<SubtaskV>, ErrorV>) {
        let si = self.subtask_index(id);
        if si < 0 {
            (self, Err(ErrorV::Db(no_rows_msg())))
        } else {
            let st = self.subtasks[si];
            let ti = self.task_index(st.task_id);
            if ti < 0 {
                (self, Err(ErrorV::Db(no_rows_msg())))
            } else {
                let task = self.tasks[ti];
                if new_due matches Some(Some(sd)) && task.due_date matches Some(td) && sd > td {
                    (self, Err(ErrorV::InvalidDueDate(late_subtask_msg())))
                } else {
                    let reopened = if new_done == Some(false) && task.done {
                        self.reopen(ti)
                    } else {
                        Ok(self)
                    };
                    match reopened {
                        Err(e) => (self, Err(e)),
                        Ok(s1) => {
                            if new_name is None && new_due is None && new_done is None {
                                (s1, Ok(Some(st)))
                            } else if new_name matches Some(n) && s1.subtask_name_taken(
                                st.task_id,
                                n,
                                st.id,
                            ) {
                                (s1, Err(ErrorV::Db(subtask_name_conflict_msg())))
                            } else {
                                let nst = SubtaskV {
                                    name: match new_name {
                                        Some(n) => n,
                                        None => st.name,
                                    },
                                    due_date: match new_due {
                                        Some(d) => d,
                                        None => st.due_date,
                                    },
                                    done: match new_done {
                                        Some(d) => d,
                                        None => st.done,
                                    },
                                    ..st
                                };
                                (s1.with_subtasks(s1.subtasks.update(si, nst)), Ok(Some(nst)))
                            }
                        },
                    }
                }
            }
        }
    }
}

/// A subtask's due date moved with its task: the same offset from the new due date,
/// where that stays in chrono's range.
pub open spec fn moved_due(sd: int, od: int, next_due: int) -> int {
    let r = next_due + (sd - od);
    if ts_in_range(sd) && ts_in_range(od) && ts_in_range(next_due) && ts_in_range(r) {
        r
    } else {
        sd
    }
}

/// Subtasks in the order `ORDER BY created_at ASC` lists them (ties by id).
pub open spec fn subtask_le(a: SubtaskV, b: SubtaskV) -> bool {
    a.created_at < b.created_at || (a.created_at == b.created_at && a.id <= b.id)
}

pub open spec fn subtask_order() -> spec_fn(SubtaskV, SubtaskV) -> bool {
    |a: SubtaskV, b: SubtaskV| subtask_le(a, b)
}

pub open spec fn sort_subtasks(s: Seq<SubtaskV>) -> Seq<SubtaskV> {
    insertion_sort(s, subtask_order())
}

/// `x` placed after the leading elements of `s` that are ordered before or equal to it.
pub open spec fn insert_sorted<A>(x: A, s: Seq<A>, le: spec_fn(A, A) -> bool) -> Seq<A>
    decreases s.len(),
{
    if s.len() == 0 {
        seq![x]
    } else if le(s[0], x) {
        seq![s[0]] + insert_sorted(x, s.drop_first(), le)
    } else {
        seq![x] + s
    }
}

/// Stable sorting by `le`: each element in turn placed after the elements ordered before
/// or equal to it.
pub open spec fn insertion_sort<A>(s: Seq<A>, le: spec_fn(A, A) -> bool) -> Seq<A>
    decreases s.len(),
{
    if s.len() == 0 {
        s
    } else {
        insert_sorted(s.last(), insertion_sort(s.drop_last(), le), le)
    }
}

/// `CURRENT_TIMESTAMP`: the time in whole seconds (rounded down).
pub open spec fn sql_now(now: int) -> int {
    (now / 1_000_000_000) * 1_000_000_000
}

/// Midnight UTC of the day of `now`.
pub open spec fn utc_midnight(now: int) -> int {
    (now / (NANOS_PER_DAY as int)) * NANOS_PER_DAY
}

/// Ordering of `get_task_by_name`: `a` comes before `b`.
pub open spec fn pick_before(a: TaskV, b: TaskV) -> bool {
    if a.done != b.done {
        !a.done
    } else if a.due_date != b.due_date {
        match (a.due_date, b.due_date) {
            (Some(x), Some(y)) => x > y,
            (Some(_), None) => true,
            _ => false,
        }
    } else {
        a.id < b.id
    }
}

} // verus!

verus! {

pub proof fn lemma_filter_step<A>(s: Seq<A>, p: spec_fn(A) -> bool, i: int)
    requires
        0 <= i < s.len(),
    ensures
        s.take(i + 1).filter(p) == (if p(s[i]) {
            s.take(i).filter(p).push(s[i])
        } else {
            s.take(i).filter(p)
        }),
{
    reveal_with_fuel(Seq::filter, 1);
    assert(s.take(i + 1).drop_last() =~= s.take(i));
    assert(s.take(i + 1).last() == s[i]);
}

pub proof fn lemma_filter_all<A>(s: Seq<A>, p: spec_fn(A) -> bool)
    ensures
        s.take(s.len() as int) == s,
        s.take(0).filter(p) == Seq::<A>::empty(),
{
    reveal_with_fuel(Seq::filter, 1);
    assert(s.take(s.len() as int) =~= s);
    assert(s.take(0) =~= Seq::<A>::empty());
}

/// Every element of a filtered sequence is an element of the original one satisfying the
/// predicate, and every such element is kept.
pub proof fn lemma_filter_members<A>(s: Seq<A>, p: spec_fn(A) -> bool)
    ensures
        forall|i: int|
            0 <= i < s.filter(p).len() ==> p(#[trigger] s.filter(p)[i]) && s.contains(
                s.filter(p)[i],
            ),
        forall|i: int| 0 <= i < s.len() && p(#[trigger] s[i]) ==> s.filter(p).contains(s[i]),
{
    broadcast use vstd::seq_lib::group_filter_ensures;

    assert forall|i: int| 0 <= i < s.filter(p).len() implies p(#[trigger] s.filter(p)[i])
        && s.contains(s.filter(p)[i]) by {
        assert(s.filter(p).contains(s.filter(p)[i]));
        s.lemma_filter_contains_rev(p, s.filter(p)[i]);
    }
}

/// A relation that holds between every earlier and later element still holds after filtering.
pub proof fn lemma_filter_pairwise<A>(s: Seq<A>, p: spec_fn(A) -> bool, r: spec_fn(A, A) -> bool)
    requires
        forall|i: int, j: int| 0 <= i < j < s.len() ==> r(s[i], s[j]),
    ensures
        forall|i: int, j: int|
            0 <= i < j < s.filter(p).len() ==> r(s.filter(p)[i], s.filter(p)[j]),
    decreases s.len(),
{
    reveal_with_fuel(Seq::filter, 1);
    if s.len() > 0 {
        let d = s.drop_last();
        assert forall|i: int, j: int| 0 <= i < j < d.len() implies r(d[i], d[j]) by {
            assert(d[i] == s[i] && d[j] == s[j]);
        }
        lemma_filter_pairwise(d, p, r);
        lemma_filter_members(d, p);
        let f = s.filter(p);
        let fd = d.filter(p);
        if p(s.last()) {
            assert(f == fd.push(s.last()));
            assert forall|i: int, j: int| 0 <= i < j < f.len() implies r(f[i], f[j]) by {
                if j == f.len() - 1 {
                    assert(f[i] == fd[i]);
                    assert(d.contains(fd[i]));
                    let k = choose|k: int| 0 <= k < d.len() && d[k] == fd[i];
                    assert(s[k] == fd[i]);
                    assert(r(s[k], s[s.len() - 1]));
                } else {
                    assert(f[i] == fd[i] && f[j] == fd[j]);
                }
            }
        }
    }
}

pub proof fn lemma_map_push<A, B>(s: Seq<A>, x: A, f: spec_fn(A) -> B)
    ensures
        s.push(x).map_values(f) == s.map_values(f).push(f(x)),
{
    assert(s.push(x).map_values(f) =~= s.map_values(f).push(f(x)));
}

pub proof fn lemma_map_update<A, B>(s: Seq<A>, i: int, x: A, f: spec_fn(A) -> B)
    requires
        0 <= i < s.len(),
    ensures
        s.update(i, x).map_values(f) == s.map_values(f).update(i, f(x)),
{
    assert(s.update(i, x).map_values(f) =~= s.map_values(f).update(i, f(x)));
}

pub proof fn lemma_map_insert<A, B>(s: Seq<A>, i: int, x: A, f: spec_fn(A) -> B)
    requires
        0 <= i <= s.len(),
    ensures
        s.insert(i, x).map_values(f) == s.map_values(f).insert(i, f(x)),
{
    assert(s.insert(i, x).map_values(f) =~= s.map_values(f).insert(i, f(x)));
}

} // verus!

verus! {

pub proof fn lemma_insert_sorted_at<A>(x: A, s: Seq<A>, le: spec_fn(A, A) -> bool, k: int)
    requires
        0 <= k <= s.len(),
        forall|j: int| 0 <= j < k ==> le(#[trigger] s[j], x),
        k < s.len() ==> !le(s[k], x),
    ensures
        insert_sorted(x, s, le) == s.insert(k, x),
    decreases s.len(),
{
    if s.len() == 0 {
        assert(s.insert(k, x) =~= seq![x]);
    } else if k == 0 {
        assert(s.insert(0, x) =~= seq![x] + s);
    } else {
        let d = s.drop_first();
        assert forall|j: int| 0 <= j < k - 1 implies le(#[trigger] d[j], x) by {
            assert(d[j] == s[j + 1]);
        }
        if k - 1 < d.len() {
            assert(d[k - 1] == s[k]);
        }
        lemma_insert_sorted_at(x, d, le, k - 1);
        assert(seq![s[0]] + d.insert(k - 1, x) =~= s.insert(k, x));
    }
}

pub proof fn lemma_insertion_sort_len<A>(s: Seq<A>, le: spec_fn(A, A) -> bool)
    ensures
        insertion_sort(s, le).len() == s.len(),
    decreases s.len(),
{
    if s.len() > 0 {
        lemma_insertion_sort_len(s.drop_last(), le);
        lemma_insert_sorted_len(s.last(), insertion_sort(s.drop_last(), le), le);
    }
}

pub proof fn lemma_insert_sorted_len<A>(x: A, s: Seq<A>, le: spec_fn(A, A) -> bool)
    ensures
        insert_sorted(x, s, le).len() == s.len() + 1,
    decreases s.len(),
{
    if s.len() > 0 && le(s[0], x) {
        lemma_insert_sorted_len(x, s.drop_first(), le);
    }
}

pub proof fn lemma_insertion_sort_step<A>(s: Seq<A>, le: spec_fn(A, A) -> bool, i: int)
    requires
        0 <= i < s.len(),
    ensures
        insertion_sort(s.take(i + 1), le) == insert_sorted(s[i], insertion_sort(s.take(i), le), le),
{
    assert(s.take(i + 1).drop_last() =~= s.take(i));
    assert(s.take(i + 1).last() == s[i]);
}

pub proof fn lemma_insertion_sort_start<A>(s: Seq<A>, le: spec_fn(A, A) -> bool)
    ensures
        insertion_sort(s.take(0), le) == Seq::<A>::empty(),
        s.take(s.len() as int) == s,
{
    assert(s.take(0) =~= Seq::<A>::empty());
    assert(s.take(s.len() as int) =~= s);
}

/// `le` orders any two values, and chains.
pub open spec fn total_preorder<A>(le: spec_fn(A, A) -> bool) -> bool {
    &&& forall|a: A, b: A| #[trigger] le(a, b) || le(b, a)
    &&& forall|a: A, b: A, c: A| #[trigger] le(a, b) && #[trigger] le(b, c) ==> le(a, c)
}

/// Each value is ordered before the next ones.
pub open spec fn sorted_by<A>(s: Seq<A>, le: spec_fn(A, A) -> bool) -> bool {
    forall|i: int, j: int| 0 <= i < j < s.len() ==> le(#[trigger] s[i], #[trigger] s[j])
}

pub proof fn lemma_insert_sorted_sorted<A>(x: A, s: Seq<A>, le: spec_fn(A, A) -> bool)
    requires
        total_preorder(le),
        sorted_by(s, le),
    ensures
        sorted_by(insert_sorted(x, s, le), le),
        forall|y: A| #[trigger] le(y, x) && (forall|j: int| 0 <= j < s.len() ==> le(y, #[trigger] s[j])) ==> forall|k: int|
            0 <= k < insert_sorted(x, s, le).len() ==> le(y, #[trigger] insert_sorted(x, s, le)[k]),
    decreases s.len(),
{
    lemma_insert_sorted_len(x, s, le);
    if s.len() == 0 {
    } else if le(s[0], x) {
        let rest = s.drop_first();
        assert(sorted_by(rest, le)) by {
            assert forall|i: int, j: int| 0 <= i < j < rest.len() implies le(#[trigger] rest[i], #[trigger] rest[j]) by {
                assert(le(s[i + 1], s[j + 1]));
            }
        }
        lemma_insert_sorted_sorted(x, rest, le);
        let r = insert_sorted(x, rest, le);
        let out = insert_sorted(x, s, le);
        assert(out == seq![s[0]] + r);
        assert forall|j: int| 0 <= j < rest.len() implies le(s[0], #[trigger] rest[j]) by {
            assert(le(s[0], s[j + 1]));
        }
        assert forall|k: int| 0 <= k < r.len() implies le(s[0], #[trigger] r[k]) by {
            assert(le(s[0], x));
        }
        assert forall|i: int, j: int| 0 <= i < j < out.len() implies le(#[trigger] out[i], #[trigger] out[j]) by {
            if i == 0 {
                assert(out[j] == r[j - 1]);
                assert(le(s[0], r[j - 1]));
            } else {
                assert(out[i] == r[i - 1]);
                assert(out[j] == r[j - 1]);
            }
        }
        assert forall|y: A| #[trigger] le(y, x) && (forall|j: int| 0 <= j < s.len() ==> le(y, #[trigger] s[j])) implies forall|k: int|
            0 <= k < out.len() ==> le(y, #[trigger] out[k]) by {
            assert forall|j: int| 0 <= j < rest.len() implies le(y, #[trigger] rest[j]) by {
                assert(le(y, s[j + 1]));
            }
            assert forall|k: int| 0 <= k < out.len() implies le(y, #[trigger] out[k]) by {
                if k == 0 {
                    assert(le(y, s[0]));
                } else {
                    assert(out[k] == r[k - 1]);
                }
            }
        }
    } else {
        let out = insert_sorted(x, s, le);
        assert(out == seq![x] + s);
        assert(le(x, s[0]));
        assert forall|i: int, j: int| 0 <= i < j < out.len() implies le(#[trigger] out[i], #[trigger] out[j]) by {
            if i == 0 {
                assert(out[j] == s[j - 1]);
                if j - 1 > 0 {
                    assert(le(s[0], s[j - 1]));
                }
            } else {
                assert(out[i] == s[i - 1]);
                assert(out[j] == s[j - 1]);
            }
        }
        assert forall|y: A| #[trigger] le(y, x) && (forall|j: int| 0 <= j < s.len() ==> le(y, #[trigger] s[j])) implies forall|k: int|
            0 <= k < out.len() ==> le(y, #[trigger] out[k]) by {
            assert forall|k: int| 0 <= k < out.len() implies le(y, #[trigger] out[k]) by {
                if k > 0 {
                    assert(out[k] == s[k - 1]);
                }
            }
        }
    }
}

/// Insertion sort by a total preorder gives a sorted sequence.
pub proof fn lemma_insertion_sort_sorted<A>(s: Seq<A>, le: spec_fn(A, A) -> bool)
    requires
        total_preorder(le),
    ensures
        sorted_by(insertion_sort(s, le), le),
    decreases s.len(),
{
    if s.len() > 0 {
        lemma_insertion_sort_sorted(s.drop_last(), le);
        lemma_insert_sorted_sorted(s.last(), insertion_sort(s.drop_last(), le), le);
    }
}

/// Inserting into a sorted sequence keeps a property that every value has.
pub proof fn lemma_insert_sorted_keeps<A>(x: A, s: Seq<A>, le: spec_fn(A, A) -> bool, p: spec_fn(A) -> bool)
    requires
        p(x),
        forall|i: int| 0 <= i < s.len() ==> p(#[trigger] s[i]),
    ensures
        forall|k: int| 0 <= k < insert_sorted(x, s, le).len() ==> p(#[trigger] insert_sorted(x, s, le)[k]),
    decreases s.len(),
{
    lemma_insert_sorted_len(x, s, le);
    if s.len() > 0 {
        if le(s[0], x) {
            let rest = s.drop_first();
            assert forall|i: int| 0 <= i < rest.len() implies p(#[trigger] rest[i]) by {
                assert(rest[i] == s[i + 1]);
            }
            lemma_insert_sorted_keeps(x, rest, le, p);
            let out = insert_sorted(x, s, le);
            assert forall|k: int| 0 <= k < out.len() implies p(#[trigger] out[k]) by {
                if k > 0 {
                    assert(out[k] == insert_sorted(x, rest, le)[k - 1]);
                } else {
                    assert(out[0] == s[0]);
                }
            }
        } else {
            let out = insert_sorted(x, s, le);
            assert forall|k: int| 0 <= k < out.len() implies p(#[trigger] out[k]) by {
                if k > 0 {
                    assert(out[k] == s[k - 1]);
                }
            }
        }
    }
}

/// Sorting keeps a property that every value has.
pub proof fn lemma_insertion_sort_keeps<A>(s: Seq<A>, le: spec_fn(A, A) -> bool, p: spec_fn(A) -> bool)
    requires
        forall|i: int| 0 <= i < s.len() ==> p(#[trigger] s[i]),
    ensures
        forall|k: int| 0 <= k < insertion_sort(s, le).len() ==> p(#[trigger] insertion_sort(s, le)[k]),
    decreases s.len(),
{
    if s.len() > 0 {
        let d = s.drop_last();
        assert forall|i: int| 0 <= i < d.len() implies p(#[trigger] d[i]) by {
            assert(d[i] == s[i]);
        }
        lemma_insertion_sort_keeps(d, le, p);
        lemma_insert_sorted_keeps(s.last(), insertion_sort(d, le), le, p);
    }
}

} // verus!
