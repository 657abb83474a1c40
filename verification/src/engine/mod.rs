//! The store of projects, tasks, subtasks and tags, with the rules of its schema:
//! unique names, row ids, cascading deletes, and the completion rules of tasks.
use vstd::prelude::*;
use crate::models::{Project, Subtask, Tag, Task};

pub mod model;
pub mod projects;
pub mod tables;
pub mod tasks;
pub mod modify;
pub mod subtasks;
pub mod tags;
pub mod lists;
pub mod agenda;
pub mod laws;
pub mod load;

use model::{EngineV, ProjectV, SubtaskV, TagV, TaskV};

verus! {

/// The store. Each table is kept in increasing row-id order.
pub struct Engine {
    pub(crate) projects: Vec<Project>,
    pub(crate) tags: Vec<Tag>,
    pub(crate) project_tags: Vec<(i64, i64)>,
    pub(crate) tasks: Vec<Task>,
    pub(crate) task_tags: Vec<(i64, i64)>,
    pub(crate) subtasks: Vec<Subtask>,
}

pub open spec fn links_v(s: Seq<(i64, i64)>) -> Seq<(int, int)> {
    s.map_values(|l: (i64, i64)| (l.0 as int, l.1 as int))
}

impl View for Engine {
    type V = EngineV;

    open(crate) spec fn view(&self) -> EngineV {
        EngineV {
            projects: self.projects@.map_values(|p: Project| p@),
            tags: self.tags@.map_values(|t: Tag| t@),
            project_tags: links_v(self.project_tags@),
            tasks: self.tasks@.map_values(|t: Task| t@),
            task_tags: links_v(self.task_tags@),
            subtasks: self.subtasks@.map_values(|s: Subtask| s@),
        }
    }
}

impl Engine {
    /// An empty store.
    pub fn new() -> (e: Engine)
        ensures
            e@.wf(),
            e@.projects.len() == 0,
            e@.tags.len() == 0,
            e@.project_tags.len() == 0,
            e@.tasks.len() == 0,
            e@.task_tags.len() == 0,
            e@.subtasks.len() == 0,
    {
        let e = Engine {
            projects: Vec::new(),
            tags: Vec::new(),
            project_tags: Vec::new(),
            tasks: Vec::new(),
            task_tags: Vec::new(),
            subtasks: Vec::new(),
        };
        assert(e@.projects =~= Seq::<ProjectV>::empty());
        assert(e@.tags =~= Seq::<TagV>::empty());
        assert(e@.project_tags =~= Seq::<(int, int)>::empty());
        assert(e@.tasks =~= Seq::<TaskV>::empty());
        assert(e@.task_tags =~= Seq::<(int, int)>::empty());
        assert(e@.subtasks =~= Seq::<SubtaskV>::empty());
        e
    }
}

} // verus!
