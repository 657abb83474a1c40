//! The screen's state as mathematical values, and what refreshing it from the store gives.
use vstd::prelude::*;
use crate::models::{NextTask, Project, Stats, Task};
use crate::engine::agenda::{stat_done, stat_overdue, stat_pending, stat_priority, NextTaskV};
use crate::engine::model::{EngineV, ProjectV, TagV, TaskV};
use super::calendar::month_ok;
use super::state::{
    all_indices, matching_indices, AppContext, AppMode, AppState, CalendarState, FormKind,
    RightPane,
};
use crate::text::lowercase;

verus! {

pub enum ContextV {
    Home,
    Project { name: Seq<char>, id: int },
}

pub enum FormKindV {
    CreateProject,
    CreateTask,
    ModifyProject { original_name: Seq<char> },
    ModifyTask { original_name: Seq<char> },
}

pub enum ModeV {
    Browsing,
    Search { buffer: Seq<char> },
    Form {
        kind: FormKindV,
        step: int,
        name: Seq<char>,
        answers: Seq<Seq<char>>,
        current: Seq<char>,
        warning: Option<Seq<char>>,
        insert: bool,
    },
    Confirm { message: Seq<char>, target: Seq<char> },
}

pub struct CalendarV {
    pub year: int,
    pub month: int,
    pub row: int,
    pub col: int,
    pub day: int,
    pub day_tasks: Option<Seq<NextTaskV>>,
}

pub struct AppV {
    pub context: ContextV,
    pub mode: ModeV,
    pub projects: Seq<ProjectV>,
    pub tasks: Seq<TaskV>,
    pub selected: int,
    pub filtered_projects: Seq<usize>,
    pub filtered_tasks: Seq<usize>,
    pub stats: Stats,
    pub project_stats: Stats,
    pub selected_item_tags: Seq<Seq<char>>,
    pub projects_task_counts: Seq<(Seq<char>, int)>,
    pub pending_today: Seq<NextTaskV>,
    pub right_pane: RightPane,
    pub calendar: CalendarV,
    pub last_error: Option<Seq<char>>,
}

impl View for AppContext {
    type V = ContextV;

    open spec fn view(&self) -> ContextV {
        match self {
            AppContext::Home => ContextV::Home,
            AppContext::Project { name, id } => ContextV::Project { name: name@, id: *id as int },
        }
    }
}

impl View for FormKind {
    type V = FormKindV;

    open spec fn view(&self) -> FormKindV {
        match self {
            FormKind::CreateProject => FormKindV::CreateProject,
            FormKind::CreateTask => FormKindV::CreateTask,
            FormKind::ModifyProject { original_name } => FormKindV::ModifyProject { original_name: original_name@ },
            FormKind::ModifyTask { original_name } => FormKindV::ModifyTask { original_name: original_name@ },
        }
    }
}

pub open spec fn texts(v: Seq<String>) -> Seq<Seq<char>> {
    v.map_values(|s: String| s@)
}

pub open spec fn opt_text(s: Option<String>) -> Option<Seq<char>> {
    match s {
        Some(x) => Some(x@),
        None => None,
    }
}

impl View for AppMode {
    type V = ModeV;

    open spec fn view(&self) -> ModeV {
        match self {
            AppMode::Browsing => ModeV::Browsing,
            AppMode::Search { buffer } => ModeV::Search { buffer: buffer@ },
            AppMode::MultiStepForm { kind, step, name, answers, current_input, warning, in_insert_mode } => ModeV::Form {
                kind: kind@,
                step: *step as int,
                name: name@,
                answers: texts(answers@),
                current: current_input@,
                warning: opt_text(*warning),
                insert: *in_insert_mode,
            },
            AppMode::ConfirmPrompt { message, target_name } => ModeV::Confirm { message: message@, target: target_name@ },
        }
    }
}

pub open spec fn rows_view(v: Seq<NextTask>) -> Seq<NextTaskV> {
    v.map_values(|n: NextTask| n@)
}

impl View for CalendarState {
    type V = CalendarV;

    open spec fn view(&self) -> CalendarV {
        CalendarV {
            year: self.year as int,
            month: self.month as int,
            row: self.cursor_row as int,
            col: self.cursor_col as int,
            day: self.cursor_day as int,
            day_tasks: match self.day_tasks {
                Some(v) => Some(rows_view(v@)),
                None => None,
            },
        }
    }
}

pub open spec fn counts_view(v: Seq<(String, i64)>) -> Seq<(Seq<char>, int)> {
    v.map_values(|c: (String, i64)| (c.0@, c.1 as int))
}

impl View for AppState {
    type V = AppV;

    open spec fn view(&self) -> AppV {
        AppV {
            context: self.context@,
            mode: self.mode@,
            projects: self.projects@.map_values(|p: Project| p@),
            tasks: self.tasks@.map_values(|t: Task| t@),
            selected: self.selected as int,
            filtered_projects: self.filtered_projects@,
            filtered_tasks: self.filtered_tasks@,
            stats: self.stats,
            project_stats: self.project_stats,
            selected_item_tags: texts(self.selected_item_tags@),
            projects_task_counts: counts_view(self.projects_task_counts@),
            pending_today: rows_view(self.pending_today@),
            right_pane: self.right_pane,
            calendar: self.calendar@,
            last_error: opt_text(self.last_error),
        }
    }
}

/// The counts of a list of tasks as of day `today` (each fits an `i64` for a store's tables).
pub open spec fn stats_value(ts: Seq<TaskV>, today: int) -> Stats {
    Stats {
        total: ts.len() as i64,
        done: ts.filter(stat_done()).len() as i64,
        pending: ts.filter(stat_pending(today)).len() as i64,
        overdue: ts.filter(stat_overdue(today)).len() as i64,
        p1: ts.filter(stat_priority(1)).len() as i64,
        p2: ts.filter(stat_priority(2)).len() as i64,
        p3: ts.filter(stat_priority(3)).len() as i64,
        p4: ts.filter(stat_priority(4)).len() as i64,
    }
}

pub open spec fn zero_stats() -> Stats {
    Stats { total: 0, done: 0, pending: 0, overdue: 0, p1: 0, p2: 0, p3: 0, p4: 0 }
}

pub open spec fn tag_names(tags: Seq<TagV>) -> Seq<Seq<char>> {
    tags.map_values(|t: TagV| t.name)
}

/// Each project's name and number of tasks.
pub open spec fn task_counts(e: EngineV, ps: Seq<ProjectV>) -> Seq<(Seq<char>, int)> {
    ps.map_values(|p: ProjectV| (p.name, e.project_tasks(p.name).len() as int))
}

/// The project an index into the filtered list points at, if both indices are in range.
pub open spec fn filtered_project(a: AppV) -> Option<ProjectV> {
    if 0 <= a.selected < a.filtered_projects.len() && a.filtered_projects[a.selected] < a.projects.len() {
        Some(a.projects[a.filtered_projects[a.selected] as int])
    } else {
        None
    }
}

pub open spec fn filtered_task(a: AppV) -> Option<TaskV> {
    if 0 <= a.selected < a.filtered_tasks.len() && a.filtered_tasks[a.selected] < a.tasks.len() {
        Some(a.tasks[a.filtered_tasks[a.selected] as int])
    } else {
        None
    }
}

/// `update_stats`: the counts, the agenda and what describes the selected entry, read
/// again from the store; on the home screen also the tasks of the selected project. The
/// error of a failed read stops the rest.
pub open spec fn refresh(a: AppV, e: EngineV, today: int) -> (AppV, Result<(), crate::engine::model::ErrorV>) {
    let a1 = AppV {
        stats: stats_value(e.tasks, today),
        projects_task_counts: task_counts(e, a.projects),
        pending_today: e.list_pending_today_tasks(today),
        ..a
    };
    match a.context {
        ContextV::Home => match filtered_project(a) {
            Some(p) => {
                let a2 = AppV { project_stats: stats_value(e.project_tasks(p.name), today), ..a1 };
                match e.list_tasks(p.name) {
                    Err(x) => (a2, Err(x)),
                    Ok(ts) => (
                        AppV {
                            tasks: ts,
                            filtered_tasks: all_indices(ts.len() as int),
                            selected_item_tags: tag_names(e.get_tags_for_project(p.name)),
                            ..a2
                        },
                        Ok(()),
                    ),
                }
            },
            None => (
                AppV {
                    project_stats: zero_stats(),
                    tasks: Seq::empty(),
                    filtered_tasks: Seq::empty(),
                    selected_item_tags: Seq::empty(),
                    ..a1
                },
                Ok(()),
            ),
        },
        ContextV::Project { name, .. } => {
            let a2 = AppV { project_stats: stats_value(e.project_tasks(name), today), ..a1 };
            match filtered_task(a) {
                Some(t) => (AppV { selected_item_tags: tag_names(e.get_tags_for_task(name, t.name)), ..a2 }, Ok(())),
                None => (AppV { selected_item_tags: Seq::empty(), ..a2 }, Ok(())),
            }
        },
    }
}

/// The tasks due on the day under the calendar's cursor (none when it is on no day).
pub open spec fn refresh_day(a: AppV, e: EngineV) -> AppV {
    let c = a.calendar;
    AppV {
        calendar: CalendarV {
            day_tasks: Some(
                if c.day == 0 {
                    Seq::empty()
                } else {
                    e.list_tasks_due_on(c.year, c.month, c.day)
                },
            ),
            ..c
        },
        ..a
    }
}

/// `recompute_filter` on views.
pub open spec fn refilter(a: AppV) -> AppV {
    match a.mode {
        ModeV::Search { buffer } => match a.context {
            ContextV::Home => AppV {
                filtered_projects: matching_indices(
                    a.projects.map_values(|p: ProjectV| p.name),
                    lowercase(buffer),
                    a.projects.len() as int,
                ),
                selected: 0,
                ..a
            },
            ContextV::Project { .. } => AppV {
                filtered_tasks: matching_indices(
                    a.tasks.map_values(|t: TaskV| t.name),
                    lowercase(buffer),
                    a.tasks.len() as int,
                ),
                selected: 0,
                ..a
            },
        },
        _ => a,
    }
}

pub proof fn lemma_all_indices(n: int)
    requires
        0 <= n <= usize::MAX,
    ensures
        all_indices(n).len() == n,
        forall|i: int| 0 <= i < n ==> #[trigger] all_indices(n)[i] == i,
{
}

impl AppV {
    /// What keeps the handlers from indexing out of bounds: filtered lists point into their
    /// lists, a search's selection is inside its results, a form's step is one of its steps,
    /// and the calendar shows a month chrono represents.
    pub open spec fn wf(self) -> bool {
        &&& forall|i: int| 0 <= i < self.filtered_projects.len() ==> #[trigger] self.filtered_projects[i] < self.projects.len()
        &&& forall|i: int| 0 <= i < self.filtered_tasks.len() ==> #[trigger] self.filtered_tasks[i] < self.tasks.len()
        &&& (self.mode is Search && self.context is Home && self.filtered_projects.len() > 0) ==> 0 <= self.selected < self.filtered_projects.len()
        &&& (self.mode is Search && self.context is Project && self.filtered_tasks.len() > 0) ==> 0 <= self.selected < self.filtered_tasks.len()
        &&& (self.mode matches ModeV::Form { kind, step, .. } ==> 0 <= step < (if kind is CreateProject || kind is ModifyProject {
            3int
        } else {
            5int
        }))
        &&& 0 <= self.selected < usize::MAX
        &&& month_ok(self.calendar.year, self.calendar.month)
        &&& self.calendar.row <= 5
        &&& self.calendar.col <= 6
    }
}

} // verus!
