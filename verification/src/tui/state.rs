//! The screen's state: where the user is, what mode the keyboard is in, and what is shown.
use vstd::prelude::*;
use crate::models::{NextTask, Project, Stats, Task};
use crate::text::{has_substring, lowercase, str_contains, to_lowercase};

verus! {

/// Where the user is: the list of projects, or inside one project.
pub enum AppContext {
    Home,
    Project { name: String, id: i64 },
}

/// Which form is open.
pub enum FormKind {
    CreateProject,
    CreateTask,
    ModifyProject { original_name: String },
    ModifyTask { original_name: String },
}

/// What the keyboard does.
pub enum AppMode {
    Browsing,
    Search { buffer: String },
    MultiStepForm {
        kind: FormKind,
        step: usize,
        name: String,
        answers: Vec<String>,
        current_input: String,
        warning: Option<String>,
        in_insert_mode: bool,
    },
    ConfirmPrompt { message: String, target_name: String },
}

/// The pane on the right: today's agenda or the calendar.
#[derive(Clone, Copy, PartialEq, Eq, Structural, Debug)]
pub enum RightPane {
    PendingToday,
    Calendar,
}

/// The calendar pane: the month shown, the cursor's cell and day, and the tasks due that day.
pub struct CalendarState {
    pub year: i32,
    pub month: u32,
    pub cursor_row: u32,
    pub cursor_col: u32,
    pub cursor_day: u32,
    pub day_tasks: Option<Vec<NextTask>>,
}

/// A key press, as the state machine sees it.
#[derive(Clone, Copy, PartialEq, Eq, Structural, Debug)]
pub enum Key {
    Char(char),
    Enter,
    Esc,
    Backspace,
    Tab,
    Up,
    Down,
    Left,
    Right,
    Other,
}

/// Everything the screen shows.
pub struct AppState {
    pub context: AppContext,
    pub mode: AppMode,
    pub projects: Vec<Project>,
    pub tasks: Vec<Task>,
    pub selected: usize,
    pub filtered_projects: Vec<usize>,
    pub filtered_tasks: Vec<usize>,
    pub stats: Stats,
    pub project_stats: Stats,
    pub selected_item_tags: Vec<String>,
    pub projects_task_counts: Vec<(String, i64)>,
    pub pending_today: Vec<NextTask>,
    pub right_pane: RightPane,
    pub calendar: CalendarState,
    /// The last error a form submission met, for the screen to report.
    pub last_error: Option<String>,
}

impl FormKind {
    pub fn copy(&self) -> (r: FormKind)
        ensures
            r == *self,
    {
        match self {
            FormKind::CreateProject => FormKind::CreateProject,
            FormKind::CreateTask => FormKind::CreateTask,
            FormKind::ModifyProject { original_name } => FormKind::ModifyProject { original_name: original_name.clone() },
            FormKind::ModifyTask { original_name } => FormKind::ModifyTask { original_name: original_name.clone() },
        }
    }

    pub open spec fn is_project_form(self) -> bool {
        self is CreateProject || self is ModifyProject
    }
}

pub open spec fn form_prompt_spec(kind: FormKind, step: int) -> Seq<char> {
    if kind.is_project_form() {
        if step == 0 {
            "name"@
        } else if step == 1 {
            "description"@
        } else if step == 2 {
            "tags"@
        } else {
            ""@
        }
    } else {
        if step == 0 {
            "name"@
        } else if step == 1 {
            "description"@
        } else if step == 2 {
            "tags"@
        } else if step == 3 {
            "priority"@
        } else if step == 4 {
            "due date"@
        } else {
            ""@
        }
    }
}

pub open spec fn form_total_steps_spec(kind: FormKind) -> int {
    if kind.is_project_form() {
        3
    } else {
        5
    }
}

/// The label of a form's step.
pub fn form_prompt(kind: &FormKind, step: usize) -> (r: &'static str)
    ensures
        r@ == form_prompt_spec(*kind, step as int),
{
    match kind {
        FormKind::CreateProject | FormKind::ModifyProject { .. } => {
            if step == 0 {
                "name"
            } else if step == 1 {
                "description"
            } else if step == 2 {
                "tags"
            } else {
                ""
            }
        },
        FormKind::CreateTask | FormKind::ModifyTask { .. } => {
            if step == 0 {
                "name"
            } else if step == 1 {
                "description"
            } else if step == 2 {
                "tags"
            } else if step == 3 {
                "priority"
            } else if step == 4 {
                "due date"
            } else {
                ""
            }
        },
    }
}

/// How many steps a form has: name, description and tags, and for a task also priority and
/// due date.
pub fn form_total_steps(kind: &FormKind) -> (r: usize)
    ensures
        r == form_total_steps_spec(*kind),
{
    match kind {
        FormKind::CreateProject | FormKind::ModifyProject { .. } => 3,
        FormKind::CreateTask | FormKind::ModifyTask { .. } => 5,
    }
}

/// The indices `0..n` of the names that contain `q` once lower-cased.
pub open spec fn matching_indices(names: Seq<Seq<char>>, q: Seq<char>, n: int) -> Seq<usize>
    decreases n,
{
    if n <= 0 {
        Seq::empty()
    } else {
        matching_indices(names, q, n - 1) + if has_substring(lowercase(names[n - 1]), q) {
            seq![(n - 1) as usize]
        } else {
            Seq::empty()
        }
    }
}

/// The entries a filter keeps are exactly the indices below `n` whose lower-cased name
/// contains `q`, in increasing order.
pub proof fn lemma_matching_members(names: Seq<Seq<char>>, q: Seq<char>, n: int)
    requires
        0 <= n <= names.len(),
        n <= usize::MAX,
    ensures
        forall|x: usize| #[trigger] matching_indices(names, q, n).contains(x) <==> (x < n && has_substring(lowercase(names[x as int]), q)),
        forall|i: int, j: int| 0 <= i < j < matching_indices(names, q, n).len() ==> matching_indices(names, q, n)[i] < matching_indices(names, q, n)[j],
        forall|i: int| 0 <= i < matching_indices(names, q, n).len() ==> matching_indices(names, q, n)[i] < n,
    decreases n,
{
    if n > 0 {
        lemma_matching_members(names, q, n - 1);
        let m0 = matching_indices(names, q, n - 1);
        let m = matching_indices(names, q, n);
        if has_substring(lowercase(names[n - 1]), q) {
            assert(m == m0.push((n - 1) as usize));
            assert forall|i: int, j: int| 0 <= i < j < m.len() implies m[i] < m[j] by {
                if j < m0.len() {
                    assert(m0[i] < m0[j]);
                } else {
                    assert(m0[i] < n - 1);
                }
            }
            assert forall|x: usize| #[trigger] m.contains(x) <==> (x < n && has_substring(lowercase(names[x as int]), q)) by {
                if m.contains(x) {
                    let k = choose|k: int| 0 <= k < m.len() && m[k] == x;
                    if k < m0.len() {
                        assert(m0[k] == x);
                        assert(m0.contains(x));
                    }
                }
                if x < n && has_substring(lowercase(names[x as int]), q) {
                    if x < n - 1 {
                        assert(m0.contains(x));
                        let k = choose|k: int| 0 <= k < m0.len() && m0[k] == x;
                        assert(m[k] == x);
                    } else {
                        assert(m[m.len() - 1] == x);
                    }
                }
            }
        } else {
            assert(m =~= m0);
        }
    }
}

/// Something contains the empty text, and whatever contains a text contains its start.
pub proof fn lemma_substring_of_start(h: Seq<char>, q1: Seq<char>, q2: Seq<char>)
    ensures
        has_substring(h, Seq::empty()),
        has_substring(h, q1 + q2) ==> has_substring(h, q1),
{
    assert(h.subrange(0, 0 + Seq::<char>::empty().len() as int) =~= Seq::<char>::empty());
    if has_substring(h, q1 + q2) {
        let i = choose|i: int| 0 <= i && i + (q1 + q2).len() <= h.len() && #[trigger] h.subrange(i, i + (q1 + q2).len()) == q1 + q2;
        assert(h.subrange(i, i + q1.len()) =~= (q1 + q2).subrange(0, q1.len() as int));
        assert((q1 + q2).subrange(0, q1.len() as int) =~= q1);
    }
}

/// A longer search keeps fewer entries: where the lower-cased search text `q1 + q2` extends
/// `q1`, every entry it keeps is kept for `q1`, both in increasing order, so one list is a
/// subsequence of the other; the empty search text keeps every entry. (For ASCII texts `b`
/// and `c`, `to_lowercase` gives `b + c` as the lower-cased `b` followed by the lower-cased
/// `c`: see `lemma_ascii_lower_concat`.)
pub proof fn law_longer_search_keeps_fewer(names: Seq<Seq<char>>, q1: Seq<char>, q2: Seq<char>, n: int)
    requires
        0 <= n <= names.len(),
        n <= usize::MAX,
    ensures
        forall|k: int| 0 <= k < matching_indices(names, q1 + q2, n).len() ==> matching_indices(names, q1, n).contains(
            #[trigger] matching_indices(names, q1 + q2, n)[k],
        ),
        forall|i: int, j: int| 0 <= i < j < matching_indices(names, q1, n).len() ==> matching_indices(names, q1, n)[i] < matching_indices(names, q1, n)[j],
        forall|i: int, j: int| 0 <= i < j < matching_indices(names, q1 + q2, n).len() ==> matching_indices(names, q1 + q2, n)[i] < matching_indices(names, q1 + q2, n)[j],
        matching_indices(names, Seq::empty(), n) == all_indices(n),
{
    lemma_matching_members(names, q1, n);
    lemma_matching_members(names, q1 + q2, n);
    let m2 = matching_indices(names, q1 + q2, n);
    assert forall|k: int| 0 <= k < m2.len() implies matching_indices(names, q1, n).contains(#[trigger] m2[k]) by {
        let x = m2[k];
        assert(m2.contains(x));
        lemma_substring_of_start(lowercase(names[x as int]), q1, q2);
    }
    lemma_all_match_empty(names, n);
}

proof fn lemma_all_match_empty(names: Seq<Seq<char>>, n: int)
    requires
        0 <= n <= names.len(),
        n <= usize::MAX,
    ensures
        matching_indices(names, Seq::empty(), n) == all_indices(n),
    decreases n,
{
    if n > 0 {
        lemma_all_match_empty(names, n - 1);
        lemma_substring_of_start(lowercase(names[n - 1]), Seq::empty(), Seq::empty());
        assert(all_indices(n) =~= all_indices(n - 1).push((n - 1) as usize));
        assert(matching_indices(names, Seq::empty(), n) =~= all_indices(n - 1).push((n - 1) as usize));
    } else {
        assert(all_indices(0) =~= Seq::<usize>::empty());
    }
}

pub open spec fn project_names_of(ps: Seq<Project>) -> Seq<Seq<char>> {
    ps.map_values(|p: Project| p.name@)
}

pub open spec fn task_names_of(ts: Seq<Task>) -> Seq<Seq<char>> {
    ts.map_values(|t: Task| t.name@)
}

/// Every index `0..n`.
pub open spec fn all_indices(n: int) -> Seq<usize> {
    Seq::new(n as nat, |i: int| i as usize)
}

impl AppState {
    /// The state with other filters and selection.
    pub open spec fn with_filters(self, fp: Vec<usize>, ft: Vec<usize>, selected: usize) -> AppState {
        AppState { filtered_projects: fp, filtered_tasks: ft, selected, ..self }
    }

    /// What `recompute_filter` makes of a state.
    pub open spec fn refiltered(self, fp: Vec<usize>, ft: Vec<usize>) -> bool {
        match self.mode {
            AppMode::Search { buffer } => match self.context {
                AppContext::Home => fp@ == matching_indices(
                    project_names_of(self.projects@),
                    lowercase(buffer@),
                    self.projects@.len() as int,
                ) && ft == self.filtered_tasks,
                AppContext::Project { .. } => ft@ == matching_indices(
                    task_names_of(self.tasks@),
                    lowercase(buffer@),
                    self.tasks@.len() as int,
                ) && fp == self.filtered_projects,
            },
            _ => fp == self.filtered_projects && ft == self.filtered_tasks,
        }
    }
}

fn matching_projects(ps: &Vec<Project>, q: &str) -> (r: Vec<usize>)
    ensures
        r@ == matching_indices(project_names_of(ps@), q@, ps@.len() as int),
{
    let mut r: Vec<usize> = Vec::new();
    let mut i: usize = 0;
    while i < ps.len()
        invariant
            i <= ps@.len(),
            r@ == matching_indices(project_names_of(ps@), q@, i as int),
        decreases ps@.len() - i,
    {
        let lower = to_lowercase(ps[i].name.as_str());
        proof {
            assert(project_names_of(ps@)[i as int] == ps@[i as int].name@);
        }
        if str_contains(lower.as_str(), q) {
            r.push(i);
        }
        proof {
            assert(r@ =~= matching_indices(project_names_of(ps@), q@, i + 1));
        }
        i = i + 1;
    }
    r
}

fn matching_tasks(ts: &Vec<Task>, q: &str) -> (r: Vec<usize>)
    ensures
        r@ == matching_indices(task_names_of(ts@), q@, ts@.len() as int),
{
    let mut r: Vec<usize> = Vec::new();
    let mut i: usize = 0;
    while i < ts.len()
        invariant
            i <= ts@.len(),
            r@ == matching_indices(task_names_of(ts@), q@, i as int),
        decreases ts@.len() - i,
    {
        let lower = to_lowercase(ts[i].name.as_str());
        proof {
            assert(task_names_of(ts@)[i as int] == ts@[i as int].name@);
        }
        if str_contains(lower.as_str(), q) {
            r.push(i);
        }
        proof {
            assert(r@ =~= matching_indices(task_names_of(ts@), q@, i + 1));
        }
        i = i + 1;
    }
    r
}

/// In search mode, keeps in the list of the current context the entries whose lower-cased
/// name contains the lower-cased search text, and selects the first; otherwise does nothing.
pub fn recompute_filter(state: &mut AppState)
    ensures
        old(state).refiltered(final(state).filtered_projects, final(state).filtered_tasks),
        *final(state) == old(state).with_filters(
            final(state).filtered_projects,
            final(state).filtered_tasks,
            if old(state).mode is Search {
                0
            } else {
                old(state).selected
            },
        ),
{
    let q = match &state.mode {
        AppMode::Search { buffer } => to_lowercase(buffer.as_str()),
        _ => return,
    };
    match &state.context {
        AppContext::Home => {
            let fp = matching_projects(&state.projects, q.as_str());
            state.filtered_projects = fp;
        },
        AppContext::Project { .. } => {
            let ft = matching_tasks(&state.tasks, q.as_str());
            state.filtered_tasks = ft;
        },
    }
    state.selected = 0;
}

} // verus!
