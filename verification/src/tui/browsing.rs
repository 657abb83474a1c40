//! Keys while browsing: moving through the list, opening a project, searching, completing,
//! deleting and editing entries, and the calendar pane.
use vstd::prelude::*;
use crate::dates::{date_text, day_of, days_in_range, format_date, Date, NANOS_PER_DAY};
use crate::engine::Engine;
use crate::engine::model::{
    first_index, lemma_first_index_is, EngineV, ErrorV, ProjectV, TagV, TaskV,
};
use crate::models::{ts_in_range, Tag};
use crate::text::{concat, i64_to_string, int_text, push_char};
use super::calendar::{
    calendar_ok, cell_of_day, day_for_cursor, day_for_cursor_spec, move_cursor, moved_to,
};
use super::refresh::{indices, refresh_calendar_day, unit_err};
use super::state::{
    all_indices, matching_indices, recompute_filter, AppContext, AppMode, AppState, FormKind,
    Key, RightPane,
};
use super::view::{refilter, refresh_day, texts, AppV, CalendarV, ContextV, FormKindV, ModeV};

verus! {

pub open spec fn next_index(sel: int, len: int) -> int {
    if len > 0 {
        (sel + 1) % len
    } else {
        sel
    }
}

pub open spec fn prev_index(sel: int, len: int) -> int {
    if len > 0 && sel > 0 {
        sel - 1
    } else {
        sel
    }
}

/// Position in the filtered list of the project with this name, or 0.
pub open spec fn position_of(fp: Seq<usize>, projects: Seq<ProjectV>, name: Seq<char>) -> int {
    let k = first_index(fp, |idx: usize| projects[idx as int].name == name);
    if k >= 0 {
        k
    } else {
        0
    }
}

/// Tag names as a form shows them: `#a #b`.
pub open spec fn joined_tags(tags: Seq<TagV>) -> Seq<char>
    decreases tags.len(),
{
    if tags.len() == 0 {
        Seq::empty()
    } else if tags.len() == 1 {
        seq!['#'] + tags[0].name
    } else {
        joined_tags(tags.drop_last()) + seq![' ', '#'] + tags.last().name
    }
}

/// A due date as a form shows it: its UTC date as `%Y-%m-%d`.
pub open spec fn due_text(due: Option<int>) -> Seq<char> {
    match due {
        Some(ts) => if days_in_range(ts / (NANOS_PER_DAY as int)) {
            date_text(ts / (NANOS_PER_DAY as int))
        } else {
            Seq::empty()
        },
        None => Seq::empty(),
    }
}

pub open spec fn delete_project_prompt(name: Seq<char>) -> Seq<char> {
    "delete project '"@ + name + "' and all its tasks? (y/n)"@
}

pub open spec fn delete_task_prompt(name: Seq<char>) -> Seq<char> {
    "delete task '"@ + name + "'? (y/n)"@
}

/// The calendar's cursor moved by `dcol` days and `drow` weeks.
pub open spec fn cal_moved(a: AppV, dcol: int, drow: int) -> AppV {
    let c = a.calendar;
    let m = moved_to(c.year, c.month, c.row, c.col, dcol, drow);
    AppV {
        calendar: CalendarV {
            year: m.0,
            month: m.1,
            day: m.2,
            row: cell_of_day(m.0, m.1, m.2) / 7,
            col: cell_of_day(m.0, m.1, m.2) % 7,
            ..c
        },
        ..a
    }
}

/// Keys on the calendar pane: `h`/`l` a day, `j`/`k` a week, Enter reads the day again, Esc
/// goes back to the agenda; then the cursor's day follows its cell.
pub open spec fn calendar_key(a: AppV, key: Key, e: EngineV) -> AppV {
    let a1 = match key {
        Key::Char('h') | Key::Left => refresh_day(cal_moved(a, -1, 0), e),
        Key::Char('l') | Key::Right => refresh_day(cal_moved(a, 1, 0), e),
        Key::Char('j') | Key::Down => refresh_day(cal_moved(a, 0, 1), e),
        Key::Char('k') | Key::Up => refresh_day(cal_moved(a, 0, -1), e),
        Key::Enter => refresh_day(a, e),
        Key::Esc => AppV { right_pane: RightPane::PendingToday, ..a },
        _ => a,
    };
    let c = a1.calendar;
    match day_for_cursor_spec(c.year, c.month, c.row, c.col) {
        Some(d) => AppV { calendar: CalendarV { day: d, ..c }, ..a1 },
        None => a1,
    }
}

/// The length of the list being browsed.
pub open spec fn list_len(a: AppV) -> int {
    match a.context {
        ContextV::Home => a.projects.len() as int,
        ContextV::Project { .. } => a.tasks.len() as int,
    }
}

/// Space in a project: completes (or reopens) the selected task and reads the tasks again.
pub open spec fn browse_toggle(a: AppV, e: EngineV, now: int) -> (AppV, EngineV, Result<(), ErrorV>) {
    let sel = a.selected;
    match a.context {
        ContextV::Project { name, .. } => if 0 <= sel < a.tasks.len() {
            let (e1, r) = e.toggle_done_by_id(a.tasks[sel].id, now);
            match r {
                Err(x) => (a, e1, Err(x)),
                Ok(_) => match e1.list_tasks(name) {
                    Err(x) => (a, e1, Err(x)),
                    Ok(ts) => (AppV { tasks: ts, filtered_tasks: all_indices(ts.len() as int), ..a }, e1, Ok(())),
                },
            }
        } else {
            (a, e, Ok(()))
        },
        ContextV::Home => (a, e, Ok(())),
    }
}

/// `d`: asks to confirm deleting the selected entry.
pub open spec fn browse_delete_prompt(a: AppV) -> AppV {
    let sel = a.selected;
    match a.context {
        ContextV::Home => if 0 <= sel < a.projects.len() {
            let n = a.projects[sel].name;
            AppV { mode: ModeV::Confirm { message: delete_project_prompt(n), target: n }, ..a }
        } else {
            a
        },
        ContextV::Project { .. } => if 0 <= sel < a.tasks.len() {
            let n = a.tasks[sel].name;
            AppV { mode: ModeV::Confirm { message: delete_task_prompt(n), target: n }, ..a }
        } else {
            a
        },
    }
}

/// Enter on the home screen: opens the selected project.
pub open spec fn browse_enter(a: AppV, e: EngineV) -> (AppV, Result<(), ErrorV>) {
    let sel = a.selected;
    match a.context {
        ContextV::Home => if 0 <= sel < a.projects.len() {
            let p = a.projects[sel];
            match e.list_tasks(p.name) {
                Err(x) => (a, Err(x)),
                Ok(ts) => (
                    AppV {
                        context: ContextV::Project { name: p.name, id: p.id },
                        filtered_tasks: all_indices(ts.len() as int),
                        tasks: ts,
                        selected: 0,
                        ..a
                    },
                    Ok(()),
                ),
            }
        } else {
            (a, Ok(()))
        },
        ContextV::Project { .. } => (a, Ok(())),
    }
}

/// Esc in a project: back home, on that project's entry of the filtered list.
pub open spec fn browse_esc(a: AppV) -> AppV {
    match a.context {
        ContextV::Project { name, .. } => AppV {
            context: ContextV::Home,
            selected: position_of(a.filtered_projects, a.projects, name),
            ..a
        },
        ContextV::Home => a,
    }
}

/// `i`: opens the form that modifies the selected entry, filled with what it holds.
pub open spec fn browse_edit(a: AppV, e: EngineV) -> AppV {
    let sel = a.selected;
    match a.context {
        ContextV::Home => if 0 <= sel < a.projects.len() {
            let p = a.projects[sel];
            AppV {
                mode: ModeV::Form {
                    kind: FormKindV::ModifyProject { original_name: p.name },
                    step: 0,
                    name: p.name,
                    answers: seq![p.name, p.description, joined_tags(e.get_tags_for_project(p.name))],
                    current: Seq::empty(),
                    warning: None,
                    insert: false,
                },
                ..a
            }
        } else {
            a
        },
        ContextV::Project { name, .. } => if 0 <= sel < a.tasks.len() {
            let t = a.tasks[sel];
            AppV {
                mode: ModeV::Form {
                    kind: FormKindV::ModifyTask { original_name: t.name },
                    step: 0,
                    name,
                    answers: seq![
                        t.name,
                        t.description,
                        joined_tags(e.get_tags_for_task(name, t.name)),
                        int_text(t.priority),
                        due_text(t.due_date),
                    ],
                    current: Seq::empty(),
                    warning: None,
                    insert: false,
                },
                ..a
            }
        } else {
            a
        },
    }
}

/// What a key does while browsing.
pub open spec fn browse(a: AppV, key: Key, e: EngineV, now: int) -> (AppV, EngineV, Result<(), ErrorV>) {
    if key == Key::Tab {
        if a.right_pane == RightPane::PendingToday {
            (AppV { right_pane: RightPane::Calendar, ..refresh_day(a, e) }, e, Ok(()))
        } else {
            (AppV { right_pane: RightPane::PendingToday, ..a }, e, Ok(()))
        }
    } else if a.right_pane == RightPane::Calendar {
        (calendar_key(a, key, e), e, Ok(()))
    } else {
        let len = list_len(a);
        let sel = a.selected;
        match key {
            Key::Char('j') | Key::Down => (AppV { selected: next_index(sel, len), ..a }, e, Ok(())),
            Key::Char('k') | Key::Up => (AppV { selected: prev_index(sel, len), ..a }, e, Ok(())),
            Key::Char('/') => (refilter(AppV { mode: ModeV::Search { buffer: Seq::empty() }, ..a }), e, Ok(())),
            Key::Char(' ') => browse_toggle(a, e, now),
            Key::Char('d') => (browse_delete_prompt(a), e, Ok(())),
            Key::Enter => {
                let (a1, r) = browse_enter(a, e);
                (a1, e, r)
            },
            Key::Esc => (browse_esc(a), e, Ok(())),
            Key::Char('i') => (browse_edit(a, e), e, Ok(())),
            _ => (a, e, Ok(())),
        }
    }
}

pub proof fn lemma_matching_bound(names: Seq<Seq<char>>, q: Seq<char>, n: int)
    requires
        n >= 0,
    ensures
        forall|i: int| 0 <= i < matching_indices(names, q, n).len() ==> #[trigger] matching_indices(names, q, n)[i] < n,
    decreases n,
{
    if n > 0 {
        lemma_matching_bound(names, q, n - 1);
        let m = matching_indices(names, q, n - 1);
        let full = matching_indices(names, q, n);
        assert forall|i: int| 0 <= i < full.len() implies #[trigger] full[i] < n by {
            if i < m.len() {
                assert(full[i] == m[i]);
            }
        }
    }
}

fn joined_tags_exec(tags: &Vec<Tag>) -> (r: String)
    ensures
        r@ == joined_tags(tags@.map_values(|t: Tag| t@)),
{
    let ghost tv = tags@.map_values(|t: Tag| t@);
    let mut r = String::new();
    let mut i: usize = 0;
    proof {
        assert(r@ =~= Seq::<char>::empty());
        assert(tv.take(0) =~= Seq::<TagV>::empty());
    }
    while i < tags.len()
        invariant
            i <= tags@.len(),
            tv == tags@.map_values(|t: Tag| t@),
            r@ == joined_tags(tv.take(i as int)),
        decreases tags@.len() - i,
    {
        proof {
            assert(tv.take(i + 1).drop_last() =~= tv.take(i as int));
            assert(tv.take(i + 1).last() == tags@[i as int]@);
        }
        if i > 0 {
            push_char(&mut r, ' ');
        }
        push_char(&mut r, '#');
        let s = concat(r.as_str(), tags[i].name.as_str());
        proof {
            if i == 0 {
                assert(s@ =~= seq!['#'] + tags@[0]@.name);
            } else {
                assert(s@ =~= joined_tags(tv.take(i as int)) + seq![' ', '#'] + tags@[i as int]@.name);
            }
        }
        r = s;
        i = i + 1;
    }
    proof {
        assert(tv.take(tags@.len() as int) =~= tv);
    }
    r
}

pub(crate) fn due_text_exec(due: Option<i128>) -> (r: String)
    ensures
        r@ == due_text(crate::engine::tasks::opt_int_of(due)),
{
    match due {
        Some(ts) => {
            let d = day_of(ts);
            if -96465292 <= d && d <= 95026236 {
                format_date(Date { days: d as i32 })
            } else {
                let r = String::new();
                proof {
                    assert(r@ =~= Seq::<char>::empty());
                }
                r
            }
        },
        None => {
            let r = String::new();
            proof {
                assert(r@ =~= Seq::<char>::empty());
            }
            r
        },
    }
}

fn prompt(before: &str, name: &String, after: &str) -> (r: String)
    ensures
        r@ == before@ + name@ + after@,
{
    let a = concat(before, name.as_str());
    concat(a.as_str(), after)
}

fn handle_calendar_key(state: &mut AppState, key: Key, engine: &Engine) -> (r: Result<(), StoreError>)
    requires
        engine@.wf(),
        old(state)@.wf(),
        calendar_ok(old(state).calendar),
    ensures
        r is Ok,
        final(state)@ == calendar_key(old(state)@, key, engine@),
        final(state)@.wf(),
{
    match key {
        Key::Char('h') | Key::Left => {
            move_cursor(&mut state.calendar, -1, 0);
            let _ = refresh_calendar_day(state, engine);
        },
        Key::Char('l') | Key::Right => {
            move_cursor(&mut state.calendar, 1, 0);
            let _ = refresh_calendar_day(state, engine);
        },
        Key::Char('j') | Key::Down => {
            move_cursor(&mut state.calendar, 0, 1);
            let _ = refresh_calendar_day(state, engine);
        },
        Key::Char('k') | Key::Up => {
            move_cursor(&mut state.calendar, 0, -1);
            let _ = refresh_calendar_day(state, engine);
        },
        Key::Enter => {
            let _ = refresh_calendar_day(state, engine);
        },
        Key::Esc => {
            state.right_pane = RightPane::PendingToday;
        },
        _ => {},
    }
    if let Some(d) = day_for_cursor(state.calendar.year, state.calendar.month, state.calendar.cursor_row, state.calendar.cursor_col) {
        state.calendar.cursor_day = d;
    }
    Ok(())
}

use crate::models::StoreError;

fn browsing_toggle(state: &mut AppState, engine: &mut Engine, now: i128) -> (r: Result<(), StoreError>)
    requires
        old(engine)@.wf(),
        old(state)@.wf(),
        old(state)@.mode is Browsing,
        ts_in_range(now as int),
    ensures
        final(engine)@.wf(),
        (final(state)@, final(engine)@, unit_err(r)) == browse_toggle(old(state)@, old(engine)@, now as int),
        final(state)@.wf(),
{
        let pname: Option<String> = match &state.context {
            AppContext::Project { name, .. } => Some(name.clone()),
            AppContext::Home => None,
        };
        if let Some(name) = pname {
            if state.selected < state.tasks.len() {
                let tid = state.tasks[state.selected].id;
                match engine.toggle_done_by_id(tid, now) {
                    Ok(_) => {},
                    Err(x) => return Err(x),
                }
                let tasks = match engine.list_tasks(name.as_str()) {
                    Ok(ts) => ts,
                    Err(x) => return Err(x),
                };
                let n = tasks.len();
                state.tasks = tasks;
                state.filtered_tasks = indices(n);
            }
        }
    Ok(())
}

fn browsing_delete_prompt(state: &mut AppState)
    requires
        old(state)@.wf(),
    ensures
        final(state)@ == browse_delete_prompt(old(state)@),
        final(state)@.wf(),
{
        let in_home = match &state.context {
            AppContext::Home => true,
            AppContext::Project { .. } => false,
        };
        if in_home {
            if state.selected < state.projects.len() {
                let n = state.projects[state.selected].name.clone();
                let message = prompt("delete project '", &n, "' and all its tasks? (y/n)");
                state.mode = AppMode::ConfirmPrompt { message, target_name: n };
            }
        } else {
            if state.selected < state.tasks.len() {
                let n = state.tasks[state.selected].name.clone();
                let message = prompt("delete task '", &n, "'? (y/n)");
                state.mode = AppMode::ConfirmPrompt { message, target_name: n };
            }
        }
}

fn browsing_enter(state: &mut AppState, engine: &Engine) -> (r: Result<(), StoreError>)
    requires
        engine@.wf(),
        old(state)@.wf(),
        old(state)@.mode is Browsing,
    ensures
        (final(state)@, unit_err(r)) == browse_enter(old(state)@, engine@),
        final(state)@.wf(),
{
        let in_home = match &state.context {
            AppContext::Home => true,
            AppContext::Project { .. } => false,
        };
        if in_home && state.selected < state.projects.len() {
            let name = state.projects[state.selected].name.clone();
            let id = state.projects[state.selected].id;
            let tasks = match engine.list_tasks(name.as_str()) {
                Ok(ts) => ts,
                Err(x) => return Err(x),
            };
            let n = tasks.len();
            state.context = AppContext::Project { name, id };
            state.filtered_tasks = indices(n);
            state.tasks = tasks;
            state.selected = 0;
        }
    Ok(())
}

fn browsing_esc(state: &mut AppState)
    requires
        old(state)@.wf(),
    ensures
        final(state)@ == browse_esc(old(state)@),
        final(state)@.wf(),
{
    let ghost a = state@;
        let pname: Option<String> = match &state.context {
            AppContext::Project { name, .. } => Some(name.clone()),
            AppContext::Home => None,
        };
        if let Some(target) = pname {
            state.context = AppContext::Home;
            let ghost p = |idx: usize| a.projects[idx as int].name == target@;
            let mut k: usize = 0;
            let mut found = false;
            while k < state.filtered_projects.len() && !found
                invariant
                    k <= state.filtered_projects@.len(),
                    state.filtered_projects@ == a.filtered_projects,
                    state.projects@.map_values(|p: crate::models::Project| p@) == a.projects,
                    a.wf(),
                    p == (|idx: usize| a.projects[idx as int].name == target@),
                    found ==> k < a.filtered_projects.len() && p(a.filtered_projects[k as int]),
                    forall|j: int| 0 <= j < k ==> !p(#[trigger] a.filtered_projects[j]),
                decreases state.filtered_projects@.len() - k + (if found {
                    0int
                } else {
                    1int
                }),
            {
                let idx = state.filtered_projects[k];
                proof {
                    assert(a.filtered_projects[k as int] < a.projects.len());
                    assert(a.projects[idx as int] == state.projects@[idx as int]@);
                }
                if state.projects[idx].name == target {
                    found = true;
                } else {
                    k = k + 1;
                }
            }
            if found {
                proof {
                    lemma_first_index_is(a.filtered_projects, p, k as int);
                }
                state.selected = k;
            } else {
                proof {
                    lemma_first_index_is(a.filtered_projects, p, -1);
                }
                state.selected = 0;
            }
        }
}

fn browsing_edit(state: &mut AppState, engine: &Engine) -> (r: Result<(), StoreError>)
    requires
        engine@.wf(),
        old(state)@.wf(),
    ensures
        r is Ok,
        final(state)@ == browse_edit(old(state)@, engine@),
        final(state)@.wf(),
{
    let ghost a = state@;
        let pname: Option<String> = match &state.context {
            AppContext::Project { name, .. } => Some(name.clone()),
            AppContext::Home => None,
        };
        match pname {
            None => {
                if state.selected < state.projects.len() {
                    let p = state.projects[state.selected].copy();
                    let tags = match engine.get_tags_for_project(p.name.as_str()) {
                        Ok(t) => t,
                        Err(x) => return Err(x),
                    };
                    let tags_str = joined_tags_exec(&tags);
                    let answers = vec![p.name.clone(), p.description.clone(), tags_str];
                    state.mode = AppMode::MultiStepForm {
                        kind: FormKind::ModifyProject { original_name: p.name.clone() },
                        step: 0,
                        name: p.name,
                        answers,
                        current_input: String::new(),
                        warning: None,
                        in_insert_mode: false,
                    };
                    proof {
                        assert(texts(answers@) =~= seq![a.projects[a.selected].name, a.projects[a.selected].description, tags_str@]);
                    }
                }
            },
            Some(name) => {
                if state.selected < state.tasks.len() {
                    let t = state.tasks[state.selected].copy();
                    let tags = match engine.get_tags_for_task(name.as_str(), t.name.as_str()) {
                        Ok(x) => x,
                        Err(x) => return Err(x),
                    };
                    let tags_str = joined_tags_exec(&tags);
                    let due_str = due_text_exec(t.due_date);
                    let prio = i64_to_string(t.priority);
                    let answers = vec![t.name.clone(), t.description.clone(), tags_str, prio, due_str];
                    state.mode = AppMode::MultiStepForm {
                        kind: FormKind::ModifyTask { original_name: t.name.clone() },
                        step: 0,
                        name,
                        answers,
                        current_input: String::new(),
                        warning: None,
                        in_insert_mode: false,
                    };
                    proof {
                        assert(texts(answers@) =~= seq![t@.name, t@.description, tags_str@, prio@, due_str@]);
                    }
                }
            },
        }
    Ok(())
}

/// Handles a key while browsing.
pub fn handle_browsing(state: &mut AppState, key: Key, engine: &mut Engine, now: i128) -> (r: Result<(), StoreError>)
    requires
        old(engine)@.wf(),
        old(state)@.wf(),
        old(state)@.mode is Browsing,
        ts_in_range(now as int),
        old(state).right_pane == RightPane::Calendar ==> calendar_ok(old(state).calendar),
    ensures
        final(engine)@.wf(),
        (final(state)@, final(engine)@, unit_err(r)) == browse(old(state)@, key, old(engine)@, now as int),
        final(state)@.wf(),
{
    if key == Key::Tab {
        if state.right_pane == RightPane::PendingToday {
            let _ = refresh_calendar_day(state, engine);
            state.right_pane = RightPane::Calendar;
        } else {
            state.right_pane = RightPane::PendingToday;
        }
        return Ok(());
    }
    if state.right_pane == RightPane::Calendar {
        return handle_calendar_key(state, key, engine);
    }
    let list_len: usize = match &state.context {
        AppContext::Home => state.projects.len(),
        AppContext::Project { .. } => state.tasks.len(),
    };
    match key {
        Key::Char('j') | Key::Down => {
            if list_len > 0 {
                state.selected = (state.selected + 1) % list_len;
            }
        },
        Key::Char('k') | Key::Up => {
            if list_len > 0 && state.selected > 0 {
                state.selected = state.selected - 1;
            }
        },
        Key::Char('/') => {
            let empty = String::new();
            proof {
                assert(empty@ =~= Seq::<char>::empty());
            }
            state.mode = AppMode::Search { buffer: empty };
            recompute_filter(state);
            proof {
                lemma_matching_bound(state@.projects.map_values(|p: ProjectV| p.name), crate::text::lowercase(Seq::empty()), state@.projects.len() as int);
                lemma_matching_bound(state@.tasks.map_values(|t: TaskV| t.name), crate::text::lowercase(Seq::empty()), state@.tasks.len() as int);
                assert(super::state::project_names_of(state.projects@) =~= state@.projects.map_values(|p: ProjectV| p.name));
                assert(super::state::task_names_of(state.tasks@) =~= state@.tasks.map_values(|t: TaskV| t.name));
            }
        },
        Key::Char(' ') => {
            return browsing_toggle(state, engine, now);
        },
        Key::Char('d') => {
            browsing_delete_prompt(state);
        },
        Key::Enter => {
            return browsing_enter(state, engine);
        },
        Key::Esc => {
            browsing_esc(state);
        },
        Key::Char('i') => {
            return browsing_edit(state, engine);
        },
        _ => {},
    }
    Ok(())
}

} // verus!
