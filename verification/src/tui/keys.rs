//! One key press: the mode's handler, then the counts and lists read again.
use vstd::prelude::*;
use crate::dates::{date_ymd, days_in_range, ymd_of, Date, MAX_YEAR, MIN_YEAR};
use crate::engine::Engine;
use crate::engine::model::{EngineV, ErrorV};
use crate::models::{ts_in_range, Stats, StoreError};
use super::browsing::{browse, handle_browsing};
use super::calendar::{calendar_ok, cell_of_day, set_cursor_to_day};
use super::form::{form_key, handle_form};
use super::refresh::{indices, project_counts, tag_name_list, update_stats};
use super::search::{confirm_key, handle_confirm, handle_search, search_key};
use super::state::{all_indices, AppContext, AppMode, AppState, CalendarState, Key, RightPane};
use super::view::{
    lemma_all_indices, refresh, stats_value, tag_names, task_counts, zero_stats, AppV,
    CalendarV, ContextV, ModeV,
};

verus! {

/// What a key does: `q` while browsing quits (`Ok(true)`); otherwise the mode's handler runs
/// and, if it succeeded, the counts and lists are read again (`Ok(false)`).
pub open spec fn key_step(a: AppV, key: Key, e: EngineV, today: int, now: int) -> (AppV, EngineV, Result<bool, ErrorV>) {
    if a.mode is Browsing && key == Key::Char('q') {
        (a, e, Ok(true))
    } else {
        let (a1, e1, r1) = match a.mode {
            ModeV::Browsing => browse(a, key, e, now),
            ModeV::Search { .. } => {
                let (x, r) = search_key(a, key, e, today);
                (x, e, r)
            },
            ModeV::Form { .. } => form_key(a, key, e, today, now),
            ModeV::Confirm { .. } => confirm_key(a, key, e, today),
        };
        match r1 {
            Err(x) => (a1, e1, Err(x)),
            Ok(_) => {
                let (a2, r2) = refresh(a1, e1, today);
                (a2, e1, match r2 {
                    Ok(_) => Ok(false),
                    Err(x) => Err(x),
                })
            },
        }
    }
}

/// The keys that reach the calendar find it away from the edges of chrono's range (where
/// moving it would make chrono panic).
pub open spec fn key_in_range(a: AppState) -> bool {
    (a.right_pane == RightPane::Calendar && a.mode is Browsing) ==> calendar_ok(a.calendar)
}

/// Whether `handle_key` may run: the calendar, if it takes the key, is away from the edges
/// of chrono's range.
pub fn key_in_calendar_range(state: &AppState) -> (r: bool)
    ensures
        r == key_in_range(*state),
{
    let browsing = match &state.mode {
        AppMode::Browsing => true,
        _ => false,
    };
    if state.right_pane == RightPane::Calendar && browsing {
        let c = &state.calendar;
        1 <= c.month && c.month <= 12 && MIN_YEAR + 2 <= c.year && c.year <= MAX_YEAR - 2 && c.cursor_row <= 5 && c.cursor_col <= 6
    } else {
        true
    }
}

pub open spec fn result_bool(r: Result<bool, StoreError>) -> Result<bool, ErrorV> {
    match r {
        Ok(b) => Ok(b),
        Err(x) => Err(x@),
    }
}

/// Handles one key press. `today` is the local date, `now` the current time.
pub fn handle_key(state: &mut AppState, key: Key, engine: &mut Engine, today: Date, now: i128) -> (r: Result<bool, StoreError>)
    requires
        old(engine)@.wf(),
        old(state)@.wf(),
        key_in_range(*old(state)),
        days_in_range(today.days as int),
        ts_in_range(now as int),
    ensures
        final(engine)@.wf(),
        (final(state)@, final(engine)@, result_bool(r)) == key_step(old(state)@, key, old(engine)@, today.days as int, now as int),
        r is Ok ==> final(state)@.wf(),
{
    let (browsing, searching, in_form) = match &state.mode {
        AppMode::Browsing => (true, false, false),
        AppMode::Search { .. } => (false, true, false),
        AppMode::MultiStepForm { .. } => (false, false, true),
        AppMode::ConfirmPrompt { .. } => (false, false, false),
    };
    if browsing && key == Key::Char('q') {
        return Ok(true);
    }
    let r1 = if browsing {
        handle_browsing(state, key, engine, now)
    } else if searching {
        handle_search(state, key, engine, today)
    } else if in_form {
        handle_form(state, key, engine, today, now)
    } else {
        handle_confirm(state, key, engine, today)
    };
    match r1 {
        Ok(_) => {},
        Err(x) => return Err(x),
    }
    match update_stats(state, engine, today) {
        Ok(_) => Ok(false),
        Err(x) => Err(x),
    }
}

/// The calendar at first: this month, the cursor on today.
pub open spec fn initial_calendar(today: int) -> CalendarV {
    let t = ymd_of(today);
    CalendarV {
        year: t.0,
        month: t.1,
        row: cell_of_day(t.0, t.1, t.2) / 7,
        col: cell_of_day(t.0, t.1, t.2) % 7,
        day: t.2,
        day_tasks: None,
    }
}

/// The state at start: the projects, newest first, the first one selected.
pub open spec fn initial(e: EngineV, today: int) -> Result<AppV, ErrorV> {
    let ps = e.list_projects();
    let tasks_r = if ps.len() > 0 {
        e.list_tasks(ps[0].name)
    } else {
        Ok(Seq::empty())
    };
    match tasks_r {
        Err(x) => Err(x),
        Ok(ts) => Ok(
            AppV {
                context: ContextV::Home,
                mode: ModeV::Browsing,
                projects: ps,
                tasks: ts,
                selected: 0,
                filtered_projects: all_indices(ps.len() as int),
                filtered_tasks: all_indices(ts.len() as int),
                stats: stats_value(e.tasks, today),
                project_stats: if ps.len() > 0 {
                    stats_value(e.project_tasks(ps[0].name), today)
                } else {
                    zero_stats()
                },
                selected_item_tags: if ps.len() > 0 {
                    tag_names(e.get_tags_for_project(ps[0].name))
                } else {
                    Seq::empty()
                },
                projects_task_counts: task_counts(e, ps),
                pending_today: e.list_pending_today_tasks(today),
                right_pane: RightPane::PendingToday,
                calendar: initial_calendar(today),
                last_error: None,
            },
        ),
    }
}

/// Whether the screen can start on `today`: a date chrono represents, in a year away from
/// the edges of its range.
pub fn start_date_ok(today: Date) -> (r: bool)
    ensures
        r == (days_in_range(today.days as int) && MIN_YEAR + 1 <= ymd_of(today.days as int).0 <= MAX_YEAR - 1),
{
    if today.days < crate::dates::MIN_DAYS || today.days > crate::dates::MAX_DAYS {
        return false;
    }
    let (y, _m, _d) = crate::dates::date_ymd(today);
    MIN_YEAR + 1 <= y && y <= MAX_YEAR - 1
}

impl AppState {
    /// The state at start, read from the store.
    pub fn new(engine: &Engine, today: Date) -> (r: Result<AppState, StoreError>)
        requires
            engine@.wf(),
            days_in_range(today.days as int),
            MIN_YEAR + 1 <= ymd_of(today.days as int).0 <= MAX_YEAR - 1,
        ensures
            match r {
                Ok(s) => initial(engine@, today.days as int) == Ok::<AppV, ErrorV>(s@) && s@.wf(),
                Err(x) => initial(engine@, today.days as int) == Err::<AppV, ErrorV>(x@),
            },
    {
        let projects = match engine.list_projects() {
            Ok(ps) => ps,
            Err(x) => return Err(x),
        };
        let n = projects.len();
        let filtered_projects = indices(n);
        let (project_stats, tasks, selected_item_tags) = if n > 0 {
            let name = projects[0].name.clone();
            let ps = match engine.project_stats(name.as_str(), today) {
                Ok(s) => s,
                Err(x) => return Err(x),
            };
            proof {
                super::refresh::lemma_stats_value(ps, engine@.project_tasks(name@), today.days as int);
            }
            let ts = match engine.list_tasks(name.as_str()) {
                Ok(ts) => ts,
                Err(x) => return Err(x),
            };
            let tags = match engine.get_tags_for_project(name.as_str()) {
                Ok(t) => t,
                Err(x) => return Err(x),
            };
            (ps, ts, tag_name_list(&tags))
        } else {
            (Stats::zero(), Vec::new(), Vec::new())
        };
        let nt = tasks.len();
        let filtered_tasks = indices(nt);
        let projects_task_counts = project_counts(engine, &projects, today);
        let pending_today = match engine.list_pending_today_tasks(today) {
            Ok(v) => v,
            Err(x) => return Err(x),
        };
        let stats = match engine.global_stats(today) {
            Ok(s) => s,
            Err(x) => return Err(x),
        };
        proof {
            super::refresh::lemma_stats_value(stats, engine@.tasks, today.days as int);
        }
        let (y, m, d) = date_ymd(today);
        let mut calendar = CalendarState { year: y, month: m, cursor_row: 0, cursor_col: 0, cursor_day: 0, day_tasks: None };
        set_cursor_to_day(&mut calendar, d);
        let s = AppState {
            context: AppContext::Home,
            mode: AppMode::Browsing,
            projects,
            tasks,
            selected: 0,
            filtered_projects,
            filtered_tasks,
            stats,
            project_stats,
            selected_item_tags,
            projects_task_counts,
            pending_today,
            right_pane: RightPane::PendingToday,
            calendar,
            last_error: None,
        };
        proof {
            lemma_all_indices(n as int);
            lemma_all_indices(nt as int);
            if n == 0 {
                assert(s@.tasks =~= Seq::empty());
                assert(s@.selected_item_tags =~= Seq::empty());
            }
        }
        Ok(s)
    }
}

} // verus!
